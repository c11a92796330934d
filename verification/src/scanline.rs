//! Filling an ellipse: the boundary trace is folded into one span per
//! row, and the spans are drawn in whatever order the buffer yields them.

use vstd::prelude::*;
use vstd::arithmetic::div_mod::lemma_fundamental_div_mod_converse;
use crate::canvas::Canvas;
use crate::color::Color;
use crate::ellipse::{as_points, ellipse_points, plot_ellipse};
use crate::fill_buffer::{buffer_entries, clear_buffer, line_entry, lines, new_buffer, FillingLine};
use crate::frame::{lemma_offset_in_grid, lemma_plot_all_keeps_shape, lemma_plot_keeps_shape, Frame, Plot};
use crate::line::hline_plots;

verus! {

/// The span of one row: its leftmost and rightmost column and its color.
pub struct RowSpan {
    pub x1: int,
    pub x2: int,
    pub color: Color,
}

/// `rows` after the point `p` was seen: the span of its row grows to
/// include it, and a row seen for the first time gets a span of that one
/// column, in `color`.
pub open spec fn widened(rows: Map<int, RowSpan>, p: (int, int), color: Color) -> Map<int, RowSpan> {
    if rows.contains_key(p.1) {
        let row = rows[p.1];
        rows.insert(
            p.1,
            RowSpan {
                x1: if p.0 < row.x1 { p.0 } else { row.x1 },
                x2: if p.0 > row.x2 { p.0 } else { row.x2 },
                color: row.color,
            },
        )
    } else {
        rows.insert(p.1, RowSpan { x1: p.0, x2: p.0, color })
    }
}

/// For every row that holds one of the points, the span from its leftmost
/// to its rightmost point.
pub open spec fn row_spans(points: Seq<(int, int)>, color: Color) -> Map<int, RowSpan>
    decreases points.len(),
{
    if points.len() == 0 {
        Map::empty()
    } else {
        widened(row_spans(points.drop_last(), color), points.last(), color)
    }
}

/// The pixels of one row's span.
pub open spec fn span_plots(y: int, row: RowSpan) -> Seq<Plot> {
    hline_plots(row.x1, y, row.x2, row.color)
}

/// The frame after the span of each row in `rows` was drawn: every byte of
/// such a row is what drawing that span alone on `f` gives, and the other
/// rows are as in `f`.
pub open spec fn spans_drawn(f: Frame, rows: Map<int, RowSpan>) -> Frame {
    Frame {
        grid: Seq::new(
            f.grid.len(),
            |i: int|
                {
                    let y = i / (4 * f.width);
                    if rows.contains_key(y) {
                        f.plot_all(span_plots(y, rows[y])).grid[i]
                    } else {
                        f.grid[i]
                    }
                },
        ),
        ..f
    }
}

pub open spec fn span_of(line: FillingLine) -> RowSpan {
    RowSpan { x1: line.x1 as int, x2: line.x2 as int, color: line.color }
}

/// What a fill buffer holds, as spans by row.
pub open spec fn rows_of(held: Map<i32, FillingLine>) -> Map<int, RowSpan> {
    Map::new(
        |y: int| i32::MIN <= y <= i32::MAX && held.contains_key(y as i32),
        |y: int| span_of(held[y as i32]),
    )
}

/// The spans by row that a list of buffer entries stands for.
pub open spec fn entry_rows(entries: Seq<(i32, FillingLine)>) -> Map<int, RowSpan>
    decreases entries.len(),
{
    if entries.len() == 0 {
        Map::empty()
    } else {
        entry_rows(entries.drop_last()).insert(entries.last().0 as int, span_of(entries.last().1))
    }
}

pub open spec fn distinct_rows(entries: Seq<(i32, FillingLine)>) -> bool {
    forall|i: int, j: int|
        0 <= i < j < entries.len() ==> #[trigger] entries[i].0 != #[trigger] entries[j].0
}

/// A list of entries with distinct rows stands for exactly its entries.
proof fn lemma_entry_rows(entries: Seq<(i32, FillingLine)>)
    requires
        distinct_rows(entries),
    ensures
        forall|i: int|
            0 <= i < entries.len() ==> entry_rows(entries).contains_key(
                #[trigger] entries[i].0 as int,
            ) && entry_rows(entries)[entries[i].0 as int] == span_of(entries[i].1),
        forall|y: int| #[trigger]
            entry_rows(entries).contains_key(y) ==> exists|i: int|
                0 <= i < entries.len() && #[trigger] entries[i].0 == y,
    decreases entries.len(),
{
    if entries.len() > 0 {
        let front = entries.drop_last();
        lemma_entry_rows(front);
        assert forall|i: int| 0 <= i < entries.len() implies entry_rows(entries).contains_key(
            #[trigger] entries[i].0 as int,
        ) && entry_rows(entries)[entries[i].0 as int] == span_of(entries[i].1) by {
            if i < front.len() {
                assert(front[i] == entries[i]);
                assert(entries[i].0 != entries[entries.len() - 1].0);
            }
        }
        assert forall|y: int| #[trigger] entry_rows(entries).contains_key(y) implies exists|i: int|
            0 <= i < entries.len() && #[trigger] entries[i].0 == y by {
            if y == entries.last().0 {
                assert(entries[entries.len() - 1].0 == y);
            } else {
                assert(entry_rows(front).contains_key(y));
                let i = choose|i: int| 0 <= i < front.len() && #[trigger] front[i].0 == y;
                assert(entries[i].0 == y);
            }
        }
    }
}

/// The four bytes of a pixel lie on the pixel's row of the grid.
proof fn lemma_pixel_row(f: Frame, x: int, y: int, j: int)
    requires
        f.wf(),
        f.contains(x, y),
        0 <= j < 4,
    ensures
        (f.offset(x, y) + j) / (4 * f.width) == y,
        0 <= f.offset(x, y) + j < f.grid.len(),
{
    lemma_offset_in_grid(f, x, y);
    let w = f.width;
    assert((y * w + x) * 4 + j == y * (4 * w) + (4 * x + j)) by (nonlinear_arith);
    lemma_fundamental_div_mod_converse(f.offset(x, y) + j, 4 * w, y, 4 * x + j);
}

spec fn on_row(f: Frame, i: int, y: int) -> bool {
    0 <= i < f.grid.len() && i / (4 * f.width) == y
}

spec fn same_shape(f: Frame, g: Frame) -> bool {
    &&& f.width == g.width
    &&& f.height == g.height
    &&& f.fill_pattern == g.fill_pattern
    &&& f.grid.len() == g.grid.len()
}

spec fn agree_on_row(f: Frame, g: Frame, y: int) -> bool {
    forall|i: int| on_row(f, i, y) ==> #[trigger] f.grid[i] == g.grid[i]
}

/// A pixel write changes no byte outside the row it is on.
proof fn lemma_plot_is_local(f: Frame, p: Plot, i: int)
    requires
        f.wf(),
        0 <= i < f.grid.len(),
        !on_row(f, i, p.y),
    ensures
        f.plot(p).grid[i] == f.grid[i],
{
    if f.contains(p.x, p.y) {
        lemma_pixel_row(f, p.x, p.y, 0);
        lemma_pixel_row(f, p.x, p.y, 1);
        lemma_pixel_row(f, p.x, p.y, 2);
        lemma_pixel_row(f, p.x, p.y, 3);
    }
}

/// What a pixel write leaves on its row depends on that row alone.
proof fn lemma_plot_by_row(f: Frame, g: Frame, p: Plot)
    requires
        f.wf(),
        g.wf(),
        same_shape(f, g),
        agree_on_row(f, g, p.y),
    ensures
        agree_on_row(f.plot(p), g.plot(p), p.y),
        same_shape(f.plot(p), g.plot(p)),
{
    lemma_plot_keeps_shape(f, p);
    lemma_plot_keeps_shape(g, p);
    if f.contains(p.x, p.y) {
        lemma_pixel_row(f, p.x, p.y, 0);
        lemma_pixel_row(f, p.x, p.y, 1);
        lemma_pixel_row(f, p.x, p.y, 2);
        lemma_pixel_row(f, p.x, p.y, 3);
        let at = f.offset(p.x, p.y);
        assert(f.grid[at] == g.grid[at]);
        assert(f.grid[at + 1] == g.grid[at + 1]);
        assert(f.grid[at + 2] == g.grid[at + 2]);
        assert(f.grid[at + 3] == g.grid[at + 3]);
        assert(f.pixel(p.x, p.y) == g.pixel(p.x, p.y));
    }
}

spec fn all_on_row(plots: Seq<Plot>, y: int) -> bool {
    forall|k: int| 0 <= k < plots.len() ==> (#[trigger] plots[k]).y == y
}

/// Drawing on one row changes no byte of another row.
proof fn lemma_row_is_local(f: Frame, plots: Seq<Plot>, y: int, i: int)
    requires
        f.wf(),
        all_on_row(plots, y),
        0 <= i < f.grid.len(),
        !on_row(f, i, y),
    ensures
        f.plot_all(plots).grid[i] == f.grid[i],
    decreases plots.len(),
{
    if plots.len() > 0 {
        let p = plots[0];
        lemma_plot_is_local(f, p, i);
        lemma_plot_keeps_shape(f, p);
        assert(all_on_row(plots.drop_first(), y)) by {
            assert forall|k: int| 0 <= k < plots.drop_first().len() implies (
            #[trigger] plots.drop_first()[k]).y == y by {
                assert(plots.drop_first()[k] == plots[k + 1]);
            }
        }
        lemma_row_is_local(f.plot(p), plots.drop_first(), y, i);
    }
}

/// What drawing on one row leaves on that row depends on that row alone.
proof fn lemma_row_by_row(f: Frame, g: Frame, plots: Seq<Plot>, y: int)
    requires
        f.wf(),
        g.wf(),
        same_shape(f, g),
        agree_on_row(f, g, y),
        all_on_row(plots, y),
    ensures
        agree_on_row(f.plot_all(plots), g.plot_all(plots), y),
    decreases plots.len(),
{
    if plots.len() > 0 {
        let p = plots[0];
        lemma_plot_by_row(f, g, p);
        lemma_plot_keeps_shape(f, p);
        lemma_plot_keeps_shape(g, p);
        assert(all_on_row(plots.drop_first(), y)) by {
            assert forall|k: int| 0 <= k < plots.drop_first().len() implies (
            #[trigger] plots.drop_first()[k]).y == y by {
                assert(plots.drop_first()[k] == plots[k + 1]);
            }
        }
        lemma_row_by_row(f.plot(p), g.plot(p), plots.drop_first(), y);
    }
}

/// Drawing the span of a row that is not among `rows` yet, after the spans
/// of `rows`, is drawing the spans of `rows` and of that row.
proof fn lemma_one_more_span(f: Frame, rows: Map<int, RowSpan>, y: int, row: RowSpan)
    requires
        f.wf(),
        !rows.contains_key(y),
    ensures
        spans_drawn(f, rows).plot_all(span_plots(y, row)) == spans_drawn(f, rows.insert(y, row)),
{
    let before = spans_drawn(f, rows);
    let plots = span_plots(y, row);
    let after = before.plot_all(plots);
    let wanted = spans_drawn(f, rows.insert(y, row));
    assert(before.wf());
    assert(all_on_row(plots, y));
    lemma_plot_all_keeps_shape(before, plots);
    lemma_plot_all_keeps_shape(f, plots);
    assert(agree_on_row(before, f, y));
    lemma_row_by_row(before, f, plots, y);
    assert forall|i: int| 0 <= i < after.grid.len() implies after.grid[i] == wanted.grid[i] by {
        if on_row(before, i, y) {
            assert(after.grid[i] == f.plot_all(plots).grid[i]);
        } else {
            lemma_row_is_local(before, plots, y, i);
        }
    }
    assert(after.grid =~= wanted.grid);
}

/// Records one boundary pixel in the fill buffer: the span of row `y` is
/// made to reach column `x`.
fn fill_ellipse(x: i32, y: i32, c: Color, buffer: &mut ahash::AHashMap<i32, FillingLine>)
    ensures
        rows_of(lines(*final(buffer))) == widened(rows_of(lines(*old(buffer))), (x as int, y as int), c),
{
    let ghost held = lines(*buffer);
    let hline = line_entry(buffer, y, FillingLine { x1: i32::MAX, x2: i32::MIN, color: c });
    if x < hline.x1 {
        hline.x1 = x;
    }
    if x > hline.x2 {
        hline.x2 = x;
    }
    proof {
        assert(rows_of(lines(*buffer)) =~= widened(rows_of(held), (x as int, y as int), c));
    }
}

impl Canvas {
    /// Draws the span of every listed row.  The rows are distinct, so the
    /// order in which they are listed does not show in the result.
    fn draw_spans(&mut self, entries: &Vec<(i32, FillingLine)>)
        requires
            old(self).wf(),
            distinct_rows(entries@),
        ensures
            final(self).wf(),
            final(self)@ == spans_drawn(old(self)@, entry_rows(entries@)),
    {
        let mut k: usize = 0;
        assert(self@ =~= spans_drawn(self@, entry_rows(entries@.take(0))));
        while k < entries.len()
            invariant
                self.wf(),
                old(self).wf(),
                0 <= k <= entries.len(),
                distinct_rows(entries@),
                self@ == spans_drawn(old(self)@, entry_rows(entries@.take(k as int))),
            decreases entries.len() - k,
        {
            let (y, line) = entries[k];
            proof {
                let front = entries@.take(k as int);
                lemma_entry_rows(front);
                if entry_rows(front).contains_key(y as int) {
                    let i = choose|i: int| 0 <= i < front.len() && #[trigger] front[i].0 == y;
                    assert(entries@[i].0 == entries@[k as int].0);
                }
                lemma_one_more_span(old(self)@, entry_rows(front), y as int, span_of(line));
                assert(entries@.take(k + 1).drop_last() =~= front);
            }
            self.draw_horizontal_line(line.x1 as i64, y as i64, line.x2 as i64, line.color);
            k = k + 1;
        }
        assert(entries@.take(entries@.len() as int) =~= entries@);
    }

    /// Draws every span that the buffer holds and empties the buffer.
    fn draw_fill_buffer(&mut self, buffer: &mut ahash::AHashMap<i32, FillingLine>)
        requires
            old(self).wf(),
        ensures
            final(self).wf(),
            final(self)@ == spans_drawn(old(self)@, rows_of(lines(*old(buffer)))),
            forall|y: i32| !lines(*final(buffer)).contains_key(y),
    {
        let entries = buffer_entries(buffer);
        proof {
            lemma_entry_rows(entries@);
            let held = lines(*buffer);
            assert forall|y: int| rows_of(held).contains_key(y) implies entry_rows(
                entries@,
            ).contains_key(y) by {
                let i = choose|i: int| 0 <= i < entries@.len() && #[trigger] entries@[i].0 == y as i32;
                assert(entry_rows(entries@).contains_key(entries@[i].0 as int));
            }
            assert forall|y: int| #[trigger] entry_rows(entries@).contains_key(y) implies rows_of(
                held,
            ).contains_key(y) && rows_of(held)[y] == entry_rows(entries@)[y] by {
                let i = choose|i: int| 0 <= i < entries@.len() && #[trigger] entries@[i].0 == y;
                assert(held.contains_key(entries@[i].0));
                assert(entry_rows(entries@)[entries@[i].0 as int] == span_of(entries@[i].1));
            }
            assert(rows_of(held) =~= entry_rows(entries@));
        }
        self.draw_spans(&entries);
        clear_buffer(buffer);
    }

    /// Fills the ellipse inscribed in the box with corners `(x0, y0)` and
    /// `(x1, y1)`: on every row that the boundary touches, the span from
    /// the leftmost to the rightmost boundary pixel.
    pub fn draw_ellipse_fill(&mut self, x0: i32, y0: i32, x1: i32, y1: i32, c: Color)
        requires
            old(self).wf(),
        ensures
            final(self).wf(),
            final(self)@ == spans_drawn(
                old(self)@,
                row_spans(ellipse_points(x0 as int, y0 as int, x1 as int, y1 as int), c),
            ),
    {
        let mut fill_buffer = new_buffer();
        let cells = plot_ellipse(x0, y0, x1, y1);
        let ghost points = as_points(cells@);
        let mut i: usize = 0;
        proof {
            assert(rows_of(lines(fill_buffer)) =~= row_spans(points.take(0), c));
        }
        while i < cells.len()
            invariant
                0 <= i <= cells.len(),
                points == as_points(cells@),
                rows_of(lines(fill_buffer)) == row_spans(points.take(i as int), c),
            decreases cells.len() - i,
        {
            let cell = cells[i];
            fill_ellipse(cell.0, cell.1, c, &mut fill_buffer);
            proof {
                assert(points.take(i + 1).drop_last() =~= points.take(i as int));
                assert(points.take(i + 1).last() == (cell.0 as int, cell.1 as int));
            }
            i = i + 1;
        }
        assert(points.take(points.len() as int) =~= points);
        self.draw_fill_buffer(&mut fill_buffer);
    }
}

} // verus!
