//! Straight lines and rectangles.

use vstd::prelude::*;
use vstd::arithmetic::div_mod::lemma_fundamental_div_mod_converse;
use crate::canvas::Canvas;
use crate::color::Color;
use crate::frame::{covers, lemma_covers_concat, lemma_plot_all_concat, lemma_plot_all_push, Plot};

verus! {

/// The pixels of the horizontal span between `x0` and `x1` on row `y`,
/// both ends included, from left to right whichever end is given first.
pub open spec fn hline_plots(x0: int, y: int, x1: int, color: Color) -> Seq<Plot> {
    let lo = if x0 <= x1 { x0 } else { x1 };
    let hi = if x0 <= x1 { x1 } else { x0 };
    Seq::new((hi - lo + 1) as nat, |k: int| Plot::at(lo + k, y, color))
}

/// How far a line that covers `da` units along its major axis and `db <= da`
/// units along its minor axis has moved on the minor axis when it is `k`
/// units along the major one: `k * db / da` rounded to the nearest integer,
/// halves rounded down.
pub open spec fn minor_steps(da: int, db: int, k: int) -> int {
    (2 * db * k + da - 1) / (2 * da)
}

/// The pixels of a line whose major axis runs from `a0` up to `a1`, one
/// pixel per major unit, while the minor coordinate goes from `b0` to `b1`.
/// With `steep` the major axis is y, else it is x.
pub open spec fn sloped_plots(a0: int, b0: int, a1: int, b1: int, steep: bool, color: Color) -> Seq<
    Plot,
> {
    let da = a1 - a0;
    let db = if b1 > b0 { b1 - b0 } else { b0 - b1 };
    Seq::new(
        (da + 1) as nat,
        |k: int|
            {
                let b = if b1 > b0 {
                    b0 + minor_steps(da, db, k)
                } else {
                    b0 - minor_steps(da, db, k)
                };
                if steep {
                    Plot::at(b, a0 + k, color)
                } else {
                    Plot::at(a0 + k, b, color)
                }
            },
    )
}

pub open spec fn distance(a: int, b: int) -> int {
    if a <= b {
        b - a
    } else {
        a - b
    }
}

/// The pixels of the line from `(x0, y0)` to `(x1, y1)`: a horizontal span
/// when the rows agree, else one pixel per unit of the longer axis, walked
/// in increasing direction of that axis.
pub open spec fn line_plots(x0: int, y0: int, x1: int, y1: int, color: Color) -> Seq<Plot> {
    if y0 == y1 {
        hline_plots(x0, y0, x1, color)
    } else if distance(x0, x1) < distance(y0, y1) {
        if y0 <= y1 {
            sloped_plots(y0, x0, y1, x1, true, color)
        } else {
            sloped_plots(y1, x1, y0, x0, true, color)
        }
    } else {
        if x0 <= x1 {
            sloped_plots(x0, y0, x1, y1, false, color)
        } else {
            sloped_plots(x1, y1, x0, y0, false, color)
        }
    }
}

/// The outline of the rectangle with corner `(x, y)`, `w` columns wide and
/// `h` rows high: top edge, right edge, bottom edge, left edge.  A
/// rectangle without columns or without rows has no outline.
pub open spec fn rect_plots(x: int, y: int, w: int, h: int, color: Color) -> Seq<Plot> {
    if w <= 0 || h <= 0 {
        Seq::empty()
    } else {
        let right = x + w - 1;
        let bottom = y + h - 1;
        hline_plots(x, y, right, color) + line_plots(right, y, right, bottom, color) + hline_plots(
            right,
            bottom,
            x,
            color,
        ) + line_plots(x, bottom, x, y, color)
    }
}

/// The spans between columns `x0` and `x1` on the `rows` rows from `y` down.
pub open spec fn rows_plots(x0: int, y: int, x1: int, rows: int, color: Color) -> Seq<Plot>
    decreases rows,
{
    if rows <= 0 {
        Seq::empty()
    } else {
        rows_plots(x0, y, x1, rows - 1, color) + hline_plots(x0, y + rows - 1, x1, color)
    }
}

/// The filled rectangle with corner `(x, y)`, `w` columns wide and `h` rows
/// high, row by row from the top.  A rectangle without columns or without
/// rows is empty.
pub open spec fn rect_fill_plots(x: int, y: int, w: int, h: int, color: Color) -> Seq<Plot> {
    if w <= 0 {
        Seq::empty()
    } else {
        rows_plots(x, y, x + w - 1, h, color)
    }
}

/// A horizontal span covers exactly the columns between its ends, on its
/// own row.
pub proof fn lemma_hline_covers(x0: int, y: int, x1: int, color: Color, px: int)
    requires
        x0 <= px <= x1 || x1 <= px <= x0,
    ensures
        covers(hline_plots(x0, y, x1, color), px, y),
{
    let lo = if x0 <= x1 { x0 } else { x1 };
    let span = hline_plots(x0, y, x1, color);
    assert(span[px - lo].x == px && span[px - lo].y == y);
}

/// A horizontal span covers nothing but the columns between its ends on
/// its own row.
pub proof fn lemma_hline_covers_only(x0: int, y: int, x1: int, color: Color, px: int, py: int)
    requires
        covers(hline_plots(x0, y, x1, color), px, py),
    ensures
        py == y,
        x0 <= px <= x1 || x1 <= px <= x0,
{
    let span = hline_plots(x0, y, x1, color);
    let i = choose|i: int| 0 <= i < span.len() && #[trigger] span[i].x == px && span[i].y == py;
    assert(span[i].x == px);
}

/// A line has one pixel for every unit of its longer axis, and both of
/// its end points are among them: one is its first pixel and the other
/// its last.
pub proof fn lemma_line_ends(x0: int, y0: int, x1: int, y1: int, color: Color)
    ensures
        line_plots(x0, y0, x1, y1, color).len() == (if distance(x0, x1) < distance(y0, y1) {
            distance(y0, y1)
        } else {
            distance(x0, x1)
        }) + 1,
        covers(line_plots(x0, y0, x1, y1, color), x0, y0),
        covers(line_plots(x0, y0, x1, y1, color), x1, y1),
        ({
            let plots = line_plots(x0, y0, x1, y1, color);
            ||| plots.first() == Plot::at(x0, y0, color) && plots.last() == Plot::at(x1, y1, color)
            ||| plots.first() == Plot::at(x1, y1, color) && plots.last() == Plot::at(x0, y0, color)
        }),
{
    let plots = line_plots(x0, y0, x1, y1, color);
    if y0 != y1 {
        let steep = distance(x0, x1) < distance(y0, y1);
        let da = if steep { distance(y0, y1) } else { distance(x0, x1) };
        let db = if steep { distance(x0, x1) } else { distance(y0, y1) };
        assert(minor_steps(da, db, 0) == 0) by {
            assert(2 * db * 0 == 0) by (nonlinear_arith);
            vstd::arithmetic::div_mod::lemma_fundamental_div_mod_converse(da - 1, 2 * da, 0, da - 1);
        }
        assert(minor_steps(da, db, da) == db) by {
            assert(2 * db * da + da - 1 == db * (2 * da) + (da - 1)) by (nonlinear_arith);
            vstd::arithmetic::div_mod::lemma_fundamental_div_mod_converse(
                2 * db * da + da - 1,
                2 * da,
                db,
                da - 1,
            );
        }
        assert(plots.len() == da + 1);
        assert(plots[0].x == plots.first().x);
        assert(plots[da].x == plots.last().x);
        assert((plots[0] == Plot::at(x0, y0, color) && plots[da] == Plot::at(x1, y1, color)) || (
        plots[0] == Plot::at(x1, y1, color) && plots[da] == Plot::at(x0, y0, color)));
    } else {
        let n = distance(x0, x1);
        assert(plots.len() == n + 1);
        assert(plots[0].x == plots.first().x);
        assert(plots[n].x == plots.last().x);
    }
}

/// A line between two points of one column is that column, from the
/// upper point to the lower one.
pub proof fn lemma_vertical_line(x: int, y0: int, y1: int, color: Color)
    requires
        y0 != y1,
    ensures
        line_plots(x, y0, x, y1, color) == Seq::new(
            (distance(y0, y1) + 1) as nat,
            |k: int| Plot::at(x, (if y0 <= y1 { y0 } else { y1 }) + k, color),
        ),
{
    let da = distance(y0, y1);
    let top = if y0 <= y1 { y0 } else { y1 };
    let plots = line_plots(x, y0, x, y1, color);
    let column = Seq::new((da + 1) as nat, |k: int| Plot::at(x, top + k, color));
    assert forall|k: int| 0 <= k <= da implies minor_steps(da, 0, k) == 0 by {
        assert(2 * 0 * k == 0) by (nonlinear_arith);
        vstd::arithmetic::div_mod::lemma_fundamental_div_mod_converse(da - 1, 2 * da, 0, da - 1);
    }
    assert(plots.len() == column.len());
    assert forall|k: int| 0 <= k < plots.len() implies plots[k] == column[k] by {
        assert(minor_steps(da, 0, k) == 0);
    }
    assert(plots =~= column);
}

/// The rows of a filled rectangle cover exactly the columns between the
/// two ends on each of the rows, and hold one plot for each such pixel.
pub proof fn lemma_rows_cover(x0: int, y: int, x1: int, rows: int, color: Color, px: int, py: int)
    requires
        0 <= rows,
    ensures
        covers(rows_plots(x0, y, x1, rows, color), px, py) <==> (y <= py < y + rows && (x0 <= px
            <= x1 || x1 <= px <= x0)),
        rows_plots(x0, y, x1, rows, color).len() == rows * (distance(x0, x1) + 1),
    decreases rows,
{
    if rows > 0 {
        let above = rows_plots(x0, y, x1, rows - 1, color);
        let last = hline_plots(x0, y + rows - 1, x1, color);
        lemma_rows_cover(x0, y, x1, rows - 1, color, px, py);
        lemma_covers_concat(above, last, px, py);
        if covers(last, px, py) {
            lemma_hline_covers_only(x0, y + rows - 1, x1, color, px, py);
        }
        if py == y + rows - 1 && (x0 <= px <= x1 || x1 <= px <= x0) {
            lemma_hline_covers(x0, y + rows - 1, x1, color, px);
        }
        assert(rows * (distance(x0, x1) + 1) == (rows - 1) * (distance(x0, x1) + 1) + (distance(
            x0,
            x1,
        ) + 1)) by (nonlinear_arith);
    } else {
        assert(rows * (distance(x0, x1) + 1) == 0) by (nonlinear_arith)
            requires
                rows == 0,
        ;
    }
}

/// A filled rectangle has one plot for each pixel of its `w` columns and
/// `h` rows and none elsewhere; with no columns or no rows it has none.
pub proof fn lemma_rect_fill_covers(x: int, y: int, w: int, h: int, color: Color, px: int, py: int)
    ensures
        covers(rect_fill_plots(x, y, w, h, color), px, py) <==> (x <= px < x + w && y <= py < y
            + h),
        rect_fill_plots(x, y, w, h, color).len() == if w > 0 && h > 0 {
            w * h
        } else {
            0
        },
{
    if w > 0 && h > 0 {
        lemma_rows_cover(x, y, x + w - 1, h, color, px, py);
        assert(h * (distance(x, x + w - 1) + 1) == w * h) by (nonlinear_arith)
            requires
                distance(x, x + w - 1) == w - 1,
        ;
    }
}

/// A line between two points of one column covers exactly the rows
/// between them, in that column.
pub proof fn lemma_vertical_covers(x: int, y0: int, y1: int, color: Color, px: int, py: int)
    ensures
        covers(line_plots(x, y0, x, y1, color), px, py) <==> (px == x && (y0 <= py <= y1 || y1
            <= py <= y0)),
{
    let plots = line_plots(x, y0, x, y1, color);
    if y0 == y1 {
        if covers(plots, px, py) {
            lemma_hline_covers_only(x, y0, x, color, px, py);
        }
        if px == x && py == y0 {
            lemma_hline_covers(x, y0, x, color, px);
        }
    } else {
        lemma_vertical_line(x, y0, y1, color);
        let top = if y0 <= y1 { y0 } else { y1 };
        if covers(plots, px, py) {
            let i = choose|i: int| 0 <= i < plots.len() && #[trigger] plots[i].x == px && plots[i].y == py;
            assert(plots[i].x == x && plots[i].y == top + i);
        }
        if px == x && (y0 <= py <= y1 || y1 <= py <= y0) {
            assert(plots[py - top].x == px && plots[py - top].y == py);
        }
    }
}

/// The outline of a rectangle covers exactly the pixels of its `w` columns
/// and `h` rows that lie in its first or last column or row; with no
/// columns or no rows it covers none.
pub proof fn lemma_rect_covers(x: int, y: int, w: int, h: int, color: Color, px: int, py: int)
    ensures
        covers(rect_plots(x, y, w, h, color), px, py) <==> (x <= px < x + w && y <= py < y + h && (
        px == x || px == x + w - 1 || py == y || py == y + h - 1)),
{
    if w > 0 && h > 0 {
        let right = x + w - 1;
        let bottom = y + h - 1;
        let s1 = hline_plots(x, y, right, color);
        let s2 = line_plots(right, y, right, bottom, color);
        let s3 = hline_plots(right, bottom, x, color);
        let s4 = line_plots(x, bottom, x, y, color);
        lemma_covers_concat(s1, s2, px, py);
        lemma_covers_concat(s1 + s2, s3, px, py);
        lemma_covers_concat(s1 + s2 + s3, s4, px, py);
        lemma_vertical_covers(right, y, bottom, color, px, py);
        lemma_vertical_covers(x, bottom, y, color, px, py);
        if covers(s1, px, py) {
            lemma_hline_covers_only(x, y, right, color, px, py);
        }
        if covers(s3, px, py) {
            lemma_hline_covers_only(right, bottom, x, color, px, py);
        }
        if x <= px <= right && py == y {
            lemma_hline_covers(x, y, right, color, px);
        }
        if x <= px <= right && py == bottom {
            lemma_hline_covers(right, bottom, x, color, px);
        }
    }
}

/// Coordinates that the line and span helpers take: far beyond every `i32`
/// sum the drawing operations form, and far from the ends of `i64`.
pub open spec fn near(v: int) -> bool {
    -0x100_0000_0000 <= v <= 0x100_0000_0000
}

/// The error term pins the minor coordinate of a line to `minor_steps`.
proof fn lemma_minor_steps(da: int, db: int, k: int, n: int, err: int)
    requires
        0 < da,
        err == 2 * db * k - 2 * da * n,
        -da < err <= da,
    ensures
        n == minor_steps(da, db, k),
{
    let m = 2 * db * k + da - 1;
    assert(2 * da * n == n * (2 * da)) by (nonlinear_arith);
    lemma_fundamental_div_mod_converse(m, 2 * da, n, err + da - 1);
}

impl Canvas {
    pub(crate) fn draw_horizontal_line(&mut self, x0: i64, y: i64, x1: i64, c: Color)
        requires
            old(self).wf(),
            x0 < i64::MAX,
            x1 < i64::MAX,
        ensures
            final(self).wf(),
            final(self)@ == old(self)@.plot_all(hline_plots(x0 as int, y as int, x1 as int, c)),
    {
        let lo: i64 = if x1 < x0 { x1 } else { x0 };
        let hi: i64 = if x1 < x0 { x0 } else { x1 };
        let ghost full = hline_plots(x0 as int, y as int, x1 as int, c);
        let mut x: i64 = lo;
        assert(full.take(0) =~= Seq::<Plot>::empty());
        while x <= hi
            invariant
                lo <= x <= hi + 1,
                hi < i64::MAX,
                self.wf(),
                full == hline_plots(x0 as int, y as int, x1 as int, c),
                full.len() == hi - lo + 1,
                forall|k: int| 0 <= k < full.len() ==> full[k] == Plot::at(lo + k, y as int, c),
                self@ == old(self)@.plot_all(full.take(x - lo)),
            decreases hi - x + 1,
        {
            self.put(x, y, c);
            proof {
                let k = x - lo;
                assert(full.take(k + 1) =~= full.take(k).push(full[k]));
                lemma_plot_all_push(old(self)@, full.take(k), full[k]);
            }
            x += 1;
        }
        assert(full.take(full.len() as int) =~= full);
    }

    /// `draw_line` on coordinates that may lie beyond the `i32` range.
    pub(crate) fn line(&mut self, x0: i64, y0: i64, x1: i64, y1: i64, color: Color)
        requires
            old(self).wf(),
            near(x0 as int),
            near(y0 as int),
            near(x1 as int),
            near(y1 as int),
        ensures
            final(self).wf(),
            final(self)@ == old(self)@.plot_all(
                line_plots(x0 as int, y0 as int, x1 as int, y1 as int, color),
            ),
    {
        if y0 == y1 {
            self.draw_horizontal_line(x0, y0, x1, color);
            return ;
        }
        let adx: i64 = if x0 <= x1 { x1 - x0 } else { x0 - x1 };
        let ady: i64 = if y0 <= y1 { y1 - y0 } else { y0 - y1 };
        let steep = adx < ady;
        let mut a0: i64 = x0;
        let mut b0: i64 = y0;
        let mut a1: i64 = x1;
        let mut b1: i64 = y1;
        if steep {
            a0 = y0;
            b0 = x0;
            a1 = y1;
            b1 = x1;
        }
        if a0 > a1 {
            let ta = a0;
            a0 = a1;
            a1 = ta;
            let tb = b0;
            b0 = b1;
            b1 = tb;
        }
        let da: i64 = a1 - a0;
        let db: i64 = if b1 > b0 { b1 - b0 } else { b0 - b1 };
        let d_error: i64 = 2 * db;
        let rising = b1 > b0;
        let ghost full = sloped_plots(a0 as int, b0 as int, a1 as int, b1 as int, steep, color);
        assert(full == line_plots(x0 as int, y0 as int, x1 as int, y1 as int, color));
        let mut err: i64 = 0;
        let mut b: i64 = b0;
        let mut a: i64 = a0;
        let ghost mut n: int = 0;
        assert(full.take(0) =~= Seq::<Plot>::empty());
        assert(2 * db * 0 - 2 * da * 0 == 0) by (nonlinear_arith);
        while a <= a1
            invariant
                self.wf(),
                near(a0 as int),
                near(a1 as int),
                near(b0 as int),
                near(b1 as int),
                a0 <= a <= a1 + 1,
                da == a1 - a0,
                0 < da,
                0 <= db <= da,
                db == if b1 > b0 { b1 - b0 } else { b0 - b1 },
                d_error == 2 * db,
                rising == (b1 > b0),
                full == sloped_plots(a0 as int, b0 as int, a1 as int, b1 as int, steep, color),
                full.len() == da + 1,
                0 <= n <= a - a0,
                b == if rising { b0 + n } else { b0 - n },
                err == 2 * db * (a - a0) - 2 * da * n,
                -da < err <= da,
                self@ == old(self)@.plot_all(full.take(a - a0)),
            decreases a1 - a + 1,
        {
            let ghost k: int = a - a0;
            proof {
                lemma_minor_steps(da as int, db as int, k, n, err as int);
            }
            if steep {
                self.put(b, a, color);
            } else {
                self.put(a, b, color);
            }
            proof {
                assert(full.take(k + 1) =~= full.take(k).push(full[k]));
                lemma_plot_all_push(old(self)@, full.take(k), full[k]);
                assert(2 * db * (k + 1) == 2 * db * k + 2 * db) by (nonlinear_arith);
            }
            err = err + d_error;
            if err > da {
                b = if rising { b + 1 } else { b - 1 };
                err = err - da * 2;
                proof {
                    assert(2 * da * (n + 1) == 2 * da * n + 2 * da) by (nonlinear_arith);
                    n = n + 1;
                }
            }
            a = a + 1;
        }
        assert(full.take(full.len() as int) =~= full);
    }

    /// Draws the line from `(x0, y0)` to `(x1, y1)`, both ends included.
    pub fn draw_line(&mut self, x0: i32, y0: i32, x1: i32, y1: i32, color: Color)
        requires
            old(self).wf(),
        ensures
            final(self).wf(),
            final(self)@ == old(self)@.plot_all(
                line_plots(x0 as int, y0 as int, x1 as int, y1 as int, color),
            ),
    {
        self.line(x0 as i64, y0 as i64, x1 as i64, y1 as i64, color)
    }

    /// Strokes the outline of a rectangle `w` columns wide and `h` rows high.
    /// Nothing is drawn unless both are at least 1.
    pub fn draw_rect(&mut self, x: i32, y: i32, w: i32, h: i32, color: Color)
        requires
            old(self).wf(),
        ensures
            final(self).wf(),
            final(self)@ == old(self)@.plot_all(
                rect_plots(x as int, y as int, w as int, h as int, color),
            ),
    {
        if w <= 0 || h <= 0 {
            return ;
        }
        let left: i64 = x as i64;
        let top: i64 = y as i64;
        let right: i64 = x as i64 + w as i64 - 1;
        let bottom: i64 = y as i64 + h as i64 - 1;
        let ghost f0 = self@;
        let ghost s1 = hline_plots(left as int, top as int, right as int, color);
        let ghost s2 = line_plots(right as int, top as int, right as int, bottom as int, color);
        let ghost s3 = hline_plots(right as int, bottom as int, left as int, color);
        let ghost s4 = line_plots(left as int, bottom as int, left as int, top as int, color);
        self.draw_horizontal_line(left, top, right, color);
        self.line(right, top, right, bottom, color);
        self.draw_horizontal_line(right, bottom, left, color);
        self.line(left, bottom, left, top, color);
        proof {
            lemma_plot_all_concat(f0, s1, s2);
            lemma_plot_all_concat(f0, s1 + s2, s3);
            lemma_plot_all_concat(f0, s1 + s2 + s3, s4);
        }
    }

    /// Fills a rectangle `w` columns wide and `h` rows high.  Nothing is
    /// drawn unless both are at least 1.
    pub fn draw_rect_fill(&mut self, x: i32, y: i32, w: i32, h: i32, color: Color)
        requires
            old(self).wf(),
        ensures
            final(self).wf(),
            final(self)@ == old(self)@.plot_all(
                rect_fill_plots(x as int, y as int, w as int, h as int, color),
            ),
    {
        if w <= 0 || h <= 0 {
            return ;
        }
        let left: i64 = x as i64;
        let top: i64 = y as i64;
        let right: i64 = x as i64 + w as i64 - 1;
        let rows: i64 = h as i64;
        let mut i: i64 = 0;
        while i < rows
            invariant
                self.wf(),
                0 <= i <= rows,
                0 < w,
                left == x as int,
                top == y as int,
                right == x + w - 1,
                rows == h as int,
                self@ == old(self)@.plot_all(rows_plots(left as int, top as int, right as int, i as int, color)),
            decreases rows - i,
        {
            self.draw_horizontal_line(left, top + i, right, color);
            proof {
                lemma_plot_all_concat(
                    old(self)@,
                    rows_plots(left as int, top as int, right as int, i as int, color),
                    hline_plots(left as int, top + i, right as int, color),
                );
            }
            i = i + 1;
        }
    }
}

} // verus!
