//! Circles by the integer midpoint recurrence, stroked and filled.

use vstd::prelude::*;
use crate::canvas::Canvas;
use crate::color::Color;
use crate::frame::{covers, lemma_covers_concat, lemma_plot_all_concat, lemma_plot_all_push, Plot};
use crate::line::{hline_plots, lemma_hline_covers};

verus! {

/// The point `(x, y)` of the first octant mirrored into all eight, around
/// the centre `(ox, oy)`.
pub open spec fn octant_plots(ox: int, oy: int, x: int, y: int, color: Color) -> Seq<Plot> {
    seq![
        Plot::at(ox + x, oy + y, color),
        Plot::at(ox + y, oy + x, color),
        Plot::at(ox - x, oy + y, color),
        Plot::at(ox - y, oy + x, color),
        Plot::at(ox - x, oy - y, color),
        Plot::at(ox - y, oy - x, color),
        Plot::at(ox + x, oy - y, color),
        Plot::at(ox + y, oy - x, color),
    ]
}

/// The outline of a circle from the octant point `(x, y)` on, where `d` is
/// the value of the midpoint decision variable there: positive `d` pulls
/// `x` in by one on the way to the next row.
pub open spec fn circ_trace(ox: int, oy: int, x: int, y: int, d: int, color: Color) -> Seq<Plot>
    decreases x - y + 2,
{
    if y > x {
        Seq::empty()
    } else if d < 0 {
        octant_plots(ox, oy, x, y, color) + circ_trace(ox, oy, x, y + 1, d + 2 * y + 3, color)
    } else {
        octant_plots(ox, oy, x, y, color) + circ_trace(
            ox,
            oy,
            x - 1,
            y + 1,
            d + 2 * (y - x) + 5,
            color,
        )
    }
}

/// The outline of the circle of radius `r` around `(ox, oy)`.
pub open spec fn circ_plots(ox: int, oy: int, r: int, color: Color) -> Seq<Plot> {
    circ_trace(ox, oy, r, 0, 1 - r, color)
}

/// The span of half-width `x` on row `cy + y` and, unless it is the same
/// row, on row `cy - y`.
pub open spec fn span_pair_plots(cx: int, cy: int, x: int, y: int, color: Color) -> Seq<Plot> {
    if y != 0 {
        hline_plots(cx - x, cy + y, cx + x, color) + hline_plots(cx - x, cy - y, cx + x, color)
    } else {
        hline_plots(cx - x, cy + y, cx + x, color)
    }
}

/// The filled circle from the octant point `(x, y)` on: the spans of the
/// rows `y` away from the centre, and, whenever `x` is about to move in,
/// the spans of the rows `x` away from it.
pub open spec fn circ_fill_trace(ox: int, oy: int, x: int, y: int, e: int, color: Color) -> Seq<
    Plot,
>
    decreases x - y + 2,
{
    if y > x {
        Seq::empty()
    } else if e < 0 {
        span_pair_plots(ox, oy, x, y, color) + circ_fill_trace(
            ox,
            oy,
            x,
            y + 1,
            e + 2 * y + 3,
            color,
        )
    } else if x != y {
        span_pair_plots(ox, oy, x, y, color) + span_pair_plots(ox, oy, y, x, color)
            + circ_fill_trace(ox, oy, x - 1, y + 1, e + 2 * (y - x) + 5, color)
    } else {
        span_pair_plots(ox, oy, x, y, color) + circ_fill_trace(
            ox,
            oy,
            x - 1,
            y + 1,
            e + 2 * (y - x) + 5,
            color,
        )
    }
}

/// The filled circle of radius `r` around `(ox, oy)`.
pub open spec fn circ_fill_plots(ox: int, oy: int, r: int, color: Color) -> Seq<Plot> {
    circ_fill_trace(ox, oy, r, 0, 1 - r, color)
}

/// A span pair covers its half-width on both of its rows.
pub proof fn lemma_span_pair_covers(cx: int, cy: int, x: int, y: int, color: Color, px: int)
    requires
        cx - x <= px <= cx + x,
    ensures
        covers(span_pair_plots(cx, cy, x, y, color), px, cy + y),
        covers(span_pair_plots(cx, cy, x, y, color), px, cy - y),
{
    lemma_hline_covers(cx - x, cy + y, cx + x, color, px);
    lemma_hline_covers(cx - x, cy - y, cx + x, color, px);
    if y != 0 {
        lemma_covers_concat(
            hline_plots(cx - x, cy + y, cx + x, color),
            hline_plots(cx - x, cy - y, cx + x, color),
            px,
            cy + y,
        );
        lemma_covers_concat(
            hline_plots(cx - x, cy + y, cx + x, color),
            hline_plots(cx - x, cy - y, cx + x, color),
            px,
            cy - y,
        );
    }
}

/// From the octant point `(x, y)` on, a filled circle covers the rows `x`
/// away from the centre at least as far out as `y` columns.
proof fn lemma_fill_covers_far_rows(ox: int, oy: int, x: int, y: int, e: int, color: Color, px: int)
    requires
        0 <= y <= x,
        ox - y <= px <= ox + y,
    ensures
        covers(circ_fill_trace(ox, oy, x, y, e, color), px, oy + x),
        covers(circ_fill_trace(ox, oy, x, y, e, color), px, oy - x),
    decreases x - y,
{
    let head = span_pair_plots(ox, oy, x, y, color);
    if x == y {
        lemma_span_pair_covers(ox, oy, x, y, color, px);
        let rest = if e < 0 {
            circ_fill_trace(ox, oy, x, y + 1, e + 2 * y + 3, color)
        } else {
            circ_fill_trace(ox, oy, x - 1, y + 1, e + 2 * (y - x) + 5, color)
        };
        lemma_covers_concat(head, rest, px, oy + x);
        lemma_covers_concat(head, rest, px, oy - x);
    } else if e < 0 {
        let rest = circ_fill_trace(ox, oy, x, y + 1, e + 2 * y + 3, color);
        lemma_fill_covers_far_rows(ox, oy, x, y + 1, e + 2 * y + 3, color, px);
        lemma_covers_concat(head, rest, px, oy + x);
        lemma_covers_concat(head, rest, px, oy - x);
    } else {
        let side = span_pair_plots(ox, oy, y, x, color);
        let rest = circ_fill_trace(ox, oy, x - 1, y + 1, e + 2 * (y - x) + 5, color);
        lemma_span_pair_covers(ox, oy, y, x, color, px);
        lemma_covers_concat(head, side, px, oy + x);
        lemma_covers_concat(head, side, px, oy - x);
        lemma_covers_concat(head + side, rest, px, oy + x);
        lemma_covers_concat(head + side, rest, px, oy - x);
    }
}

/// From any octant point on, the outline stays within the filled circle.
proof fn lemma_trace_within_fill(ox: int, oy: int, x: int, y: int, d: int, color: Color, px: int, py: int)
    requires
        0 <= y,
        covers(circ_trace(ox, oy, x, y, d, color), px, py),
    ensures
        covers(circ_fill_trace(ox, oy, x, y, d, color), px, py),
    decreases x - y + 2,
{
    if y <= x {
        let ring = octant_plots(ox, oy, x, y, color);
        let ring_rest = if d < 0 {
            circ_trace(ox, oy, x, y + 1, d + 2 * y + 3, color)
        } else {
            circ_trace(ox, oy, x - 1, y + 1, d + 2 * (y - x) + 5, color)
        };
        let head = span_pair_plots(ox, oy, x, y, color);
        let fill_rest = if d < 0 {
            circ_fill_trace(ox, oy, x, y + 1, d + 2 * y + 3, color)
        } else {
            circ_fill_trace(ox, oy, x - 1, y + 1, d + 2 * (y - x) + 5, color)
        };
        let fill = circ_fill_trace(ox, oy, x, y, d, color);
        lemma_covers_concat(ring, ring_rest, px, py);
        if covers(ring, px, py) {
            let i = choose|i: int| 0 <= i < ring.len() && #[trigger] ring[i].x == px && ring[i].y == py;
            if (px == ox + x || px == ox - x) && (py == oy + y || py == oy - y) {
                lemma_span_pair_covers(ox, oy, x, y, color, px);
                if d >= 0 && x != y {
                    let side = span_pair_plots(ox, oy, y, x, color);
                    lemma_covers_concat(head, side, px, py);
                    lemma_covers_concat(head + side, fill_rest, px, py);
                } else {
                    lemma_covers_concat(head, fill_rest, px, py);
                }
            } else {
                assert((px == ox + y || px == ox - y) && (py == oy + x || py == oy - x));
                lemma_fill_covers_far_rows(ox, oy, x, y, d, color, px);
            }
        } else {
            if d < 0 {
                lemma_trace_within_fill(ox, oy, x, y + 1, d + 2 * y + 3, color, px, py);
            } else {
                lemma_trace_within_fill(ox, oy, x - 1, y + 1, d + 2 * (y - x) + 5, color, px, py);
            }
            if d >= 0 && x != y {
                let side = span_pair_plots(ox, oy, y, x, color);
                lemma_covers_concat(head + side, fill_rest, px, py);
            } else {
                lemma_covers_concat(head, fill_rest, px, py);
            }
        }
    }
}

/// Every pixel on the outline of a circle is a pixel of the filled circle
/// with the same centre and radius.
pub proof fn lemma_circle_outline_within_fill(ox: int, oy: int, r: int, color: Color)
    ensures
        forall|x: int, y: int|
            covers(circ_plots(ox, oy, r, color), x, y) ==> covers(
                circ_fill_plots(ox, oy, r, color),
                x,
                y,
            ),
{
    assert forall|x: int, y: int| covers(circ_plots(ox, oy, r, color), x, y) implies covers(
        circ_fill_plots(ox, oy, r, color),
        x,
        y,
    ) by {
        lemma_trace_within_fill(ox, oy, r, 0, 1 - r, color, x, y);
    }
}

impl Canvas {
    /// Writes the eight mirror images of the octant point `(x, y)`.
    fn plot_octants(&mut self, ox: i64, oy: i64, x: i64, y: i64, c: Color)
        requires
            old(self).wf(),
            -0x1_0000_0000 <= ox <= 0x1_0000_0000,
            -0x1_0000_0000 <= oy <= 0x1_0000_0000,
            -0x1_0000_0000 <= x <= 0x1_0000_0000,
            -0x1_0000_0000 <= y <= 0x1_0000_0000,
        ensures
            final(self).wf(),
            final(self)@ == old(self)@.plot_all(
                octant_plots(ox as int, oy as int, x as int, y as int, c),
            ),
    {
        let ring: [(i64, i64); 8] = [
            (ox + x, oy + y),
            (ox + y, oy + x),
            (ox - x, oy + y),
            (ox - y, oy + x),
            (ox - x, oy - y),
            (ox - y, oy - x),
            (ox + x, oy - y),
            (ox + y, oy - x),
        ];
        let ghost plots = octant_plots(ox as int, oy as int, x as int, y as int, c);
        assert(plots.take(0) =~= Seq::<Plot>::empty());
        let mut i: usize = 0;
        while i < 8
            invariant
                self.wf(),
                0 <= i <= 8,
                plots.len() == 8,
                forall|k: int|
                    0 <= k < 8 ==> plots[k] == Plot::at(
                        (#[trigger] ring@[k]).0 as int,
                        ring@[k].1 as int,
                        c,
                    ),
                self@ == old(self)@.plot_all(plots.take(i as int)),
            decreases 8 - i,
        {
            let at = ring[i];
            self.put(at.0, at.1, c);
            proof {
                assert(plots.take(i + 1) =~= plots.take(i as int).push(plots[i as int]));
                lemma_plot_all_push(old(self)@, plots.take(i as int), plots[i as int]);
            }
            i = i + 1;
        }
        assert(plots.take(8) =~= plots);
    }

    /// Strokes the circle of radius `r` around `(ox, oy)`.  A negative
    /// radius draws nothing.
    pub fn draw_circ(&mut self, ox: i32, oy: i32, r: i32, c: Color)
        requires
            old(self).wf(),
        ensures
            final(self).wf(),
            final(self)@ == old(self)@.plot_all(circ_plots(ox as int, oy as int, r as int, c)),
    {
        if r < 0 {
            return ;
        }
        let ox: i64 = ox as i64;
        let oy: i64 = oy as i64;
        let r: i64 = r as i64;
        let mut x: i64 = r;
        let mut y: i64 = 0;
        let mut d: i64 = 1 - r;
        while y <= x
            invariant
                self.wf(),
                -0x8000_0000 <= ox <= 0x7FFF_FFFF,
                -0x8000_0000 <= oy <= 0x7FFF_FFFF,
                0 <= r <= 0x7FFF_FFFF,
                0 <= y <= x + 2,
                x <= r,
                -2 * r - 1 <= d <= 2 * r + 3 + 5 * y,
                old(self)@.plot_all(circ_plots(ox as int, oy as int, r as int, c)) == self@.plot_all(
                    circ_trace(ox as int, oy as int, x as int, y as int, d as int, c),
                ),
            decreases x - y + 2,
        {
            let ghost before = self@;
            let ghost ring = octant_plots(ox as int, oy as int, x as int, y as int, c);
            self.plot_octants(ox, oy, x, y, c);
            if d < 0 {
                proof {
                    lemma_plot_all_concat(
                        before,
                        ring,
                        circ_trace(ox as int, oy as int, x as int, y + 1, d + 2 * y + 3, c),
                    );
                }
                d = d + 2 * y + 3;
            } else {
                proof {
                    lemma_plot_all_concat(
                        before,
                        ring,
                        circ_trace(ox as int, oy as int, x - 1, y + 1, d + 2 * (y - x) + 5, c),
                    );
                }
                d = d + 2 * (y - x) + 5;
                x = x - 1;
            }
            y = y + 1;
        }
    }

    /// Draws the span of half-width `x` on the rows `y` above and below `cy`.
    pub(crate) fn plot(&mut self, cx: i64, cy: i64, x: i64, y: i64, c: Color)
        requires
            old(self).wf(),
            -0x1_0000_0000 <= cx <= 0x1_0000_0000,
            -0x1_0000_0000 <= cy <= 0x1_0000_0000,
            -0x1_0000_0000 <= x <= 0x1_0000_0000,
            -0x1_0000_0000 <= y <= 0x1_0000_0000,
        ensures
            final(self).wf(),
            final(self)@ == old(self)@.plot_all(
                span_pair_plots(cx as int, cy as int, x as int, y as int, c),
            ),
    {
        let ghost f = self@;
        self.draw_horizontal_line(cx - x, cy + y, cx + x, c);
        if y != 0 {
            self.draw_horizontal_line(cx - x, cy - y, cx + x, c);
            proof {
                lemma_plot_all_concat(
                    f,
                    hline_plots(cx - x, cy + y, cx + x, c),
                    hline_plots(cx - x, cy - y, cx + x, c),
                );
            }
        }
    }

    /// Fills the circle of radius `radius` around `(ox, oy)`.  A negative
    /// radius draws nothing.
    pub fn draw_circ_fill(&mut self, ox: i32, oy: i32, radius: i32, color: Color)
        requires
            old(self).wf(),
        ensures
            final(self).wf(),
            final(self)@ == old(self)@.plot_all(
                circ_fill_plots(ox as int, oy as int, radius as int, color),
            ),
    {
        if radius < 0 {
            return ;
        }
        let ox: i64 = ox as i64;
        let oy: i64 = oy as i64;
        let r: i64 = radius as i64;
        let mut x: i64 = r;
        let mut y: i64 = 0;
        let mut error: i64 = 1 - r;
        while y <= x
            invariant
                self.wf(),
                -0x8000_0000 <= ox <= 0x7FFF_FFFF,
                -0x8000_0000 <= oy <= 0x7FFF_FFFF,
                0 <= r <= 0x7FFF_FFFF,
                r == radius,
                0 <= y <= x + 2,
                x <= r,
                -2 * r - 1 <= error <= 2 * r + 3 + 5 * y,
                old(self)@.plot_all(circ_fill_plots(ox as int, oy as int, r as int, color))
                    == self@.plot_all(
                    circ_fill_trace(ox as int, oy as int, x as int, y as int, error as int, color),
                ),
            decreases x - y + 2,
        {
            let ghost before = self@;
            let ghost head = span_pair_plots(ox as int, oy as int, x as int, y as int, color);
            self.plot(ox, oy, x, y, color);
            if error < 0 {
                proof {
                    lemma_plot_all_concat(
                        before,
                        head,
                        circ_fill_trace(ox as int, oy as int, x as int, y + 1, error + 2 * y + 3, color),
                    );
                }
                error = error + 2 * y + 3;
            } else {
                let ghost rest = circ_fill_trace(
                    ox as int,
                    oy as int,
                    x - 1,
                    y + 1,
                    error + 2 * (y - x) + 5,
                    color,
                );
                if x != y {
                    self.plot(ox, oy, y, x, color);
                    proof {
                        let side = span_pair_plots(ox as int, oy as int, y as int, x as int, color);
                        lemma_plot_all_concat(before, head, side);
                        lemma_plot_all_concat(before, head + side, rest);
                    }
                } else {
                    proof {
                        lemma_plot_all_concat(before, head, rest);
                    }
                }
                x = x - 1;
                error = error + 2 * (y - x) + 3;
            }
            y = y + 1;
        }
    }
}

} // verus!
