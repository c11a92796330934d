//! Axis-aligned ellipses by the integer midpoint trace, stroked and filled.

use vstd::prelude::*;
use crate::canvas::Canvas;
use crate::color::Color;
use crate::frame::{colored, lemma_plot_all_push, Plot};
use crate::line::distance;

verus! {

/// The value of the decision variable of the trace at `(x, y)`, for an
/// ellipse with squared half-axes `a2` and `b2`.
pub open spec fn ellipse_t(a2: int, b2: int, x: int, y: int) -> int {
    b2 * x * (x + 1) + a2 * y * (y - 1) - a2 * b2
}

/// Whether the trace moves one column out from `(x, y)`, on an ellipse with
/// half-axes `w` and `h`.
pub open spec fn trace_steps_x(w: int, h: int, x: int, y: int) -> bool {
    let a2 = w * w;
    let b2 = h * h;
    let t = ellipse_t(a2, b2, x, y);
    ||| t + b2 * x <= -(a2 / 4 + w % 2 + b2)
    ||| t + a2 * y <= -(b2 / 4 + h % 2)
    ||| t - a2 * y <= -(b2 / 4 + h % 2 + a2)
}

/// Whether the trace moves one row in from `(x, y)`.
pub open spec fn trace_steps_y(w: int, h: int, x: int, y: int) -> bool {
    let a2 = w * w;
    let b2 = h * h;
    let t = ellipse_t(a2, b2, x, y);
    &&& t + b2 * x > -(a2 / 4 + w % 2 + b2)
    &&& t + a2 * y > -(b2 / 4 + h % 2)
}

/// The quadrant point `(x, y)` mirrored around `(ox, oy)`, each distinct
/// image once: one on the centre, two on an axis, four elsewhere.
pub open spec fn mirror_points(ox: int, oy: int, x: int, y: int) -> Seq<(int, int)> {
    if x == 0 && y == 0 {
        seq![(ox + x, oy + y)]
    } else if x != 0 && y != 0 {
        seq![(ox + x, oy + y), (ox - x, oy - y), (ox + x, oy - y), (ox - x, oy + y)]
    } else {
        seq![(ox + x, oy + y), (ox - x, oy - y)]
    }
}

/// The boundary of the ellipse with half-axes `w` and `h` around
/// `(ox, oy)`, from the quadrant point `(x, y)` until the trace leaves the
/// quadrant.
pub open spec fn ellipse_trace(ox: int, oy: int, w: int, h: int, x: int, y: int) -> Seq<(int, int)>
    decreases w - x + y + 2,
{
    if y < 0 || x > w {
        Seq::empty()
    } else {
        mirror_points(ox, oy, x, y) + ellipse_trace(
            ox,
            oy,
            w,
            h,
            if trace_steps_x(w, h, x, y) { x + 1 } else { x },
            if trace_steps_y(w, h, x, y) { y - 1 } else { y },
        )
    }
}

/// The boundary of the ellipse inscribed in the box with corners
/// `(x0, y0)` and `(x1, y1)`: half-axes are half the box sides, rounded
/// down, and the trace starts on top of the centre.
pub open spec fn ellipse_points(x0: int, y0: int, x1: int, y1: int) -> Seq<(int, int)> {
    let w = distance(x0, x1) / 2;
    let h = distance(y0, y1) / 2;
    let ox = if x0 <= x1 { x0 + w } else { x1 + w };
    let oy = if y0 <= y1 { y0 + h } else { y1 + h };
    ellipse_trace(ox, oy, w, h, 0, h)
}

/// Positions held in machine integers, as positions on the plane.
pub open spec fn as_points(cells: Seq<(i32, i32)>) -> Seq<(int, int)> {
    Seq::new(cells.len(), |i: int| (cells[i].0 as int, cells[i].1 as int))
}

proof fn lemma_product_bound(a: int, b: int, top_a: int, top_b: int)
    by (nonlinear_arith)
    requires
        0 <= a <= top_a,
        0 <= b <= top_b,
    ensures
        0 <= a * b <= top_a * top_b,
{
}

/// While the trace is in or just outside the quadrant its decision
/// variable, and every product the trace forms, stays far inside `i128`.
proof fn lemma_trace_magnitudes(w: int, h: int, x: int, y: int)
    requires
        0 <= w < 0x8000_0000,
        0 <= h < 0x8000_0000,
        0 <= x <= w + 1,
        -1 <= y <= h,
    ensures
        0 <= w * w <= 0x4000_0000_0000_0000,
        0 <= h * h <= 0x4000_0000_0000_0000,
        0 <= (h * h) * x <= 0x2000_0000_0000_0000_0000_0000,
        -0x4000_0000_0000_0000 <= (w * w) * y <= 0x2000_0000_0000_0000_0000_0000,
        -0x1000_0000_0000_0000_0000_0000_0000_0000 <= ellipse_t(w * w, h * h, x, y)
            <= 0x3000_0000_0000_0000_0000_0000_0000_0000,
{
    let a2 = w * w;
    let b2 = h * h;
    lemma_product_bound(w, w, 0x8000_0000, 0x8000_0000);
    lemma_product_bound(h, h, 0x8000_0000, 0x8000_0000);
    lemma_product_bound(b2, x, 0x4000_0000_0000_0000, 0x8000_0000);
    lemma_product_bound(b2 * x, x + 1, 0x2000_0000_0000_0000_0000_0000, 0x8000_0001);
    lemma_product_bound(a2, b2, 0x4000_0000_0000_0000, 0x4000_0000_0000_0000);
    if y >= 1 {
        lemma_product_bound(a2, y, 0x4000_0000_0000_0000, 0x8000_0000);
        lemma_product_bound(a2 * y, y - 1, 0x2000_0000_0000_0000_0000_0000, 0x8000_0000);
    } else if y == 0 {
        assert(a2 * y == 0) by (nonlinear_arith)
            requires
                y == 0,
        ;
        assert((a2 * y) * (y - 1) == 0) by (nonlinear_arith)
            requires
                a2 * y == 0,
        ;
    } else {
        assert(a2 * y == -a2) by (nonlinear_arith)
            requires
                y == -1,
        ;
        assert((a2 * y) * (y - 1) == 2 * a2) by (nonlinear_arith)
            requires
                y == -1,
                a2 * y == -a2,
        ;
    }
}

/// How the decision variable changes along the two directions of the trace.
proof fn lemma_trace_increments(a2: int, b2: int, x: int, y: int)
    ensures
        ellipse_t(a2, b2, x + 1, y) == ellipse_t(a2, b2, x, y) + 2 * (b2 * x) + 2 * b2,
        ellipse_t(a2, b2, x, y - 1) == ellipse_t(a2, b2, x, y) - 2 * (a2 * y) + 2 * a2,
        b2 * (x + 1) == b2 * x + b2,
        a2 * (y - 1) == a2 * y - a2,
{
    assert(b2 * (x + 1) * (x + 2) == b2 * x * (x + 1) + 2 * (b2 * x) + 2 * b2) by (nonlinear_arith);
    assert(a2 * (y - 1) * (y - 2) == a2 * y * (y - 1) - 2 * (a2 * y) + 2 * a2) by (nonlinear_arith);
    assert(b2 * (x + 1) == b2 * x + b2) by (nonlinear_arith);
    assert(a2 * (y - 1) == a2 * y - a2) by (nonlinear_arith);
}

/// Traces the boundary of the ellipse inscribed in the box with corners
/// `(x0, y0)` and `(x1, y1)` and returns its pixels in trace order.
pub fn plot_ellipse(x0: i32, y0: i32, x1: i32, y1: i32) -> (cells: Vec<(i32, i32)>)
    ensures
        as_points(cells@) == ellipse_points(x0 as int, y0 as int, x1 as int, y1 as int),
{
    let width: i128 = (if x0 <= x1 { x1 as i128 - x0 as i128 } else { x0 as i128 - x1 as i128 }) / 2;
    let height: i128 = (if y0 <= y1 { y1 as i128 - y0 as i128 } else { y0 as i128 - y1 as i128 }) / 2;
    let ox: i128 = (if x0 <= x1 { x0 as i128 } else { x1 as i128 }) + width;
    let oy: i128 = (if y0 <= y1 { y0 as i128 } else { y1 as i128 }) + height;
    let mut x: i128 = 0;
    let mut y: i128 = height;
    proof {
        lemma_trace_magnitudes(width as int, height as int, x as int, y as int);
        lemma_trace_increments(width * width, height * height, 0, height as int);
    }
    let a2: i128 = width * width;
    let b2: i128 = height * height;
    let crit1: i128 = -(a2 / 4 + width % 2 + b2);
    let crit2: i128 = -(b2 / 4 + height % 2 + a2);
    let crit3: i128 = -(b2 / 4 + height % 2);
    let mut t: i128 = -(a2 * y);
    let mut dxt: i128 = 2 * (b2 * x);
    let mut dyt: i128 = -2 * (a2 * y);
    let d2xt: i128 = 2 * b2;
    let d2yt: i128 = 2 * a2;
    let mut cells: Vec<(i32, i32)> = Vec::new();
    proof {
        assert(t == ellipse_t(a2 as int, b2 as int, 0, height as int)) by (nonlinear_arith)
            requires
                t == -(a2 * height),
                b2 == height * height,
        ;
        assert(as_points(cells@) =~= Seq::<(int, int)>::empty());
    }
    while y >= 0 && x <= width
        invariant
            0 <= width < 0x8000_0000,
            0 <= height < 0x8000_0000,
            -0x8000_0000 <= ox - width,
            ox + width <= 0x7FFF_FFFF,
            -0x8000_0000 <= oy - height,
            oy + height <= 0x7FFF_FFFF,
            a2 == width * width,
            b2 == height * height,
            crit1 == -(a2 / 4 + width % 2 + b2),
            crit2 == -(b2 / 4 + height % 2 + a2),
            crit3 == -(b2 / 4 + height % 2),
            d2xt == 2 * b2,
            d2yt == 2 * a2,
            0 <= x <= width + 1,
            -1 <= y <= height,
            t == ellipse_t(a2 as int, b2 as int, x as int, y as int),
            dxt == 2 * (b2 * x),
            dyt == -2 * (a2 * y),
            as_points(cells@) + ellipse_trace(
                ox as int,
                oy as int,
                width as int,
                height as int,
                x as int,
                y as int,
            ) == ellipse_points(x0 as int, y0 as int, x1 as int, y1 as int),
        decreases width - x + y + 2,
    {
        let ghost done = as_points(cells@);
        let ghost ring = mirror_points(ox as int, oy as int, x as int, y as int);
        cells.push(((ox + x) as i32, (oy + y) as i32));
        if x != 0 || y != 0 {
            cells.push(((ox - x) as i32, (oy - y) as i32));
            if x != 0 && y != 0 {
                cells.push(((ox + x) as i32, (oy - y) as i32));
                cells.push(((ox - x) as i32, (oy + y) as i32));
            }
        }
        proof {
            assert(as_points(cells@) =~= done + ring);
            lemma_trace_magnitudes(width as int, height as int, x as int, y as int);
            lemma_trace_increments(a2 as int, b2 as int, x as int, y as int);
            lemma_trace_increments(a2 as int, b2 as int, x + 1, y as int);
            if x <= width {
                lemma_trace_magnitudes(width as int, height as int, x + 1, y as int);
                if y >= 0 {
                    lemma_trace_magnitudes(width as int, height as int, x + 1, y - 1);
                }
            }
            if y >= 0 {
                lemma_trace_magnitudes(width as int, height as int, x as int, y - 1);
            }
        }
        let ghost next_x: int = if trace_steps_x(width as int, height as int, x as int, y as int) {
            x + 1
        } else {
            x as int
        };
        let ghost next_y: int = if trace_steps_y(width as int, height as int, x as int, y as int) {
            y - 1
        } else {
            y as int
        };
        if t + b2 * x <= crit1 || t + a2 * y <= crit3 {
            x = x + 1;
            dxt = dxt + d2xt;
            t = t + dxt;
        } else if t - a2 * y > crit2 {
            y = y - 1;
            dyt = dyt + d2yt;
            t = t + dyt;
        } else {
            x = x + 1;
            dxt = dxt + d2xt;
            t = t + dxt;
            y = y - 1;
            dyt = dyt + d2yt;
            t = t + dyt;
        }
        proof {
            assert(x == next_x && y == next_y);
            assert((done + ring) + ellipse_trace(
                ox as int,
                oy as int,
                width as int,
                height as int,
                next_x,
                next_y,
            ) =~= done + (ring + ellipse_trace(
                ox as int,
                oy as int,
                width as int,
                height as int,
                next_x,
                next_y,
            )));
        }
    }
    proof {
        assert(as_points(cells@) + Seq::<(int, int)>::empty() =~= as_points(cells@));
    }
    cells
}

impl Canvas {
    /// Strokes the ellipse inscribed in the box with corners `(x0, y0)` and
    /// `(x1, y1)`.
    pub fn draw_ellipse(&mut self, x0: i32, y0: i32, x1: i32, y1: i32, c: Color)
        requires
            old(self).wf(),
        ensures
            final(self).wf(),
            final(self)@ == old(self)@.plot_all(
                colored(ellipse_points(x0 as int, y0 as int, x1 as int, y1 as int), c),
            ),
    {
        let cells = plot_ellipse(x0, y0, x1, y1);
        let ghost full = colored(as_points(cells@), c);
        let mut i: usize = 0;
        assert(full.take(0) =~= Seq::<Plot>::empty());
        while i < cells.len()
            invariant
                self.wf(),
                0 <= i <= cells.len(),
                full == colored(as_points(cells@), c),
                self@ == old(self)@.plot_all(full.take(i as int)),
            decreases cells.len() - i,
        {
            let cell = cells[i];
            self.put(cell.0 as i64, cell.1 as i64, c);
            proof {
                assert(full.take(i + 1) =~= full.take(i as int).push(full[i as int]));
                lemma_plot_all_push(old(self)@, full.take(i as int), full[i as int]);
            }
            i = i + 1;
        }
        assert(full.take(full.len() as int) =~= full);
    }
}

} // verus!
