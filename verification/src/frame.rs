//! The mathematical model of a canvas and of what drawing does to it.

use vstd::prelude::*;
use crate::color::Color;

verus! {

/// One pixel write request: a position, which may lie anywhere on the
/// integer plane, and the color to put there.
pub struct Plot {
    pub x: int,
    pub y: int,
    pub color: Color,
}

/// The abstract state of a canvas: a row-major RGBA8 byte grid of
/// `width * height` pixels and the 16-bit fill pattern.
#[verifier::ext_equal]
pub struct Frame {
    pub grid: Seq<u8>,
    pub width: int,
    pub height: int,
    pub fill_pattern: u16,
}

/// The bit of the 4x4 fill pattern that governs position `(x, y)`.
pub open spec fn mask_index(x: int, y: int) -> int {
    (y % 4) * 4 + x % 4
}

/// Whether bit `idx` of the fill pattern is set.
pub open spec fn mask_bit(mask: u16, idx: u32) -> bool {
    mask & (1u16 << idx) != 0
}

impl Plot {
    pub open spec fn at(x: int, y: int, color: Color) -> Plot {
        Plot { x, y, color }
    }
}

/// The plots that put one color at each of the given positions, in order.
pub open spec fn colored(points: Seq<(int, int)>, color: Color) -> Seq<Plot> {
    Seq::new(points.len(), |i: int| Plot::at(points[i].0, points[i].1, color))
}

impl Frame {
    /// The grid holds exactly four bytes per pixel.
    pub open spec fn wf(self) -> bool {
        &&& 0 <= self.width
        &&& 0 <= self.height
        &&& self.grid.len() == self.width * self.height * 4
    }

    pub open spec fn contains(self, x: int, y: int) -> bool {
        0 <= x < self.width && 0 <= y < self.height
    }

    /// Index in the grid of the first byte of pixel `(x, y)`.
    pub open spec fn offset(self, x: int, y: int) -> int {
        (y * self.width + x) * 4
    }

    pub open spec fn pixel(self, x: int, y: int) -> Color {
        let at = self.offset(x, y);
        Color {
            r: self.grid[at],
            g: self.grid[at + 1],
            b: self.grid[at + 2],
            a: self.grid[at + 3],
        }
    }

    /// Whether the fill pattern lets a write to `(x, y)` through.
    pub open spec fn allows(self, x: int, y: int) -> bool {
        mask_bit(self.fill_pattern, mask_index(x, y) as u32)
    }

    /// The frame with the four bytes of pixel `(x, y)` replaced.
    pub open spec fn store(self, x: int, y: int, color: Color) -> Frame {
        let at = self.offset(x, y);
        Frame {
            grid: self.grid.update(at, color.r).update(at + 1, color.g).update(
                at + 2,
                color.b,
            ).update(at + 3, color.a),
            ..self
        }
    }

    /// The color a plot leaves at its position: a translucent color is
    /// blended over what is there, any other color is taken as it is.
    pub open spec fn inked(self, p: Plot) -> Color {
        if 0 < p.color.a < 255 {
            self.pixel(p.x, p.y).blended(p.color)
        } else {
            p.color
        }
    }

    /// The effect of one pixel write: nothing outside the canvas or where
    /// the fill pattern blocks, else the pixel becomes `inked`.
    pub open spec fn plot(self, p: Plot) -> Frame {
        if self.contains(p.x, p.y) && self.allows(p.x, p.y) {
            self.store(p.x, p.y, self.inked(p))
        } else {
            self
        }
    }

    /// The effect of a sequence of pixel writes, applied first to last.
    pub open spec fn plot_all(self, plots: Seq<Plot>) -> Frame
        decreases plots.len(),
    {
        if plots.len() == 0 {
            self
        } else {
            self.plot(plots[0]).plot_all(plots.drop_first())
        }
    }

    /// The frame with every pixel set to `color`, whatever the fill pattern.
    pub open spec fn flooded(self, color: Color) -> Frame {
        Frame { grid: Seq::new(self.grid.len(), |i: int| color.channels()[i % 4]), ..self }
    }
}

/// The bytes of a pixel inside the canvas lie inside the grid.
pub proof fn lemma_offset_in_grid(f: Frame, x: int, y: int)
    requires
        f.wf(),
        f.contains(x, y),
    ensures
        0 <= f.offset(x, y),
        f.offset(x, y) + 4 <= f.grid.len(),
        f.offset(x, y) == (y * f.width + x) * 4,
        0 <= y * f.width <= (f.height - 1) * f.width,
{
    let w = f.width;
    let h = f.height;
    assert(0 <= y * w) by (nonlinear_arith)
        requires
            0 <= y,
            0 <= w,
    ;
    assert(y * w <= (h - 1) * w) by (nonlinear_arith)
        requires
            y <= h - 1,
            0 <= w,
    ;
    assert((h - 1) * w == w * h - w) by (nonlinear_arith);
}

/// Whether some plot of the sequence lands on `(x, y)`.
pub open spec fn covers(plots: Seq<Plot>, x: int, y: int) -> bool {
    exists|i: int| 0 <= i < plots.len() && #[trigger] plots[i].x == x && plots[i].y == y
}

/// A concatenation covers what either part covers.
pub proof fn lemma_covers_concat(first: Seq<Plot>, second: Seq<Plot>, x: int, y: int)
    ensures
        covers(first + second, x, y) <==> covers(first, x, y) || covers(second, x, y),
{
    let both = first + second;
    if covers(first, x, y) {
        let i = choose|i: int| 0 <= i < first.len() && #[trigger] first[i].x == x && first[i].y == y;
        assert(both[i].x == x && both[i].y == y);
    }
    if covers(second, x, y) {
        let i = choose|i: int|
            0 <= i < second.len() && #[trigger] second[i].x == x && second[i].y == y;
        assert(both[first.len() + i].x == x && both[first.len() + i].y == y);
    }
    if covers(both, x, y) {
        let i = choose|i: int| 0 <= i < both.len() && #[trigger] both[i].x == x && both[i].y == y;
        if i < first.len() {
            assert(first[i].x == x && first[i].y == y);
        } else {
            assert(second[i - first.len()].x == x && second[i - first.len()].y == y);
        }
    }
}

/// An all-zero mask blocks every position and an all-ones mask none.
pub proof fn lemma_mask_extremes(idx: u32)
    requires
        idx < 16,
    ensures
        !mask_bit(0, idx),
        mask_bit(0xFFFF, idx),
{
    assert(0u16 & (1u16 << idx) == 0) by (bit_vector)
        requires
            idx < 16,
    ;
    assert(0xFFFFu16 & (1u16 << idx) != 0) by (bit_vector)
        requires
            idx < 16,
    ;
}

/// A write to a position off the canvas changes nothing.
pub proof fn lemma_plot_outside(f: Frame, p: Plot)
    requires
        !f.contains(p.x, p.y),
    ensures
        f.plot(p) == f,
{
}

/// With the fill pattern 0 every write changes nothing.
pub proof fn lemma_empty_pattern_blocks(f: Frame, p: Plot)
    requires
        f.fill_pattern == 0,
    ensures
        f.plot(p) == f,
{
    if f.contains(p.x, p.y) {
        lemma_mask_extremes(mask_index(p.x, p.y) as u32);
    }
}

/// With the fill pattern `0xFFFF`, which a new canvas has, every write to
/// a position on the canvas goes through.
pub proof fn lemma_solid_pattern_passes(f: Frame, p: Plot)
    requires
        f.fill_pattern == 0xFFFF,
        f.contains(p.x, p.y),
    ensures
        f.plot(p) == f.store(p.x, p.y, f.inked(p)),
{
    lemma_mask_extremes(mask_index(p.x, p.y) as u32);
}

/// Distinct pixels of a canvas have disjoint bytes.
pub proof fn lemma_offsets_apart(f: Frame, x: int, y: int, u: int, v: int)
    requires
        f.wf(),
        f.contains(x, y),
        f.contains(u, v),
        (x, y) != (u, v),
    ensures
        f.offset(x, y) + 4 <= f.offset(u, v) || f.offset(u, v) + 4 <= f.offset(x, y),
{
    let w = f.width;
    if y < v {
        assert(y * w + w <= v * w) by (nonlinear_arith)
            requires
                y + 1 <= v,
                0 <= w,
        ;
    } else if v < y {
        assert(v * w + w <= y * w) by (nonlinear_arith)
            requires
                v + 1 <= y,
                0 <= w,
        ;
    }
}

/// A stored pixel reads back as what was stored, and every other pixel of
/// the canvas as before.
pub proof fn lemma_store_then_pixel(f: Frame, x: int, y: int, color: Color, u: int, v: int)
    requires
        f.wf(),
        f.contains(x, y),
        f.contains(u, v),
    ensures
        f.store(x, y, color).pixel(u, v) == if (u, v) == (x, y) {
            color
        } else {
            f.pixel(u, v)
        },
{
    lemma_offset_in_grid(f, x, y);
    lemma_offset_in_grid(f, u, v);
    if (u, v) != (x, y) {
        lemma_offsets_apart(f, x, y, u, v);
    }
}

/// Drawing leaves every pixel alone that none of the plots lands on.
pub proof fn lemma_uncovered_pixel_stays(f: Frame, plots: Seq<Plot>, x: int, y: int)
    requires
        f.wf(),
        f.contains(x, y),
        !covers(plots, x, y),
    ensures
        f.plot_all(plots).pixel(x, y) == f.pixel(x, y),
    decreases plots.len(),
{
    if plots.len() > 0 {
        let p = plots[0];
        let rest = plots.drop_first();
        assert(!(p.x == x && p.y == y));
        if f.contains(p.x, p.y) {
            lemma_store_then_pixel(f, p.x, p.y, f.inked(p), x, y);
        }
        lemma_plot_keeps_shape(f, p);
        assert(!covers(rest, x, y)) by {
            if covers(rest, x, y) {
                let i = choose|i: int| 0 <= i < rest.len() && #[trigger] rest[i].x == x && rest[i].y == y;
                assert(plots[i + 1].x == x && plots[i + 1].y == y);
            }
        }
        lemma_uncovered_pixel_stays(f.plot(p), rest, x, y);
    }
}

/// With a solid fill pattern, drawing in one opaque color gives that color
/// to every pixel of the canvas that one of the plots lands on.
pub proof fn lemma_covered_pixel_is_set(f: Frame, plots: Seq<Plot>, color: Color, x: int, y: int)
    requires
        f.wf(),
        f.fill_pattern == 0xFFFF,
        f.contains(x, y),
        color.a == 255,
        forall|i: int| 0 <= i < plots.len() ==> (#[trigger] plots[i]).color == color,
        covers(plots, x, y),
    ensures
        f.plot_all(plots).pixel(x, y) == color,
    decreases plots.len(),
{
    let p = plots[0];
    let rest = plots.drop_first();
    let g = f.plot(p);
    lemma_plot_keeps_shape(f, p);
    assert forall|i: int| 0 <= i < rest.len() implies (#[trigger] rest[i]).color == color by {
        assert(rest[i] == plots[i + 1]);
    }
    if covers(rest, x, y) {
        lemma_covered_pixel_is_set(g, rest, color, x, y);
    } else {
        let i = choose|i: int| 0 <= i < plots.len() && #[trigger] plots[i].x == x && plots[i].y == y;
        if i > 0 {
            assert(rest[i - 1].x == x && rest[i - 1].y == y);
        }
        assert(p.x == x && p.y == y);
        lemma_solid_pattern_passes(f, p);
        lemma_store_then_pixel(f, x, y, f.inked(p), x, y);
        lemma_uncovered_pixel_stays(g, rest, x, y);
    }
}

/// A pixel write keeps the shape of the frame.
pub proof fn lemma_plot_keeps_shape(f: Frame, p: Plot)
    requires
        f.wf(),
    ensures
        f.plot(p).wf(),
        f.plot(p).width == f.width,
        f.plot(p).height == f.height,
        f.plot(p).fill_pattern == f.fill_pattern,
{
    if f.contains(p.x, p.y) {
        lemma_offset_in_grid(f, p.x, p.y);
    }
}

/// A sequence of pixel writes keeps the shape of the frame.
pub proof fn lemma_plot_all_keeps_shape(f: Frame, plots: Seq<Plot>)
    requires
        f.wf(),
    ensures
        f.plot_all(plots).wf(),
        f.plot_all(plots).width == f.width,
        f.plot_all(plots).height == f.height,
        f.plot_all(plots).fill_pattern == f.fill_pattern,
    decreases plots.len(),
{
    if plots.len() > 0 {
        lemma_plot_keeps_shape(f, plots[0]);
        lemma_plot_all_keeps_shape(f.plot(plots[0]), plots.drop_first());
    }
}

/// Drawing two sequences one after the other is drawing their concatenation.
pub proof fn lemma_plot_all_concat(f: Frame, first: Seq<Plot>, second: Seq<Plot>)
    ensures
        f.plot_all(first + second) == f.plot_all(first).plot_all(second),
    decreases first.len(),
{
    if first.len() == 0 {
        assert(first + second =~= second);
    } else {
        assert((first + second).drop_first() =~= first.drop_first() + second);
        lemma_plot_all_concat(f.plot(first[0]), first.drop_first(), second);
    }
}

/// Drawing one more plot after a sequence.
pub proof fn lemma_plot_all_push(f: Frame, plots: Seq<Plot>, p: Plot)
    ensures
        f.plot_all(plots.push(p)) == f.plot_all(plots).plot(p),
{
    let one = seq![p];
    assert(plots.push(p) =~= plots + one);
    lemma_plot_all_concat(f, plots, one);
    let g = f.plot_all(plots);
    assert(one.drop_first() =~= Seq::<Plot>::empty());
    assert(g.plot(one[0]).plot_all(one.drop_first()) == g.plot(p));
}

} // verus!
