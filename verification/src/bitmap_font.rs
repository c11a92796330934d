//! Bitmap fonts: a glyph atlas of equal cells, with the tight horizontal
//! extent of the ink in each cell.

use vstd::prelude::*;
use vstd::arithmetic::div_mod::{lemma_fundamental_div_mod, lemma_mod_bound, lemma_multiply_divide_lt};
use crate::bitmap::{Bitmap, Picture};

verus! {

/// The code whose glyph stands in for every code the atlas has no cell for:
/// the question mark.
pub const FALLBACK_CODE: u32 = 0x3F;

/// A font drawn from an atlas image.  The cells are numbered row by row
/// from the top left one, which is cell 0.
pub struct BitmapFont {
    pub font: Bitmap,
    pub glyph_width: u32,
    pub glyph_height: u32,
    pub space_width: u32,
    pub letter_spacing: u32,
    pub nb_glyphs: u32,
    /// For each cell, the first and the last column that holds ink.
    pub widths: Vec<(u32, u32)>,
}

/// Whether the `j`-th pixel of a picture is ink, that is, not fully
/// transparent.
pub open spec fn inked(pic: Picture, j: int) -> bool {
    0 <= j < pic.pixels.len() && pic.pixels[j].a != 0
}

pub open spec fn has_ink(pic: Picture) -> bool {
    exists|j: int| #[trigger] inked(pic, j)
}

/// Whether `span` is the ink span of a cell: the least and the greatest
/// column that hold an ink pixel, or, for a cell without ink, the made-up
/// span from 0 to `space_width`.
pub open spec fn is_ink_span(cell: Picture, space_width: int, span: (int, int)) -> bool {
    if has_ink(cell) {
        &&& exists|j: int| #[trigger] inked(cell, j) && cell.column(j) == span.0
        &&& exists|j: int| #[trigger] inked(cell, j) && cell.column(j) == span.1
        &&& forall|j: int| #[trigger] inked(cell, j) ==> span.0 <= cell.column(j) <= span.1
    } else {
        span == (0int, space_width)
    }
}

/// The cell of `code` in an atlas cut into cells of `gw` by `gh` pixels.
pub open spec fn cell_of(atlas: Picture, gw: int, gh: int, code: int) -> Picture {
    let columns = atlas.width / gw;
    atlas.cropped((code % columns) * gw, (code / columns) * gh, gw, gh)
}

/// A cell with a number below `columns * rows` lies inside the atlas.
pub proof fn lemma_cell_inside(w: int, h: int, gw: int, gh: int, code: int)
    requires
        0 <= w,
        0 <= h,
        0 < gw,
        0 < gh,
        0 <= code < (w / gw) * (h / gh),
    ensures
        0 < w / gw,
        0 <= code % (w / gw) < w / gw,
        0 <= code / (w / gw) < h / gh,
        0 <= (code % (w / gw)) * gw,
        (code % (w / gw)) * gw + gw <= w,
        0 <= (code / (w / gw)) * gh,
        (code / (w / gw)) * gh + gh <= h,
{
    let columns = w / gw;
    let rows = h / gh;
    assert(0 <= columns && 0 <= rows) by (nonlinear_arith)
        requires
            0 <= w,
            0 <= h,
            0 < gw,
            0 < gh,
            columns == w / gw,
            rows == h / gh,
    ;
    assert(columns != 0) by (nonlinear_arith)
        requires
            0 <= code < columns * rows,
    ;
    lemma_mod_bound(code, columns);
    assert(rows * columns == columns * rows) by (nonlinear_arith);
    lemma_multiply_divide_lt(code, columns, rows);
    assert(0 <= code / columns) by (nonlinear_arith)
        requires
            0 <= code,
            0 < columns,
    ;
    lemma_fundamental_div_mod(w, gw);
    lemma_fundamental_div_mod(h, gh);
    lemma_mod_bound(w, gw);
    lemma_mod_bound(h, gh);
    let x = code % columns;
    let y = code / columns;
    assert(0 <= x * gw && x * gw + gw <= gw * columns) by (nonlinear_arith)
        requires
            0 <= x < columns,
            0 < gw,
    ;
    assert(0 <= y * gh && y * gh + gh <= gh * rows) by (nonlinear_arith)
        requires
            0 <= y < rows,
            0 < gh,
    ;
}

/// Scans a cell for ink and returns its ink span.
fn ink_span(glyph: &Bitmap, space_width: u32) -> (span: (u32, u32))
    requires
        glyph.wf(),
        glyph.width > 0,
    ensures
        is_ink_span(glyph@, space_width as int, (span.0 as int, span.1 as int)),
        has_ink(glyph@) ==> span.0 <= span.1 < glyph.width,
{
    let n = glyph.pixels.len();
    let mut first_pixel: u32 = glyph.width;
    let mut last_pixel: u32 = 0;
    let ghost mut at_first: int = 0;
    let ghost mut at_last: int = 0;
    let mut j: usize = 0;
    while j < n
        invariant
            glyph.wf(),
            glyph.width > 0,
            n == glyph.pixels@.len(),
            0 <= j <= n,
            first_pixel == glyph.width ==> last_pixel == 0 && forall|k: int|
                0 <= k < j ==> !#[trigger] inked(glyph@, k),
            first_pixel <= glyph.width,
            first_pixel != glyph.width ==> {
                &&& first_pixel <= last_pixel < glyph.width
                &&& 0 <= at_first < j && inked(glyph@, at_first) && glyph@.column(at_first)
                    == first_pixel
                &&& 0 <= at_last < j && inked(glyph@, at_last) && glyph@.column(at_last)
                    == last_pixel
                &&& forall|k: int|
                    0 <= k < j && #[trigger] inked(glyph@, k) ==> first_pixel <= glyph@.column(k)
                        <= last_pixel
            },
        decreases n - j,
    {
        proof {
            lemma_mod_bound(j as int, glyph.width as int);
        }
        let x_offset: u32 = (j % glyph.width as usize) as u32;
        if glyph.pixels[j].a != 0 {
            proof {
                if first_pixel == glyph.width {
                    at_first = j as int;
                    at_last = j as int;
                }
            }
            if x_offset < first_pixel {
                first_pixel = x_offset;
                proof {
                    at_first = j as int;
                }
            }
            if x_offset > last_pixel {
                last_pixel = x_offset;
                proof {
                    at_last = j as int;
                }
            }
        }
        j = j + 1;
    }
    proof {
        if first_pixel == glyph.width {
            assert forall|k: int| !inked(glyph@, k) by {
                if 0 <= k < n {
                }
            }
            assert(!has_ink(glyph@));
        } else {
            assert(inked(glyph@, at_first) && glyph@.column(at_first) == first_pixel);
            assert(inked(glyph@, at_last) && glyph@.column(at_last) == last_pixel);
            assert(has_ink(glyph@));
        }
    }
    if last_pixel < first_pixel {
        first_pixel = 0;
        last_pixel = space_width;
    }
    (first_pixel, last_pixel)
}

impl BitmapFont {
    /// The ink spans, one per cell.
    pub open spec fn spans(&self) -> Seq<(u32, u32)> {
        self.widths@
    }

    /// How many cells the atlas has side by side.
    pub open spec fn columns(&self) -> int {
        self.font.width as int / self.glyph_width as int
    }

    /// The picture of the whole cell of `code`.
    pub open spec fn cell(&self, code: int) -> Picture {
        cell_of(self.font@, self.glyph_width as int, self.glyph_height as int, code)
    }

    /// The atlas is cut into whole cells and every cell has its ink span.
    pub open spec fn wf(&self) -> bool {
        &&& self.font.wf()
        &&& self.glyph_width > 0
        &&& self.glyph_height > 0
        &&& self.nb_glyphs == self.columns() * (self.font.height as int / self.glyph_height as int)
        &&& self.spans().len() == self.nb_glyphs
        &&& forall|code: int|
            0 <= code < self.nb_glyphs ==> is_ink_span(
                self.cell(code),
                self.space_width as int,
                ((#[trigger] self.spans()[code]).0 as int, self.spans()[code].1 as int),
            )
    }

    /// The cell that is drawn for `code`: its own, or that of the
    /// question mark where the atlas has none for it.
    pub open spec fn resolve(&self, code: int) -> int {
        if code >= self.nb_glyphs {
            FALLBACK_CODE as int
        } else {
            code
        }
    }

    /// Whether there is a cell to draw for `code`.
    pub open spec fn has_glyph(&self, code: int) -> bool {
        0 <= self.resolve(code) < self.nb_glyphs
    }

    /// The width of the glyph of `code` on screen: the cell width, or, if
    /// not `monospace`, the width of its ink span.
    pub open spec fn glyph_width_of(&self, code: int, monospace: bool) -> int {
        let span = self.spans()[self.resolve(code)];
        if monospace {
            self.glyph_width as int
        } else {
            span.1 - span.0 + 1
        }
    }

    /// The picture of the glyph of `code`: its cell, cut down to the ink
    /// span if not `monospace`.
    pub open spec fn glyph(&self, code: int, monospace: bool) -> Picture {
        let cell = self.resolve(code);
        let left = (cell % self.columns()) * self.glyph_width;
        let top = (cell / self.columns()) * self.glyph_height;
        let shift = if monospace {
            0int
        } else {
            self.spans()[cell].0 as int
        };
        self.font@.cropped(
            left + shift,
            top,
            self.glyph_width_of(code, monospace),
            self.glyph_height as int,
        )
    }

    /// How far the glyph of `code` moves the pen: its width and the letter
    /// spacing.
    pub open spec fn advance(&self, code: int, monospace: bool) -> int {
        self.glyph_width_of(code, monospace) + self.letter_spacing
    }

    /// Whether the glyph of `code` can be handed out: there is a cell to
    /// draw for it, and its advance width fits 32 bits.
    pub open spec fn draws(&self, code: int, monospace: bool) -> bool {
        self.has_glyph(code) && self.advance(code, monospace) <= u32::MAX
    }

    /// Builds a font from an atlas of `glyph_width` by `glyph_height` cells
    /// and measures the ink span of every cell.
    pub fn new(
        font: Bitmap,
        glyph_width: u32,
        glyph_height: u32,
        space_width: u32,
        letter_spacing: u32,
    ) -> (out: BitmapFont)
        requires
            font.wf(),
            glyph_width > 0,
            glyph_height > 0,
            (font.width as int / glyph_width as int) * (font.height as int / glyph_height as int)
                <= u32::MAX,
        ensures
            out.wf(),
            out.font == font,
            out.glyph_width == glyph_width,
            out.glyph_height == glyph_height,
            out.space_width == space_width,
            out.letter_spacing == letter_spacing,
            out.nb_glyphs == (font.width as int / glyph_width as int) * (font.height as int
                / glyph_height as int),
    {
        let columns: u32 = font.width / glyph_width;
        let rows: u32 = font.height / glyph_height;
        let nb_glyphs: u32 = columns * rows;
        let mut widths: Vec<(u32, u32)> = Vec::new();
        let mut c: u32 = 0;
        while c < nb_glyphs
            invariant
                font.wf(),
                glyph_width > 0,
                glyph_height > 0,
                columns == font.width as int / glyph_width as int,
                rows == font.height as int / glyph_height as int,
                nb_glyphs == columns * rows,
                0 <= c <= nb_glyphs,
                widths@.len() == c,
                forall|code: int|
                    0 <= code < c ==> is_ink_span(
                        cell_of(font@, glyph_width as int, glyph_height as int, code),
                        space_width as int,
                        ((#[trigger] widths@[code]).0 as int, widths@[code].1 as int),
                    ),
            decreases nb_glyphs - c,
        {
            proof {
                lemma_cell_inside(
                    font.width as int,
                    font.height as int,
                    glyph_width as int,
                    glyph_height as int,
                    c as int,
                );
            }
            let x: u32 = c % columns;
            let y: u32 = c / columns;
            let glyph = font.crop_imm(x * glyph_width, y * glyph_height, glyph_width, glyph_height);
            let span = ink_span(&glyph, space_width);
            widths.push(span);
            c = c + 1;
        }
        BitmapFont {
            font,
            glyph_width,
            glyph_height,
            widths,
            space_width,
            letter_spacing,
            nb_glyphs,
        }
    }

    /// Returns the image of the glyph of `c` and its width on screen; the
    /// width includes the letter spacing.
    pub fn get_glyph(&self, c: u32, monospace: bool) -> (glyph: (Bitmap, u32))
        requires
            self.wf(),
            self.draws(c as int, monospace),
        ensures
            glyph.0.wf(),
            glyph.0@ == self.glyph(c as int, monospace),
            glyph.1 == self.advance(c as int, monospace),
    {
        let code: u32 = if c >= self.nb_glyphs { FALLBACK_CODE } else { c };
        let gw: u32 = self.glyph_width;
        let gh: u32 = self.glyph_height;
        proof {
            lemma_cell_inside(
                self.font.width as int,
                self.font.height as int,
                gw as int,
                gh as int,
                code as int,
            );
            let span = self.spans()[code as int];
            let cell = self.cell(code as int);
            if has_ink(cell) {
                let j = choose|j: int| #[trigger] inked(cell, j) && cell.column(j) == span.0;
                let k = choose|k: int| #[trigger] inked(cell, k) && cell.column(k) == span.1;
                lemma_mod_bound(j, cell.width);
                lemma_mod_bound(k, cell.width);
                assert(span.0 <= cell.column(k));
            }
        }
        let columns: u32 = self.font.width / gw;
        let x: u32 = code % columns;
        let y: u32 = code / columns;
        let mut first_pixel: u32 = x * gw;
        let mut width: u32 = gw;
        if !monospace {
            let real_size = self.widths[code as usize];
            first_pixel = first_pixel + real_size.0;
            width = real_size.1 - real_size.0 + 1;
        }
        let glyph = self.font.crop_imm(first_pixel, y * gh, width, gh);
        (glyph, width + self.letter_spacing)
    }
}

/// A cell without ink has the made-up span from 0 to the space width:
/// cut down to its ink, its glyph is the part of the atlas that starts at
/// the first column of the cell and is one column wider than the space
/// width, and it moves the pen by that width and the letter spacing.
pub proof fn lemma_blank_cell_span(font: BitmapFont, code: int)
    requires
        font.wf(),
        0 <= code < font.nb_glyphs,
        !has_ink(font.cell(code)),
    ensures
        font.spans()[code] == (0u32, font.space_width),
        font.glyph_width_of(code, false) == font.space_width + 1,
        font.advance(code, false) == font.space_width + 1 + font.letter_spacing,
        font.glyph(code, false) == font.font@.cropped(
            (code % font.columns()) * font.glyph_width,
            (code / font.columns()) * font.glyph_height,
            font.space_width + 1,
            font.glyph_height as int,
        ),
{
}

/// A code beyond the atlas is drawn as the question mark is.
pub proof fn lemma_unknown_code_is_fallback(font: BitmapFont, code: int, monospace: bool)
    requires
        code >= font.nb_glyphs,
    ensures
        font.glyph(code, monospace) == font.glyph(FALLBACK_CODE as int, monospace),
        font.advance(code, monospace) == font.advance(FALLBACK_CODE as int, monospace),
{
}

} // verus!
