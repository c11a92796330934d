//! Text: glyphs are stencils, drawn in one color, with an optional
//! one-pixel outline.

use vstd::prelude::*;
use vstd::arithmetic::div_mod::{lemma_mod_bound, lemma_multiply_divide_lt};
use crate::bitmap::{Bitmap, Picture};
use crate::bitmap_font::{has_ink, inked, lemma_cell_inside, BitmapFont, FALLBACK_CODE};
use crate::canvas::Canvas;
use crate::color::Color;
use crate::frame::{lemma_plot_all_concat, lemma_plot_all_push, Plot};

verus! {

/// The color of text for which none is given: opaque white.
pub open spec fn default_ink() -> Color {
    Color { r: 255, g: 255, b: 255, a: 255 }
}

/// The pixel writes that draw the first `n` pixels of a glyph picture, in
/// row-major order, with its top left corner at `(x, y)`: every pixel that
/// is not fully transparent is drawn in `color`, whatever its own color.
pub open spec fn stencil_plots(pic: Picture, x: int, y: int, color: Color, n: int) -> Seq<Plot>
    decreases n,
{
    if n <= 0 {
        Seq::empty()
    } else {
        let j = n - 1;
        let before = stencil_plots(pic, x, y, color, j);
        if pic.pixels[j].a == 0 {
            before
        } else {
            before.push(Plot::at(x + pic.column(j), y + pic.row(j), color))
        }
    }
}

/// The pixel writes that draw a whole glyph picture.
pub open spec fn glyph_plots(pic: Picture, x: int, y: int, color: Color) -> Seq<Plot> {
    stencil_plots(pic, x, y, color, pic.pixels.len() as int)
}

impl BitmapFont {
    /// Whether the font can draw every character: it has a glyph for it,
    /// cut down to its ink, and the advance width of that glyph fits.
    pub open spec fn covers_text(&self, text: Seq<char>) -> bool {
        forall|i: int| 0 <= i < text.len() ==> self.draws(#[trigger] text[i] as int, false)
    }

    /// The width of a text on screen: the sum of the advance widths of its
    /// characters, each cut down to its ink.
    pub open spec fn text_advance(&self, text: Seq<char>) -> int
        decreases text.len(),
    {
        if text.len() == 0 {
            0
        } else {
            self.text_advance(text.drop_last()) + self.advance(text.last() as int, false)
        }
    }
}

/// One pass over a text: each glyph is drawn where the advance widths of
/// the characters before it put the pen.
pub open spec fn text_plots(font: BitmapFont, text: Seq<char>, x: int, y: int, color: Color) -> Seq<
    Plot,
>
    decreases text.len(),
{
    if text.len() == 0 {
        Seq::empty()
    } else {
        let front = text.drop_last();
        text_plots(font, front, x, y, color) + glyph_plots(
            font.glyph(text.last() as int, false),
            x + font.text_advance(front),
            y,
            color,
        )
    }
}

/// The first `n` of the nine passes of an outline: the text at the offsets
/// `(-1, -1)`, `(-1, 0)`, `(-1, 1)`, `(0, -1)` and so on to `(1, 1)`.
pub open spec fn border_plots(font: BitmapFont, text: Seq<char>, x: int, y: int, border: Color, n: int) -> Seq<
    Plot,
>
    decreases n,
{
    if n <= 0 {
        Seq::empty()
    } else {
        border_plots(font, text, x, y, border, n - 1) + text_plots(
            font,
            text,
            x + (n - 1) / 3 - 1,
            y + (n - 1) % 3 - 1,
            border,
        )
    }
}

/// What `print` draws: with a border color the nine outline passes, the
/// one without offset among them, and then the text itself.
pub open spec fn print_plots(
    font: BitmapFont,
    text: Seq<char>,
    x: int,
    y: int,
    color: Option<Color>,
    border: Option<Color>,
) -> Seq<Plot> {
    let ink = match color {
        Some(c) => c,
        None => default_ink(),
    };
    match border {
        Some(b) => border_plots(font, text, x, y, b, 9) + text_plots(font, text, x, y, ink),
        None => text_plots(font, text, x, y, ink),
    }
}

/// No glyph moves the pen backwards.
pub proof fn lemma_advance_positive(font: BitmapFont, code: int, monospace: bool)
    requires
        font.wf(),
        font.has_glyph(code),
    ensures
        0 < font.glyph_width_of(code, monospace),
        0 < font.advance(code, monospace),
{
    let cell = font.cell(font.resolve(code));
    let span = font.spans()[font.resolve(code)];
    if has_ink(cell) {
        let j = choose|j: int| #[trigger]
            inked(cell, j) && cell.column(j) == span.0;
        let k = choose|k: int| #[trigger]
            inked(cell, k) && cell.column(k) == span.1;
        lemma_cell_inside(
            font.font.width as int,
            font.font.height as int,
            font.glyph_width as int,
            font.glyph_height as int,
            font.resolve(code),
        );
        lemma_mod_bound(j, cell.width);
        lemma_mod_bound(k, cell.width);
        assert(span.0 <= cell.column(k));
    }
}

/// The width of a text is at least the width of each of its beginnings.
pub proof fn lemma_text_advance_grows(font: BitmapFont, text: Seq<char>, n: int)
    requires
        font.wf(),
        font.covers_text(text),
        0 <= n <= text.len(),
    ensures
        0 <= font.text_advance(text.take(n)) <= font.text_advance(text),
        font.covers_text(text.take(n)),
    decreases text.len(),
{
    if n == text.len() {
        assert(text.take(n) =~= text);
        if text.len() > 0 {
            assert(font.draws(text[text.len() - 1] as int, false));
            lemma_advance_positive(font, text.last() as int, false);
            assert(text.drop_last() =~= text.take(n - 1));
            lemma_text_advance_grows(font, text.drop_last(), n - 1);
            assert(text.drop_last().take(n - 1) =~= text.drop_last());
        }
    } else {
        let front = text.drop_last();
        assert(font.draws(text[text.len() - 1] as int, false));
        lemma_advance_positive(font, text.last() as int, false);
        assert(font.covers_text(front)) by {
            assert forall|i: int| 0 <= i < front.len() implies font.draws(#[trigger] front[i] as int, false) by {
                assert(front[i] == text[i]);
            }
        }
        lemma_text_advance_grows(font, front, n);
        assert(front.take(n) =~= text.take(n));
    }
}

impl BitmapFont {
    /// Whether `text` can be printed in this font: there is a glyph to draw
    /// for every character, and the width of the text fits an `i32`.
    pub fn text_fits(&self, text: &str) -> (fits: bool)
        requires
            self.wf(),
        ensures
            fits == (self.covers_text(text@) && self.text_advance(text@) <= i32::MAX),
    {
        let n = text.unicode_len();
        let mut i: usize = 0;
        let mut len: u64 = 0;
        proof {
            assert(text@.take(0) =~= Seq::<char>::empty());
        }
        while i < n
            invariant
                self.wf(),
                n == text@.len(),
                0 <= i <= n,
                self.covers_text(text@.take(i as int)),
                len == self.text_advance(text@.take(i as int)),
                len <= i32::MAX,
            decreases n - i,
        {
            let c = text.get_char(i);
            let code: u32 = c as u32;
            if code >= self.nb_glyphs && FALLBACK_CODE >= self.nb_glyphs {
                assert(!self.draws(text@[i as int] as int, false));
                return false;
            }
            let ghost front = text@.take(i as int);
            let ghost more = text@.take(i + 1);
            proof {
                assert(more.drop_last() =~= front);
                assert(more.last() == c);
                lemma_advance_positive(*self, c as int, false);
            }
            let cell: u32 = if code >= self.nb_glyphs { FALLBACK_CODE } else { code };
            let span = self.widths[cell as usize];
            let step: u64 = (span.1 - span.0) as u64 + 1 + self.letter_spacing as u64;
            if step > i32::MAX as u64 || len + step > i32::MAX as u64 {
                proof {
                    if self.covers_text(text@) {
                        lemma_text_advance_grows(*self, text@, i + 1);
                    }
                }
                return false;
            }
            len = len + step;
            proof {
                assert(self.covers_text(more)) by {
                    assert forall|k: int| 0 <= k < more.len() implies self.draws(
                        #[trigger] more[k] as int,
                        false,
                    ) by {
                        if k < i {
                            assert(more[k] == front[k]);
                        }
                    }
                }
            }
            i = i + 1;
        }
        proof {
            assert(text@.take(n as int) =~= text@);
        }
        true
    }
}

impl Canvas {
    /// Draws the ink pixels of a glyph in one color.
    fn stencil(&mut self, glyph: &Bitmap, x: i64, y: i64, color: Color)
        requires
            old(self).wf(),
            glyph.wf(),
            -0x1_0000_0000_0000 <= x <= 0x1_0000_0000_0000,
            -0x1_0000_0000_0000 <= y <= 0x1_0000_0000_0000,
        ensures
            final(self).wf(),
            final(self)@ == old(self)@.plot_all(glyph_plots(glyph@, x as int, y as int, color)),
    {
        let n = glyph.pixels.len();
        let mut j: usize = 0;
        while j < n
            invariant
                self.wf(),
                glyph.wf(),
                n == glyph.pixels@.len(),
                0 <= j <= n,
                -0x1_0000_0000_0000 <= x <= 0x1_0000_0000_0000,
                -0x1_0000_0000_0000 <= y <= 0x1_0000_0000_0000,
                self@ == old(self)@.plot_all(
                    stencil_plots(glyph@, x as int, y as int, color, j as int),
                ),
            decreases n - j,
        {
            proof {
                assert(glyph.width != 0) by (nonlinear_arith)
                    requires
                        0 < glyph.width * glyph.height,
                ;
                lemma_mod_bound(j as int, glyph.width as int);
                assert(glyph.height * glyph.width == glyph.width * glyph.height)
                    by (nonlinear_arith);
                lemma_multiply_divide_lt(j as int, glyph.width as int, glyph.height as int);
            }
            if glyph.pixels[j].a != 0 {
                let x_offset: usize = j % glyph.width as usize;
                let y_offset: usize = j / glyph.width as usize;
                proof {
                    lemma_plot_all_push(
                        old(self)@,
                        stencil_plots(glyph@, x as int, y as int, color, j as int),
                        Plot::at(x + x_offset, y + y_offset, color),
                    );
                }
                self.put(x + x_offset as i64, y + y_offset as i64, color);
            }
            j = j + 1;
        }
    }

    /// One pass over the text in one color.
    fn print_pass(&mut self, text: &str, x: i64, y: i64, font: &BitmapFont, color: Color)
        requires
            old(self).wf(),
            font.wf(),
            font.covers_text(text@),
            font.text_advance(text@) <= i32::MAX,
            -0x1_0000_0000 <= x <= 0x1_0000_0000,
            -0x1_0000_0000 <= y <= 0x1_0000_0000,
        ensures
            final(self).wf(),
            final(self)@ == old(self)@.plot_all(
                text_plots(*font, text@, x as int, y as int, color),
            ),
    {
        let n = text.unicode_len();
        let mut i: usize = 0;
        let mut pen: i64 = x;
        proof {
            assert(text@.take(0) =~= Seq::<char>::empty());
        }
        while i < n
            invariant
                self.wf(),
                font.wf(),
                font.covers_text(text@),
                font.text_advance(text@) <= i32::MAX,
                -0x1_0000_0000 <= x <= 0x1_0000_0000,
                -0x1_0000_0000 <= y <= 0x1_0000_0000,
                n == text@.len(),
                0 <= i <= n,
                pen == x + font.text_advance(text@.take(i as int)),
                self@ == old(self)@.plot_all(
                    text_plots(*font, text@.take(i as int), x as int, y as int, color),
                ),
            decreases n - i,
        {
            let c = text.get_char(i);
            proof {
                lemma_text_advance_grows(*font, text@, i as int);
                lemma_text_advance_grows(*font, text@, i + 1);
                assert(text@.take(i + 1).drop_last() =~= text@.take(i as int));
                assert(text@.take(i + 1).last() == c);
                assert(font.draws(text@[i as int] as int, false));
                lemma_advance_positive(*font, c as int, false);
                lemma_plot_all_concat(
                    old(self)@,
                    text_plots(*font, text@.take(i as int), x as int, y as int, color),
                    glyph_plots(font.glyph(c as int, false), pen as int, y as int, color),
                );
            }
            let glyph = font.get_glyph(c as u32, false);
            self.stencil(&glyph.0, pen, y, color);
            pen = pen + glyph.1 as i64;
            i = i + 1;
        }
        proof {
            assert(text@.take(n as int) =~= text@);
        }
    }

    /// `print` with the pen on the 64-bit plane.
    fn print_at(
        &mut self,
        text: &str,
        x: i64,
        y: i64,
        font: &BitmapFont,
        color: Option<Color>,
        border: Option<Color>,
    )
        requires
            old(self).wf(),
            font.wf(),
            font.covers_text(text@),
            font.text_advance(text@) <= i32::MAX,
            -0xFFFF_FFFF <= x <= 0xFFFF_FFFF,
            -0xFFFF_FFFF <= y <= 0xFFFF_FFFF,
        ensures
            final(self).wf(),
            final(self)@ == old(self)@.plot_all(
                print_plots(*font, text@, x as int, y as int, color, border),
            ),
    {
        let ghost start = self@;
        if let Some(border) = border {
            let mut i: i64 = -1;
            while i <= 1
                invariant
                    self.wf(),
                    font.wf(),
                    font.covers_text(text@),
                    font.text_advance(text@) <= i32::MAX,
                    -0xFFFF_FFFF <= x <= 0xFFFF_FFFF,
                    -0xFFFF_FFFF <= y <= 0xFFFF_FFFF,
                    -1 <= i <= 2,
                    self@ == start.plot_all(
                        border_plots(*font, text@, x as int, y as int, border, (i + 1) * 3),
                    ),
                decreases 2 - i,
            {
                let mut j: i64 = -1;
                while j <= 1
                    invariant
                        self.wf(),
                        font.wf(),
                        font.covers_text(text@),
                        font.text_advance(text@) <= i32::MAX,
                        -0xFFFF_FFFF <= x <= 0xFFFF_FFFF,
                        -0xFFFF_FFFF <= y <= 0xFFFF_FFFF,
                        -1 <= i <= 1,
                        -1 <= j <= 2,
                        self@ == start.plot_all(
                            border_plots(
                                *font,
                                text@,
                                x as int,
                                y as int,
                                border,
                                (i + 1) * 3 + (j + 1),
                            ),
                        ),
                    decreases 2 - j,
                {
                    proof {
                        let done = (i + 1) * 3 + (j + 1);
                        assert(done / 3 - 1 == i && done % 3 - 1 == j);
                        lemma_plot_all_concat(
                            start,
                            border_plots(*font, text@, x as int, y as int, border, done),
                            text_plots(*font, text@, x + i, y + j, border),
                        );
                    }
                    self.print_pass(text, x + i, y + j, font, border);
                    j = j + 1;
                }
                i = i + 1;
            }
        }
        let ink = match color {
            Some(c) => c,
            None => Color::from_rgb(255, 255, 255),
        };
        proof {
            match border {
                Some(b) => {
                    lemma_plot_all_concat(
                        start,
                        border_plots(*font, text@, x as int, y as int, b, 9),
                        text_plots(*font, text@, x as int, y as int, ink),
                    );
                },
                None => {},
            }
        }
        self.print_pass(text, x, y, font, ink);
    }

    /// The width of `text` on screen in pixels.
    pub fn print_len(&self, text: &str, font: &BitmapFont) -> (len: usize)
        requires
            font.wf(),
            font.covers_text(text@),
            font.text_advance(text@) <= usize::MAX,
        ensures
            len == font.text_advance(text@),
    {
        let n = text.unicode_len();
        let mut i: usize = 0;
        let mut len: usize = 0;
        proof {
            assert(text@.take(0) =~= Seq::<char>::empty());
        }
        while i < n
            invariant
                font.wf(),
                font.covers_text(text@),
                font.text_advance(text@) <= usize::MAX,
                n == text@.len(),
                0 <= i <= n,
                len == font.text_advance(text@.take(i as int)),
            decreases n - i,
        {
            let c = text.get_char(i);
            proof {
                lemma_text_advance_grows(*font, text@, i + 1);
                assert(text@.take(i + 1).drop_last() =~= text@.take(i as int));
                assert(text@.take(i + 1).last() == c);
                assert(font.draws(text@[i as int] as int, false));
            }
            let glyph = font.get_glyph(c as u32, false);
            len = len + glyph.1 as usize;
            i = i + 1;
        }
        proof {
            assert(text@.take(n as int) =~= text@);
        }
        len
    }

    /// Draws `text` so that `x` is the middle of its width.
    pub fn print_center(
        &mut self,
        text: &str,
        x: i32,
        y: i32,
        font: &BitmapFont,
        color: Option<Color>,
        border: Option<Color>,
    )
        requires
            old(self).wf(),
            font.wf(),
            font.covers_text(text@),
            font.text_advance(text@) <= i32::MAX,
        ensures
            final(self).wf(),
            final(self)@ == old(self)@.plot_all(
                print_plots(
                    *font,
                    text@,
                    x - font.text_advance(text@) / 2,
                    y as int,
                    color,
                    border,
                ),
            ),
    {
        let len = self.print_len(text, font);
        self.print_at(text, x as i64 - len as i64 / 2, y as i64, font, color, border)
    }

    /// Draws `text` with the top left corner of its first glyph at
    /// `(x, y)`, in `color` or in white.  With a `border` color the text is
    /// first drawn in that color at each of the nine positions at most one
    /// pixel away, which leaves an outline one pixel wide.
    pub fn print(
        &mut self,
        text: &str,
        x: i32,
        y: i32,
        font: &BitmapFont,
        color: Option<Color>,
        border: Option<Color>,
    )
        requires
            old(self).wf(),
            font.wf(),
            font.covers_text(text@),
            font.text_advance(text@) <= i32::MAX,
        ensures
            final(self).wf(),
            final(self)@ == old(self)@.plot_all(
                print_plots(*font, text@, x as int, y as int, color, border),
            ),
    {
        self.print_at(text, x as i64, y as i64, font, color, border)
    }
}

} // verus!
