//! Decoded images: a rectangle of colors, row by row.

use vstd::prelude::*;
use vstd::arithmetic::div_mod::lemma_fundamental_div_mod_converse;
use crate::color::Color;

verus! {

/// An image held in memory: `width * height` colors in row-major order.
#[derive(Debug)]
pub struct Bitmap {
    pub width: u32,
    pub height: u32,
    pub pixels: Vec<Color>,
}

/// The mathematical model of an image.
#[verifier::ext_equal]
pub struct Picture {
    pub width: int,
    pub height: int,
    pub pixels: Seq<Color>,
}

pub open spec fn smaller(a: int, b: int) -> int {
    if a <= b {
        a
    } else {
        b
    }
}

impl Picture {
    pub open spec fn wf(self) -> bool {
        &&& 0 <= self.width
        &&& 0 <= self.height
        &&& self.pixels.len() == self.width * self.height
    }

    pub open spec fn pixel(self, x: int, y: int) -> Color {
        self.pixels[y * self.width + x]
    }

    /// The column in which the `j`-th pixel of the row-major order sits.
    pub open spec fn column(self, j: int) -> int {
        j % self.width
    }

    /// The row in which the `j`-th pixel of the row-major order sits.
    pub open spec fn row(self, j: int) -> int {
        j / self.width
    }

    /// The part of the picture inside the rectangle with top left corner
    /// `(x, y)`, `w` columns wide and `h` rows high.  A rectangle that
    /// reaches beyond the picture is cut down to what lies inside.
    pub open spec fn cropped(self, x: int, y: int, w: int, h: int) -> Picture {
        let left = smaller(x, self.width);
        let top = smaller(y, self.height);
        let cw = smaller(w, self.width - left);
        let ch = smaller(h, self.height - top);
        Picture {
            width: cw,
            height: ch,
            pixels: Seq::new((cw * ch) as nat, |j: int| self.pixel(left + j % cw, top + j / cw)),
        }
    }
}

impl View for Bitmap {
    type V = Picture;

    open spec fn view(&self) -> Picture {
        Picture { width: self.width as int, height: self.height as int, pixels: self.pixels@ }
    }
}

/// Row-major positions: pixel `(x, y)` of a picture `w` wide is the
/// `y * w + x`-th, and lies inside a picture `h` high.
pub proof fn lemma_row_major(w: int, h: int, x: int, y: int)
    requires
        0 <= x < w,
        0 <= y < h,
    ensures
        0 <= y * w + x < w * h,
        (y * w + x) % w == x,
        (y * w + x) / w == y,
{
    assert(0 <= y * w) by (nonlinear_arith)
        requires
            0 <= y,
            0 <= w,
    ;
    assert(y * w + w <= h * w) by (nonlinear_arith)
        requires
            y + 1 <= h,
            0 <= w,
    ;
    assert(h * w == w * h) by (nonlinear_arith);
    lemma_fundamental_div_mod_converse(y * w + x, w, y, x);
}

impl Bitmap {
    /// The pixel data has exactly `width * height` entries.
    pub open spec fn wf(&self) -> bool {
        self@.wf()
    }

    /// An image from its pixels in row-major order; `None` unless there
    /// are exactly `width * height` of them.
    pub fn new(width: u32, height: u32, pixels: Vec<Color>) -> (bitmap: Option<Bitmap>)
        ensures
            bitmap.is_some() <==> pixels@.len() == width * height,
            bitmap matches Some(b) ==> b.wf() && b.width == width && b.height == height
                && b.pixels@ == pixels@,
    {
        assert(width * height <= 0xFFFF_FFFF * 0xFFFF_FFFF) by (nonlinear_arith)
            requires
                0 <= width <= 0xFFFF_FFFF,
                0 <= height <= 0xFFFF_FFFF,
        ;
        if pixels.len() as u64 == width as u64 * height as u64 {
            Some(Bitmap { width, height, pixels })
        } else {
            None
        }
    }

    /// The color at `(x, y)`, which must lie inside the image.
    pub fn get_pixel(&self, x: u32, y: u32) -> (color: Color)
        requires
            self.wf(),
            x < self.width,
            y < self.height,
        ensures
            color == self@.pixel(x as int, y as int),
    {
        proof {
            lemma_row_major(self.width as int, self.height as int, x as int, y as int);
            assert(self.pixels@.len() == self.pixels.len());
        }
        self.pixels[y as usize * self.width as usize + x as usize]
    }

    /// Returns a cut-out of this image delimited by the bounding rectangle.
    pub fn crop_imm(&self, x: u32, y: u32, width: u32, height: u32) -> (cut: Bitmap)
        requires
            self.wf(),
        ensures
            cut.wf(),
            cut@ == self@.cropped(x as int, y as int, width as int, height as int),
    {
        let left: u32 = if x < self.width { x } else { self.width };
        let top: u32 = if y < self.height { y } else { self.height };
        let cw: u32 = if width < self.width - left { width } else { self.width - left };
        let ch: u32 = if height < self.height - top { height } else { self.height - top };
        let ghost want = self@.cropped(x as int, y as int, width as int, height as int);
        let mut pixels: Vec<Color> = Vec::new();
        let mut dy: u32 = 0;
        proof {
            assert(0 <= cw * ch) by (nonlinear_arith)
                requires
                    0 <= cw,
                    0 <= ch,
            ;
        }
        while dy < ch
            invariant
                self.wf(),
                left == smaller(x as int, self.width as int),
                top == smaller(y as int, self.height as int),
                cw == smaller(width as int, self.width - left),
                ch == smaller(height as int, self.height - top),
                left + cw <= self.width,
                top + ch <= self.height,
                0 <= dy <= ch,
                want == self@.cropped(x as int, y as int, width as int, height as int),
                want.width == cw,
                want.height == ch,
                want.pixels.len() == cw * ch,
                pixels@.len() == dy * cw,
                forall|j: int| 0 <= j < pixels@.len() ==> pixels@[j] == want.pixels[j],
            decreases ch - dy,
        {
            let mut dx: u32 = 0;
            while dx < cw
                invariant
                    self.wf(),
                    left == smaller(x as int, self.width as int),
                    top == smaller(y as int, self.height as int),
                    cw == smaller(width as int, self.width - left),
                    ch == smaller(height as int, self.height - top),
                    left + cw <= self.width,
                    top + ch <= self.height,
                    0 <= dy < ch,
                    0 <= dx <= cw,
                    want == self@.cropped(x as int, y as int, width as int, height as int),
                    want.width == cw,
                    want.height == ch,
                    want.pixels.len() == cw * ch,
                    pixels@.len() == dy * cw + dx,
                    forall|j: int| 0 <= j < pixels@.len() ==> pixels@[j] == want.pixels[j],
                decreases cw - dx,
            {
                proof {
                    lemma_row_major(cw as int, ch as int, dx as int, dy as int);
                    lemma_row_major(
                        self.width as int,
                        self.height as int,
                        left + dx,
                        top + dy,
                    );
                    assert(self.pixels@.len() == self.pixels.len());
                }
                let at: usize = (top + dy) as usize * self.width as usize + (left + dx) as usize;
                assert(want.pixels[dy * cw + dx] == self@.pixel(left + dx, top + dy));
                pixels.push(self.pixels[at]);
                dx = dx + 1;
            }
            proof {
                assert((dy + 1) * cw == dy * cw + cw) by (nonlinear_arith);
            }
            dy = dy + 1;
        }
        let cut = Bitmap { width: cw, height: ch, pixels };
        proof {
            assert(ch * cw == cw * ch) by (nonlinear_arith);
            assert(cut@.pixels =~= want.pixels);
        }
        cut
    }
}

} // verus!
