//! Copying images and sprites onto the canvas.

use vstd::prelude::*;
use vstd::arithmetic::div_mod::{lemma_mod_bound, lemma_multiply_divide_lt};
use crate::bitmap::{Bitmap, Picture};
use crate::canvas::Canvas;
use crate::color::Color;
use crate::frame::{lemma_plot_all_push, Plot};
use crate::spritesheet::Spritesheet;

verus! {

/// The pixel writes that copy the first `n` pixels of a picture, in
/// row-major order, to the place whose top left corner is `(x, y)`.
/// Pixels that equal the `transparent` color are left out.
pub open spec fn blit_plots(pic: Picture, x: int, y: int, transparent: Option<Color>, n: int) -> Seq<
    Plot,
>
    decreases n,
{
    if n <= 0 {
        Seq::empty()
    } else {
        let j = n - 1;
        let before = blit_plots(pic, x, y, transparent, j);
        if transparent == Some(pic.pixels[j]) {
            before
        } else {
            before.push(Plot::at(x + pic.column(j), y + pic.row(j), pic.pixels[j]))
        }
    }
}

/// The pixel writes that copy a whole picture.
pub open spec fn image_plots(pic: Picture, x: int, y: int, transparent: Option<Color>) -> Seq<Plot> {
    blit_plots(pic, x, y, transparent, pic.pixels.len() as int)
}

/// What `sprite` draws: the tile in column `tx` of row `ty`, if the sheet
/// has a tile of that number.
pub open spec fn sprite_plots(
    sheet: Spritesheet,
    tx: int,
    ty: int,
    x: int,
    y: int,
    transparent: Option<Color>,
) -> Seq<Plot> {
    let idx = ty * sheet.tiles_per_row + tx;
    if idx < sheet.sprites@.len() {
        image_plots(sheet.sprites@[idx]@, x, y, transparent)
    } else {
        Seq::empty()
    }
}

impl Canvas {
    /// Copies an image to the canvas with its top left corner at
    /// `(pos_x, pos_y)`, pixel by pixel through `set_pixel`.  Pixels that
    /// equal `transparent` are skipped.
    pub fn image(&mut self, img: &Bitmap, pos_x: i32, pos_y: i32, transparent: Option<Color>)
        requires
            old(self).wf(),
            img.wf(),
        ensures
            final(self).wf(),
            final(self)@ == old(self)@.plot_all(
                image_plots(img@, pos_x as int, pos_y as int, transparent),
            ),
    {
        let n = img.pixels.len();
        let mut j: usize = 0;
        while j < n
            invariant
                self.wf(),
                img.wf(),
                n == img.pixels@.len(),
                0 <= j <= n,
                self@ == old(self)@.plot_all(
                    blit_plots(img@, pos_x as int, pos_y as int, transparent, j as int),
                ),
            decreases n - j,
        {
            proof {
                assert(img.width != 0) by (nonlinear_arith)
                    requires
                        0 < img.width * img.height,
                ;
                lemma_mod_bound(j as int, img.width as int);
                assert(img.height * img.width == img.width * img.height) by (nonlinear_arith);
                lemma_multiply_divide_lt(j as int, img.width as int, img.height as int);
            }
            let c = img.pixels[j];
            let x: usize = j % img.width as usize;
            let y: usize = j / img.width as usize;
            let skip = match transparent {
                Some(key) => c == key,
                None => false,
            };
            if !skip {
                proof {
                    lemma_plot_all_push(
                        old(self)@,
                        blit_plots(img@, pos_x as int, pos_y as int, transparent, j as int),
                        Plot::at(pos_x + x, pos_y + y, c),
                    );
                }
                self.put(pos_x as i64 + x as i64, pos_y as i64 + y as i64, c);
            }
            j = j + 1;
        }
    }

    /// Draws the tile in column `tx` of row `ty` of the sheet at `(x, y)`.
    /// Returns whether the sheet has such a tile; if not, nothing is drawn.
    pub fn sprite(
        &mut self,
        tx: u32,
        ty: u32,
        x: i32,
        y: i32,
        spritesheet: &Spritesheet,
        transparent: Option<Color>,
    ) -> (found: bool)
        requires
            old(self).wf(),
            spritesheet.wf(),
        ensures
            final(self).wf(),
            found <==> ty * spritesheet.tiles_per_row + tx < spritesheet.sprites@.len(),
            final(self)@ == old(self)@.plot_all(
                sprite_plots(*spritesheet, tx as int, ty as int, x as int, y as int, transparent),
            ),
    {
        assert(ty * spritesheet.tiles_per_row <= 0xFFFF_FFFF * 0xFFFF_FFFF) by (nonlinear_arith)
            requires
                0 <= ty <= 0xFFFF_FFFF,
                0 <= spritesheet.tiles_per_row <= 0xFFFF_FFFF,
        ;
        let wide: u64 = ty as u64 * spritesheet.tiles_per_row as u64 + tx as u64;
        if wide >= spritesheet.sprites.len() as u64 || wide > u32::MAX as u64 {
            return false;
        }
        let idx = spritesheet.tile_idx(tx, ty);
        self.image(&spritesheet.sprites[idx], x, y, transparent);
        true
    }
}

} // verus!
