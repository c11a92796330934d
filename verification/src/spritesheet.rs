//! Sprite sheets: an atlas image cut into tiles.

use vstd::prelude::*;
use vstd::arithmetic::div_mod::{lemma_fundamental_div_mod, lemma_mod_bound};
use crate::bitmap::{Bitmap, Picture};

verus! {

/// An atlas and its tiles, numbered row by row from the top left one.
pub struct Spritesheet {
    pub image: Bitmap,
    pub sprites: Vec<Bitmap>,
    pub tile_width: u32,
    pub tile_height: u32,
    pub tiles_per_row: u32,
}

/// How many tiles of `tw` by `th` pixels are cut from an atlas of `w` by
/// `h` pixels.
pub open spec fn tile_count(w: int, h: int, tw: int, th: int) -> int {
    (w / tw) * h / th
}

/// The picture of tile `id`.  A tile that reaches below the atlas is cut
/// off at its lower edge.
pub open spec fn tile_of(atlas: Picture, tw: int, th: int, id: int) -> Picture {
    let per_row = atlas.width / tw;
    atlas.cropped((id % per_row) * tw, (id / per_row) * th, tw, th)
}

/// The corner of a tile with a number below the tile count lies inside the
/// atlas or on its lower edge.
proof fn lemma_tile_corner(w: int, h: int, tw: int, th: int, id: int)
    requires
        0 <= w,
        0 <= h,
        0 < tw,
        0 < th,
        0 <= id < tile_count(w, h, tw, th),
    ensures
        0 < w / tw,
        0 <= id % (w / tw) < w / tw,
        0 <= (id % (w / tw)) * tw <= w,
        0 <= id / (w / tw),
        0 <= (id / (w / tw)) * th <= h,
{
    let per_row = w / tw;
    let x = id % per_row;
    let y = id / per_row;
    assert(0 <= per_row) by (nonlinear_arith)
        requires
            0 <= w,
            0 < tw,
            per_row == w / tw,
    ;
    if per_row == 0 {
        assert(per_row * h == 0) by (nonlinear_arith)
            requires
                per_row == 0,
        ;
        assert(0int / th == 0) by (nonlinear_arith)
            requires
                0 < th,
        ;
    }
    lemma_mod_bound(id, per_row);
    lemma_fundamental_div_mod(w, tw);
    lemma_mod_bound(w, tw);
    assert(0 <= x * tw && x * tw <= tw * per_row) by (nonlinear_arith)
        requires
            0 <= x < per_row,
            0 < tw,
    ;
    lemma_fundamental_div_mod(per_row * h, th);
    lemma_mod_bound(per_row * h, th);
    lemma_fundamental_div_mod(id, per_row);
    let count = (per_row * h) / th;
    assert(0 <= y && y * th <= h) by (nonlinear_arith)
        requires
            0 <= id < count,
            0 < per_row,
            0 < th,
            0 <= h,
            per_row * h == th * count + (per_row * h) % th,
            0 <= (per_row * h) % th,
            id == per_row * y + x,
            0 <= x < per_row,
    ;
    assert(0 <= y * th) by (nonlinear_arith)
        requires
            0 <= y,
            0 < th,
    ;
}

impl Spritesheet {
    /// Every tile was cut from the atlas at its place.
    pub open spec fn wf(&self) -> bool {
        &&& self.image.wf()
        &&& self.tile_width > 0
        &&& self.tile_height > 0
        &&& self.tiles_per_row == self.image.width as int / self.tile_width as int
        &&& self.sprites@.len() <= u32::MAX
        &&& self.sprites@.len() == tile_count(
            self.image.width as int,
            self.image.height as int,
            self.tile_width as int,
            self.tile_height as int,
        )
        &&& forall|id: int|
            0 <= id < self.sprites@.len() ==> (#[trigger] self.sprites@[id]).wf()
                && self.sprites@[id]@ == tile_of(
                self.image@,
                self.tile_width as int,
                self.tile_height as int,
                id,
            )
    }

    /// Cuts the atlas into tiles of `tile_width` by `tile_height` pixels.
    pub fn new(image: Bitmap, tile_width: u32, tile_height: u32) -> (sheet: Spritesheet)
        requires
            image.wf(),
            tile_width > 0,
            tile_height > 0,
            (image.width as int / tile_width as int) * image.height <= u32::MAX,
        ensures
            sheet.wf(),
            sheet.image == image,
            sheet.tile_width == tile_width,
            sheet.tile_height == tile_height,
    {
        let tiles_per_row: u32 = image.width / tile_width;
        let mut sprites: Vec<Bitmap> = Vec::new();
        let nb_sprites: u32 = image.width / tile_width * image.height / tile_height;
        let mut i: u32 = 0;
        while i < nb_sprites
            invariant
                image.wf(),
                tile_width > 0,
                tile_height > 0,
                tiles_per_row == image.width as int / tile_width as int,
                nb_sprites == tile_count(
                    image.width as int,
                    image.height as int,
                    tile_width as int,
                    tile_height as int,
                ),
                0 <= i <= nb_sprites,
                sprites@.len() == i,
                forall|id: int|
                    0 <= id < i ==> (#[trigger] sprites@[id]).wf() && sprites@[id]@ == tile_of(
                        image@,
                        tile_width as int,
                        tile_height as int,
                        id,
                    ),
            decreases nb_sprites - i,
        {
            proof {
                lemma_tile_corner(
                    image.width as int,
                    image.height as int,
                    tile_width as int,
                    tile_height as int,
                    i as int,
                );
            }
            let x: u32 = i % tiles_per_row;
            let y: u32 = i / tiles_per_row;
            let sprite = image.crop_imm(x * tile_width, y * tile_height, tile_width, tile_height);
            sprites.push(sprite);
            i = i + 1;
        }
        Spritesheet { image, sprites, tile_width, tile_height, tiles_per_row }
    }

    /// The rectangle of sprite `id` on a sheet of 8 by 8 pixel sprites:
    /// left, top, width, height.
    pub fn get_sprite_rect(id: u32, spritesheet: &Bitmap) -> (rect: (u32, u32, u32, u32))
        requires
            spritesheet.width >= 8,
            (id as int / (spritesheet.width as int / 8)) * 8 <= u32::MAX,
        ensures
            rect.0 == (id as int % (spritesheet.width as int / 8)) * 8,
            rect.1 == (id as int / (spritesheet.width as int / 8)) * 8,
            rect.2 == 8,
            rect.3 == 8,
    {
        let w: u32 = spritesheet.width / 8;
        let x: u32 = id % w;
        let y: u32 = id / w;
        (x * 8, y * 8, 8, 8)
    }

    /// The number of the tile in column `x` of row `y`.
    pub fn tile_idx(&self, x: u32, y: u32) -> (idx: usize)
        requires
            y * self.tiles_per_row + x <= u32::MAX,
        ensures
            idx == y * self.tiles_per_row + x,
    {
        (y * self.tiles_per_row + x) as usize
    }
}

} // verus!
