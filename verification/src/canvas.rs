//! The frame buffer and its pixel primitives.

use vstd::prelude::*;
use crate::color::Color;
use crate::frame::{lemma_mask_extremes, lemma_offset_in_grid, mask_index, Frame, Plot};

verus! {

/// A mutable RGBA8 render target with a dither mask.
pub struct Canvas {
    /// Row-major pixel bytes, four per pixel: red, green, blue, alpha.
    pub grid: Vec<u8>,
    pub width: usize,
    pub height: usize,
    /// 4x4 repeating write mask; bit `(y % 4) * 4 + x % 4` gates pixel `(x, y)`.
    pub fill_pattern: u16,
}

impl View for Canvas {
    type V = Frame;

    open spec fn view(&self) -> Frame {
        Frame {
            grid: self.grid@,
            width: self.width as int,
            height: self.height as int,
            fill_pattern: self.fill_pattern,
        }
    }
}

impl Canvas {
    /// The buffer has exactly `width * height * 4` bytes.
    pub open spec fn wf(&self) -> bool {
        self@.wf()
    }

    /// A canvas of transparent black with a solid fill pattern.
    pub fn new(width: usize, height: usize) -> (canvas: Canvas)
        requires
            width * height * 4 <= usize::MAX,
        ensures
            canvas.wf(),
            canvas.width == width,
            canvas.height == height,
            canvas.fill_pattern == 0xFFFF,
            canvas.grid@ == Seq::new((width * height * 4) as nat, |i: int| 0u8),
    {
        assert(width * height <= width * height * 4) by (nonlinear_arith)
            requires
                0 <= width,
                0 <= height,
        ;
        let canvas = Canvas { grid: vec![0u8; width * height * 4], width, height, fill_pattern: u16::MAX };
        assert(canvas.grid@ =~= Seq::new((width * height * 4) as nat, |i: int| 0u8));
        canvas
    }

    /// Reads the pixel at `(x, y)`, which must lie on the canvas.
    pub fn get_pixel(&mut self, x: u32, y: u32) -> (color: Color)
        requires
            old(self).wf(),
            old(self)@.contains(x as int, y as int),
        ensures
            *final(self) == *old(self),
            color == old(self)@.pixel(x as int, y as int),
    {
        self.read(x as usize, y as usize)
    }

    fn read(&self, x: usize, y: usize) -> (color: Color)
        requires
            self.wf(),
            self@.contains(x as int, y as int),
        ensures
            color == self@.pixel(x as int, y as int),
    {
        proof {
            lemma_offset_in_grid(self@, x as int, y as int);
            assert(self.grid@.len() == self.grid.len());
        }
        let i: usize = (y * self.width + x) * 4;
        Color { r: self.grid[i], g: self.grid[i + 1], b: self.grid[i + 2], a: self.grid[i + 3] }
    }

    /// Writes one pixel.  Positions off the canvas and positions blocked by
    /// the fill pattern are left alone; a translucent color is blended over
    /// the pixel that is there.
    pub fn set_pixel(&mut self, x: i32, y: i32, color: Color)
        requires
            old(self).wf(),
        ensures
            final(self).wf(),
            final(self)@ == old(self)@.plot(Plot::at(x as int, y as int, color)),
            !old(self)@.contains(x as int, y as int) ==> final(self)@ == old(self)@,
            old(self).fill_pattern == 0 ==> final(self)@ == old(self)@,
    {
        proof {
            if self@.contains(x as int, y as int) {
                lemma_mask_extremes(mask_index(x as int, y as int) as u32);
            }
        }
        self.put(x as i64, y as i64, color);
    }

    /// `set_pixel` on the whole 64-bit plane.
    pub(crate) fn put(&mut self, x: i64, y: i64, color: Color)
        requires
            old(self).wf(),
        ensures
            final(self).wf(),
            final(self)@ == old(self)@.plot(Plot::at(x as int, y as int, color)),
    {
        if x < 0 || y < 0 || x as u64 >= self.width as u64 || y as u64 >= self.height as u64 {
            return ;
        }
        let x: usize = x as usize;
        let y: usize = y as usize;
        let ghost before = self@;
        let ghost p = Plot::at(x as int, y as int, color);
        let ink = if color.a > 0 && color.a < 255 {
            self.read(x, y).blend(color)
        } else {
            color
        };
        let idx: u32 = ((y % 4) * 4 + x % 4) as u32;
        proof {
            lemma_mask_extremes(idx);
        }
        if self.fill_pattern == 0 {
            return ;
        } else if self.fill_pattern < u16::MAX {
            if self.fill_pattern & (1u16 << idx) == 0 {
                return ;
            }
        }
        proof {
            lemma_offset_in_grid(before, x as int, y as int);
            assert(self.grid@.len() == self.grid.len());
        }
        let i: usize = (y * self.width + x) * 4;
        self.grid.set(i, ink.r);
        self.grid.set(i + 1, ink.g);
        self.grid.set(i + 2, ink.b);
        self.grid.set(i + 3, ink.a);
        assert(self@ =~= before.plot(p));
    }

    /// Sets every pixel to `color`, ignoring blending and the fill pattern.
    pub fn clear(&mut self, color: Color)
        requires
            old(self).wf(),
        ensures
            final(self).wf(),
            final(self)@ == old(self)@.flooded(color),
    {
        let bytes = color.as_arr();
        let n = self.grid.len();
        let mut i: usize = 0;
        while i < n
            invariant
                n == self.grid@.len(),
                n == old(self).grid@.len(),
                self.width == old(self).width,
                self.height == old(self).height,
                self.fill_pattern == old(self).fill_pattern,
                0 <= i <= n,
                bytes@ == color.channels(),
                forall|j: int| 0 <= j < i ==> self.grid@[j] == color.channels()[j % 4],
            decreases n - i,
        {
            self.grid.set(i, bytes[i % 4]);
            i += 1;
        }
        assert(self@ =~= old(self)@.flooded(color));
    }
}

} // verus!
