//! Software rasterization core of a small fantasy-console style engine.
//!
//! A [`Canvas`] is a mutable RGBA8 frame buffer; the drawing operations on it
//! are integer-only and pixel-exact.  Every operation is specified as the
//! sequence of [`Plot`]s it applies to the mathematical [`Frame`] of the
//! canvas, and proved against that specification.

pub mod bitmap;
pub mod bitmap_font;
pub mod blit;
pub mod canvas;
pub mod circle;
pub mod color;
pub mod ellipse;
pub mod fill_buffer;
pub mod frame;
pub mod line;
pub mod palette;
pub mod scanline;
pub mod spritesheet;
pub mod text;

pub use bitmap::Bitmap;
pub use bitmap_font::BitmapFont;
pub use canvas::Canvas;
pub use color::Color;
pub use ellipse::plot_ellipse;
pub use frame::{Frame, Plot};
pub use palette::Palette;
pub use spritesheet::Spritesheet;
