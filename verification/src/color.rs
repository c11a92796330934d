//! RGBA8 colors: construction, packing and the "paint over" blend.

use vstd::prelude::*;

verus! {

/// An RGBA color with 8 bits per channel.
#[derive(Debug, Clone, Copy, PartialEq, Eq, Structural)]
pub struct Color {
    pub r: u8,
    pub g: u8,
    pub b: u8,
    pub a: u8,
}

/// One channel of `over` painted with opacity `alpha` onto `under`,
/// rounded towards zero.
pub open spec fn mix(under: u8, over: u8, alpha: u8) -> int {
    (under * (255 - alpha) + over * alpha) / 255
}

/// A mixed channel is again a channel value.
pub proof fn lemma_mix_is_channel(under: u8, over: u8, alpha: u8)
    ensures
        0 <= mix(under, over, alpha) <= 255,
{
    let keep = 255 - alpha;
    assert(under * keep <= 255 * keep) by (nonlinear_arith)
        requires
            0 <= under <= 255,
            0 <= keep,
    ;
    assert(over * alpha <= 255 * alpha) by (nonlinear_arith)
        requires
            0 <= over <= 255,
            0 <= alpha,
    ;
    assert(0 <= under * keep) by (nonlinear_arith)
        requires
            0 <= under,
            0 <= keep,
    ;
    assert(0 <= over * alpha) by (nonlinear_arith)
        requires
            0 <= over,
            0 <= alpha,
    ;
}

impl Color {
    /// The four channels in memory order: red, green, blue, alpha.
    pub open spec fn channels(self) -> Seq<u8> {
        seq![self.r, self.g, self.b, self.a]
    }

    /// The opaque color of a packed `0xRRGGBB` value; bits above the low 24
    /// are ignored.
    pub open spec fn of_rgb24(v: int) -> Color {
        Color {
            r: ((v / 0x1_0000) % 0x100) as u8,
            g: ((v / 0x100) % 0x100) as u8,
            b: (v % 0x100) as u8,
            a: 255,
        }
    }

    /// The color packed as `0xRRGGBBAA`.
    pub open spec fn packed(self) -> int {
        self.r * 0x100_0000 + self.g * 0x1_0000 + self.b * 0x100 + self.a
    }

    /// `other` painted over `self`: an opaque `other` replaces `self`, a fully
    /// transparent one leaves it, anything between mixes the three color
    /// channels and makes the result opaque.
    pub open spec fn blended(self, other: Color) -> Color {
        if other.a == 255 {
            other
        } else if other.a == 0 {
            self
        } else {
            Color {
                r: mix(self.r, other.r, other.a) as u8,
                g: mix(self.g, other.g, other.a) as u8,
                b: mix(self.b, other.b, other.a) as u8,
                a: 255,
            }
        }
    }

    pub fn new(r: u8, g: u8, b: u8, a: u8) -> (color: Color)
        ensures
            color == (Color { r, g, b, a }),
    {
        Color { r, g, b, a }
    }

    /// Unpacks `0xRRGGBB`; the alpha channel is forced to 255.
    pub fn from_u32(v: u32) -> (color: Color)
        ensures
            color == Color::of_rgb24(v as int),
    {
        let r: u32 = (v >> 16) & 0xFF;
        let g: u32 = (v >> 8) & 0xFF;
        let b: u32 = v & 0xFF;
        assert(r == (v / 0x1_0000) % 0x100 && g == (v / 0x100) % 0x100 && b == v % 0x100) by (bit_vector)
            requires
                r == (v >> 16) & 0xFF,
                g == (v >> 8) & 0xFF,
                b == v & 0xFF,
        ;
        Color { r: r as u8, g: g as u8, b: b as u8, a: 255 }
    }

    pub fn from_arr(arr: &[u8; 4]) -> (color: Color)
        ensures
            color.channels() == arr@,
    {
        let color = Color { r: arr[0], g: arr[1], b: arr[2], a: arr[3] };
        assert(color.channels() =~= arr@);
        color
    }

    pub fn from_rgba(r: u8, g: u8, b: u8, a: u8) -> (color: Color)
        ensures
            color == (Color { r, g, b, a }),
    {
        Color { r, g, b, a }
    }

    pub fn from_rgb(r: u8, g: u8, b: u8) -> (color: Color)
        ensures
            color == (Color { r, g, b, a: 255 }),
    {
        Color { r, g, b, a: 255 }
    }

    pub fn as_arr(&self) -> (arr: [u8; 4])
        ensures
            arr@ == self.channels(),
    {
        let arr = [self.r, self.g, self.b, self.a];
        assert(arr@ =~= self.channels());
        arr
    }

    pub fn as_rgba_u32(&self) -> (packed: u32)
        ensures
            packed == self.packed(),
    {
        let r: u32 = self.r as u32;
        let g: u32 = self.g as u32;
        let b: u32 = self.b as u32;
        let a: u32 = self.a as u32;
        let packed: u32 = r << 24 | g << 16 | b << 8 | a;
        assert(packed == r * 0x100_0000 + g * 0x1_0000 + b * 0x100 + a) by (bit_vector)
            requires
                r < 0x100,
                g < 0x100,
                b < 0x100,
                a < 0x100,
                packed == r << 24 | g << 16 | b << 8 | a,
        ;
        packed
    }

    pub fn blend(&self, other: Color) -> (color: Color)
        ensures
            color == self.blended(other),
    {
        if other.a == 255 {
            return other;
        }
        if other.a == 0 {
            return *self;
        }
        proof {
            lemma_mix_is_channel(self.r, other.r, other.a);
            lemma_mix_is_channel(self.g, other.g, other.a);
            lemma_mix_is_channel(self.b, other.b, other.a);
        }
        let a: u32 = other.a as u32;
        Color::from_rgb(
            ((self.r as u32 * (255 - a) + other.r as u32 * a) / 255) as u8,
            ((self.g as u32 * (255 - a) + other.g as u32 * a) / 255) as u8,
            ((self.b as u32 * (255 - a) + other.b as u32 * a) / 255) as u8,
        )
    }
}

} // verus!
