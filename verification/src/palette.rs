//! Palettes: an ordered list of opaque colors, written as a string of
//! six-digit hexadecimal numbers.

use vstd::prelude::*;
use crate::color::Color;

verus! {

/// A fixed list of colors that are addressed by index.
pub struct Palette {
    colors: Vec<Color>,
}

/// `std::num::ParseIntError`, opaque to the verifier.
#[verifier::external_type_specification]
#[verifier::external_body]
pub struct ExParseIntError(std::num::ParseIntError);

/// The value of a hexadecimal digit, if the character is one.
pub open spec fn hex_digit(c: char) -> Option<int> {
    if '0' <= c <= '9' {
        Some(c as int - '0' as int)
    } else if 'a' <= c <= 'f' {
        Some(c as int - 'a' as int + 10)
    } else if 'A' <= c <= 'F' {
        Some(c as int - 'A' as int + 10)
    } else {
        None
    }
}

/// The number that a string of hexadecimal digits denotes.
pub open spec fn hex_value(digits: Seq<char>) -> int
    decreases digits.len(),
{
    if digits.len() == 0 {
        0
    } else {
        16 * hex_value(digits.drop_last()) + hex_digit(digits.last()).unwrap()
    }
}

/// A number without the plus sign that may stand in front of it.
pub open spec fn unsigned(text: Seq<char>) -> Seq<char> {
    if text.len() > 0 && text[0] == '+' {
        text.drop_first()
    } else {
        text
    }
}

/// Whether a text is a hexadecimal number: at least one digit, nothing but
/// digits, and at most a plus sign in front.
pub open spec fn is_hex_number(text: Seq<char>) -> bool {
    let digits = unsigned(text);
    digits.len() > 0 && forall|i: int| 0 <= i < digits.len() ==> hex_digit(#[trigger] digits[i]).is_some()
}

/// How many entries a palette text has: one for every six characters and
/// one for what is left over.
pub open spec fn chunk_count(text: Seq<char>) -> int {
    (text.len() as int + 5) / 6
}

/// The `k`-th entry of a palette text.
pub open spec fn chunk(text: Seq<char>, k: int) -> Seq<char> {
    text.subrange(6 * k, if 6 * k + 6 <= text.len() { 6 * k + 6 } else { text.len() as int })
}

/// Whether every entry of a palette text is a hexadecimal number.
pub open spec fn is_palette_text(text: Seq<char>) -> bool {
    forall|k: int| 0 <= k < chunk_count(text) ==> is_hex_number(#[trigger] chunk(text, k))
}

/// The colors that a palette text declares, in the order of the text.
pub open spec fn palette_colors(text: Seq<char>) -> Seq<Color> {
    Seq::new(
        chunk_count(text) as nat,
        |k: int| Color::of_rgb24(hex_value(unsigned(chunk(text, k)))),
    )
}

/// `u32::from_str_radix` with radix 16, on texts too short to overflow:
/// succeeds exactly on an optional plus sign followed by one or more of
/// the digits `0-9`, `a-f`, `A-F`, and returns the number they denote.
#[verifier::external_body]
fn parse_hex(text: &str) -> (parsed: Result<u32, std::num::ParseIntError>)
    requires
        text@.len() <= 8,
    ensures
        parsed.is_ok() <==> is_hex_number(text@),
        parsed matches Ok(v) ==> v == hex_value(unsigned(text@)),
{
    u32::from_str_radix(text, 16)
}

impl View for Palette {
    type V = Seq<Color>;

    closed spec fn view(&self) -> Seq<Color> {
        self.colors@
    }
}

impl Palette {
    /// Reads a palette from a string of `RRGGBB` entries.  Every entry
    /// becomes an opaque color; the first entry that is not a hexadecimal
    /// number makes the whole palette fail with the error of that entry.
    pub fn new(palette: &str) -> (made: Result<Palette, std::num::ParseIntError>)
        ensures
            made.is_ok() <==> is_palette_text(palette@),
            made matches Ok(p) ==> p@ == palette_colors(palette@),
    {
        let n = palette.unicode_len();
        let mut colors: Vec<Color> = Vec::new();
        let mut at: usize = 0;
        let ghost mut k: int = 0;
        while at < n
            invariant
                n == palette@.len(),
                0 <= at <= n,
                0 <= k <= chunk_count(palette@),
                at == 6 * k || (at == n && k == chunk_count(palette@)),
                at == n ==> k == chunk_count(palette@),
                colors@.len() == k,
                forall|i: int|
                    0 <= i < k ==> is_hex_number(#[trigger] chunk(palette@, i)) && colors@[i]
                        == Color::of_rgb24(hex_value(unsigned(chunk(palette@, i)))),
            decreases n - at,
        {
            let end: usize = if n - at > 6 { at + 6 } else { n };
            let piece = palette.substring_char(at, end);
            assert(piece@ == chunk(palette@, k));
            match parse_hex(piece) {
                Ok(hex) => {
                    colors.push(Color::from_u32(hex));
                },
                Err(e) => {
                    return Err(e);
                },
            }
            at = end;
            proof {
                k = k + 1;
            }
        }
        let made = Palette { colors };
        assert(made@ =~= palette_colors(palette@));
        Ok(made)
    }

    /// The color at index `idx`, which must be an index of the palette.
    pub fn get(&self, idx: usize) -> (color: Color)
        requires
            idx < self@.len(),
        ensures
            color == self@[idx as int],
    {
        self.colors[idx]
    }

    /// The color at index `idx` modulo the length of the palette, which
    /// must not be empty.
    pub fn color_idx(&self, idx: usize) -> (color: Color)
        requires
            self@.len() > 0,
        ensures
            color == self@[idx as int % self@.len() as int],
    {
        self.get(idx % self.colors.len())
    }

    /// The number of colors.
    pub fn len(&self) -> (n: usize)
        ensures
            n == self@.len(),
    {
        self.colors.len()
    }
}

/// Looking up an index below the number of entries of a palette text
/// gives the color that the entry of that index declares, made opaque; and
/// looking up the number of entries gives what looking up 0 gives.
pub proof fn lemma_color_idx_of_declared(text: Seq<char>, i: int)
    requires
        0 <= i < chunk_count(text),
    ensures
        palette_colors(text).len() == chunk_count(text),
        palette_colors(text)[i % chunk_count(text)] == Color::of_rgb24(
            hex_value(unsigned(chunk(text, i))),
        ),
        palette_colors(text)[i % chunk_count(text)].a == 255,
        palette_colors(text)[chunk_count(text) % chunk_count(text)] == palette_colors(text)[0int
            % chunk_count(text)],
{
    let n = chunk_count(text);
    vstd::arithmetic::div_mod::lemma_small_mod(i as nat, n as nat);
    vstd::arithmetic::div_mod::lemma_mod_self_0(n);
    vstd::arithmetic::div_mod::lemma_small_mod(0, n as nat);
}

} // verus!
