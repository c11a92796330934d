use sim_core::{Bitmap, BitmapFont, Canvas, Color};

const CLEAR: Color = Color { r: 0, g: 0, b: 0, a: 0 };
const BLACK: Color = Color { r: 0, g: 0, b: 0, a: 255 };
const FAINT: Color = Color { r: 9, g: 9, b: 9, a: 1 };
const RED: Color = Color { r: 255, g: 0, b: 0, a: 255 };
const BLUE: Color = Color { r: 0, g: 0, b: 255, a: 255 };
const WHITE: Color = Color { r: 255, g: 255, b: 255, a: 255 };

/// An atlas of 16 by 4 cells of 3 by 3 pixels.  Cell 1 has the middle
/// column inked, cell 2 two opposite corners, cell 63, the question mark,
/// the two right pixels of its middle row; every other cell is blank.
fn atlas() -> Bitmap {
    let mut pixels = vec![CLEAR; 48 * 12];
    let mut ink = |cell: usize, dx: usize, dy: usize, c: Color| {
        let left = (cell % 16) * 3;
        let top = (cell / 16) * 3;
        pixels[(top + dy) * 48 + left + dx] = c;
    };
    ink(1, 1, 0, BLACK);
    ink(1, 1, 1, BLACK);
    ink(1, 1, 2, BLACK);
    ink(2, 0, 0, BLACK);
    ink(2, 2, 2, FAINT);
    ink(63, 1, 1, BLACK);
    ink(63, 2, 1, BLACK);
    Bitmap::new(48, 12, pixels).unwrap()
}

fn font() -> BitmapFont {
    BitmapFont::new(atlas(), 3, 3, 1, 1)
}

fn painted(canvas: &Canvas, c: Color) -> Vec<(i32, i32)> {
    let mut out = vec![];
    for y in 0..canvas.height {
        for x in 0..canvas.width {
            let i = (y * canvas.width + x) * 4;
            if canvas.grid[i..i + 4] == c.as_arr() {
                out.push((x as i32, y as i32));
            }
        }
    }
    out
}

#[test]
fn font_counts_its_cells() {
    let f = font();
    assert_eq!(f.nb_glyphs, 64);
    assert_eq!(f.glyph_width, 3);
    assert_eq!(f.glyph_height, 3);
    assert_eq!(f.space_width, 1);
    assert_eq!(f.letter_spacing, 1);
    assert_eq!(f.widths.len(), 64);
    let f = BitmapFont::new(atlas(), 5, 5, 1, 1);
    assert_eq!(f.nb_glyphs, 18);
    let f = BitmapFont::new(atlas(), 49, 1, 1, 1);
    assert_eq!(f.nb_glyphs, 0);
}

#[test]
fn ink_spans_are_tight() {
    let f = font();
    assert_eq!(f.widths[1], (1, 1));
    assert_eq!(f.widths[2], (0, 2));
    assert_eq!(f.widths[63], (1, 2));
}

#[test]
fn a_blank_cell_has_the_space_span() {
    let f = font();
    assert_eq!(f.widths[0], (0, 1));
    assert_eq!(f.widths[62], (0, 1));
    let wide = BitmapFont::new(atlas(), 3, 3, 7, 2);
    assert_eq!(wide.widths[0], (0, 7));
    let (glyph, advance) = wide.get_glyph(0, false);
    assert_eq!(advance, 10);
    assert_eq!((glyph.width, glyph.height), (8, 3));
}

#[test]
fn alpha_alone_makes_ink() {
    let mut pixels = vec![Color::new(255, 255, 255, 0); 9];
    pixels[5] = Color::new(0, 0, 0, 1);
    let f = BitmapFont::new(Bitmap::new(3, 3, pixels).unwrap(), 3, 3, 1, 0);
    assert_eq!(f.widths[0], (2, 2));
}

#[test]
fn glyph_is_cut_to_its_ink() {
    let f = font();
    let (glyph, advance) = f.get_glyph(1, false);
    assert_eq!(advance, 2);
    assert_eq!((glyph.width, glyph.height), (1, 3));
    assert_eq!(glyph.pixels, vec![BLACK, BLACK, BLACK]);
    let (glyph, advance) = f.get_glyph(2, false);
    assert_eq!(advance, 4);
    assert_eq!((glyph.width, glyph.height), (3, 3));
    assert_eq!(glyph.pixels[0], BLACK);
    assert_eq!(glyph.pixels[8], FAINT);
    assert_eq!(glyph.pixels[4], CLEAR);
}

#[test]
fn monospace_glyph_is_the_whole_cell() {
    let f = font();
    let (glyph, advance) = f.get_glyph(1, true);
    assert_eq!(advance, 4);
    assert_eq!((glyph.width, glyph.height), (3, 3));
    assert_eq!(
        glyph.pixels,
        vec![CLEAR, BLACK, CLEAR, CLEAR, BLACK, CLEAR, CLEAR, BLACK, CLEAR]
    );
    let (glyph, advance) = f.get_glyph(63, true);
    assert_eq!(advance, 4);
    assert_eq!(
        glyph.pixels,
        vec![CLEAR, CLEAR, CLEAR, CLEAR, BLACK, BLACK, CLEAR, CLEAR, CLEAR]
    );
}

#[test]
fn unknown_codes_get_the_question_mark() {
    let f = font();
    let (mark, mark_advance) = f.get_glyph('?' as u32, false);
    assert_eq!(mark_advance, 3);
    assert_eq!((mark.width, mark.height), (2, 3));
    assert_eq!(mark.pixels, vec![CLEAR, CLEAR, BLACK, BLACK, CLEAR, CLEAR]);
    for code in [64u32, 65, 200, 0x1F600, u32::MAX] {
        for monospace in [false, true] {
            let (want, want_advance) = f.get_glyph(63, monospace);
            let (got, advance) = f.get_glyph(code, monospace);
            assert_eq!(advance, want_advance);
            assert_eq!((got.width, got.height), (want.width, want.height));
            assert_eq!(got.pixels, want.pixels);
        }
    }
}

#[test]
fn print_len_adds_the_advances() {
    let canvas = Canvas::new(1, 1);
    let f = font();
    assert_eq!(canvas.print_len("", &f), 0);
    assert_eq!(canvas.print_len("\u{1}", &f), 2);
    assert_eq!(canvas.print_len("\u{1}\u{2}", &f), 6);
    assert_eq!(canvas.print_len("\u{0}\u{1}\u{0}", &f), 8);
    assert_eq!(canvas.print_len("A?\u{e9}", &f), 9);
}

#[test]
fn print_stencils_the_ink_in_one_color() {
    let mut canvas = Canvas::new(10, 6);
    canvas.print("\u{1}\u{2}", 2, 1, &font(), Some(RED), None);
    assert_eq!(painted(&canvas, RED), vec![(2, 1), (4, 1), (2, 2), (2, 3), (6, 3)]);
    assert_eq!(painted(&canvas, CLEAR).len(), 55);
}

#[test]
fn print_is_white_by_default() {
    let mut canvas = Canvas::new(10, 6);
    canvas.print("\u{1}", 0, 0, &font(), None, None);
    assert_eq!(painted(&canvas, WHITE), vec![(0, 0), (0, 1), (0, 2)]);
}

#[test]
fn print_of_nothing_draws_nothing() {
    let mut canvas = Canvas::new(4, 4);
    canvas.print("", 1, 1, &font(), Some(RED), Some(BLUE));
    assert_eq!(canvas.grid, vec![0u8; 64]);
}

#[test]
fn print_with_a_border_leaves_an_outline() {
    let mut canvas = Canvas::new(8, 7);
    canvas.print("\u{1}", 3, 2, &font(), Some(RED), Some(BLUE));
    assert_eq!(painted(&canvas, RED), vec![(3, 2), (3, 3), (3, 4)]);
    let mut ring = vec![];
    for y in 1..=5 {
        for x in 2..=4 {
            if !(x == 3 && (2..=4).contains(&y)) {
                ring.push((x, y));
            }
        }
    }
    assert_eq!(painted(&canvas, BLUE), ring);
    assert_eq!(painted(&canvas, CLEAR).len(), 56 - 15);
}

#[test]
fn the_border_is_drawn_nine_times() {
    let glass = Color::new(200, 100, 50, 128);
    let mut canvas = Canvas::new(5, 5);
    canvas.clear(Color::new(10, 20, 30, 255));
    // One ink pixel: the question mark cut to a font of 1 by 1 cells.
    let dot = BitmapFont::new(Bitmap::new(1, 1, vec![BLACK]).unwrap(), 1, 1, 1, 1);
    canvas.print("\u{0}", 2, 2, &dot, Some(glass), Some(glass));
    let once = Color::new(10, 20, 30, 255).blend(glass);
    assert_eq!(canvas.get_pixel(1, 1), once);
    assert_eq!(canvas.get_pixel(3, 2), once);
    assert_eq!(canvas.get_pixel(2, 2), once.blend(glass));
    assert_eq!(canvas.get_pixel(0, 0), Color::new(10, 20, 30, 255));
}

#[test]
fn print_center_shifts_by_half_the_length() {
    let f = font();
    let mut centred = Canvas::new(12, 6);
    centred.print_center("\u{1}\u{2}", 6, 1, &f, Some(RED), None);
    let mut plain = Canvas::new(12, 6);
    plain.print("\u{1}\u{2}", 3, 1, &f, Some(RED), None);
    assert_eq!(centred.grid, plain.grid);
    let mut odd = Canvas::new(12, 6);
    odd.print_center("\u{1}\u{1}\u{0}", 6, 1, &f, Some(RED), None);
    let mut want = Canvas::new(12, 6);
    want.print("\u{1}\u{1}\u{0}", 3, 1, &f, Some(RED), None);
    assert_eq!(odd.grid, want.grid);
}

#[test]
fn print_is_clipped_to_the_canvas() {
    let mut canvas = Canvas::new(4, 2);
    canvas.print("\u{2}\u{1}\u{1}\u{1}", -1, -1, &font(), Some(RED), Some(BLUE));
    assert_eq!(canvas.get_pixel(3, 0), RED);
    let mut far = Canvas::new(4, 2);
    far.print("\u{1}", i32::MAX, i32::MIN, &font(), Some(RED), Some(BLUE));
    far.print_center("\u{1}", i32::MIN, i32::MAX, &font(), Some(RED), Some(BLUE));
    assert_eq!(far.grid, vec![0u8; 32]);
}

#[test]
fn text_fits_when_every_character_has_a_glyph() {
    let f = font();
    assert!(f.text_fits(""));
    assert!(f.text_fits("\u{1}\u{2}"));
    assert!(f.text_fits("A?\u{e9}"));
    // Eighteen cells: no cell for the question mark to fall back on.
    let small = BitmapFont::new(atlas(), 5, 5, 1, 1);
    assert!(small.text_fits("\u{0}\u{11}"));
    assert!(!small.text_fits("\u{12}"));
    assert!(!small.text_fits("\u{0}A"));
    let none = BitmapFont::new(atlas(), 49, 1, 1, 1);
    assert!(none.text_fits(""));
    assert!(!none.text_fits("\u{0}"));
}

#[test]
fn text_does_not_fit_when_it_is_too_wide() {
    let wide = BitmapFont::new(atlas(), 3, 3, u32::MAX / 2, u32::MAX / 2);
    assert!(!wide.text_fits("\u{0}"));
    let half = BitmapFont::new(atlas(), 3, 3, 0x3FFF_FFFE, 0);
    assert!(half.text_fits("\u{0}\u{0}"));
    assert!(half.text_fits("\u{0}\u{0}\u{1}"));
    assert!(!half.text_fits("\u{0}\u{0}\u{1}\u{1}"));
}

#[test]
fn a_glyph_at_the_last_cell_boundary() {
    let f = font();
    // Code 63 is the last cell; 64 is the first code beyond the atlas.
    let (last, _) = f.get_glyph(63, true);
    let (beyond, _) = f.get_glyph(64, true);
    assert_eq!(last.pixels, beyond.pixels);
}

#[test]
fn a_blank_cell_has_the_space_span_whatever_the_spacing() {
    let huge = BitmapFont::new(atlas(), 3, 3, u32::MAX, u32::MAX);
    assert_eq!(huge.widths[0], (0, u32::MAX));
    assert_eq!(huge.widths[1], (1, 1));
    assert!(!huge.text_fits("\u{0}"));
    assert!(!huge.text_fits("\u{1}"));
    assert!(huge.text_fits(""));
    let roomy = BitmapFont::new(atlas(), 3, 3, 40, 0);
    assert_eq!(roomy.widths[17], (0, 40));
    let (glyph, advance) = roomy.get_glyph(17, false);
    assert_eq!(advance, 41);
    // Cell 17 starts at column 3 of the second row of cells, and the atlas
    // is 48 columns wide.
    assert_eq!((glyph.width, glyph.height), (41, 3));
    assert_eq!(glyph.pixels[0], CLEAR);
    // Column 3 of the glyph is column 0 of cell 18; cell 2, above it, is
    // not part of the cut.
    assert!(glyph.pixels.iter().all(|p| *p == CLEAR));
}
