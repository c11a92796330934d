use sim_core::{Color, Palette};

const OXYGEN: &str = "f9fff2f5d6786be0bfbab19796d45bf56c77e0864a59909e5794609e48916e6660505273ab3737693c363a363d202026";

#[test]
fn palette_reads_entries_in_order() {
    let p = Palette::new("ff000000ff000000ff").unwrap();
    assert_eq!(p.len(), 3);
    assert_eq!(p.get(0), Color::new(255, 0, 0, 255));
    assert_eq!(p.get(1), Color::new(0, 255, 0, 255));
    assert_eq!(p.get(2), Color::new(0, 0, 255, 255));
}

#[test]
fn default_palette_has_sixteen_opaque_colors() {
    let p = Palette::new(OXYGEN).unwrap();
    assert_eq!(p.len(), 16);
    assert_eq!(p.get(0), Color::new(0xf9, 0xff, 0xf2, 255));
    assert_eq!(p.get(15), Color::new(0x20, 0x20, 0x26, 255));
    for i in 0..16 {
        assert_eq!(p.color_idx(i), p.get(i));
        assert_eq!(p.get(i).a, 255);
    }
}

#[test]
fn color_idx_wraps_around() {
    let p = Palette::new(OXYGEN).unwrap();
    assert_eq!(p.color_idx(16), p.color_idx(0));
    assert_eq!(p.color_idx(17), p.get(1));
    assert_eq!(p.color_idx(16 * 1000 + 5), p.get(5));
    assert_eq!(p.color_idx(usize::MAX), p.get(usize::MAX % 16));
}

#[test]
fn upper_and_lower_case_digits() {
    let p = Palette::new("AbCdEf").unwrap();
    assert_eq!(p.get(0), Color::new(0xab, 0xcd, 0xef, 255));
}

#[test]
fn a_short_last_entry_is_a_small_number() {
    let p = Palette::new("ff0000abc").unwrap();
    assert_eq!(p.len(), 2);
    assert_eq!(p.get(1), Color::new(0, 0x0a, 0xbc, 255));
}

#[test]
fn a_plus_sign_may_lead_an_entry() {
    let p = Palette::new("+00001").unwrap();
    assert_eq!(p.len(), 1);
    assert_eq!(p.get(0), Color::new(0, 0, 1, 255));
}

#[test]
fn empty_text_is_an_empty_palette() {
    let p = Palette::new("").unwrap();
    assert_eq!(p.len(), 0);
}

#[test]
fn a_bad_digit_fails_the_palette() {
    let e = Palette::new("ff00zz").err().unwrap();
    assert!(matches!(e.kind(), std::num::IntErrorKind::InvalidDigit));
    assert!(Palette::new("ff000012345g").is_err());
    assert!(Palette::new("ff0000 1").is_err());
    assert!(Palette::new("-00001").is_err());
    assert!(Palette::new("ff_000").is_err());
}

#[test]
fn a_lone_plus_sign_fails_the_palette() {
    assert!(Palette::new("ff0000+").is_err());
}

#[test]
fn entries_are_counted_in_characters() {
    // Six characters, the last of which takes two bytes: one entry, and a bad one.
    assert!(Palette::new("ff000\u{e9}").is_err());
    // The seventh character starts a second entry.
    assert!(Palette::new("ff0000\u{e9}").is_err());
    let p = Palette::new("0000010000020").unwrap();
    assert_eq!(p.len(), 3);
    assert_eq!(p.get(2), Color::new(0, 0, 0, 255));
}
