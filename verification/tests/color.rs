use sim_core::Color;

#[test]
fn test_from_u32() {
    assert_eq!(Color::from_u32(0xFFAA11), Color::from_rgb(255, 0xaa, 0x11));
}

#[test]
fn test_as_rgba_u32() {
    assert_eq!(Color::from_rgb(255, 0xaa, 0x11).as_rgba_u32(), 0xFFAA11FF);
}

#[test]
fn from_u32_ignores_the_high_byte() {
    assert_eq!(Color::from_u32(0x12FFAA11), Color::new(255, 0xaa, 0x11, 255));
    assert_eq!(Color::from_u32(0), Color::new(0, 0, 0, 255));
}

#[test]
fn constructors_agree() {
    assert_eq!(Color::new(1, 2, 3, 4), Color::from_rgba(1, 2, 3, 4));
    assert_eq!(Color::from_rgb(1, 2, 3), Color::from_rgba(1, 2, 3, 255));
    assert_eq!(Color::from_arr(&[9, 8, 7, 6]), Color::new(9, 8, 7, 6));
}

#[test]
fn array_round_trip() {
    let c = Color::new(10, 20, 30, 40);
    assert_eq!(c.as_arr(), [10, 20, 30, 40]);
    assert_eq!(Color::from_arr(&c.as_arr()), c);
}

#[test]
fn packing_puts_red_on_top() {
    assert_eq!(Color::new(0x01, 0x02, 0x03, 0x04).as_rgba_u32(), 0x01020304);
    assert_eq!(Color::new(0, 0, 0, 0).as_rgba_u32(), 0);
    assert_eq!(Color::new(255, 255, 255, 255).as_rgba_u32(), 0xFFFFFFFF);
}

#[test]
fn blend_with_transparent_keeps_the_background() {
    let under = Color::new(10, 10, 10, 255);
    assert_eq!(under.blend(Color::new(200, 100, 0, 0)), under);
    let glass = Color::new(1, 2, 3, 77);
    assert_eq!(glass.blend(Color::new(200, 100, 0, 0)), glass);
}

#[test]
fn blend_with_opaque_takes_the_other() {
    let under = Color::new(10, 10, 10, 255);
    let over = Color::new(200, 100, 0, 255);
    assert_eq!(under.blend(over), over);
}

#[test]
fn blend_mixes_with_truncation() {
    let under = Color::new(10, 10, 10, 255);
    assert_eq!(under.blend(Color::new(200, 100, 0, 128)), Color::new(105, 55, 4, 255));
    assert_eq!(under.blend(Color::new(255, 255, 255, 1)), Color::new(10, 10, 10, 255));
    assert_eq!(under.blend(Color::new(0, 0, 0, 254)), Color::new(0, 0, 0, 255));
}

#[test]
fn blend_forces_an_opaque_result() {
    let under = Color::new(10, 20, 30, 0);
    assert_eq!(under.blend(Color::new(200, 100, 50, 128)).a, 255);
}
