use sim_core::{Canvas, Color};

const WHITE: Color = Color { r: 255, g: 255, b: 255, a: 255 };

fn lit(canvas: &Canvas) -> Vec<(i32, i32)> {
    let mut out = vec![];
    for y in 0..canvas.height {
        for x in 0..canvas.width {
            let i = (y * canvas.width + x) * 4;
            if canvas.grid[i..i + 4] != [0, 0, 0, 0] {
                out.push((x as i32, y as i32));
            }
        }
    }
    out
}

#[test]
fn a_new_canvas_is_transparent_black_and_solid() {
    let canvas = Canvas::new(5, 3);
    assert_eq!(canvas.width, 5);
    assert_eq!(canvas.height, 3);
    assert_eq!(canvas.grid, vec![0u8; 60]);
    assert_eq!(canvas.fill_pattern, 0xFFFF);
    let empty = Canvas::new(0, 7);
    assert_eq!(empty.grid.len(), 0);
}

#[test]
fn set_pixel_writes_four_bytes_in_row_major_order() {
    let mut canvas = Canvas::new(3, 2);
    canvas.set_pixel(2, 1, Color::new(1, 2, 3, 255));
    let mut want = vec![0u8; 24];
    want[20] = 1;
    want[21] = 2;
    want[22] = 3;
    want[23] = 255;
    assert_eq!(canvas.grid, want);
    assert_eq!(canvas.get_pixel(2, 1), Color::new(1, 2, 3, 255));
    assert_eq!(canvas.get_pixel(0, 0), Color::new(0, 0, 0, 0));
}

#[test]
fn set_pixel_off_the_canvas_changes_nothing() {
    let mut canvas = Canvas::new(4, 3);
    canvas.clear(Color::new(9, 9, 9, 255));
    let before = canvas.grid.clone();
    canvas.set_pixel(-1, 0, WHITE);
    canvas.set_pixel(4, 0, WHITE);
    canvas.set_pixel(0, -1, WHITE);
    canvas.set_pixel(0, 3, WHITE);
    canvas.set_pixel(i32::MIN, i32::MIN, WHITE);
    canvas.set_pixel(i32::MAX, i32::MAX, WHITE);
    assert_eq!(canvas.grid, before);
}

#[test]
fn set_pixel_on_an_empty_canvas_does_nothing() {
    let mut canvas = Canvas::new(0, 0);
    canvas.set_pixel(0, 0, WHITE);
    assert_eq!(canvas.grid.len(), 0);
}

#[test]
fn a_translucent_color_is_blended_over_the_pixel() {
    let mut canvas = Canvas::new(4, 4);
    canvas.clear(Color::new(10, 20, 30, 255));
    canvas.set_pixel(1, 1, Color::new(200, 100, 50, 128));
    assert_eq!(canvas.get_pixel(1, 1), Color::new(105, 60, 40, 255));
    assert_eq!(canvas.get_pixel(0, 0), Color::new(10, 20, 30, 255));
}

#[test]
fn a_fully_transparent_color_is_written_as_it_is() {
    let mut canvas = Canvas::new(2, 2);
    canvas.clear(Color::new(10, 20, 30, 255));
    canvas.set_pixel(1, 0, Color::new(7, 8, 9, 0));
    assert_eq!(canvas.get_pixel(1, 0), Color::new(7, 8, 9, 0));
}

#[test]
fn fill_pattern_zero_blocks_every_write() {
    let mut canvas = Canvas::new(8, 8);
    canvas.fill_pattern = 0;
    for y in 0..8 {
        for x in 0..8 {
            canvas.set_pixel(x, y, WHITE);
        }
    }
    canvas.draw_rect_fill(0, 0, 8, 8, WHITE);
    canvas.draw_circ_fill(4, 4, 3, Color::new(1, 2, 3, 100));
    assert_eq!(canvas.grid, vec![0u8; 256]);
}

#[test]
fn fill_pattern_all_ones_is_the_default() {
    let mut plain = Canvas::new(8, 8);
    let mut solid = Canvas::new(8, 8);
    solid.fill_pattern = 0xFFFF;
    plain.draw_circ_fill(4, 4, 3, Color::new(200, 100, 50, 128));
    solid.draw_circ_fill(4, 4, 3, Color::new(200, 100, 50, 128));
    plain.draw_line(0, 0, 7, 5, WHITE);
    solid.draw_line(0, 0, 7, 5, WHITE);
    assert_eq!(plain.grid, solid.grid);
    assert_eq!(lit(&plain).len(), lit(&solid).len());
}

#[test]
fn fill_pattern_gates_by_bit() {
    let mut canvas = Canvas::new(8, 8);
    canvas.fill_pattern = 0xA5A5;
    canvas.draw_rect_fill(0, 0, 8, 8, WHITE);
    let mut want = vec![];
    for y in 0..8 {
        for x in 0..8 {
            if (x + y) % 2 == 0 {
                want.push((x, y));
            }
        }
    }
    assert_eq!(lit(&canvas), want);

    let mut canvas = Canvas::new(8, 8);
    canvas.fill_pattern = 0x0001;
    canvas.draw_rect_fill(0, 0, 8, 8, WHITE);
    assert_eq!(lit(&canvas), vec![(0, 0), (4, 0), (0, 4), (4, 4)]);

    let mut canvas = Canvas::new(8, 8);
    canvas.fill_pattern = 0x8000;
    canvas.draw_rect_fill(0, 0, 8, 8, WHITE);
    assert_eq!(lit(&canvas), vec![(3, 3), (7, 3), (3, 7), (7, 7)]);

    let mut canvas = Canvas::new(8, 8);
    canvas.fill_pattern = 0x0010;
    canvas.draw_rect_fill(0, 0, 8, 8, WHITE);
    assert_eq!(lit(&canvas), vec![(0, 1), (4, 1), (0, 5), (4, 5)]);
}

#[test]
fn clear_ignores_blending_and_the_fill_pattern() {
    let mut canvas = Canvas::new(3, 2);
    canvas.fill_pattern = 0;
    canvas.clear(Color::new(1, 2, 3, 4));
    assert_eq!(canvas.grid, [1u8, 2, 3, 4].repeat(6));
    assert_eq!(canvas.fill_pattern, 0);
    canvas.clear(Color::new(0, 0, 0, 0));
    assert_eq!(canvas.grid, vec![0u8; 24]);
}
