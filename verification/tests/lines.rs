use sim_core::{Canvas, Color};

const WHITE: Color = Color { r: 255, g: 255, b: 255, a: 255 };

fn lit_pixels(canvas: &Canvas) -> Vec<(i32, i32)> {
    let mut out = vec![];
    for y in 0..canvas.height {
        for x in 0..canvas.width {
            let i = (y * canvas.width + x) * 4;
            if canvas.grid[i..i + 4] != [0, 0, 0, 0] {
                out.push((x as i32, y as i32));
            }
        }
    }
    out
}

#[test]
fn horizontal_line_sets_exactly_its_span() {
    let mut canvas = Canvas::new(16, 16);
    canvas.draw_line(0, 0, 5, 0, WHITE);
    assert_eq!(lit_pixels(&canvas), vec![(0, 0), (1, 0), (2, 0), (3, 0), (4, 0), (5, 0)]);
    let mut back = Canvas::new(16, 16);
    back.draw_line(5, 0, 0, 0, WHITE);
    assert_eq!(back.grid, canvas.grid);
}

#[test]
fn vertical_line_sets_exactly_its_span() {
    let mut canvas = Canvas::new(16, 16);
    canvas.draw_line(0, 0, 0, 5, WHITE);
    assert_eq!(lit_pixels(&canvas), vec![(0, 0), (0, 1), (0, 2), (0, 3), (0, 4), (0, 5)]);
    let mut back = Canvas::new(16, 16);
    back.draw_line(0, 5, 0, 0, WHITE);
    assert_eq!(back.grid, canvas.grid);
}

#[test]
fn a_single_point_line() {
    let mut canvas = Canvas::new(4, 4);
    canvas.draw_line(2, 3, 2, 3, WHITE);
    assert_eq!(lit_pixels(&canvas), vec![(2, 3)]);
}

#[test]
fn shallow_line_steps_after_the_midpoint() {
    let mut canvas = Canvas::new(16, 16);
    canvas.draw_line(0, 0, 5, 2, WHITE);
    assert_eq!(lit_pixels(&canvas), vec![(0, 0), (1, 0), (2, 1), (3, 1), (4, 2), (5, 2)]);
}

#[test]
fn steep_line_walks_the_rows() {
    let mut canvas = Canvas::new(16, 16);
    canvas.draw_line(1, 7, 4, 0, WHITE);
    assert_eq!(
        lit_pixels(&canvas),
        vec![(4, 0), (4, 1), (3, 2), (3, 3), (2, 4), (2, 5), (1, 6), (1, 7)]
    );
}

#[test]
fn a_line_given_right_to_left() {
    let mut canvas = Canvas::new(16, 16);
    canvas.draw_line(7, 3, 0, 1, WHITE);
    assert_eq!(
        lit_pixels(&canvas),
        vec![(0, 1), (1, 1), (2, 2), (3, 2), (4, 2), (5, 2), (6, 3), (7, 3)]
    );
}

#[test]
fn diagonal_line() {
    let mut canvas = Canvas::new(16, 16);
    canvas.draw_line(2, 2, 6, 6, WHITE);
    assert_eq!(lit_pixels(&canvas), vec![(2, 2), (3, 3), (4, 4), (5, 5), (6, 6)]);
}

#[test]
fn a_line_is_clipped_to_the_canvas() {
    let mut canvas = Canvas::new(4, 4);
    canvas.draw_line(-3, 1, 9, 1, WHITE);
    assert_eq!(lit_pixels(&canvas), vec![(0, 1), (1, 1), (2, 1), (3, 1)]);
    let mut canvas = Canvas::new(4, 4);
    canvas.draw_line(-2, -2, 5, 5, WHITE);
    assert_eq!(lit_pixels(&canvas), vec![(0, 0), (1, 1), (2, 2), (3, 3)]);
}

#[test]
fn a_translucent_line_blends_each_pixel_once() {
    let mut canvas = Canvas::new(8, 8);
    canvas.clear(Color::new(10, 20, 30, 255));
    canvas.draw_line(0, 0, 5, 2, Color::new(200, 100, 50, 128));
    for (x, y) in [(0, 0), (1, 0), (2, 1), (3, 1), (4, 2), (5, 2)] {
        assert_eq!(canvas.get_pixel(x, y), Color::new(105, 60, 40, 255));
    }
    assert_eq!(canvas.get_pixel(2, 0), Color::new(10, 20, 30, 255));
}

#[test]
fn filled_rectangle_covers_width_times_height() {
    let mut canvas = Canvas::new(16, 16);
    canvas.draw_rect_fill(0, 0, 4, 4, WHITE);
    let got = lit_pixels(&canvas);
    assert_eq!(got.len(), 16);
    let mut want = vec![];
    for y in 0..4 {
        for x in 0..4 {
            want.push((x, y));
        }
    }
    assert_eq!(got, want);
}

#[test]
fn stroked_rectangle_is_the_perimeter() {
    let mut canvas = Canvas::new(16, 16);
    canvas.draw_rect(0, 0, 4, 4, WHITE);
    assert_eq!(
        lit_pixels(&canvas),
        vec![
            (0, 0), (1, 0), (2, 0), (3, 0), (0, 1), (3, 1), (0, 2), (3, 2), (0, 3), (1, 3), (2, 3),
            (3, 3)
        ]
    );
}

#[test]
fn rectangle_corners_are_drawn_twice() {
    let mut canvas = Canvas::new(8, 8);
    canvas.clear(Color::new(10, 20, 30, 255));
    let glass = Color::new(200, 100, 50, 128);
    canvas.draw_rect(1, 1, 3, 3, glass);
    let once = Color::new(10, 20, 30, 255).blend(glass);
    let twice = once.blend(glass);
    assert_eq!(canvas.get_pixel(2, 1), once);
    assert_eq!(canvas.get_pixel(1, 2), once);
    assert_eq!(canvas.get_pixel(1, 1), twice);
    assert_eq!(canvas.get_pixel(3, 1), twice);
    assert_eq!(canvas.get_pixel(3, 3), twice);
    assert_eq!(canvas.get_pixel(1, 3), twice);
    assert_eq!(canvas.get_pixel(2, 2), Color::new(10, 20, 30, 255));
}

#[test]
fn one_by_one_rectangle() {
    let mut canvas = Canvas::new(8, 8);
    canvas.draw_rect(2, 2, 1, 1, WHITE);
    assert_eq!(lit_pixels(&canvas), vec![(2, 2)]);
    let mut canvas = Canvas::new(8, 8);
    canvas.draw_rect_fill(2, 2, 1, 1, WHITE);
    assert_eq!(lit_pixels(&canvas), vec![(2, 2)]);
}

#[test]
fn a_rectangle_without_columns_or_rows_draws_nothing() {
    for (w, h) in [(0, 0), (0, 2), (4, 0), (4, -2), (-3, 4), (-1, -1), (0, i32::MAX), (i32::MIN, 3)] {
        let mut canvas = Canvas::new(16, 16);
        canvas.draw_rect(3, 3, w, h, WHITE);
        assert_eq!(lit_pixels(&canvas), vec![], "outline {} by {}", w, h);
        let mut canvas = Canvas::new(16, 16);
        canvas.draw_rect_fill(3, 3, w, h, WHITE);
        assert_eq!(lit_pixels(&canvas), vec![], "filled {} by {}", w, h);
    }
    let mut canvas = Canvas::new(4, 4);
    canvas.draw_rect_fill(1, 0, 0, 2, Color::new(255, 0, 0, 255));
    assert_eq!(canvas.grid, vec![0u8; 64]);
}

#[test]
fn a_rectangle_covers_as_many_columns_and_rows_as_asked_for() {
    for w in 1..6 {
        for h in 1..6 {
            let mut canvas = Canvas::new(16, 16);
            canvas.draw_rect_fill(2, 3, w, h, WHITE);
            let mut want = vec![];
            for y in 3..3 + h {
                for x in 2..2 + w {
                    want.push((x, y));
                }
            }
            assert_eq!(lit_pixels(&canvas), want);
            let mut canvas = Canvas::new(16, 16);
            canvas.draw_rect(2, 3, w, h, WHITE);
            want.retain(|&(x, y)| x == 2 || x == 1 + w || y == 3 || y == 2 + h);
            assert_eq!(lit_pixels(&canvas), want);
        }
    }
}

#[test]
fn rectangles_at_the_edge_of_the_coordinate_range() {
    let mut canvas = Canvas::new(4, 4);
    canvas.draw_rect_fill(i32::MAX - 1, 0, 8, 2, WHITE);
    canvas.draw_rect(i32::MAX, i32::MAX, 3, 3, WHITE);
    canvas.draw_line(i32::MAX - 3, 0, i32::MAX, 2, WHITE);
    assert_eq!(lit_pixels(&canvas), vec![]);
}
