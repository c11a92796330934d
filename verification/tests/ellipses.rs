use sim_core::{plot_ellipse, Canvas, Color};

const INK: Color = Color { r: 255, g: 255, b: 255, a: 255 };

fn lit_cells(canvas: &Canvas) -> Vec<(i32, i32)> {
    let mut out = vec![];
    for y in 0..canvas.height {
        for x in 0..canvas.width {
            let i = (y * canvas.width + x) * 4;
            if canvas.grid[i..i + 4] != [0, 0, 0, 0] {
                out.push((x as i32, y as i32));
            }
        }
    }
    out
}

#[test]
fn trace_of_a_nine_by_five_box() {
    assert_eq!(
        plot_ellipse(0, 0, 9, 5),
        vec![
            (4, 4), (4, 0), (5, 4), (3, 0), (5, 0), (3, 4), (6, 4), (2, 0), (6, 0), (2, 4), (7, 3),
            (1, 1), (7, 1), (1, 3), (8, 2), (0, 2)
        ]
    );
}

#[test]
fn trace_with_corners_given_in_reverse() {
    assert_eq!(
        plot_ellipse(6, 4, 0, 0),
        vec![
            (3, 4), (3, 0), (4, 4), (2, 0), (4, 0), (2, 4), (5, 3), (1, 1), (5, 1), (1, 3), (6, 3),
            (0, 1), (6, 1), (0, 3), (6, 2), (0, 2)
        ]
    );
    assert_eq!(plot_ellipse(0, 0, 6, 4), plot_ellipse(6, 4, 0, 0));
}

#[test]
fn trace_of_a_point_and_of_a_thin_box() {
    assert_eq!(plot_ellipse(3, 3, 3, 3), vec![(3, 3)]);
    assert_eq!(
        plot_ellipse(0, 0, 1, 8),
        vec![(0, 8), (0, 0), (0, 7), (0, 1), (0, 6), (0, 2), (0, 5), (0, 3), (0, 4)]
    );
}

#[test]
fn trace_of_a_box_whose_decision_values_exceed_64_bits() {
    let cells = plot_ellipse(0, 0, 200000, 100000);
    assert_eq!(cells.len(), 447212);
    assert_eq!(cells[..3], [(100000, 100000), (100000, 0), (100001, 100000)]);
    assert_eq!(cells[447209..], [(0, 50001), (200000, 50000), (0, 50000)]);
    assert_eq!(cells[223606], (155902, 91458));
    let mut sum: u128 = 0;
    for (x, y) in cells {
        sum = (sum * 31 + x as u128 * 7 + y as u128) % ((1 << 61) - 1);
    }
    assert_eq!(sum, 56548307902867085);
}

#[test]
fn stroked_ellipse() {
    let mut canvas = Canvas::new(16, 16);
    canvas.draw_ellipse(0, 0, 9, 5, INK);
    assert_eq!(
        lit_cells(&canvas),
        vec![
            (2, 0), (3, 0), (4, 0), (5, 0), (6, 0), (1, 1), (7, 1), (0, 2), (8, 2), (1, 3), (7, 3),
            (2, 4), (3, 4), (4, 4), (5, 4), (6, 4)
        ]
    );
}

#[test]
fn filled_ellipse() {
    let mut canvas = Canvas::new(16, 16);
    canvas.draw_ellipse_fill(0, 0, 9, 5, INK);
    let rows: [(i32, i32, i32); 5] = [(0, 2, 6), (1, 1, 7), (2, 0, 8), (3, 1, 7), (4, 2, 6)];
    let mut want = vec![];
    for (y, from, to) in rows {
        for x in from..=to {
            want.push((x, y));
        }
    }
    assert_eq!(lit_cells(&canvas), want);
}

#[test]
fn filled_ellipse_has_no_hole_inside_the_analytic_boundary() {
    let mut canvas = Canvas::new(16, 16);
    canvas.draw_ellipse_fill(0, 0, 9, 5, INK);
    let lit = lit_cells(&canvas);
    // Half-axes 4 and 2 around (4, 2): inside means (x-4)^2 / 16 + (y-2)^2 / 4 < 1.
    let mut inside = 0;
    for y in -2..12 {
        for x in -2..12 {
            let dx: i32 = x - 4;
            let dy: i32 = y - 2;
            if dx * dx * 4 + dy * dy * 16 < 64 {
                inside += 1;
                assert!(lit.contains(&(x, y)), "unset pixel {},{}", x, y);
            }
        }
    }
    assert_eq!(inside, 21);
}

#[test]
fn filled_ellipse_covers_its_outline() {
    for (x1, y1) in [(9, 5), (12, 11), (3, 14), (1, 1), (0, 0), (15, 2)] {
        let mut outline = Canvas::new(16, 16);
        outline.draw_ellipse(0, 0, x1, y1, INK);
        let mut full = Canvas::new(16, 16);
        full.draw_ellipse_fill(0, 0, x1, y1, INK);
        let full = lit_cells(&full);
        for p in lit_cells(&outline) {
            assert!(full.contains(&p));
        }
    }
}

#[test]
fn filled_ellipse_in_a_larger_box() {
    let mut canvas = Canvas::new(16, 16);
    canvas.draw_ellipse_fill(2, 1, 12, 11, INK);
    let rows: [(i32, i32, i32); 11] = [
        (1, 5, 9), (2, 4, 10), (3, 3, 11), (4, 2, 12), (5, 2, 12), (6, 2, 12), (7, 2, 12),
        (8, 2, 12), (9, 3, 11), (10, 4, 10), (11, 5, 9),
    ];
    let mut want = vec![];
    for (y, from, to) in rows {
        for x in from..=to {
            want.push((x, y));
        }
    }
    assert_eq!(lit_cells(&canvas), want);
}

#[test]
fn a_translucent_filled_ellipse_blends_each_pixel_once() {
    let mut canvas = Canvas::new(16, 16);
    canvas.clear(Color::new(10, 20, 30, 255));
    canvas.draw_ellipse_fill(0, 0, 9, 5, Color::new(200, 100, 50, 128));
    let mut blended = 0;
    for y in 0..16 {
        for x in 0..16 {
            let got = canvas.get_pixel(x, y);
            if got == Color::new(105, 60, 40, 255) {
                blended += 1;
            } else {
                assert_eq!(got, Color::new(10, 20, 30, 255));
            }
        }
    }
    assert_eq!(blended, 33);
}

#[test]
fn filled_ellipse_is_clipped_to_the_canvas() {
    let mut canvas = Canvas::new(6, 3);
    canvas.draw_ellipse_fill(0, 0, 9, 5, INK);
    assert_eq!(
        lit_cells(&canvas),
        vec![
            (2, 0), (3, 0), (4, 0), (5, 0), (1, 1), (2, 1), (3, 1), (4, 1), (5, 1), (0, 2), (1, 2),
            (2, 2), (3, 2), (4, 2), (5, 2)
        ]
    );
    let mut canvas = Canvas::new(6, 3);
    canvas.draw_ellipse_fill(-20, -20, -11, -15, INK);
    assert_eq!(lit_cells(&canvas), vec![]);
}

#[test]
fn filled_ellipse_obeys_the_fill_pattern() {
    let mut canvas = Canvas::new(16, 16);
    canvas.fill_pattern = 0xA5A5;
    canvas.draw_ellipse_fill(0, 0, 9, 5, INK);
    for (x, y) in lit_cells(&canvas) {
        assert_eq!((x + y) % 2, 0);
    }
    assert_eq!(lit_cells(&canvas).len(), 19);
}
