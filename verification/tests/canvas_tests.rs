use hexcanvas::canvas::Canvas;
use hexcanvas::hexagon::draw_hex;
use hexcanvas::point::Pixel;

const BLACK: [u8; 4] = [0, 0, 0, 255];
const INK: [u8; 4] = [10, 20, 30, 40];

fn drawn(canvas: &Canvas) -> Vec<(usize, usize)> {
    let width = canvas.width() as usize;
    let bytes = canvas.pixels();
    let mut out = Vec::new();
    for i in 0..bytes.len() / 4 {
        if bytes[4 * i..4 * i + 4] != [255, 255, 255, 255] {
            out.push((i / width, i % width));
        }
    }
    out
}

fn line(width: u32, height: u32, a: (i32, i32), b: (i32, i32)) -> Canvas {
    let mut canvas = Canvas::new(width, height);
    canvas.draw_line(&Pixel::new(a.0, a.1), &Pixel::new(b.0, b.1), BLACK);
    canvas
}

#[test]
fn new_canvas_is_opaque_white() {
    let canvas = Canvas::new(3, 2);
    assert_eq!(canvas.width(), 3);
    assert_eq!(canvas.height(), 2);
    assert_eq!(canvas.pixels().len(), 24);
    assert!(canvas.pixels().iter().all(|b| *b == 255));
}

#[test]
fn empty_canvas_has_an_empty_buffer() {
    assert!(Canvas::new(0, 0).pixels().is_empty());
    assert!(Canvas::new(5, 0).pixels().is_empty());
    assert!(Canvas::new(0, 5).pixels().is_empty());
}

#[test]
fn draw_pixel_changes_exactly_four_bytes() {
    let mut canvas = Canvas::new(3, 2);
    canvas.draw_pixel(&Pixel::new(1, 2), INK);
    let mut expected = vec![255u8; 24];
    expected[20..24].copy_from_slice(&INK);
    assert_eq!(canvas.pixels(), &expected);
}

#[test]
fn draw_pixel_takes_x_as_the_row() {
    let mut canvas = Canvas::new(3, 2);
    canvas.draw_pixel(&Pixel::new(1, 0), INK);
    let mut expected = vec![255u8; 24];
    expected[12..16].copy_from_slice(&INK);
    assert_eq!(canvas.pixels(), &expected);
}

#[test]
fn draw_pixel_outside_the_canvas_changes_nothing() {
    let mut canvas = Canvas::new(3, 2);
    for (x, y) in [
        (2, 0),
        (0, 3),
        (-1, 0),
        (0, -1),
        (2, 3),
        (i32::MAX, i32::MAX),
        (i32::MIN, i32::MIN),
    ] {
        canvas.draw_pixel(&Pixel::new(x, y), INK);
    }
    assert_eq!(canvas.pixels(), &vec![255u8; 24]);
}

#[test]
fn draw_pixel_on_an_empty_canvas_is_a_no_op() {
    let mut canvas = Canvas::new(0, 0);
    canvas.draw_pixel(&Pixel::new(0, 0), INK);
    canvas.draw_line(&Pixel::new(0, 0), &Pixel::new(5, 5), INK);
    assert!(canvas.pixels().is_empty());
}

#[test]
fn draw_pixel_overwrites_without_blending() {
    let mut canvas = Canvas::new(2, 2);
    canvas.draw_pixel(&Pixel::new(0, 1), BLACK);
    canvas.draw_pixel(&Pixel::new(0, 1), INK);
    assert_eq!(&canvas.pixels()[4..8], &INK);
}

#[test]
fn zero_length_line_draws_one_pixel() {
    let canvas = line(5, 5, (2, 3), (2, 3));
    assert_eq!(drawn(&canvas), vec![(2, 3)]);
}

#[test]
fn zero_length_line_outside_draws_nothing() {
    let canvas = line(5, 5, (7, 3), (7, 3));
    assert!(drawn(&canvas).is_empty());
}

#[test]
fn shallow_line_steps_the_column_at_the_midpoint() {
    let canvas = line(4, 4, (0, 0), (3, 1));
    assert_eq!(drawn(&canvas), vec![(0, 0), (1, 0), (2, 1), (3, 1)]);
}

#[test]
fn steep_line_steps_the_row_at_the_midpoint() {
    let canvas = line(4, 4, (0, 0), (1, 3));
    assert_eq!(drawn(&canvas), vec![(0, 0), (0, 1), (1, 2), (1, 3)]);
}

#[test]
fn diagonal_line() {
    let canvas = line(4, 4, (0, 0), (3, 3));
    assert_eq!(drawn(&canvas), vec![(0, 0), (1, 1), (2, 2), (3, 3)]);
}

#[test]
fn descending_lines() {
    let canvas = line(4, 4, (0, 3), (3, 2));
    assert_eq!(drawn(&canvas), vec![(0, 3), (1, 3), (2, 2), (3, 2)]);
    let canvas = line(4, 4, (3, 0), (2, 3));
    assert_eq!(drawn(&canvas), vec![(2, 2), (2, 3), (3, 0), (3, 1)]);
}

#[test]
fn horizontal_and_vertical_lines() {
    let canvas = line(4, 3, (1, 0), (1, 3));
    assert_eq!(drawn(&canvas), vec![(1, 0), (1, 1), (1, 2), (1, 3)]);
    let canvas = line(4, 3, (0, 2), (2, 2));
    assert_eq!(drawn(&canvas), vec![(0, 2), (1, 2), (2, 2)]);
}

#[test]
fn line_is_the_same_from_either_end() {
    let ends = [
        ((0, 0), (7, 3)),
        ((7, 3), (1, 6)),
        ((2, 9), (9, 0)),
        ((4, 4), (4, 9)),
        ((-3, 2), (12, 5)),
        ((8, 2), (1, 9)),
        ((8, 2), (7, 9)),
    ];
    for (a, b) in ends {
        let forward = line(10, 10, a, b);
        let backward = line(10, 10, b, a);
        assert_eq!(forward.pixels(), backward.pixels());
        assert!(!drawn(&forward).is_empty());
    }
}

#[test]
fn line_points_outside_the_canvas_are_dropped() {
    let canvas = line(3, 3, (-2, -2), (5, 5));
    assert_eq!(drawn(&canvas), vec![(0, 0), (1, 1), (2, 2)]);
}

#[test]
fn line_between_far_apart_points() {
    let canvas = line(2, 2, (0, 0), (0, 100_000));
    assert_eq!(drawn(&canvas), vec![(0, 0), (0, 1)]);
}

#[test]
fn hexagon_outline_is_its_six_edges() {
    let corners = [
        Pixel::new(2, 6),
        Pixel::new(6, 8),
        Pixel::new(10, 6),
        Pixel::new(10, 2),
        Pixel::new(6, 0),
        Pixel::new(2, 2),
    ];
    let mut outline = Canvas::new(12, 12);
    draw_hex(&mut outline, &corners, BLACK);
    let mut edges = Canvas::new(12, 12);
    for i in 0..6 {
        edges.draw_line(&corners[i], &corners[(i + 1) % 6], BLACK);
    }
    assert_eq!(outline.pixels(), edges.pixels());
    let touched = drawn(&outline);
    for corner in corners {
        assert!(touched.contains(&(corner.x as usize, corner.y as usize)));
    }
    assert!(!touched.contains(&(6, 4)));
}

#[test]
fn render_has_one_line_per_row_and_one_glyph_per_pixel() {
    let canvas = Canvas::new(3, 2);
    let white = "\u{1f90d}";
    let row = format!("{}{}{}\n", white, white, white);
    assert_eq!(canvas.render(), format!("{}{}", row, row));
    assert_eq!(canvas.render().lines().count(), 2);
    for line in canvas.render().lines() {
        assert_eq!(line.chars().count(), 3);
    }
    let wide = Canvas::new(7, 4).render();
    assert_eq!(wide.lines().count(), 4);
    assert!(wide.lines().all(|line| line.chars().count() == 7));
    assert!(wide.ends_with('\n'));
}

#[test]
fn render_shows_drawn_pixels_in_row_order() {
    let mut canvas = Canvas::new(2, 2);
    canvas.draw_pixel(&Pixel::new(0, 1), [255, 0, 0, 255]);
    canvas.draw_pixel(&Pixel::new(1, 0), BLACK);
    assert_eq!(
        canvas.render(),
        "\u{1f90d}\u{2764}\u{fe0f}\n\u{1f5a4}\u{1f90d}\n"
    );
}

#[test]
fn render_of_an_empty_buffer_is_empty() {
    assert_eq!(Canvas::new(0, 0).render(), "");
    assert_eq!(Canvas::new(4, 0).render(), "");
    assert_eq!(Canvas::new(0, 4).render(), "");
}
