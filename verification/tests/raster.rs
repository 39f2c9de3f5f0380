use softrender::framebuffer::Framebuffer;
use softrender::raster::draw_line;
use softrender::raster::draw_pixel;
use softrender::raster::draw_rect;
use softrender::raster::draw_triangle;

const BG: u32 = 0xFF000000;
const FG: u32 = 0xFF00CC00;

fn cleared(width: i32, height: i32) -> Framebuffer {
    let mut fb = Framebuffer::new(width, height);
    fb.clear(BG);
    fb
}

/// Asserts that exactly the pixels in `lit` hold the foreground color and
/// every other pixel still holds the background.
fn assert_exactly_lit(fb: &Framebuffer, lit: &[(i32, i32)]) {
    for y in 0..fb.height() {
        for x in 0..fb.width() {
            let expected = if lit.contains(&(x, y)) { FG } else { BG };
            assert_eq!(fb.read_pixel(x, y), expected, "pixel ({}, {})", x, y);
        }
    }
}

#[test]
fn pixel_in_bounds_is_drawn() {
    let mut fb = cleared(4, 4);
    draw_pixel(&mut fb, 3, 0, FG);
    assert_exactly_lit(&fb, &[(3, 0)]);
}

#[test]
fn pixel_out_of_bounds_is_dropped() {
    let mut fb = cleared(4, 4);
    draw_pixel(&mut fb, -1, 2, FG);
    draw_pixel(&mut fb, 2, -7, FG);
    draw_pixel(&mut fb, 4, 1, FG);
    draw_pixel(&mut fb, 1, 4, FG);
    assert_exactly_lit(&fb, &[]);
}

#[test]
fn degenerate_line_writes_exactly_one_pixel() {
    let mut fb = cleared(5, 5);
    draw_line(&mut fb, 2, 3, 2, 3, FG);
    assert_exactly_lit(&fb, &[(2, 3)]);
}

#[test]
fn horizontal_line_writes_each_column_once() {
    let mut fb = cleared(6, 3);
    draw_line(&mut fb, 0, 0, 4, 0, FG);
    assert_exactly_lit(&fb, &[(0, 0), (1, 0), (2, 0), (3, 0), (4, 0)]);
}

#[test]
fn line_direction_does_not_change_the_pixels() {
    let mut forward = cleared(6, 6);
    let mut backward = cleared(6, 6);
    draw_line(&mut forward, 0, 0, 4, 2, FG);
    draw_line(&mut backward, 4, 2, 0, 0, FG);
    for y in 0..6 {
        for x in 0..6 {
            assert_eq!(forward.read_pixel(x, y), backward.read_pixel(x, y));
        }
    }
}

#[test]
fn diagonal_line_steps_both_axes() {
    let mut fb = cleared(4, 4);
    draw_line(&mut fb, 0, 0, 2, 2, FG);
    assert_exactly_lit(&fb, &[(0, 0), (1, 1), (2, 2)]);
}

#[test]
fn steep_line_rounds_halves_away_from_zero() {
    let mut fb = cleared(3, 6);
    draw_line(&mut fb, 0, 0, 1, 4, FG);
    // x positions are 0, 1/4, 1/2, 3/4, 1; the half rounds up to 1.
    assert_exactly_lit(&fb, &[(0, 0), (0, 1), (1, 2), (1, 3), (1, 4)]);
}

#[test]
fn line_is_clipped_at_the_buffer_edge() {
    let mut fb = cleared(3, 2);
    draw_line(&mut fb, -2, 0, 2, 0, FG);
    assert_exactly_lit(&fb, &[(0, 0), (1, 0), (2, 0)]);
}

#[test]
fn rect_fills_its_block() {
    let mut fb = cleared(5, 5);
    draw_rect(&mut fb, 1, 2, 3, 2, FG);
    assert_exactly_lit(
        &fb,
        &[(1, 2), (2, 2), (3, 2), (1, 3), (2, 3), (3, 3)],
    );
}

#[test]
fn empty_rect_draws_nothing() {
    let mut fb = cleared(5, 5);
    draw_rect(&mut fb, 1, 1, 0, 4, FG);
    draw_rect(&mut fb, 1, 1, 4, 0, FG);
    assert_exactly_lit(&fb, &[]);
}

#[test]
fn rect_with_negative_origin_is_clipped() {
    let mut fb = cleared(4, 4);
    draw_rect(&mut fb, -1, -1, 2, 2, FG);
    assert_exactly_lit(&fb, &[(0, 0)]);
}

#[test]
fn both_endpoints_are_always_drawn() {
    let mut fb = cleared(8, 8);
    draw_line(&mut fb, 1, 1, 6, 3, FG);
    assert_eq!(fb.read_pixel(1, 1), FG);
    assert_eq!(fb.read_pixel(6, 3), FG);
}

#[test]
fn shallow_line_has_no_gaps() {
    let mut fb = cleared(7, 4);
    draw_line(&mut fb, 0, 0, 5, 2, FG);
    // y positions are 0, 2/5, 4/5, 6/5, 8/5, 2, rounded to nearest.
    assert_exactly_lit(&fb, &[(0, 0), (1, 0), (2, 1), (3, 1), (4, 2), (5, 2)]);
}

#[test]
fn triangle_outline_draws_its_three_edges() {
    let mut fb = cleared(4, 4);
    draw_triangle(&mut fb, 0, 0, 2, 0, 0, 2, FG);
    assert_exactly_lit(
        &fb,
        &[(0, 0), (1, 0), (2, 0), (1, 1), (0, 1), (0, 2)],
    );
}
