use softrender::framebuffer::Framebuffer;

fn assert_all_pixels(fb: &Framebuffer, expected: u32) {
    let w = fb.width();
    let h = fb.height();
    for y in 0..h {
        for x in 0..w {
            assert_eq!(fb.read_pixel(x, y), expected, "pixel ({}, {})", x, y);
        }
    }
}

#[test]
fn new_buffer_is_zero_filled() {
    let fb = Framebuffer::new(4, 3);
    assert_eq!(fb.width(), 4);
    assert_eq!(fb.height(), 3);
    assert_eq!(fb.pixels().len(), 12);
    assert_all_pixels(&fb, 0);
}

#[test]
fn write_then_read_returns_written_color() {
    let mut fb = Framebuffer::new(4, 3);
    fb.write_pixel(2, 1, 0xFF00CC00);
    assert_eq!(fb.read_pixel(2, 1), 0xFF00CC00);
    // Every other pixel is untouched.
    for y in 0..3 {
        for x in 0..4 {
            if !(x == 2 && y == 1) {
                assert_eq!(fb.read_pixel(x, y), 0);
            }
        }
    }
}

#[test]
fn out_of_bounds_write_is_dropped() {
    let mut fb = Framebuffer::new(4, 3);
    fb.write_pixel(4, 0, 0xFFFFFFFF);
    fb.write_pixel(0, 3, 0xFFFFFFFF);
    fb.write_pixel(-1, 0, 0xFFFFFFFF);
    fb.write_pixel(0, -1, 0xFFFFFFFF);
    fb.write_pixel(i32::MAX, i32::MAX, 0xFFFFFFFF);
    fb.write_pixel(i32::MIN, 1, 0xFFFFFFFF);
    assert_all_pixels(&fb, 0);
}

#[test]
fn clear_sets_every_pixel() {
    let mut fb = Framebuffer::new(5, 4);
    fb.write_pixel(1, 1, 0xFF123456);
    fb.clear(0xFF000000);
    assert_all_pixels(&fb, 0xFF000000);
}

#[test]
fn clear_is_idempotent() {
    let mut fb = Framebuffer::new(5, 4);
    fb.clear(0xFF112233);
    let first: Vec<u32> = fb.pixels().clone();
    fb.clear(0xFF112233);
    assert_eq!(fb.pixels(), &first);
    assert_all_pixels(&fb, 0xFF112233);
}

#[test]
fn empty_buffer_is_fine() {
    let mut fb = Framebuffer::new(0, 7);
    assert_eq!(fb.pixels().len(), 0);
    fb.clear(0xFF334455);
    fb.write_pixel(0, 0, 0xFFFFFFFF);
    assert_eq!(fb.pixels().len(), 0);
}

#[test]
fn grid_marks_multiples_of_spacing() {
    let mut fb = Framebuffer::new(8, 6);
    fb.clear(0xFF000000);
    fb.draw_grid(3, 0xFF333333);
    for y in 0..6 {
        for x in 0..8 {
            let expected = if x % 3 == 0 || y % 3 == 0 {
                0xFF333333
            } else {
                0xFF000000
            };
            assert_eq!(fb.read_pixel(x, y), expected, "pixel ({}, {})", x, y);
        }
    }
}

#[test]
fn grid_spacing_one_covers_everything() {
    let mut fb = Framebuffer::new(4, 4);
    fb.clear(0xFF000000);
    fb.draw_grid(1, 0xFF333333);
    assert_all_pixels(&fb, 0xFF333333);
}
