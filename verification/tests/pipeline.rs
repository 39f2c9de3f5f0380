use softrender::framebuffer::Framebuffer;
use softrender::pipeline::frame_wait_time;
use softrender::pipeline::render_frame;
use softrender::pipeline::should_quit;
use softrender::pipeline::InputEvent;
use softrender::pipeline::ScreenTriangle;
use softrender::pipeline::CORNER_MARKER_SIZE;
use softrender::pipeline::FPS;
use softrender::pipeline::FRAME_TARGET_TIME;
use softrender::pipeline::KEY_ESCAPE;
use softrender::raster::draw_rect;
use softrender::raster::draw_triangle;

#[test]
fn quit_event_stops_the_loop() {
    assert!(should_quit(&InputEvent::Quit));
}

#[test]
fn escape_key_stops_the_loop() {
    assert_eq!(KEY_ESCAPE, 27);
    assert!(should_quit(&InputEvent::KeyDown { key: 27 }));
}

#[test]
fn other_input_keeps_running() {
    assert!(!should_quit(&InputEvent::KeyDown { key: 65 }));
    assert!(!should_quit(&InputEvent::Other));
}

#[test]
fn frame_target_time_matches_the_rate() {
    assert_eq!(FPS, 60);
    assert_eq!(FRAME_TARGET_TIME, 1000 / 60);
}

#[test]
fn short_elapsed_time_blocks_for_the_remainder() {
    // 10 ms of a 16 ms frame have passed: wait out the remaining 6 ms.
    let wait = frame_wait_time(100, 110, 16);
    assert_eq!(wait, 6);
    assert!(110 - 100 + wait >= 16);
}

#[test]
fn long_elapsed_time_does_not_block() {
    assert_eq!(frame_wait_time(100, 130, 16), 0);
    assert_eq!(frame_wait_time(100, 116, 16), 0);
}

#[test]
fn wrapped_tick_counter_is_handled() {
    // The clock wrapped between the two readings; 10 ms really elapsed.
    let wait = frame_wait_time(u32::MAX - 5, 4, 16);
    assert_eq!(wait, 6);
}

#[test]
fn render_frame_paints_markers_outline_and_background() {
    let mut fb = Framebuffer::new(20, 20);
    let triangles = vec![ScreenTriangle {
        x0: 2,
        y0: 2,
        x1: 10,
        y1: 2,
        x2: 2,
        y2: 10,
    }];
    render_frame(&mut fb, &triangles, 0xFF000000, 0xFF00CC00);
    // Corner markers cover a 3-by-3 block at each corner.
    assert_eq!(fb.read_pixel(2, 2), 0xFF00CC00);
    assert_eq!(fb.read_pixel(4, 4), 0xFF00CC00);
    assert_eq!(fb.read_pixel(11, 3), 0xFF00CC00);
    // The top edge and the diagonal edge run through these pixels.
    assert_eq!(fb.read_pixel(7, 2), 0xFF00CC00);
    assert_eq!(fb.read_pixel(6, 6), 0xFF00CC00);
    // Away from every marker and edge only the background is left.
    assert_eq!(fb.read_pixel(6, 4), 0xFF000000);
    assert_eq!(fb.read_pixel(15, 15), 0xFF000000);
}

#[test]
fn render_frame_equals_the_spelled_out_render_phase() {
    let triangles = vec![
        ScreenTriangle { x0: 1, y0: 1, x1: 8, y1: 3, x2: 4, y2: 9 },
        ScreenTriangle { x0: 0, y0: 0, x1: 11, y1: 0, x2: 0, y2: 11 },
    ];
    let mut pipeline_fb = Framebuffer::new(12, 12);
    render_frame(&mut pipeline_fb, &triangles, 0xFF000000, 0xFF00CC00);

    let mut manual_fb = Framebuffer::new(12, 12);
    manual_fb.clear(0xFF000000);
    for t in &triangles {
        draw_rect(&mut manual_fb, t.x0, t.y0, CORNER_MARKER_SIZE, CORNER_MARKER_SIZE, 0xFF00CC00);
        draw_rect(&mut manual_fb, t.x1, t.y1, CORNER_MARKER_SIZE, CORNER_MARKER_SIZE, 0xFF00CC00);
        draw_rect(&mut manual_fb, t.x2, t.y2, CORNER_MARKER_SIZE, CORNER_MARKER_SIZE, 0xFF00CC00);
        draw_triangle(&mut manual_fb, t.x0, t.y0, t.x1, t.y1, t.x2, t.y2, 0xFF00CC00);
    }
    assert_eq!(pipeline_fb.pixels(), manual_fb.pixels());
}

#[test]
fn render_frame_with_no_triangles_is_a_clear() {
    let mut fb = Framebuffer::new(6, 6);
    fb.write_pixel(3, 3, 0xFFABCDEF);
    let triangles: Vec<ScreenTriangle> = Vec::new();
    render_frame(&mut fb, &triangles, 0xFF101010, 0xFF00CC00);
    for y in 0..6 {
        for x in 0..6 {
            assert_eq!(fb.read_pixel(x, y), 0xFF101010);
        }
    }
}
