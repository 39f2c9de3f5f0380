//! The per-frame pipeline: frame pacing, input handling, and the render
//! phase that rasterizes the projected triangles of one frame.

use vstd::prelude::*;
use crate::framebuffer::Framebuffer;
use crate::raster::draw_rect;
use crate::raster::draw_triangle;
use crate::raster::in_rect;
use crate::raster::on_triangle;

verus! {

/// Side length of the small square marker drawn at each triangle corner.
pub const CORNER_MARKER_SIZE: u32 = 3;

/// The key code that, on a key-down event, asks the frame loop to stop.
pub const KEY_ESCAPE: i32 = 27;

/// A host input event, as far as the frame loop cares about it.
#[derive(Clone, Copy, PartialEq, Eq, Structural, Debug)]
pub enum InputEvent {
    /// The host asked the process to quit.
    Quit,
    /// A key was pressed; `key` is the host's key code.
    KeyDown { key: i32 },
    /// Anything else.
    Other,
}

/// Whether an event asks the frame loop to terminate: a quit event, or the
/// escape key going down.
pub open spec fn quit_requested(event: InputEvent) -> bool {
    match event {
        InputEvent::Quit => true,
        InputEvent::KeyDown { key } => key == KEY_ESCAPE,
        InputEvent::Other => false,
    }
}

/// Decides from one polled event whether the frame loop must stop.
pub fn should_quit(event: &InputEvent) -> (quit: bool)
    ensures
        quit == quit_requested(*event),
{
    match event {
        InputEvent::Quit => true,
        InputEvent::KeyDown { key } => *key == KEY_ESCAPE,
        InputEvent::Other => false,
    }
}

/// The screen-space projection of one mesh face for the current frame:
/// three corner points in rasterizer coordinates.
#[derive(Clone, Copy, PartialEq, Eq, Structural, Debug)]
pub struct ScreenTriangle {
    pub x0: i32,
    pub y0: i32,
    pub x1: i32,
    pub y1: i32,
    pub x2: i32,
    pub y2: i32,
}

/// Whether the render phase paints the pixel at (`px`, `py`) for the given
/// triangle: it lies in one of the three corner markers or on the wireframe
/// outline.
pub open spec fn covers(t: ScreenTriangle, px: int, py: int) -> bool {
    ||| in_rect(t.x0 as int, t.y0 as int, CORNER_MARKER_SIZE as int, CORNER_MARKER_SIZE as int, px, py)
    ||| in_rect(t.x1 as int, t.y1 as int, CORNER_MARKER_SIZE as int, CORNER_MARKER_SIZE as int, px, py)
    ||| in_rect(t.x2 as int, t.y2 as int, CORNER_MARKER_SIZE as int, CORNER_MARKER_SIZE as int, px, py)
    ||| on_triangle(
        t.x0 as int,
        t.y0 as int,
        t.x1 as int,
        t.y1 as int,
        t.x2 as int,
        t.y2 as int,
        px,
        py,
    )
}

/// The render phase of one frame: clears the buffer to `background`, then
/// draws each triangle's corner markers and wireframe outline in `color`.
/// Afterwards a pixel holds `color` exactly when some triangle of the list
/// covers it, and `background` everywhere else.
pub fn render_frame(
    fb: &mut Framebuffer,
    triangles: &Vec<ScreenTriangle>,
    background: u32,
    color: u32,
)
    requires
        old(fb).wf(),
    ensures
        final(fb).wf(),
        final(fb).spec_width() == old(fb).spec_width(),
        final(fb).spec_height() == old(fb).spec_height(),
        forall|px: int, py: int|
            old(fb).in_bounds(px, py) ==> final(fb).pix(px, py) == (if (exists|t: int|
                #![trigger triangles@[t]]
                0 <= t < triangles@.len() && covers(triangles@[t], px, py)) {
                color
            } else {
                background
            }),
{
    fb.clear(background);
    let ghost fbc = *fb;
    let mut k: usize = 0;
    while k < triangles.len()
        invariant
            fb.wf(),
            fb.spec_width() == fbc.spec_width(),
            fb.spec_height() == fbc.spec_height(),
            k <= triangles@.len(),
            forall|px: int, py: int|
                fbc.in_bounds(px, py) ==> fb.pix(px, py) == (if (exists|t: int|
                    #![trigger triangles@[t]]
                    0 <= t < k && covers(triangles@[t], px, py)) {
                    color
                } else {
                    background
                }),
        decreases triangles@.len() - k,
    {
        let tri: ScreenTriangle = triangles[k];
        let ghost s0 = *fb;
        draw_rect(fb, tri.x0, tri.y0, CORNER_MARKER_SIZE, CORNER_MARKER_SIZE, color);
        let ghost s1 = *fb;
        draw_rect(fb, tri.x1, tri.y1, CORNER_MARKER_SIZE, CORNER_MARKER_SIZE, color);
        let ghost s2 = *fb;
        draw_rect(fb, tri.x2, tri.y2, CORNER_MARKER_SIZE, CORNER_MARKER_SIZE, color);
        let ghost s3 = *fb;
        draw_triangle(fb, tri.x0, tri.y0, tri.x1, tri.y1, tri.x2, tri.y2, color);
        proof {
            assert forall|px: int, py: int| fbc.in_bounds(px, py) implies fb.pix(px, py) == (
            if (exists|t: int|
                #![trigger triangles@[t]]
                0 <= t < k + 1 && covers(triangles@[t], px, py)) {
                color
            } else {
                background
            }) by {
                assert(s1.pix(px, py) == (if in_rect(
                    tri.x0 as int,
                    tri.y0 as int,
                    CORNER_MARKER_SIZE as int,
                    CORNER_MARKER_SIZE as int,
                    px,
                    py,
                ) {
                    color
                } else {
                    s0.pix(px, py)
                }));
                assert(s2.pix(px, py) == (if in_rect(
                    tri.x1 as int,
                    tri.y1 as int,
                    CORNER_MARKER_SIZE as int,
                    CORNER_MARKER_SIZE as int,
                    px,
                    py,
                ) {
                    color
                } else {
                    s1.pix(px, py)
                }));
                assert(s3.pix(px, py) == (if in_rect(
                    tri.x2 as int,
                    tri.y2 as int,
                    CORNER_MARKER_SIZE as int,
                    CORNER_MARKER_SIZE as int,
                    px,
                    py,
                ) {
                    color
                } else {
                    s2.pix(px, py)
                }));
                assert(fb.pix(px, py) == (if on_triangle(
                    tri.x0 as int,
                    tri.y0 as int,
                    tri.x1 as int,
                    tri.y1 as int,
                    tri.x2 as int,
                    tri.y2 as int,
                    px,
                    py,
                ) {
                    color
                } else {
                    s3.pix(px, py)
                }));
                if covers(tri, px, py) {
                    assert(triangles@[k as int] == tri);
                    assert(0 <= (k as int) && (k as int) < k + 1 && covers(
                        triangles@[k as int],
                        px,
                        py,
                    ));
                } else {
                    assert(fb.pix(px, py) == s0.pix(px, py));
                    if exists|t: int|
                        #![trigger triangles@[t]]
                        0 <= t < k + 1 && covers(triangles@[t], px, py) {
                        let t = choose|t: int|
                            #![trigger triangles@[t]]
                            0 <= t < k + 1 && covers(triangles@[t], px, py);
                        assert(t != k);
                        assert(0 <= t < k && covers(triangles@[t], px, py));
                    }
                }
            }
        }
        k = k + 1;
    }
    proof {
        assert forall|px: int, py: int| old(fb).in_bounds(px, py) implies fb.pix(px, py) == (
        if (exists|t: int|
            #![trigger triangles@[t]]
            0 <= t < triangles@.len() && covers(triangles@[t], px, py)) {
            color
        } else {
            background
        }) by {
            assert(fbc.in_bounds(px, py));
            assert(fb.pix(px, py) == (if (exists|t: int|
                #![trigger triangles@[t]]
                0 <= t < k && covers(triangles@[t], px, py)) {
                color
            } else {
                background
            }));
            if exists|t: int| #![trigger triangles@[t]] 0 <= t < k && covers(
                triangles@[t],
                px,
                py,
            ) {
                let t = choose|t: int|
                    #![trigger triangles@[t]]
                    0 <= t < k && covers(triangles@[t], px, py);
                assert(0 <= t < triangles@.len() && covers(triangles@[t], px, py));
            }
            if exists|t: int|
                #![trigger triangles@[t]]
                0 <= t < triangles@.len() && covers(triangles@[t], px, py) {
                let t = choose|t: int|
                    #![trigger triangles@[t]]
                    0 <= t < triangles@.len() && covers(triangles@[t], px, py);
                assert(0 <= t < k && covers(triangles@[t], px, py));
            }
        }
    }
}

/// Target updates per second of the frame loop.
pub const FPS: u32 = 60;

/// Target duration of one frame, in milliseconds.
pub const FRAME_TARGET_TIME: u32 = 1000 / FPS;

/// Milliseconds elapsed between two readings of a millisecond clock that
/// wraps around at 2^32 (the later reading `now` may have wrapped past
/// `previous`).
pub open spec fn elapsed_ticks(previous: u32, now: u32) -> int {
    if now >= previous {
        now - previous
    } else {
        0x1_0000_0000 - previous + now
    }
}

/// How long the frame loop must still block before starting the next frame:
/// the remainder of the target interval, or nothing when the interval has
/// already elapsed.
pub fn frame_wait_time(previous: u32, now: u32, target: u32) -> (wait: u32)
    ensures
        elapsed_ticks(previous, now) < target ==> wait == target - elapsed_ticks(previous, now),
        elapsed_ticks(previous, now) >= target ==> wait == 0,
        elapsed_ticks(previous, now) + wait >= target || wait == 0,
{
    let elapsed: u32 = if now >= previous {
        now - previous
    } else {
        u32::MAX - previous + 1 + now
    };
    if elapsed < target {
        target - elapsed
    } else {
        0
    }
}

} // verus!
