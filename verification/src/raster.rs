//! Rasterization primitives: single pixels, lines, rectangles and triangle
//! outlines, all writing into a [`crate::framebuffer::Framebuffer`] with
//! signed coordinates and silent clipping at the buffer bounds.
//!
//! Lines are rasterized by a digital differential analyzer: the longer of the
//! two coordinate deltas fixes the step count, and both coordinates advance
//! by the exact rational increment `delta / steps` per step, each plotted
//! point being the accumulated position rounded to the nearest integer
//! (halves away from zero). Both endpoints are always plotted.

use vstd::prelude::*;
use vstd::arithmetic::div_mod::lemma_fundamental_div_mod;
use vstd::arithmetic::div_mod::lemma_fundamental_div_mod_converse;
use vstd::arithmetic::div_mod::lemma_mod_bound;
use crate::framebuffer::Framebuffer;
use crate::framebuffer::lemma_framebuffer_dims;

verus! {

/// Magnitude of a coordinate delta.
pub open spec fn abs_delta(d: int) -> int {
    if d < 0 {
        -d
    } else {
        d
    }
}

/// The number of unit steps the line rasterizer takes from the first
/// endpoint to the second: the larger of the two coordinate deltas.
pub open spec fn line_steps(x0: int, y0: int, x1: int, y1: int) -> int {
    let dx = abs_delta(x1 - x0);
    let dy = abs_delta(y1 - y0);
    if dx >= dy {
        dx
    } else {
        dy
    }
}

/// `n / d` rounded to the nearest integer, halves away from zero,
/// for a positive divisor `d`.
pub open spec fn round_div(n: int, d: int) -> int
    recommends
        d > 0,
{
    if n >= 0 {
        (2 * n + d) / (2 * d)
    } else {
        -((2 * (-n) + d) / (2 * d))
    }
}

/// Column of the `i`-th point the line rasterizer plots: the exact rational
/// position `x0 + i * (x1 - x0) / steps`, rounded to the nearest integer.
pub open spec fn line_point_x(x0: int, y0: int, x1: int, y1: int, i: int) -> int {
    let steps = line_steps(x0, y0, x1, y1);
    if steps == 0 {
        x0
    } else {
        round_div(x0 * steps + i * (x1 - x0), steps)
    }
}

/// Row of the `i`-th point the line rasterizer plots.
pub open spec fn line_point_y(x0: int, y0: int, x1: int, y1: int, i: int) -> int {
    let steps = line_steps(x0, y0, x1, y1);
    if steps == 0 {
        y0
    } else {
        round_div(y0 * steps + i * (y1 - y0), steps)
    }
}

/// Whether (`px`, `py`) is one of the points plotted for the line from
/// (`x0`, `y0`) to (`x1`, `y1`).
pub open spec fn on_line(x0: int, y0: int, x1: int, y1: int, px: int, py: int) -> bool {
    exists|i: int|
        #![trigger line_point_x(x0, y0, x1, y1, i)]
        0 <= i <= line_steps(x0, y0, x1, y1) && line_point_x(x0, y0, x1, y1, i) == px
            && line_point_y(x0, y0, x1, y1, i) == py
}

/// Whether (`px`, `py`) lies in the `w` × `h` block whose top-left corner is
/// (`x`, `y`).
pub open spec fn in_rect(x: int, y: int, w: int, h: int, px: int, py: int) -> bool {
    x <= px < x + w && y <= py < y + h
}

/// Whether (`px`, `py`) lies on the outline of the triangle with the given
/// corners: on one of the three edges, drawn corner 0 → 1, 1 → 2, 2 → 0.
pub open spec fn on_triangle(
    x0: int,
    y0: int,
    x1: int,
    y1: int,
    x2: int,
    y2: int,
    px: int,
    py: int,
) -> bool {
    ||| on_line(x0, y0, x1, y1, px, py)
    ||| on_line(x1, y1, x2, y2, px, py)
    ||| on_line(x2, y2, x0, y0, px, py)
}

/// Bounds-checked pixel write with signed coordinates: out-of-range
/// coordinates are discarded.
pub fn draw_pixel(fb: &mut Framebuffer, x: i32, y: i32, color: u32)
    requires
        old(fb).wf(),
    ensures
        final(fb).wf(),
        final(fb).spec_width() == old(fb).spec_width(),
        final(fb).spec_height() == old(fb).spec_height(),
        forall|px: int, py: int|
            old(fb).in_bounds(px, py) ==> final(fb).pix(px, py) == (if px == x as int && py
                == y as int {
                color
            } else {
                old(fb).pix(px, py)
            }),
{
    fb.write_pixel(x, y, color);
}

/// Pixel write for coordinates computed in wide arithmetic: everything that
/// cannot even fit an `i32` is out of bounds and dropped.
fn plot(fb: &mut Framebuffer, x: i128, y: i128, color: u32)
    requires
        old(fb).wf(),
    ensures
        final(fb).wf(),
        final(fb).spec_width() == old(fb).spec_width(),
        final(fb).spec_height() == old(fb).spec_height(),
        forall|px: int, py: int|
            old(fb).in_bounds(px, py) ==> final(fb).pix(px, py) == (if px == x as int && py
                == y as int {
                color
            } else {
                old(fb).pix(px, py)
            }),
{
    if x >= -0x8000_0000 && x <= 0x7fff_ffff && y >= -0x8000_0000 && y <= 0x7fff_ffff {
        fb.write_pixel(x as i32, y as i32, color);
    } else {
        proof {
            lemma_framebuffer_dims(fb);
        }
    }
}

/// Draws the filled `width` × `height` block of pixels whose top-left corner
/// is (`x_pos`, `y_pos`), clipped at the buffer bounds.
pub fn draw_rect(fb: &mut Framebuffer, x_pos: i32, y_pos: i32, width: u32, height: u32, color: u32)
    requires
        old(fb).wf(),
    ensures
        final(fb).wf(),
        final(fb).spec_width() == old(fb).spec_width(),
        final(fb).spec_height() == old(fb).spec_height(),
        forall|px: int, py: int|
            old(fb).in_bounds(px, py) ==> final(fb).pix(px, py) == (if in_rect(
                x_pos as int,
                y_pos as int,
                width as int,
                height as int,
                px,
                py,
            ) {
                color
            } else {
                old(fb).pix(px, py)
            }),
{
    let ghost fb0 = *fb;
    let mut y: u32 = 0;
    while y < height
        invariant
            fb.wf(),
            fb.spec_width() == fb0.spec_width(),
            fb.spec_height() == fb0.spec_height(),
            0 <= y <= height,
            forall|px: int, py: int|
                fb0.in_bounds(px, py) ==> fb.pix(px, py) == (if in_rect(
                    x_pos as int,
                    y_pos as int,
                    width as int,
                    y as int,
                    px,
                    py,
                ) {
                    color
                } else {
                    fb0.pix(px, py)
                }),
        decreases height - y,
    {
        let mut x: u32 = 0;
        while x < width
            invariant
                fb.wf(),
                fb.spec_width() == fb0.spec_width(),
                fb.spec_height() == fb0.spec_height(),
                0 <= y < height,
                0 <= x <= width,
                forall|px: int, py: int|
                    fb0.in_bounds(px, py) ==> fb.pix(px, py) == (if in_rect(
                        x_pos as int,
                        y_pos as int,
                        width as int,
                        y as int,
                        px,
                        py,
                    ) || (py == y_pos + y && x_pos <= px < x_pos + x) {
                        color
                    } else {
                        fb0.pix(px, py)
                    }),
            decreases width - x,
        {
            let current_x: i64 = x_pos as i64 + x as i64;
            let current_y: i64 = y_pos as i64 + y as i64;
            plot(fb, current_x as i128, current_y as i128, color);
            x = x + 1;
        }
        y = y + 1;
    }
}

/// Exact rounding division on wide integers, matching [`round_div`].
fn round_div_exec(n: i128, d: i128) -> (r: i128)
    requires
        0 < d <= 0x1_0000_0000,
        -0x8000_0000_0000_0000 <= n <= 0x8000_0000_0000_0000,
    ensures
        r == round_div(n as int, d as int),
{
    if n >= 0 {
        (2 * n + d) / (2 * d)
    } else {
        -((2 * (-n) + d) / (2 * d))
    }
}

/// The accumulated numerator `a * s + k * (b - a)` of the line stepper stays
/// between `a * s` and `b * s`, so it fits 64 bits for `i32` endpoints.
proof fn lemma_interp_bound(a: int, b: int, s: int, k: int)
    by (nonlinear_arith)
    requires
        -0x8000_0000 <= a <= 0x8000_0000,
        -0x8000_0000 <= b <= 0x8000_0000,
        0 <= k <= s,
        0 < s <= 0x1_0000_0000,
    ensures
        -0x8000_0000_0000_0000 <= a * s + k * (b - a) <= 0x8000_0000_0000_0000,
{
}

/// Draws the line from (`x0`, `y0`) to (`x1`, `y1`): plots exactly the
/// rounded positions of the `steps + 1` evenly spaced points between the two
/// endpoints (both endpoints included), clipped at the buffer bounds. A
/// degenerate line with coinciding endpoints plots the one pixel there.
pub fn draw_line(fb: &mut Framebuffer, x0: i32, y0: i32, x1: i32, y1: i32, color: u32)
    requires
        old(fb).wf(),
    ensures
        final(fb).wf(),
        final(fb).spec_width() == old(fb).spec_width(),
        final(fb).spec_height() == old(fb).spec_height(),
        forall|px: int, py: int|
            old(fb).in_bounds(px, py) ==> final(fb).pix(px, py) == (if on_line(
                x0 as int,
                y0 as int,
                x1 as int,
                y1 as int,
                px,
                py,
            ) {
                color
            } else {
                old(fb).pix(px, py)
            }),
{
    let delta_x: i64 = x1 as i64 - x0 as i64;
    let delta_y: i64 = y1 as i64 - y0 as i64;
    let abs_dx: i64 = if delta_x >= 0 {
        delta_x
    } else {
        -delta_x
    };
    let abs_dy: i64 = if delta_y >= 0 {
        delta_y
    } else {
        -delta_y
    };
    let steps: i64 = if abs_dx >= abs_dy {
        abs_dx
    } else {
        abs_dy
    };
    proof {
        assert(steps == line_steps(x0 as int, y0 as int, x1 as int, y1 as int));
    }
    if steps == 0 {
        fb.write_pixel(x0, y0, color);
        proof {
            assert forall|px: int, py: int| old(fb).in_bounds(px, py) implies fb.pix(px, py) == (
            if on_line(x0 as int, y0 as int, x1 as int, y1 as int, px, py) {
                color
            } else {
                old(fb).pix(px, py)
            }) by {
                lemma_degenerate_line(x0 as int, y0 as int, px, py);
            }
        }
        return ;
    }
    proof {
        lemma_interp_bound(x0 as int, x1 as int, steps as int, 0);
        lemma_interp_bound(y0 as int, y1 as int, steps as int, 0);
    }
    let mut num_x: i128 = x0 as i128 * steps as i128;
    let mut num_y: i128 = y0 as i128 * steps as i128;
    let mut i: i64 = 0;
    let ghost fb0 = *fb;
    while i <= steps
        invariant
            fb.wf(),
            fb.spec_width() == fb0.spec_width(),
            fb.spec_height() == fb0.spec_height(),
            0 < steps <= 0xffff_ffff,
            steps == line_steps(x0 as int, y0 as int, x1 as int, y1 as int),
            delta_x == x1 as int - x0 as int,
            delta_y == y1 as int - y0 as int,
            0 <= i <= steps + 1,
            num_x == x0 as int * steps as int + i as int * delta_x as int,
            num_y == y0 as int * steps as int + i as int * delta_y as int,
            forall|px: int, py: int|
                fb0.in_bounds(px, py) ==> fb.pix(px, py) == (if (exists|j: int|
                    #![trigger line_point_x(x0 as int, y0 as int, x1 as int, y1 as int, j)]
                    0 <= j < i && line_point_x(x0 as int, y0 as int, x1 as int, y1 as int, j) == px
                        && line_point_y(x0 as int, y0 as int, x1 as int, y1 as int, j) == py) {
                    color
                } else {
                    fb0.pix(px, py)
                }),
        decreases steps + 1 - i,
    {
        proof {
            lemma_interp_bound(x0 as int, x1 as int, steps as int, i as int);
            lemma_interp_bound(y0 as int, y1 as int, steps as int, i as int);
        }
        let point_x: i128 = round_div_exec(num_x, steps as i128);
        let point_y: i128 = round_div_exec(num_y, steps as i128);
        proof {
            assert(point_x as int == line_point_x(
                x0 as int,
                y0 as int,
                x1 as int,
                y1 as int,
                i as int,
            ));
            assert(point_y as int == line_point_y(
                x0 as int,
                y0 as int,
                x1 as int,
                y1 as int,
                i as int,
            ));
        }
        let ghost prev = *fb;
        plot(fb, point_x, point_y, color);
        proof {
            assert forall|px: int, py: int| fb0.in_bounds(px, py) implies fb.pix(px, py) == (
            if (exists|j: int|
                #![trigger line_point_x(x0 as int, y0 as int, x1 as int, y1 as int, j)]
                0 <= j < i + 1 && line_point_x(x0 as int, y0 as int, x1 as int, y1 as int, j) == px
                    && line_point_y(x0 as int, y0 as int, x1 as int, y1 as int, j) == py) {
                color
            } else {
                fb0.pix(px, py)
            }) by {
                if px == point_x as int && py == point_y as int {
                    assert(line_point_x(x0 as int, y0 as int, x1 as int, y1 as int, i as int)
                        == px);
                    assert(fb.pix(px, py) == color);
                } else {
                    assert(fb.pix(px, py) == prev.pix(px, py));
                    if exists|j: int|
                        #![trigger line_point_x(x0 as int, y0 as int, x1 as int, y1 as int, j)]
                        0 <= j < i + 1 && line_point_x(
                            x0 as int,
                            y0 as int,
                            x1 as int,
                            y1 as int,
                            j,
                        ) == px && line_point_y(x0 as int, y0 as int, x1 as int, y1 as int, j)
                            == py {
                        let j = choose|j: int|
                            #![trigger line_point_x(x0 as int, y0 as int, x1 as int, y1 as int, j)]
                            0 <= j < i + 1 && line_point_x(
                                x0 as int,
                                y0 as int,
                                x1 as int,
                                y1 as int,
                                j,
                            ) == px && line_point_y(x0 as int, y0 as int, x1 as int, y1 as int, j)
                                == py;
                        assert(j != i);
                        assert(0 <= j < i && line_point_x(
                            x0 as int,
                            y0 as int,
                            x1 as int,
                            y1 as int,
                            j,
                        ) == px && line_point_y(x0 as int, y0 as int, x1 as int, y1 as int, j)
                            == py);
                    }
                }
            }
            assert((i as int + 1) * delta_x as int == i as int * delta_x as int + delta_x as int)
                by (nonlinear_arith);
            assert((i as int + 1) * delta_y as int == i as int * delta_y as int + delta_y as int)
                by (nonlinear_arith);
        }
        num_x = num_x + delta_x as i128;
        num_y = num_y + delta_y as i128;
        i = i + 1;
    }
    proof {
        assert forall|px: int, py: int| old(fb).in_bounds(px, py) implies fb.pix(px, py) == (
        if on_line(x0 as int, y0 as int, x1 as int, y1 as int, px, py) {
            color
        } else {
            old(fb).pix(px, py)
        }) by {
            if on_line(x0 as int, y0 as int, x1 as int, y1 as int, px, py) {
                let j = choose|j: int|
                    #![trigger line_point_x(x0 as int, y0 as int, x1 as int, y1 as int, j)]
                    0 <= j <= line_steps(x0 as int, y0 as int, x1 as int, y1 as int)
                        && line_point_x(x0 as int, y0 as int, x1 as int, y1 as int, j) == px
                        && line_point_y(x0 as int, y0 as int, x1 as int, y1 as int, j) == py;
                assert(0 <= j < i && line_point_x(x0 as int, y0 as int, x1 as int, y1 as int, j)
                    == px && line_point_y(x0 as int, y0 as int, x1 as int, y1 as int, j) == py);
            } else {
                if exists|j: int|
                    #![trigger line_point_x(x0 as int, y0 as int, x1 as int, y1 as int, j)]
                    0 <= j < i && line_point_x(x0 as int, y0 as int, x1 as int, y1 as int, j) == px
                        && line_point_y(x0 as int, y0 as int, x1 as int, y1 as int, j) == py {
                    let j = choose|j: int|
                        #![trigger line_point_x(x0 as int, y0 as int, x1 as int, y1 as int, j)]
                        0 <= j < i && line_point_x(x0 as int, y0 as int, x1 as int, y1 as int, j)
                            == px && line_point_y(x0 as int, y0 as int, x1 as int, y1 as int, j)
                            == py;
                    assert(on_line(x0 as int, y0 as int, x1 as int, y1 as int, px, py));
                }
            }
        }
    }
}

/// Draws the outline of a triangle: its three edges, in the fixed order
/// corner 0 → 1, 1 → 2, 2 → 0.
pub fn draw_triangle(
    fb: &mut Framebuffer,
    x0: i32,
    y0: i32,
    x1: i32,
    y1: i32,
    x2: i32,
    y2: i32,
    color: u32,
)
    requires
        old(fb).wf(),
    ensures
        final(fb).wf(),
        final(fb).spec_width() == old(fb).spec_width(),
        final(fb).spec_height() == old(fb).spec_height(),
        forall|px: int, py: int|
            old(fb).in_bounds(px, py) ==> final(fb).pix(px, py) == (if on_triangle(
                x0 as int,
                y0 as int,
                x1 as int,
                y1 as int,
                x2 as int,
                y2 as int,
                px,
                py,
            ) {
                color
            } else {
                old(fb).pix(px, py)
            }),
{
    let ghost fb0 = *fb;
    draw_line(fb, x0, y0, x1, y1, color);
    let ghost fb1 = *fb;
    draw_line(fb, x1, y1, x2, y2, color);
    let ghost fb2 = *fb;
    draw_line(fb, x2, y2, x0, y0, color);
    proof {
        assert forall|px: int, py: int| fb0.in_bounds(px, py) implies fb.pix(px, py) == (
        if on_triangle(x0 as int, y0 as int, x1 as int, y1 as int, x2 as int, y2 as int, px, py) {
            color
        } else {
            fb0.pix(px, py)
        }) by {
            assert(fb1.pix(px, py) == (if on_line(x0 as int, y0 as int, x1 as int, y1 as int, px, py) {
                color
            } else {
                fb0.pix(px, py)
            }));
            assert(fb2.pix(px, py) == (if on_line(x1 as int, y1 as int, x2 as int, y2 as int, px, py) {
                color
            } else {
                fb1.pix(px, py)
            }));
            assert(fb.pix(px, py) == (if on_line(x2 as int, y2 as int, x0 as int, y0 as int, px, py) {
                color
            } else {
                fb2.pix(px, py)
            }));
        }
    }
}

/// Rounding an exact multiple of the divisor recovers the factor.
proof fn lemma_round_div_exact(k: int, s: int)
    requires
        0 < s,
    ensures
        round_div(k * s, s) == k,
{
    if k >= 0 {
        assert(k * s >= 0) by (nonlinear_arith)
            requires
                k >= 0 && s > 0,
        ;
        assert(2 * (k * s) + s == k * (2 * s) + s) by (nonlinear_arith);
        lemma_fundamental_div_mod_converse(2 * (k * s) + s, 2 * s, k, s);
    } else {
        assert(k * s < 0) by (nonlinear_arith)
            requires
                k < 0 && s > 0,
        ;
        assert(2 * (-(k * s)) + s == (-k) * (2 * s) + s) by (nonlinear_arith);
        lemma_fundamental_div_mod_converse(2 * (-(k * s)) + s, 2 * s, -k, s);
    }
}

/// The rounded quotient is off from the exact one by at most half: scaled by
/// `2 * s`, the plotted value stays within `s` of the exact numerator.
proof fn lemma_round_div_bounds(n: int, s: int)
    requires
        0 < s,
    ensures
        -s <= 2 * s * round_div(n, s) - 2 * n <= s,
{
    if n >= 0 {
        lemma_fundamental_div_mod(2 * n + s, 2 * s);
        lemma_mod_bound(2 * n + s, 2 * s);
    } else {
        let q = (2 * (-n) + s) / (2 * s);
        lemma_fundamental_div_mod(2 * (-n) + s, 2 * s);
        lemma_mod_bound(2 * (-n) + s, 2 * s);
        assert(2 * s * round_div(n, s) == -(2 * s * q)) by (nonlinear_arith)
            requires
                round_div(n, s) == -q,
        ;
    }
}

/// Two consecutive accumulator positions of one coordinate round to integers
/// at most one apart.
proof fn lemma_round_step(c0: int, d: int, s: int, i: int)
    requires
        -s <= d <= s,
        0 < s,
        0 <= i < s,
    ensures
        -1 <= round_div(c0 * s + (i + 1) * d, s) - round_div(c0 * s + i * d, s) <= 1,
{
    if d == s {
        assert(c0 * s + i * d == (c0 + i) * s) by (nonlinear_arith)
            requires
                d == s,
        ;
        assert(c0 * s + (i + 1) * d == (c0 + i + 1) * s) by (nonlinear_arith)
            requires
                d == s,
        ;
        lemma_round_div_exact(c0 + i, s);
        lemma_round_div_exact(c0 + i + 1, s);
    } else if d == -s {
        assert(c0 * s + i * d == (c0 - i) * s) by (nonlinear_arith)
            requires
                d == -s,
        ;
        assert(c0 * s + (i + 1) * d == (c0 - i - 1) * s) by (nonlinear_arith)
            requires
                d == -s,
        ;
        lemma_round_div_exact(c0 - i, s);
        lemma_round_div_exact(c0 - i - 1, s);
    } else {
        let n1 = c0 * s + i * d;
        let n2 = c0 * s + (i + 1) * d;
        assert(c0 * s + (i + 1) * d == (c0 * s + i * d) + d) by (nonlinear_arith);
        lemma_round_div_bounds(n1, s);
        lemma_round_div_bounds(n2, s);
        let r1 = round_div(n1, s);
        let r2 = round_div(n2, s);
        assert(-1 <= r2 - r1 <= 1) by (nonlinear_arith)
            requires
                -s <= 2 * s * r1 - 2 * n1 <= s,
                -s <= 2 * s * r2 - 2 * n2 <= s,
                n2 == n1 + d,
                -s < d < s,
                s > 0,
        ;
    }
}

/// Law: the line rasterizer always plots both endpoints of a line.
pub proof fn lemma_line_endpoints(x0: int, y0: int, x1: int, y1: int)
    ensures
        on_line(x0, y0, x1, y1, x0, y0),
        on_line(x0, y0, x1, y1, x1, y1),
{
    let s = line_steps(x0, y0, x1, y1);
    if s == 0 {
        assert(x1 == x0 && y1 == y0);
        assert(line_point_x(x0, y0, x1, y1, 0) == x0);
        assert(line_point_y(x0, y0, x1, y1, 0) == y0);
    } else {
        assert(x0 * s + 0 * (x1 - x0) == x0 * s);
        assert(y0 * s + 0 * (y1 - y0) == y0 * s);
        lemma_round_div_exact(x0, s);
        lemma_round_div_exact(y0, s);
        assert(line_point_x(x0, y0, x1, y1, 0) == x0);
        assert(line_point_y(x0, y0, x1, y1, 0) == y0);
        assert(x0 * s + s * (x1 - x0) == x1 * s) by (nonlinear_arith);
        assert(y0 * s + s * (y1 - y0) == y1 * s) by (nonlinear_arith);
        lemma_round_div_exact(x1, s);
        lemma_round_div_exact(y1, s);
        assert(line_point_x(x0, y0, x1, y1, s) == x1);
        assert(line_point_y(x0, y0, x1, y1, s) == y1);
    }
}

/// Law: the line has no gaps — two consecutively plotted points are at most
/// one pixel apart along each axis.
pub proof fn lemma_line_no_gaps(x0: int, y0: int, x1: int, y1: int, i: int)
    requires
        0 <= i < line_steps(x0, y0, x1, y1),
    ensures
        abs_delta(line_point_x(x0, y0, x1, y1, i + 1) - line_point_x(x0, y0, x1, y1, i)) <= 1,
        abs_delta(line_point_y(x0, y0, x1, y1, i + 1) - line_point_y(x0, y0, x1, y1, i)) <= 1,
{
    let s = line_steps(x0, y0, x1, y1);
    assert(-s <= x1 - x0 <= s);
    assert(-s <= y1 - y0 <= s);
    lemma_round_step(x0, x1 - x0, s, i);
    lemma_round_step(y0, y1 - y0, s, i);
}

/// Law: a line whose two endpoints coincide consists of exactly the one
/// point at those coordinates.
pub proof fn lemma_degenerate_line(x: int, y: int, px: int, py: int)
    ensures
        on_line(x, y, x, y, px, py) <==> (px == x && py == y),
{
    assert(line_steps(x, y, x, y) == 0);
    assert(line_point_x(x, y, x, y, 0) == x);
    assert(line_point_y(x, y, x, y, 0) == y);
    if on_line(x, y, x, y, px, py) {
        let i = choose|i: int|
            #![trigger line_point_x(x, y, x, y, i)]
            0 <= i <= line_steps(x, y, x, y) && line_point_x(x, y, x, y, i) == px && line_point_y(
                x,
                y,
                x,
                y,
                i,
            ) == py;
        assert(i == 0);
    }
}

} // verus!
