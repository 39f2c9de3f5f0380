//! The CPU-side pixel buffer that every rasterization primitive writes into.
//!
//! Pixels are `u32` color values (ARGB8888), stored row-major with the origin
//! at the top left: the pixel at column `x`, row `y` sits at index
//! `width * y + x`. Writes outside the bounds are silently dropped.
//!
//! Every operation needs exclusive access to the buffer for its duration;
//! here that single-writer-at-a-time policy is enforced by taking the buffer
//! by `&mut` rather than behind a lock.

use vstd::prelude::*;

verus! {

/// A pixel buffer sized exactly to its display dimensions.
pub struct Framebuffer {
    width: i32,
    height: i32,
    pixels: Vec<u32>,
}

impl View for Framebuffer {
    type V = Seq<u32>;

    closed spec fn view(&self) -> Seq<u32> {
        self.pixels@
    }
}

/// The contents of a buffer of the given dimensions right after a clear:
/// every pixel holds `color`.
pub open spec fn cleared_view(width: int, height: int, color: u32) -> Seq<u32> {
    Seq::new((width * height) as nat, |i: int| color)
}

/// Whether the pixel at column `px`, row `py` lies on the reference grid
/// with the given spacing: its column or its row is a multiple of `spacing`.
pub open spec fn on_grid(spacing: int, px: int, py: int) -> bool {
    px % spacing == 0 || py % spacing == 0
}

/// Dimensions that fit an `i32` each have a cell count that fits an `i64`.
proof fn lemma_dims_product_bound(w: int, h: int)
    by (nonlinear_arith)
    requires
        0 <= w <= 0x7fff_ffff,
        0 <= h <= 0x7fff_ffff,
    ensures
        0 <= w * h < 0x4000_0000_0000_0000,
{
}

/// Index arithmetic: an in-bounds coordinate pair addresses a cell of the
/// row-major buffer.
proof fn lemma_index_in_range(w: int, h: int, x: int, y: int)
    by (nonlinear_arith)
    requires
        0 <= x < w,
        0 <= y < h,
    ensures
        0 <= y * w + x < w * h,
{
}

/// Index arithmetic: distinct in-bounds coordinate pairs address distinct
/// cells of the row-major buffer.
proof fn lemma_index_injective(w: int, x1: int, y1: int, x2: int, y2: int)
    by (nonlinear_arith)
    requires
        0 <= x1 < w,
        0 <= x2 < w,
        0 <= y1,
        0 <= y2,
        y1 * w + x1 == y2 * w + x2,
    ensures
        x1 == x2 && y1 == y2,
{
}

impl Framebuffer {
    /// The buffer is sized exactly to its dimensions.
    pub closed spec fn wf(&self) -> bool {
        &&& 0 <= self.width
        &&& 0 <= self.height
        &&& self.pixels@.len() == self.width * self.height
    }

    pub closed spec fn spec_width(&self) -> int {
        self.width as int
    }

    pub closed spec fn spec_height(&self) -> int {
        self.height as int
    }

    /// The color stored at column `x`, row `y`.
    pub closed spec fn pix(&self, x: int, y: int) -> u32 {
        self.pixels@[y * self.spec_width() + x]
    }

    /// Whether the coordinate pair addresses a pixel of this buffer.
    pub open spec fn in_bounds(&self, x: int, y: int) -> bool {
        0 <= x < self.spec_width() && 0 <= y < self.spec_height()
    }

    pub fn width(&self) -> (w: i32)
        ensures
            w == self.spec_width(),
    {
        self.width
    }

    pub fn height(&self) -> (h: i32)
        ensures
            h == self.spec_height(),
    {
        self.height
    }

    /// Allocates a buffer for the given display dimensions, zero-filled.
    pub fn new(width: i32, height: i32) -> (fb: Framebuffer)
        requires
            0 <= width,
            0 <= height,
            width * height <= usize::MAX,
        ensures
            fb.wf(),
            fb.spec_width() == width,
            fb.spec_height() == height,
            fb@ == cleared_view(width as int, height as int, 0u32),
            forall|px: int, py: int| fb.in_bounds(px, py) ==> fb.pix(px, py) == 0u32,
    {
        proof {
            lemma_dims_product_bound(width as int, height as int);
        }
        let len: usize = (width as i64 * height as i64) as usize;
        let mut pixels: Vec<u32> = Vec::new();
        while pixels.len() < len
            invariant
                pixels@.len() <= len,
                forall|i: int| 0 <= i < pixels@.len() ==> pixels@[i] == 0u32,
            decreases len - pixels@.len(),
        {
            pixels.push(0u32);
        }
        let fb = Framebuffer { width, height, pixels };
        proof {
            assert(fb@ =~= cleared_view(width as int, height as int, 0u32));
            assert forall|px: int, py: int| fb.in_bounds(px, py) implies fb.pix(px, py)
                == 0u32 by {
                lemma_index_in_range(width as int, height as int, px, py);
            }
        }
        fb
    }

    /// Bounds-checked single-pixel write: sets the pixel at (`x`, `y`) to
    /// `color`, leaves every other pixel alone, and does nothing at all when
    /// the coordinate is out of bounds.
    pub fn write_pixel(&mut self, x: i32, y: i32, color: u32)
        requires
            old(self).wf(),
        ensures
            final(self).wf(),
            final(self).spec_width() == old(self).spec_width(),
            final(self).spec_height() == old(self).spec_height(),
            forall|px: int, py: int|
                old(self).in_bounds(px, py) ==> final(self).pix(px, py) == (if px == x as int && py
                    == y as int {
                    color
                } else {
                    old(self).pix(px, py)
                }),
            !old(self).in_bounds(x as int, y as int) ==> *final(self) == *old(self),
    {
        if x >= 0 && x < self.width && y >= 0 && y < self.height {
            proof {
                lemma_index_in_range(
                    self.spec_width(),
                    self.spec_height(),
                    x as int,
                    y as int,
                );
                assert(self.pixels@.len() == self.pixels.len());
            }
            let idx: usize = y as usize * self.width as usize + x as usize;
            self.pixels.set(idx, color);
            proof {
                assert forall|px: int, py: int| old(self).in_bounds(px, py) implies self.pix(
                    px,
                    py,
                ) == (if px == x as int && py == y as int {
                    color
                } else {
                    old(self).pix(px, py)
                }) by {
                    lemma_index_in_range(self.spec_width(), self.spec_height(), px, py);
                    if !(px == x as int && py == y as int) && py * self.spec_width() + px == y
                        as int * self.spec_width() + x as int {
                        lemma_index_injective(
                            self.spec_width(),
                            px,
                            py,
                            x as int,
                            y as int,
                        );
                    }
                }
            }
        }
    }

    /// Reads the color of the in-bounds pixel at (`x`, `y`).
    pub fn read_pixel(&self, x: i32, y: i32) -> (color: u32)
        requires
            self.wf(),
            self.in_bounds(x as int, y as int),
        ensures
            color == self.pix(x as int, y as int),
    {
        proof {
            lemma_index_in_range(self.spec_width(), self.spec_height(), x as int, y as int);
            assert(self.pixels@.len() == self.pixels.len());
        }
        let idx: usize = y as usize * self.width as usize + x as usize;
        self.pixels[idx]
    }

    /// Sets every pixel of the buffer to `color`.
    pub fn clear(&mut self, color: u32)
        requires
            old(self).wf(),
        ensures
            final(self).wf(),
            final(self).spec_width() == old(self).spec_width(),
            final(self).spec_height() == old(self).spec_height(),
            final(self)@ == cleared_view(old(self).spec_width(), old(self).spec_height(), color),
            forall|px: int, py: int|
                final(self).in_bounds(px, py) ==> final(self).pix(px, py) == color,
    {
        let ghost w = self.spec_width();
        let ghost h = self.spec_height();
        let len: usize = self.pixels.len();
        let mut i: usize = 0;
        while i < len
            invariant
                self.wf(),
                self.spec_width() == w,
                self.spec_height() == h,
                self.pixels@.len() == len,
                i <= len,
                forall|k: int| 0 <= k < i ==> self.pixels@[k] == color,
            decreases len - i,
        {
            self.pixels.set(i, color);
            i = i + 1;
        }
        proof {
            assert(self@ =~= cleared_view(w, h, color));
            assert forall|px: int, py: int| self.in_bounds(px, py) implies self.pix(px, py)
                == color by {
                lemma_index_in_range(w, h, px, py);
            }
        }
    }

    /// Overlays a reference grid: sets every pixel whose column or row is a
    /// multiple of `spacing` to `color`, leaving all other pixels alone.
    pub fn draw_grid(&mut self, spacing: i32, color: u32)
        requires
            old(self).wf(),
            spacing > 0,
        ensures
            final(self).wf(),
            final(self).spec_width() == old(self).spec_width(),
            final(self).spec_height() == old(self).spec_height(),
            forall|px: int, py: int|
                old(self).in_bounds(px, py) ==> final(self).pix(px, py) == (if on_grid(
                    spacing as int,
                    px,
                    py,
                ) {
                    color
                } else {
                    old(self).pix(px, py)
                }),
    {
        let ghost fb0 = *self;
        let width: i32 = self.width;
        let height: i32 = self.height;
        let mut y: i32 = 0;
        while y < height
            invariant
                self.wf(),
                self.spec_width() == fb0.spec_width(),
                self.spec_height() == fb0.spec_height(),
                width == fb0.spec_width(),
                height == fb0.spec_height(),
                spacing > 0,
                0 <= y <= height,
                forall|px: int, py: int|
                    fb0.in_bounds(px, py) ==> self.pix(px, py) == (if py < y && on_grid(
                        spacing as int,
                        px,
                        py,
                    ) {
                        color
                    } else {
                        fb0.pix(px, py)
                    }),
            decreases height - y,
        {
            let mut x: i32 = 0;
            while x < width
                invariant
                    self.wf(),
                    self.spec_width() == fb0.spec_width(),
                    self.spec_height() == fb0.spec_height(),
                    width == fb0.spec_width(),
                    height == fb0.spec_height(),
                    spacing > 0,
                    0 <= y < height,
                    0 <= x <= width,
                    forall|px: int, py: int|
                        fb0.in_bounds(px, py) ==> self.pix(px, py) == (if (py < y || (py == y && px
                            < x)) && on_grid(spacing as int, px, py) {
                            color
                        } else {
                            fb0.pix(px, py)
                        }),
                decreases width - x,
            {
                if x % spacing == 0 || y % spacing == 0 {
                    self.write_pixel(x, y, color);
                }
                x = x + 1;
            }
            y = y + 1;
        }
    }

    /// The whole pixel array, for handing a finished frame to a display
    /// backend.
    pub fn pixels(&self) -> (p: &Vec<u32>)
        ensures
            p@ == self@,
    {
        &self.pixels
    }
}

/// A well-formed buffer has dimensions that each fit an `i32`.
pub proof fn lemma_framebuffer_dims(fb: &Framebuffer)
    requires
        fb.wf(),
    ensures
        0 <= fb.spec_width() <= 0x7fff_ffff,
        0 <= fb.spec_height() <= 0x7fff_ffff,
{
}

/// Law: writing an in-bounds pixel pins a readback of the same coordinate to
/// the written color and leaves every other pixel unchanged, and a write
/// outside the bounds leaves the whole buffer unchanged. The premises are
/// exactly what `write_pixel` ensures of the buffers before (`fb0`) and after
/// (`fb1`) a call with arguments `x`, `y`, `color`.
pub proof fn lemma_write_then_read(fb0: Framebuffer, fb1: Framebuffer, x: int, y: int, color: u32)
    requires
        fb0.wf(),
        fb1.spec_width() == fb0.spec_width(),
        fb1.spec_height() == fb0.spec_height(),
        forall|px: int, py: int|
            fb0.in_bounds(px, py) ==> fb1.pix(px, py) == (if px == x && py == y {
                color
            } else {
                fb0.pix(px, py)
            }),
        !fb0.in_bounds(x, y) ==> fb1 == fb0,
    ensures
        fb0.in_bounds(x, y) ==> fb1.pix(x, y) == color,
        forall|px: int, py: int|
            fb0.in_bounds(px, py) && !(px == x && py == y) ==> fb1.pix(px, py) == fb0.pix(px, py),
        !fb0.in_bounds(x, y) ==> fb1@ == fb0@,
{
}

/// Law: a clear pins the whole buffer independently of what it held before,
/// so after `clear(color)` every in-bounds pixel reads back `color`, and two
/// buffers of the same dimensions cleared with the same color are equal —
/// in particular, clearing an already-cleared buffer changes nothing.
pub proof fn lemma_clear_idempotent(a: Framebuffer, b: Framebuffer, color: u32)
    requires
        a.wf(),
        b.wf(),
        a.spec_width() == b.spec_width(),
        a.spec_height() == b.spec_height(),
        a@ == cleared_view(a.spec_width(), a.spec_height(), color),
        b@ == cleared_view(b.spec_width(), b.spec_height(), color),
    ensures
        a@ == b@,
        forall|px: int, py: int| a.in_bounds(px, py) ==> a.pix(px, py) == color,
{
    assert forall|px: int, py: int| a.in_bounds(px, py) implies a.pix(px, py) == color by {
        lemma_index_in_range(a.spec_width(), a.spec_height(), px, py);
    }
}

} // verus!
