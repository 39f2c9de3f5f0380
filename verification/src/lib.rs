//! A software 3D wireframe renderer: a CPU-side framebuffer, integer
//! rasterization primitives (pixel, line, rectangle, triangle outline),
//! the cube mesh data, and the per-frame pipeline decisions (frame pacing,
//! input handling, rendering a list of projected triangles).

pub mod framebuffer;
pub mod mesh;
pub mod pipeline;
pub mod raster;
