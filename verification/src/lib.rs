//! A software rasterization library: line clipping, Bresenham line
//! traversal, sweep-line and barycentric triangle filling, per-vertex
//! attribute interpolation, and an RGBA8 framebuffer.
//!
//! All geometry is carried in fixed-point coordinates: an `i64` holds a
//! position in units of 1/256 pixel (see [`num::PIXEL_SCALE`]). Barycentric
//! weights are exact integer rationals. Every drawing routine is specified
//! and verified down to the bytes it writes.

pub mod basetype;
pub mod color;
pub mod rasterizer;
pub mod shader;
pub mod line;
pub mod triangle;
pub mod num;
