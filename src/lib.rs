//! Builds the data that a fragment shader needs to draw glyph outlines made of
//! quadratic Bézier curves: a per-glyph acceleration grid whose cells list the curves
//! that cross them and whether their centers are inside, the atlas texels that encode
//! that grid, and the 16-bit curve data buffer.

pub mod buffer;
pub mod glyph;
pub mod grid;
pub mod texel;
