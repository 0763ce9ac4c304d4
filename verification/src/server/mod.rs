//! Bitmap encoding for the graphics pipeline.
pub mod planar;
pub mod planar_decode;
pub mod planar_inspect;
