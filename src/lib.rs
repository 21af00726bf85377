//! Escape-time fractal rendering: text parsing of coordinate pairs, the
//! partition of a pixel buffer into horizontal bands, the gray-level rule of
//! the renderer and the image encoding of a finished buffer.

pub mod arith;
pub mod arrays;
pub mod bands;
pub mod encode;
pub mod parse;
pub mod render;
