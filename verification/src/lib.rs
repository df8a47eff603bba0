//! Rendering of raster images as coloured text.
//!
//! A frame of RGBA pixels becomes rows of glyphs: each glyph stands for the
//! luminance of one pixel, and terminal escapes give it the pixel's colour.
//! An escape is written only where the colour changes within a row.

pub mod ascii;
pub mod dimensions;
pub mod encoder;
pub mod error;
pub mod escape;
pub mod image_proc;
pub mod luminance;
pub mod pixel;
