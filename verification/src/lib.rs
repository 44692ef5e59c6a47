//! Renders raster images as colored half-block glyphs for a character
//! terminal.
//!
//! The crate holds the algorithmic core of the renderer: negotiating the
//! output geometry from size hints and the terminal grid, quantizing an RGB
//! buffer to a 256-entry palette with forward error diffusion, and grouping
//! the resulting palette indices into styled half-block cells. Decoding and
//! resampling the image, detecting the terminal size, and emitting escape
//! sequences are left to the surrounding program.

pub mod dither;
pub mod geometry;
pub mod options;
pub mod pixel;
pub mod render;
