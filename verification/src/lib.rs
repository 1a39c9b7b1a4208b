//! Conversion of raster images into grids of printable characters, and
//! rendering of such grids as text, markup and bitmaps.

pub mod animation;
pub mod bdf;
pub mod codec;
pub mod convert;
pub mod error;
pub mod font;
pub mod frame;
pub mod generate;
pub mod grid;
pub mod metrics;
pub mod outside;
pub mod render;
pub mod roundtrip;
pub mod sampler;
pub mod text;
