//! A small software rasteriser: a pixel canvas in `0xRRGGBBAA` colours,
//! pixel drawing, line rasterisation and clipping selection, and the
//! decisions of a windowed main loop. Blending, clipping and anti-aliasing
//! arithmetic is floating point and is passed in by the caller.

pub mod draw;
pub mod engine;
pub mod types;
