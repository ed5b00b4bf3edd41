pub mod canvas;
pub mod checks;
pub mod clipping;
pub mod line;
pub mod pixel;
pub mod pixel_buffer;
