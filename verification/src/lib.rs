//! Hexagonal tile grids and line segments drawn onto an in-memory RGBA
//! pixel buffer, with a glyph-art rendering of the buffer.

pub mod canvas;
pub mod hexagon;
pub mod palette;
pub mod point;
pub mod raster;

pub use canvas::Canvas;
pub use point::{Pixel, Point};
