//! Half-block terminal rendering of raster images.
//!
//! An image is a grid of RGBA pixels; each output terminal cell stands for
//! two vertically stacked pixels, an upper and a lower half-block.  The
//! library parses CSS-style padding shorthand, classifies pixels by the
//! opacity rule, and walks the padded canvas to produce a cell buffer.
//! Decoding image files and painting cells to the terminal are left to the
//! caller.

pub mod batch;
pub mod cell;
pub mod padding;
pub mod pixel;
pub mod render;
