//! A bitmap compositing and bitmap-font text engine: raw RGB pixel buffers
//! with explicit row stride, a PNG codec boundary, and blit/fill/text-draw
//! primitives that operate directly on the pixel bytes.

pub mod blit;
pub mod codec;
pub mod font;
pub mod raster;

pub use blit::{bitmap_copy, bitmap_fill};
pub use codec::{png_encode, png_load};
pub use font::{bitmap_text, glyph_cell, glyph_index, Font};
pub use raster::Bitmap;
pub use raster::GfxError;
