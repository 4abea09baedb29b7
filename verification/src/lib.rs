//! Decoder for the portable pixmap family of image files: bitmaps,
//! graymaps and pixmaps, in both their ASCII and binary encodings.
//!
//! The entry point is [`decoder::decode`], which turns the raw bytes of a
//! file into an [`image::Image`] or a [`image::DecodeError`].  The byte-level
//! grammar (magic number, whitespace- and comment-tolerant header tokens,
//! per-format pixel payloads) is stated as specification functions, and the
//! executable decoder is proved to return exactly what they describe.

pub mod ascii;
pub mod binary;
pub mod cursor;
pub mod decoder;
pub mod header;
pub mod image;
pub mod scale;
pub mod tokenize;

pub use decoder::decode;
pub use image::{DecodeError, Image, ImageModel, Pixel, PixelFormat};
