//! A deterministic procedural image generator with a minimal PNG encoder.
//!
//! Given an identity byte string and a token identifier, the library derives a
//! seed, picks colors, rasterizes a fixed sequence of shapes into a pixel
//! grid, and serializes the grid as a truecolor PNG whose IDAT stream uses
//! only stored (uncompressed) deflate blocks.

pub mod art;
pub mod checksum;
pub mod color;
pub mod fnv;
pub mod image;
pub mod ellipse;
pub mod line;
pub mod png;
pub mod uri;
