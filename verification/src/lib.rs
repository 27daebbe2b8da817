//! A library for manipulating PNG files at the container level: it parses the
//! PNG chunk stream, supports insertion and removal of data chunks, validates
//! structural integrity through CRC-32 checksums, and re-serializes the file
//! losslessly. Pixel data is never interpreted; only the chunk structure is.

pub mod chunk;
pub mod chunk_type;
pub mod cli;
pub mod crc;
pub mod error;
pub mod png;
pub mod text;
pub mod wire;

pub use error::PngError;
