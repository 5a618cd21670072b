//! A library for the chunk structure of a PNG-style image container:
//! an 8-byte signature followed by length-prefixed, type-tagged,
//! CRC-checksummed chunks.  It parses a raw byte buffer into a container,
//! appends, locates and removes chunks by their 4-byte type tag, and
//! serializes the container back to bytes.

pub mod args;
pub mod be32;
pub mod checksum;
pub mod chunk;
pub mod chunk_type;
pub mod container;
pub mod error;
pub mod text;
