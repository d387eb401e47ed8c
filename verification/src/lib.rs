//! Reading, editing and writing the chunks of a PNG file, so that a message
//! can be kept in a chunk of its own without harm to the image.
//!
//! A file is the PNG signature followed by chunks. A chunk is a length, a
//! four-letter type, data, and a CRC-32 checksum over type and data.
//! [`chunk_type`], [`chunk`] and [`png`] hold the three layers, each with the
//! functions that say what its bytes mean and with the laws that tie writing
//! to reading. [`commands`] holds what the command line computes from a
//! file's bytes. The checksum itself comes from the `crc` crate, in
//! [`checksum`].

pub mod checksum;
pub mod chunk;
pub mod chunk_type;
pub mod commands;
pub mod error;
pub mod png;
mod text;
pub mod util;
