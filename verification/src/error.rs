//! The ways in which reading a chunk, a chunk type or a whole file can fail.

use vstd::prelude::*;

verus! {

/// Bytes, or a string, that do not name a chunk type.
#[derive(Debug, Clone, Copy, PartialEq, Eq)]
pub struct InvalidChunkType;

/// A chunk's data was asked for as text and is not well-formed UTF-8.
#[derive(Debug, Clone, Copy, PartialEq, Eq)]
pub struct Utf8Decode;

/// No chunk of the wanted type is in the file.
#[derive(Debug, Clone, Copy, PartialEq, Eq)]
pub struct NotFound;

/// Why a run of bytes does not start with a chunk.
#[derive(Debug, Clone, Copy, PartialEq, Eq)]
pub enum ChunkDecodeError {
    /// The bytes end before the chunk's fixed fields, or before the data
    /// that its length field announces, are complete.
    TooShort,
    /// The four type bytes are not all letters, or the reserved bit is set.
    InvalidType,
    /// The checksum stored behind the data (`expected`) is not the checksum
    /// of the type and data that were read (`actual`).
    CrcMismatch { expected: u32, actual: u32 },
}

/// Why a run of bytes is not a PNG file.
#[derive(Debug, Clone, Copy, PartialEq, Eq)]
pub enum PngDecodeError {
    /// The first eight bytes are not the PNG signature.
    BadSignature,
    /// What follows the signature is not a sequence of chunks.
    Chunk(ChunkDecodeError),
}

/// Why a command on a file's bytes came to nothing.
#[derive(Debug, Clone, Copy, PartialEq, Eq)]
pub enum CommandError {
    /// The string given for the chunk type does not spell a valid one.
    InvalidChunkType,
    /// The bytes are not a PNG file.
    Png(PngDecodeError),
    /// The file has no chunk of the type asked for.
    NotFound,
    /// The chunk was found, and its data is not text.
    Utf8Decode,
}

} // verus!
