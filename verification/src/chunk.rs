//! A chunk: a type, some data, and on the wire a length in front and a
//! checksum behind.

use crate::checksum::{checksum, crc32_iso_hdlc};
use crate::chunk_type::{is_valid_type, ChunkType};
use crate::error::{ChunkDecodeError, Utf8Decode};
use crate::text::str_from_utf8;
use crate::util::{
    append_bytes, be_bytes, be_value, lemma_be_bytes_of_value, lemma_be_value_of_bytes,
    u32_from_be_bytes, u32_to_be_bytes,
};
use vstd::prelude::*;
use vstd::slice::slice_to_vec;
use vstd::std_specs::convert::TryFromSpecImpl;
use vstd::utf8::*;

verus! {

/// What a chunk is: the four bytes of its type and its data.
pub ghost struct ChunkView {
    pub chunk_type: Seq<u8>,
    pub data: Seq<u8>,
}

impl ChunkView {
    /// A chunk that can be written and read back: its type is valid and the
    /// length of its data fits the four bytes of the length field.
    pub open spec fn is_storable(self) -> bool {
        is_valid_type(self.chunk_type) && self.data.len() <= u32::MAX
    }
}

/// The checksum of a chunk: that of its type followed by its data.
pub open spec fn chunk_crc(chunk: ChunkView) -> u32 {
    crc32_iso_hdlc(chunk.chunk_type + chunk.data)
}

/// A chunk on the wire with `crc` in the checksum field: the length of the
/// data, the type, the data, the checksum. It is meant for data whose length
/// fits the length field.
pub open spec fn chunk_frame(chunk: ChunkView, crc: u32) -> Seq<u8> {
    be_bytes(chunk.data.len() as u32) + chunk.chunk_type + chunk.data + be_bytes(crc)
}

/// A chunk on the wire.
pub open spec fn chunk_bytes(chunk: ChunkView) -> Seq<u8> {
    chunk_frame(chunk, chunk_crc(chunk))
}

/// The fields of the chunk that `bytes` start with, the checksum as it is
/// stored and not yet judged, and the bytes that follow the chunk.
///
/// The bytes are too short when they cannot hold the twelve bytes of the
/// fixed fields, or not the data that the length field announces as well.
/// Only bytes that are long enough have their type looked at.
#[verifier::opaque]
pub open spec fn chunk_fields(bytes: Seq<u8>) -> Result<
    (ChunkView, u32, Seq<u8>),
    ChunkDecodeError,
> {
    if bytes.len() < 12 {
        Err(ChunkDecodeError::TooShort)
    } else {
        let length = be_value(bytes.subrange(0, 4)) as int;
        if bytes.len() - 12 < length {
            Err(ChunkDecodeError::TooShort)
        } else if !is_valid_type(bytes.subrange(4, 8)) {
            Err(ChunkDecodeError::InvalidType)
        } else {
            Ok(
                (
                    ChunkView {
                        chunk_type: bytes.subrange(4, 8),
                        data: bytes.subrange(8, 8 + length),
                    },
                    be_value(bytes.subrange(8 + length, 12 + length)),
                    bytes.subrange(12 + length, bytes.len() as int),
                ),
            )
        }
    }
}

/// The judgement on a checksum that was read (`expected`), given the one
/// that was computed from the type and data read with it (`actual`).
pub open spec fn crc_verdict(expected: u32, actual: u32) -> Result<(), ChunkDecodeError> {
    if expected == actual {
        Ok(())
    } else {
        Err(ChunkDecodeError::CrcMismatch { expected, actual })
    }
}

/// The chunk that `bytes` start with and the bytes that follow it.
pub open spec fn parse_chunk(bytes: Seq<u8>) -> Result<(ChunkView, Seq<u8>), ChunkDecodeError> {
    match chunk_fields(bytes) {
        Err(e) => Err(e),
        Ok((chunk, stored, rest)) => match crc_verdict(stored, chunk_crc(chunk)) {
            Err(e) => Err(e),
            Ok(_) => Ok((chunk, rest)),
        },
    }
}

/// A chunk of a PNG file.
#[derive(Debug, PartialEq, Eq)]
pub struct Chunk {
    chunk_type: ChunkType,
    data: Vec<u8>,
}

impl View for Chunk {
    type V = ChunkView;

    closed spec fn view(&self) -> ChunkView {
        ChunkView { chunk_type: self.chunk_type@, data: self.data@ }
    }
}

impl DeepView for Chunk {
    type V = ChunkView;

    open spec fn deep_view(&self) -> ChunkView {
        self@
    }
}

impl Clone for Chunk {
    fn clone(&self) -> (copy: Chunk)
        ensures
            copy@ == self@,
    {
        proof {
            use_type_invariant(self);
        }
        Chunk { chunk_type: self.chunk_type, data: slice_to_vec(self.data.as_slice()) }
    }
}

impl Chunk {
    /// The bytes of the length field.
    pub const DATA_LENGTH_BYTES: usize = 4;

    /// The bytes of the type field.
    pub const CHUNK_TYPE_BYTES: usize = 4;

    /// The bytes of the checksum field.
    pub const CRC_BYTES: usize = 4;

    /// The bytes of a chunk besides its data.
    pub const METADATA_BYTES: usize = Chunk::DATA_LENGTH_BYTES + Chunk::CHUNK_TYPE_BYTES
        + Chunk::CRC_BYTES;

    #[verifier::type_invariant]
    spec fn length_fits(self) -> bool {
        self.data@.len() <= u32::MAX
    }

    /// The chunk of this type with this data.
    pub fn new(chunk_type: ChunkType, data: Vec<u8>) -> (chunk: Chunk)
        requires
            data@.len() <= u32::MAX,
        ensures
            chunk@ == (ChunkView { chunk_type: chunk_type@, data: data@ }),
    {
        Chunk { chunk_type, data }
    }

    /// The number of bytes of data.
    pub fn length(&self) -> (length: usize)
        ensures
            length == self@.data.len(),
            length <= u32::MAX,
    {
        proof {
            use_type_invariant(self);
        }
        self.data.len()
    }

    /// The type of the chunk.
    pub fn chunk_type(&self) -> (chunk_type: &ChunkType)
        ensures
            chunk_type@ == self@.chunk_type,
    {
        &self.chunk_type
    }

    /// The data of the chunk.
    pub fn data(&self) -> (data: &[u8])
        ensures
            data@ == self@.data,
    {
        self.data.as_slice()
    }

    /// The data as text, if it is well-formed UTF-8.
    pub fn data_as_string(&self) -> (text: Result<String, Utf8Decode>)
        ensures
            text is Ok <==> valid_utf8(self@.data),
            text is Ok ==> text->Ok_0@ == decode_utf8(self@.data),
    {
        match str_from_utf8(self.data.as_slice()) {
            Some(text) => {
                proof {
                    encode_utf8_decode_utf8(text@);
                }
                Ok(text.to_owned())
            },
            None => Err(Utf8Decode),
        }
    }

    /// The checksum of the chunk: the CRC-32 of its type followed by its
    /// data. It is computed anew at each call, so it is never out of date.
    pub fn crc(&self) -> (crc: u32)
        ensures
            crc == chunk_crc(self@),
    {
        let mut covered: Vec<u8> = Vec::new();
        append_bytes(&mut covered, self.chunk_type.bytes().as_slice());
        append_bytes(&mut covered, self.data.as_slice());
        checksum(covered.as_slice())
    }

    /// The chunk on the wire with `crc` in the checksum field.
    pub fn write_fields(&self, crc: u32) -> (bytes: Vec<u8>)
        ensures
            bytes@ == chunk_frame(self@, crc),
    {
        proof {
            use_type_invariant(self);
        }
        let length = self.data.len() as u32;
        let mut bytes: Vec<u8> = Vec::new();
        append_bytes(&mut bytes, u32_to_be_bytes(length).as_slice());
        append_bytes(&mut bytes, self.chunk_type.bytes().as_slice());
        append_bytes(&mut bytes, self.data.as_slice());
        append_bytes(&mut bytes, u32_to_be_bytes(crc).as_slice());
        bytes
    }

    /// The chunk on the wire: four bytes of length, the four bytes of the
    /// type, the data, four bytes of checksum; numbers most significant byte
    /// first.
    pub fn as_bytes(&self) -> (bytes: Vec<u8>)
        ensures
            bytes@ == chunk_bytes(self@),
            bytes@.len() == 12 + self@.data.len(),
    {
        proof {
            self.chunk_type.lemma_view_len();
        }
        let crc = self.crc();
        self.write_fields(crc)
    }

    /// Reads the fields of the chunk that `bytes` start with, and leaves the
    /// checksum unjudged: the chunk, the checksum as stored, and the bytes
    /// behind the chunk.
    pub fn read_fields(bytes: &[u8]) -> (fields: Result<(Chunk, u32, &[u8]), ChunkDecodeError>)
        ensures
            match fields {
                Ok((chunk, stored, rest)) => chunk_fields(bytes@) == Ok::<
                    (ChunkView, u32, Seq<u8>),
                    ChunkDecodeError,
                >((chunk@, stored, rest@)),
                Err(e) => chunk_fields(bytes@) == Err::<
                    (ChunkView, u32, Seq<u8>),
                    ChunkDecodeError,
                >(e),
            },
    {
        proof {
            reveal(chunk_fields);
        }
        if bytes.len() < Chunk::METADATA_BYTES {
            return Err(ChunkDecodeError::TooShort);
        }
        let length_bytes: [u8; 4] = [bytes[0], bytes[1], bytes[2], bytes[3]];
        let length = u32_from_be_bytes(length_bytes) as usize;
        if bytes.len() - Chunk::METADATA_BYTES < length {
            return Err(ChunkDecodeError::TooShort);
        }
        let type_bytes: [u8; 4] = [bytes[4], bytes[5], bytes[6], bytes[7]];
        assert(type_bytes@ =~= bytes@.subrange(4, 8));
        let chunk_type = match ChunkType::parse(type_bytes) {
            Ok(chunk_type) => chunk_type,
            Err(_) => {
                return Err(ChunkDecodeError::InvalidType);
            },
        };
        if !chunk_type.is_valid() {
            return Err(ChunkDecodeError::InvalidType);
        }
        let (data, behind) = bytes.split_at(8).1.split_at(length);
        let (crc_bytes, rest) = behind.split_at(Chunk::CRC_BYTES);
        assert(data@ =~= bytes@.subrange(8, 8 + length));
        assert(rest@ =~= bytes@.subrange(12 + length, bytes@.len() as int));
        let stored_bytes: [u8; 4] = [crc_bytes[0], crc_bytes[1], crc_bytes[2], crc_bytes[3]];
        let stored = u32_from_be_bytes(stored_bytes);
        let chunk = Chunk { chunk_type, data: slice_to_vec(data) };
        Ok((chunk, stored, rest))
    }

    /// Judges a checksum that was read (`expected`) by the one computed from
    /// what was read with it (`actual`).
    pub fn check_crc(expected: u32, actual: u32) -> (verdict: Result<(), ChunkDecodeError>)
        ensures
            verdict == crc_verdict(expected, actual),
    {
        if expected == actual {
            Ok(())
        } else {
            Err(ChunkDecodeError::CrcMismatch { expected, actual })
        }
    }

    /// Reads the chunk that `bytes` start with, and hands out the bytes
    /// behind it.
    pub fn parse(bytes: &[u8]) -> (parsed: Result<(Chunk, &[u8]), ChunkDecodeError>)
        ensures
            match parsed {
                Ok((chunk, rest)) => parse_chunk(bytes@) == Ok::<
                    (ChunkView, Seq<u8>),
                    ChunkDecodeError,
                >((chunk@, rest@)),
                Err(e) => parse_chunk(bytes@) == Err::<(ChunkView, Seq<u8>), ChunkDecodeError>(e),
            },
    {
        let (chunk, stored, rest) = match Chunk::read_fields(bytes) {
            Ok(fields) => fields,
            Err(e) => {
                return Err(e);
            },
        };
        match Chunk::check_crc(stored, chunk.crc()) {
            Ok(_) => Ok((chunk, rest)),
            Err(e) => Err(e),
        }
    }
}

impl TryFrom<&[u8]> for Chunk {
    type Error = ChunkDecodeError;

    /// Reads the chunk that `bytes` start with, as [`Chunk::parse`] does,
    /// and lets go of the bytes behind it.
    fn try_from(bytes: &[u8]) -> (parsed: Result<Self, Self::Error>)
        ensures
            match parsed {
                Ok(chunk) => parse_chunk(bytes@) is Ok && parse_chunk(bytes@)->Ok_0.0 == chunk@,
                Err(e) => parse_chunk(bytes@) == Err::<(ChunkView, Seq<u8>), ChunkDecodeError>(e),
            },
    {
        match Chunk::parse(bytes) {
            Ok((chunk, _)) => Ok(chunk),
            Err(e) => Err(e),
        }
    }
}

/// What `try_from` returns is stated in its own contract, over the view of
/// the value. No spec function is offered that builds the value itself, so
/// the generic law of `TryFrom` is switched off for this type.
impl TryFromSpecImpl<&[u8]> for Chunk {
    open spec fn obeys_try_from_spec() -> bool {
        false
    }

    open spec fn try_from_spec(bytes: &[u8]) -> Result<Self, Self::Error> {
        Err(ChunkDecodeError::TooShort)
    }
}

/// Reading a chunk uses up at least the twelve bytes of its fixed fields.
pub proof fn lemma_rest_is_shorter(bytes: Seq<u8>)
    requires
        parse_chunk(bytes) is Ok,
    ensures
        parse_chunk(bytes)->Ok_0.1.len() + 12 <= bytes.len(),
{
    reveal(chunk_fields);
}

/// A chunk that was written with any number in the checksum field is read
/// back field by field, whatever follows it; unless its type is not valid,
/// which the reading reports.
pub proof fn lemma_fields_of_frame(chunk: ChunkView, crc: u32, rest: Seq<u8>)
    requires
        chunk.chunk_type.len() == 4,
        chunk.data.len() <= u32::MAX,
    ensures
        chunk_frame(chunk, crc).len() == 12 + chunk.data.len(),
        chunk_fields(chunk_frame(chunk, crc) + rest) == if is_valid_type(chunk.chunk_type) {
            Ok::<(ChunkView, u32, Seq<u8>), ChunkDecodeError>((chunk, crc, rest))
        } else {
            Err::<(ChunkView, u32, Seq<u8>), ChunkDecodeError>(ChunkDecodeError::InvalidType)
        },
{
    reveal(chunk_fields);
    let length = chunk.data.len() as u32;
    let bytes = chunk_frame(chunk, crc) + rest;
    lemma_be_value_of_bytes(length);
    lemma_be_value_of_bytes(crc);
    assert(bytes.subrange(4, 8) =~= chunk.chunk_type);
    assert(bytes.subrange(8, 8 + length) =~= chunk.data);
    assert(bytes.subrange(12 + length, bytes.len() as int) =~= rest);
}

/// Writing a chunk and reading it gives the chunk back: its type and its
/// data, and whatever followed it on the wire is left over.
pub proof fn lemma_chunk_round_trip(chunk: ChunkView, rest: Seq<u8>)
    requires
        chunk.is_storable(),
    ensures
        parse_chunk(chunk_bytes(chunk) + rest) == Ok::<(ChunkView, Seq<u8>), ChunkDecodeError>(
            (chunk, rest),
        ),
{
    lemma_fields_of_frame(chunk, chunk_crc(chunk), rest);
}

/// Bytes that start with a chunk are that chunk as it is written, followed by
/// what was left over; and the chunk read is one that can be stored.
pub proof fn lemma_chunk_read_is_chunk_written(bytes: Seq<u8>)
    requires
        parse_chunk(bytes) is Ok,
    ensures
        parse_chunk(bytes)->Ok_0.0.is_storable(),
        bytes == chunk_bytes(parse_chunk(bytes)->Ok_0.0) + parse_chunk(bytes)->Ok_0.1,
        parse_chunk(bytes)->Ok_0.1.len() < bytes.len(),
{
    reveal(chunk_fields);
    let length = be_value(bytes.subrange(0, 4)) as int;
    lemma_be_bytes_of_value(bytes.subrange(0, 4));
    lemma_be_bytes_of_value(bytes.subrange(8 + length, 12 + length));
}

/// A chunk whose type or data were changed on the wire, the checksum field
/// left as it was written, is read as the changed chunk only where the changed
/// type and data have the checksum of those written. Otherwise the reading
/// fails and reports both checksums: it never hands out the changed chunk in
/// silence.
pub proof fn lemma_change_is_detected(written: ChunkView, found: ChunkView, rest: Seq<u8>)
    requires
        written.is_storable(),
        found.is_storable(),
    ensures
        parse_chunk(chunk_frame(found, chunk_crc(written)) + rest) == if chunk_crc(found)
            == chunk_crc(written) {
            Ok::<(ChunkView, Seq<u8>), ChunkDecodeError>((found, rest))
        } else {
            Err::<(ChunkView, Seq<u8>), ChunkDecodeError>(
                ChunkDecodeError::CrcMismatch {
                    expected: chunk_crc(written),
                    actual: chunk_crc(found),
                },
            )
        },
{
    lemma_fields_of_frame(found, chunk_crc(written), rest);
}

/// One byte of a written chunk's type or data was changed, the rest left as
/// it was written. The reading is never too short and never hands out the
/// chunk that was written. It reports an invalid type where the change left
/// none, and else a checksum mismatch, with the checksum written and the
/// checksum of what was found; only where those two are the same number does
/// it hand out the changed chunk.
pub proof fn lemma_changed_byte_is_detected(
    written: ChunkView,
    position: int,
    byte: u8,
    rest: Seq<u8>,
)
    requires
        written.is_storable(),
        4 <= position < 8 + written.data.len(),
        byte != chunk_bytes(written)[position],
    ensures
        ({
            let changed = chunk_bytes(written).update(position, byte);
            let found = ChunkView {
                chunk_type: changed.subrange(4, 8),
                data: changed.subrange(8, 8 + written.data.len() as int),
            };
            &&& found != written
            &&& parse_chunk(changed + rest) == if !is_valid_type(found.chunk_type) {
                Err::<(ChunkView, Seq<u8>), ChunkDecodeError>(ChunkDecodeError::InvalidType)
            } else if chunk_crc(found) == chunk_crc(written) {
                Ok::<(ChunkView, Seq<u8>), ChunkDecodeError>((found, rest))
            } else {
                Err::<(ChunkView, Seq<u8>), ChunkDecodeError>(
                    ChunkDecodeError::CrcMismatch {
                        expected: chunk_crc(written),
                        actual: chunk_crc(found),
                    },
                )
            }
        }),
{
    let length = written.data.len() as int;
    let whole = chunk_bytes(written);
    let changed = whole.update(position, byte);
    let found = ChunkView {
        chunk_type: changed.subrange(4, 8),
        data: changed.subrange(8, 8 + length),
    };
    lemma_be_value_of_bytes(length as u32);
    lemma_be_value_of_bytes(chunk_crc(written));
    assert(changed =~= chunk_frame(found, chunk_crc(written)));
    lemma_fields_of_frame(found, chunk_crc(written), rest);
}

/// A chunk that was cut off anywhere before its end is too short to be read.
pub proof fn lemma_cut_chunk_is_too_short(chunk: ChunkView, kept: int)
    requires
        chunk.is_storable(),
        0 <= kept < chunk_bytes(chunk).len(),
    ensures
        parse_chunk(chunk_bytes(chunk).take(kept)) == Err::<(ChunkView, Seq<u8>), ChunkDecodeError>(
            ChunkDecodeError::TooShort,
        ),
{
    reveal(chunk_fields);
    lemma_be_value_of_bytes(chunk.data.len() as u32);
}

} // verus!
