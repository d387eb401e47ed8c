//! What the four commands compute, from a file's bytes to a file's bytes or
//! to what is shown. Reading and writing the file is the caller's part.

use crate::chunk::{Chunk, ChunkView};
use crate::chunk_type::{is_valid_type, ChunkType};
use crate::error::{CommandError, InvalidChunkType, PngDecodeError};
use crate::png::{
    has_type, is_first_of_type, lemma_png_read_is_png_written, lemma_png_round_trip, parse_png,
    png_bytes, Png,
};
use vstd::prelude::*;
use vstd::string::StringSliceAdditionalSpecFns;
use vstd::utf8::*;

verus! {

/// The chunks of the file once a chunk with this message is in it: behind
/// the chunks that `contents` hold, or alone where `contents` are no PNG file.
pub open spec fn chunks_with_message(contents: Seq<u8>, message: Seq<u8>, wanted: Seq<u8>) -> Seq<
    ChunkView,
> {
    let chunk = ChunkView { chunk_type: wanted, data: message };
    match parse_png(contents) {
        Ok(chunks) => chunks.push(chunk),
        Err(_) => seq![chunk],
    }
}

/// Puts a chunk of the type that `chunk_type` spells, with `message` as its
/// data, behind the chunks of the file that `contents` are, and gives the
/// new file. Contents that are no PNG file are refused.
pub fn encode_into(contents: &[u8], message: Vec<u8>, chunk_type: &str) -> (file: Result<
    Vec<u8>,
    CommandError,
>)
    requires
        message@.len() <= u32::MAX,
    ensures
        match file {
            Ok(bytes) => {
                &&& is_valid_type(chunk_type.spec_bytes())
                &&& parse_png(contents@) is Ok
                &&& bytes@ == png_bytes(
                    chunks_with_message(contents@, message@, chunk_type.spec_bytes()),
                )
            },
            Err(CommandError::InvalidChunkType) => !is_valid_type(chunk_type.spec_bytes()),
            Err(CommandError::Png(e)) => is_valid_type(chunk_type.spec_bytes()) && parse_png(
                contents@,
            ) == Err::<Seq<ChunkView>, PngDecodeError>(e),
            Err(_) => false,
        },
{
    let chunk_type = match ChunkType::parse_str(chunk_type) {
        Ok(chunk_type) => chunk_type,
        Err(_) => {
            return Err(CommandError::InvalidChunkType);
        },
    };
    let chunk = Chunk::new(chunk_type, message);
    match Png::parse(contents) {
        Ok(mut png) => {
            png.append_chunk(chunk);
            Ok(png.as_bytes())
        },
        Err(e) => Err(CommandError::Png(e)),
    }
}

/// As [`encode_into`], but contents that are no PNG file, empty ones too,
/// are not refused: the new file then holds the one chunk and nothing of the
/// old contents.
pub fn encode_chunk(contents: &[u8], message: Vec<u8>, chunk_type: &str) -> (file: Result<
    Vec<u8>,
    InvalidChunkType,
>)
    requires
        message@.len() <= u32::MAX,
    ensures
        file is Ok <==> is_valid_type(chunk_type.spec_bytes()),
        file is Ok ==> file->Ok_0@ == png_bytes(
            chunks_with_message(contents@, message@, chunk_type.spec_bytes()),
        ),
{
    let chunk_type = match ChunkType::parse_str(chunk_type) {
        Ok(chunk_type) => chunk_type,
        Err(e) => {
            return Err(e);
        },
    };
    let chunk = Chunk::new(chunk_type, message);
    let png = match Png::parse(contents) {
        Ok(mut png) => {
            png.append_chunk(chunk);
            png
        },
        Err(_) => {
            let mut chunks: Vec<Chunk> = Vec::new();
            chunks.push(chunk);
            assert(chunks.deep_view() =~= seq![chunk@]);
            Png::from_chunks(chunks)
        },
    };
    Ok(png.as_bytes())
}

/// The message in the file that `contents` are: the data, as text, of the
/// first chunk of the type that `chunk_type` spells.
pub fn decode_chunk(contents: &[u8], chunk_type: &str) -> (message: Result<String, CommandError>)
    ensures
        ({
            let parsed = parse_png(contents@);
            let wanted = chunk_type.spec_bytes();
            match message {
                Ok(text) => parsed is Ok && exists|i: int|
                    {
                        &&& #[trigger] is_first_of_type(parsed->Ok_0, wanted, i)
                        &&& valid_utf8(parsed->Ok_0[i].data)
                        &&& text@ == decode_utf8(parsed->Ok_0[i].data)
                    },
                Err(CommandError::Png(e)) => parsed == Err::<Seq<ChunkView>, PngDecodeError>(e),
                Err(CommandError::NotFound) => parsed is Ok && !has_type(parsed->Ok_0, wanted),
                Err(CommandError::Utf8Decode) => parsed is Ok && exists|i: int|
                    {
                        &&& #[trigger] is_first_of_type(parsed->Ok_0, wanted, i)
                        &&& !valid_utf8(parsed->Ok_0[i].data)
                    },
                Err(CommandError::InvalidChunkType) => false,
            }
        }),
{
    let png = match Png::parse(contents) {
        Ok(png) => png,
        Err(e) => {
            return Err(CommandError::Png(e));
        },
    };
    match png.chunk_by_type(chunk_type) {
        Some(chunk) => {
            assert(parse_png(contents@)->Ok_0 == png@);
            match chunk.data_as_string() {
                Ok(text) => Ok(text),
                Err(_) => Err(CommandError::Utf8Decode),
            }
        },
        None => Err(CommandError::NotFound),
    }
}

/// Takes the first chunk of the type that `chunk_type` spells out of the
/// file that `contents` are: the new file, and the chunk.
pub fn remove_chunk(contents: &[u8], chunk_type: &str) -> (removed: Result<
    (Vec<u8>, Chunk),
    CommandError,
>)
    ensures
        ({
            let parsed = parse_png(contents@);
            let wanted = chunk_type.spec_bytes();
            match removed {
                Ok((bytes, chunk)) => parsed is Ok && exists|i: int|
                    {
                        &&& #[trigger] is_first_of_type(parsed->Ok_0, wanted, i)
                        &&& chunk@ == parsed->Ok_0[i]
                        &&& bytes@ == png_bytes(parsed->Ok_0.remove(i))
                    },
                Err(CommandError::Png(e)) => parsed == Err::<Seq<ChunkView>, PngDecodeError>(e),
                Err(CommandError::NotFound) => parsed is Ok && !has_type(parsed->Ok_0, wanted),
                Err(_) => false,
            }
        }),
{
    let mut png = match Png::parse(contents) {
        Ok(png) => png,
        Err(e) => {
            return Err(CommandError::Png(e));
        },
    };
    let ghost before = png@;
    match png.remove_chunk(chunk_type) {
        Ok(chunk) => {
            assert(parse_png(contents@)->Ok_0 == before);
            Ok((png.as_bytes(), chunk))
        },
        Err(_) => Err(CommandError::NotFound),
    }
}

/// The types of the chunks of the file that `contents` are, in their order.
pub fn list_chunks(contents: &[u8]) -> (listed: Result<Vec<ChunkType>, PngDecodeError>)
    ensures
        match listed {
            Ok(types) => {
                &&& parse_png(contents@) is Ok
                &&& types@.len() == parse_png(contents@)->Ok_0.len()
                &&& forall|i: int|
                    0 <= i < types@.len() ==> (#[trigger] types@[i])@ == parse_png(
                        contents@,
                    )->Ok_0[i].chunk_type
            },
            Err(e) => parse_png(contents@) == Err::<Seq<ChunkView>, PngDecodeError>(e),
        },
{
    let png = match Png::parse(contents) {
        Ok(png) => png,
        Err(e) => {
            return Err(e);
        },
    };
    let chunks = png.chunks();
    let mut types: Vec<ChunkType> = Vec::new();
    for i in 0..chunks.len()
        invariant
            chunks.deep_view() == png@,
            types@.len() == i,
            forall|j: int| 0 <= j < i ==> (#[trigger] types@[j])@ == png@[j].chunk_type,
    {
        types.push(*chunks[i].chunk_type());
    }
    Ok(types)
}

/// A message that was put into a file is the one that is read from it under
/// its type, unless the file held a chunk of that type before: the new file
/// is a PNG file, and the first chunk of the type in it holds the message.
pub proof fn lemma_message_is_found(contents: Seq<u8>, message: Seq<u8>, wanted: Seq<u8>)
    requires
        is_valid_type(wanted),
        message.len() <= u32::MAX,
        parse_png(contents) is Ok ==> !has_type(parse_png(contents)->Ok_0, wanted),
    ensures
        parse_png(png_bytes(chunks_with_message(contents, message, wanted))) == Ok::<
            Seq<ChunkView>,
            PngDecodeError,
        >(chunks_with_message(contents, message, wanted)),
        exists|i: int|
            {
                &&& #[trigger] is_first_of_type(
                    chunks_with_message(contents, message, wanted),
                    wanted,
                    i,
                )
                &&& chunks_with_message(contents, message, wanted)[i].data == message
            },
{
    let chunks = chunks_with_message(contents, message, wanted);
    if parse_png(contents) is Ok {
        lemma_png_read_is_png_written(contents);
    }
    lemma_png_round_trip(chunks);
    assert(is_first_of_type(chunks, wanted, chunks.len() - 1));
}

/// Taking a message out again gives the file back as it was: where a PNG
/// file held no chunk of the type, and a message was put into it under that
/// type, the first chunk of the type in the new file is the one with the
/// message, and the file without it is the old file, byte for byte.
pub proof fn lemma_remove_undoes_encode(contents: Seq<u8>, message: Seq<u8>, wanted: Seq<u8>)
    requires
        is_valid_type(wanted),
        message.len() <= u32::MAX,
        parse_png(contents) is Ok,
        !has_type(parse_png(contents)->Ok_0, wanted),
    ensures
        is_first_of_type(
            chunks_with_message(contents, message, wanted),
            wanted,
            parse_png(contents)->Ok_0.len() as int,
        ),
        png_bytes(
            chunks_with_message(contents, message, wanted).remove(
                parse_png(contents)->Ok_0.len() as int,
            ),
        ) == contents,
{
    let before = parse_png(contents)->Ok_0;
    let after = chunks_with_message(contents, message, wanted);
    lemma_png_read_is_png_written(contents);
    assert(after.remove(before.len() as int) =~= before);
}

} // verus!
