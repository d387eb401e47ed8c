//! A PNG file: the signature and, behind it, chunks in an order that counts.

use crate::chunk::{
    chunk_bytes, chunk_fields, lemma_chunk_read_is_chunk_written, lemma_chunk_round_trip,
    lemma_rest_is_shorter, parse_chunk, Chunk, ChunkView,
};
use crate::chunk_type::{is_valid_type, ChunkType};
use crate::error::{ChunkDecodeError, NotFound, PngDecodeError};
use crate::util::{append_bytes, be_value};
use vstd::prelude::*;
use vstd::std_specs::convert::TryFromSpecImpl;
use vstd::string::StringSliceAdditionalSpecFns;

verus! {

/// The eight bytes that every PNG file starts with.
pub open spec fn signature() -> Seq<u8> {
    Png::STANDARD_HEADER@
}

/// Each of the chunks can be written and read back.
pub open spec fn all_storable(chunks: Seq<ChunkView>) -> bool {
    forall|i: int| 0 <= i < chunks.len() ==> (#[trigger] chunks[i]).is_storable()
}

/// The chunks on the wire, one behind the other.
pub open spec fn chunks_bytes(chunks: Seq<ChunkView>) -> Seq<u8>
    decreases chunks.len(),
{
    if chunks.len() == 0 {
        Seq::empty()
    } else {
        chunk_bytes(chunks.first()) + chunks_bytes(chunks.drop_first())
    }
}

/// The file that holds these chunks: the signature, then the chunks.
pub open spec fn png_bytes(chunks: Seq<ChunkView>) -> Seq<u8> {
    signature() + chunks_bytes(chunks)
}

/// The chunks that `bytes` are made of, read one after the other until no
/// byte is left. The first chunk that cannot be read fails the whole.
pub open spec fn parse_chunks(bytes: Seq<u8>) -> Result<Seq<ChunkView>, ChunkDecodeError>
    decreases bytes.len(),
{
    if bytes.len() == 0 {
        Ok(Seq::empty())
    } else {
        match parse_chunk(bytes) {
            Err(e) => Err(e),
            Ok((chunk, rest)) => {
                proof {
                    lemma_rest_is_shorter(bytes);
                }
                match parse_chunks(rest) {
                    Err(e) => Err(e),
                    Ok(chunks) => Ok(seq![chunk] + chunks),
                }
            },
        }
    }
}

/// The chunks of the file that `bytes` are: the signature must come first,
/// and all that follows it must be chunks.
pub open spec fn parse_png(bytes: Seq<u8>) -> Result<Seq<ChunkView>, PngDecodeError> {
    if bytes.len() < 8 || bytes.subrange(0, 8) != signature() {
        Err(PngDecodeError::BadSignature)
    } else {
        match parse_chunks(bytes.subrange(8, bytes.len() as int)) {
            Err(e) => Err(PngDecodeError::Chunk(e)),
            Ok(chunks) => Ok(chunks),
        }
    }
}

/// `chunk` is what a search for the type that `wanted` spells finds: `wanted`
/// are the bytes of a valid chunk type, and they are the bytes of the
/// chunk's type.
pub open spec fn is_of_type(chunk: ChunkView, wanted: Seq<u8>) -> bool {
    is_valid_type(wanted) && chunk.chunk_type == wanted
}

/// Some chunk is of the wanted type.
pub open spec fn has_type(chunks: Seq<ChunkView>, wanted: Seq<u8>) -> bool {
    exists|i: int| 0 <= i < chunks.len() && is_of_type(#[trigger] chunks[i], wanted)
}

/// The chunk at `i` is of the wanted type, and no chunk before it is.
pub open spec fn is_first_of_type(chunks: Seq<ChunkView>, wanted: Seq<u8>, i: int) -> bool {
    &&& 0 <= i < chunks.len()
    &&& is_of_type(chunks[i], wanted)
    &&& forall|j: int| 0 <= j < i ==> !is_of_type(#[trigger] chunks[j], wanted)
}

/// A PNG file in memory: its chunks, in their order.
#[derive(Debug, PartialEq, Eq)]
pub struct Png {
    chunks: Vec<Chunk>,
}

impl View for Png {
    type V = Seq<ChunkView>;

    closed spec fn view(&self) -> Seq<ChunkView> {
        self.chunks.deep_view()
    }
}

impl Png {
    /// The signature of a PNG file.
    pub const STANDARD_HEADER: [u8; 8] = [137, 80, 78, 71, 13, 10, 26, 10];

    /// The file with these chunks, in this order.
    pub fn from_chunks(chunks: Vec<Chunk>) -> (png: Png)
        ensures
            png@ == chunks.deep_view(),
    {
        Png { chunks }
    }

    /// Reads a file: the signature, then chunk after chunk until the bytes
    /// end. Nothing is handed out unless all of it could be read.
    pub fn parse(bytes: &[u8]) -> (parsed: Result<Png, PngDecodeError>)
        ensures
            match parsed {
                Ok(png) => parse_png(bytes@) == Ok::<Seq<ChunkView>, PngDecodeError>(png@),
                Err(e) => parse_png(bytes@) == Err::<Seq<ChunkView>, PngDecodeError>(e),
            },
    {
        if bytes.len() < 8 {
            return Err(PngDecodeError::BadSignature);
        }
        let (header, body) = bytes.split_at(8);
        for i in 0..8
            invariant
                bytes@.len() >= 8,
                header@ == bytes@.subrange(0, 8),
                forall|j: int| 0 <= j < i ==> header@[j] == signature()[j],
        {
            if header[i] != Png::STANDARD_HEADER[i] {
                return Err(PngDecodeError::BadSignature);
            }
        }
        let mut chunks: Vec<Chunk> = Vec::new();
        let mut rest = body;
        while rest.len() > 0
            invariant
                bytes@.len() >= 8,
                bytes@.subrange(0, 8) == signature(),
                body@ == bytes@.subrange(8, bytes@.len() as int),
                parse_chunks(body@) == match parse_chunks(rest@) {
                    Ok(more) => Ok::<Seq<ChunkView>, ChunkDecodeError>(chunks.deep_view() + more),
                    Err(e) => Err::<Seq<ChunkView>, ChunkDecodeError>(e),
                },
            decreases rest@.len(),
        {
            match Chunk::parse(rest) {
                Ok((chunk, behind)) => {
                    proof {
                        lemma_chunk_read_is_chunk_written(rest@);
                        let more = parse_chunks(behind@);
                        if more is Ok {
                            assert(chunks.deep_view().push(chunk@) + more->Ok_0
                                =~= chunks.deep_view() + (seq![chunk@] + more->Ok_0));
                        }
                    }
                    let ghost before = chunks.deep_view();
                    chunks.push(chunk);
                    assert(chunks.deep_view() =~= before.push(chunk@));
                    rest = behind;
                },
                Err(e) => {
                    return Err(PngDecodeError::Chunk(e));
                },
            }
        }
        Ok(Png { chunks })
    }

    /// The file on the wire: the signature, then each chunk in its place.
    pub fn as_bytes(&self) -> (bytes: Vec<u8>)
        ensures
            bytes@ == png_bytes(self@),
    {
        let mut bytes: Vec<u8> = Vec::new();
        append_bytes(&mut bytes, Png::STANDARD_HEADER.as_slice());
        for i in 0..self.chunks.len()
            invariant
                bytes@ == signature() + chunks_bytes(self@.take(i as int)),
        {
            let chunk = self.chunks[i].as_bytes();
            append_bytes(&mut bytes, chunk.as_slice());
            proof {
                lemma_chunks_bytes_push(self@.take(i as int), self@[i as int]);
                assert(self@.take(i + 1) =~= self@.take(i as int).push(self@[i as int]));
            }
        }
        assert(self@.take(self.chunks.len() as int) =~= self@);
        bytes
    }

    /// Puts `chunk` behind the chunks that are there. A chunk of the same
    /// type may be there already; a search still finds the earlier one.
    pub fn append_chunk(&mut self, chunk: Chunk)
        ensures
            final(self)@ == old(self)@.push(chunk@),
    {
        self.chunks.push(chunk);
    }

    /// Where the first chunk of this type stands, if there is one.
    fn position(&self, wanted: &ChunkType) -> (position: Option<usize>)
        ensures
            match position {
                Some(i) => {
                    &&& i < self@.len()
                    &&& self@[i as int].chunk_type == wanted@
                    &&& forall|j: int| 0 <= j < i ==> (#[trigger] self@[j]).chunk_type != wanted@
                },
                None => forall|j: int|
                    0 <= j < self@.len() ==> (#[trigger] self@[j]).chunk_type != wanted@,
            },
    {
        let wanted_bytes = wanted.bytes();
        for i in 0..self.chunks.len()
            invariant
                wanted_bytes@ == wanted@,
                forall|j: int| 0 <= j < i ==> (#[trigger] self@[j]).chunk_type != wanted@,
        {
            let bytes = self.chunks[i].chunk_type().bytes();
            if bytes[0] == wanted_bytes[0] && bytes[1] == wanted_bytes[1] && bytes[2]
                == wanted_bytes[2] && bytes[3] == wanted_bytes[3] {
                return Some(i);
            }
        }
        None
    }

    /// The first chunk whose type `chunk_type` spells. There is none where
    /// `chunk_type` is not a valid chunk type written out.
    pub fn chunk_by_type(&self, chunk_type: &str) -> (found: Option<&Chunk>)
        ensures
            match found {
                Some(chunk) => exists|i: int|
                    #[trigger] is_first_of_type(self@, chunk_type.spec_bytes(), i) && chunk@
                        == self@[i],
                None => !has_type(self@, chunk_type.spec_bytes()),
            },
    {
        let wanted = match ChunkType::parse_str(chunk_type) {
            Ok(wanted) => wanted,
            Err(_) => {
                return None;
            },
        };
        match self.position(&wanted) {
            Some(i) => {
                assert(is_first_of_type(self@, chunk_type.spec_bytes(), i as int));
                Some(&self.chunks[i])
            },
            None => None,
        }
    }

    /// Takes out the first chunk whose type `chunk_type` spells and hands it
    /// over. The other chunks stay in their order. Where there is no such
    /// chunk, nothing changes.
    pub fn remove_chunk(&mut self, chunk_type: &str) -> (removed: Result<Chunk, NotFound>)
        ensures
            match removed {
                Ok(chunk) => exists|i: int|
                    {
                        &&& #[trigger] is_first_of_type(old(self)@, chunk_type.spec_bytes(), i)
                        &&& chunk@ == old(self)@[i]
                        &&& final(self)@ == old(self)@.remove(i)
                    },
                Err(_) => !has_type(old(self)@, chunk_type.spec_bytes()) && final(self)@ == old(
                    self,
                )@,
            },
    {
        let wanted = match ChunkType::parse_str(chunk_type) {
            Ok(wanted) => wanted,
            Err(_) => {
                return Err(NotFound);
            },
        };
        match self.position(&wanted) {
            Some(i) => {
                let chunk = self.chunks.remove(i);
                assert(is_first_of_type(old(self)@, chunk_type.spec_bytes(), i as int));
                Ok(chunk)
            },
            None => Err(NotFound),
        }
    }

    /// The chunks, in their order.
    pub fn chunks(&self) -> (chunks: &[Chunk])
        ensures
            chunks.deep_view() == self@,
    {
        self.chunks.as_slice()
    }
}

impl TryFrom<&[u8]> for Png {
    type Error = PngDecodeError;

    /// As [`Png::parse`].
    fn try_from(bytes: &[u8]) -> (parsed: Result<Self, Self::Error>)
        ensures
            match parsed {
                Ok(png) => parse_png(bytes@) == Ok::<Seq<ChunkView>, PngDecodeError>(png@),
                Err(e) => parse_png(bytes@) == Err::<Seq<ChunkView>, PngDecodeError>(e),
            },
    {
        Png::parse(bytes)
    }
}

/// What `try_from` returns is stated in its own contract, over the view of
/// the value. No spec function is offered that builds the value itself, so
/// the generic law of `TryFrom` is switched off for this type.
impl TryFromSpecImpl<&[u8]> for Png {
    open spec fn obeys_try_from_spec() -> bool {
        false
    }

    open spec fn try_from_spec(bytes: &[u8]) -> Result<Self, Self::Error> {
        Err(PngDecodeError::BadSignature)
    }
}

/// A chunk more at the end is that chunk's bytes more at the end.
pub proof fn lemma_chunks_bytes_push(chunks: Seq<ChunkView>, chunk: ChunkView)
    ensures
        chunks_bytes(chunks.push(chunk)) == chunks_bytes(chunks) + chunk_bytes(chunk),
    decreases chunks.len(),
{
    if chunks.len() == 0 {
        let one = chunks.push(chunk);
        assert(chunks_bytes(one.drop_first()) =~= Seq::<u8>::empty());
    } else {
        lemma_chunks_bytes_push(chunks.drop_first(), chunk);
        assert(chunks.push(chunk).drop_first() =~= chunks.drop_first().push(chunk));
    }
}

/// Whole chunks in front do not change how the bytes behind them are read:
/// the chunks come out first, then whatever the bytes behind them hold.
pub proof fn lemma_parse_behind_chunks(chunks: Seq<ChunkView>, tail: Seq<u8>)
    requires
        all_storable(chunks),
    ensures
        parse_chunks(chunks_bytes(chunks) + tail) == match parse_chunks(tail) {
            Ok(more) => Ok::<Seq<ChunkView>, ChunkDecodeError>(chunks + more),
            Err(e) => Err::<Seq<ChunkView>, ChunkDecodeError>(e),
        },
    decreases chunks.len(),
{
    if chunks.len() > 0 {
        let first = chunks.first();
        let others = chunks.drop_first();
        let behind = chunks_bytes(others) + tail;
        assert(all_storable(others));
        assert(chunks_bytes(chunks) + tail =~= chunk_bytes(first) + behind);
        lemma_chunk_round_trip(first, behind);
        lemma_parse_behind_chunks(others, tail);
        if parse_chunks(tail) is Ok {
            let more = parse_chunks(tail)->Ok_0;
            assert(seq![first] + (others + more) =~= chunks + more);
        }
    }
}

/// Writing a file and reading it gives the chunks back, in their order.
pub proof fn lemma_png_round_trip(chunks: Seq<ChunkView>)
    requires
        all_storable(chunks),
    ensures
        parse_png(png_bytes(chunks)) == Ok::<Seq<ChunkView>, PngDecodeError>(chunks),
{
    let bytes = png_bytes(chunks);
    assert(bytes.subrange(0, 8) =~= signature());
    assert(bytes.subrange(8, bytes.len() as int) =~= chunks_bytes(chunks) + Seq::<u8>::empty());
    lemma_parse_behind_chunks(chunks, Seq::empty());
}

/// Bytes that are read as chunks are those chunks as they are written, and
/// each chunk read is one that can be stored.
pub proof fn lemma_chunks_read_are_chunks_written(bytes: Seq<u8>)
    requires
        parse_chunks(bytes) is Ok,
    ensures
        all_storable(parse_chunks(bytes)->Ok_0),
        chunks_bytes(parse_chunks(bytes)->Ok_0) == bytes,
    decreases bytes.len(),
{
    let chunks = parse_chunks(bytes)->Ok_0;
    if bytes.len() > 0 {
        let (first, rest) = parse_chunk(bytes)->Ok_0;
        lemma_chunk_read_is_chunk_written(bytes);
        lemma_chunks_read_are_chunks_written(rest);
        assert(chunks.drop_first() =~= parse_chunks(rest)->Ok_0);
    }
}

/// Reading a file and writing what was read gives the file back, byte for
/// byte.
pub proof fn lemma_png_read_is_png_written(bytes: Seq<u8>)
    requires
        parse_png(bytes) is Ok,
    ensures
        all_storable(parse_png(bytes)->Ok_0),
        png_bytes(parse_png(bytes)->Ok_0) == bytes,
{
    lemma_chunks_read_are_chunks_written(bytes.subrange(8, bytes.len() as int));
}

/// A file whose last chunk is cut off is refused as too short: behind the
/// signature and any number of whole chunks, bytes that end before the twelve
/// bytes of a chunk's fixed fields, or before the data that the length field
/// announces, fail the reading of the whole file.
pub proof fn lemma_cut_file_is_too_short(chunks: Seq<ChunkView>, tail: Seq<u8>)
    requires
        all_storable(chunks),
        tail.len() > 0,
        tail.len() < 12 || tail.len() - 12 < be_value(tail.subrange(0, 4)),
    ensures
        parse_png(png_bytes(chunks) + tail) == Err::<Seq<ChunkView>, PngDecodeError>(
            PngDecodeError::Chunk(ChunkDecodeError::TooShort),
        ),
{
    let bytes = png_bytes(chunks) + tail;
    assert(bytes.subrange(0, 8) =~= signature());
    assert(bytes.subrange(8, bytes.len() as int) =~= chunks_bytes(chunks) + tail);
    lemma_parse_behind_chunks(chunks, tail);
    assert(parse_chunk(tail) == Err::<(ChunkView, Seq<u8>), ChunkDecodeError>(
        ChunkDecodeError::TooShort,
    )) by {
        reveal(chunk_fields);
    }
}

/// A chunk put at the end is the one that a search for its type finds, where
/// no chunk of that type was there before; where one was, the search still
/// finds that one.
pub proof fn lemma_search_after_append(
    chunks: Seq<ChunkView>,
    chunk: ChunkView,
    wanted: Seq<u8>,
    i: int,
)
    requires
        is_first_of_type(chunks.push(chunk), wanted, i),
    ensures
        has_type(chunks, wanted) ==> is_first_of_type(chunks, wanted, i),
        !has_type(chunks, wanted) ==> i == chunks.len() && is_of_type(chunk, wanted),
{
    let longer = chunks.push(chunk);
    if has_type(chunks, wanted) {
        let k = choose|k: int| 0 <= k < chunks.len() && is_of_type(#[trigger] chunks[k], wanted);
        assert(longer[k] == chunks[k]);
        assert forall|j: int| 0 <= j < i implies !is_of_type(#[trigger] chunks[j], wanted) by {
            assert(longer[j] == chunks[j]);
        }
    }
}

/// Once the first chunk of a type is taken out, a search for that type finds
/// what was the second chunk of the type.
pub proof fn lemma_search_after_remove(chunks: Seq<ChunkView>, wanted: Seq<u8>, i: int, k: int)
    requires
        is_first_of_type(chunks, wanted, i),
        is_first_of_type(chunks.remove(i), wanted, k),
    ensures
        i <= k,
        is_of_type(chunks[k + 1], wanted),
        forall|j: int| 0 <= j <= k && j != i ==> !is_of_type(#[trigger] chunks[j], wanted),
{
    let shorter = chunks.remove(i);
    assert forall|j: int| 0 <= j <= k && j != i implies !is_of_type(
        #[trigger] chunks[j],
        wanted,
    ) by {
        if j > i {
            assert(shorter[j - 1] == chunks[j]);
        }
    }
}

/// Taking out the first chunk of one type leaves the chunks of every other
/// type where they were among themselves: a search for another type finds
/// the same chunk as before.
pub proof fn lemma_remove_keeps_other_types(
    chunks: Seq<ChunkView>,
    wanted: Seq<u8>,
    i: int,
    other: Seq<u8>,
    k: int,
)
    requires
        is_first_of_type(chunks, wanted, i),
        is_first_of_type(chunks, other, k),
        other != wanted,
    ensures
        k != i,
        is_first_of_type(chunks.remove(i), other, if k < i { k } else { k - 1 }),
        chunks.remove(i)[if k < i { k } else { k - 1 }] == chunks[k],
{
}

/// Where only one chunk has the type, none has it once that chunk is taken
/// out.
pub proof fn lemma_removed_is_gone(chunks: Seq<ChunkView>, wanted: Seq<u8>, i: int)
    requires
        is_first_of_type(chunks, wanted, i),
        forall|j: int| i < j < chunks.len() ==> !is_of_type(#[trigger] chunks[j], wanted),
    ensures
        !has_type(chunks.remove(i), wanted),
{
}

} // verus!
