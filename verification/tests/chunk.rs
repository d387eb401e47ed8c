use pngme::chunk::Chunk;
use pngme::chunk_type::ChunkType;
use pngme::error::{ChunkDecodeError, Utf8Decode};
use pngme::util::{u32_from_be_bytes, u32_to_be_bytes};
use std::str::FromStr;

fn testing_chunk() -> Chunk {
    let data_length: u32 = 42;
    let chunk_type = "RuSt".as_bytes();
    let message_bytes = "This is where your secret message will be!".as_bytes();
    let crc: u32 = 2882656334;

    let chunk_data: Vec<u8> = data_length
        .to_be_bytes()
        .iter()
        .chain(chunk_type.iter())
        .chain(message_bytes.iter())
        .chain(crc.to_be_bytes().iter())
        .copied()
        .collect();

    Chunk::try_from(chunk_data.as_ref()).unwrap()
}

/// The bytes of a chunk as a writer would lay them out, with any checksum.
fn framed(length: u32, chunk_type: &[u8], data: &[u8], crc: u32) -> Vec<u8> {
    length
        .to_be_bytes()
        .iter()
        .chain(chunk_type.iter())
        .chain(data.iter())
        .chain(crc.to_be_bytes().iter())
        .copied()
        .collect()
}

#[test]
fn test_new_chunk() {
    let chunk_type = ChunkType::from_str("RuSt").unwrap();
    let data = "This is where your secret message will be!"
        .as_bytes()
        .to_vec();
    let chunk = Chunk::new(chunk_type, data);
    assert_eq!(chunk.length(), 42);
    assert_eq!(chunk.crc(), 2882656334);
}

#[test]
fn test_chunk_length() {
    let chunk = testing_chunk();
    assert_eq!(chunk.length(), 42);
}

#[test]
fn test_chunk_type() {
    let chunk = testing_chunk();
    assert_eq!(chunk.chunk_type().to_string(), String::from("RuSt"));
}

#[test]
fn test_chunk_string() {
    let chunk = testing_chunk();
    let chunk_string = chunk.data_as_string().unwrap();
    let expected_chunk_string = String::from("This is where your secret message will be!");
    assert_eq!(chunk_string, expected_chunk_string);
}

#[test]
fn test_chunk_crc() {
    let chunk = testing_chunk();
    assert_eq!(chunk.crc(), 2882656334);
}

#[test]
fn test_valid_chunk_from_bytes() {
    let data_length: u32 = 42;
    let chunk_type = "RuSt".as_bytes();
    let message_bytes = "This is where your secret message will be!".as_bytes();
    let crc: u32 = 2882656334;

    let chunk_data: Vec<u8> = data_length
        .to_be_bytes()
        .iter()
        .chain(chunk_type.iter())
        .chain(message_bytes.iter())
        .chain(crc.to_be_bytes().iter())
        .copied()
        .collect();

    let chunk = Chunk::try_from(chunk_data.as_ref()).unwrap();

    let chunk_string = chunk.data_as_string().unwrap();
    let expected_chunk_string = String::from("This is where your secret message will be!");

    assert_eq!(chunk.length(), 42);
    assert_eq!(chunk.chunk_type().to_string(), String::from("RuSt"));
    assert_eq!(chunk_string, expected_chunk_string);
    assert_eq!(chunk.crc(), 2882656334);
}

#[test]
fn test_invalid_chunk_from_bytes() {
    let data_length: u32 = 42;
    let chunk_type = "RuSt".as_bytes();
    let message_bytes = "This is where your secret message will be!".as_bytes();
    let crc: u32 = 2882656333;

    let chunk_data: Vec<u8> = data_length
        .to_be_bytes()
        .iter()
        .chain(chunk_type.iter())
        .chain(message_bytes.iter())
        .chain(crc.to_be_bytes().iter())
        .copied()
        .collect();

    let chunk = Chunk::try_from(chunk_data.as_ref());

    assert!(chunk.is_err());
}

#[test]
pub fn test_chunk_trait_impls() {
    let data_length: u32 = 42;
    let chunk_type = "RuSt".as_bytes();
    let message_bytes = "This is where your secret message will be!".as_bytes();
    let crc: u32 = 2882656334;

    let chunk_data: Vec<u8> = data_length
        .to_be_bytes()
        .iter()
        .chain(chunk_type.iter())
        .chain(message_bytes.iter())
        .chain(crc.to_be_bytes().iter())
        .copied()
        .collect();

    let chunk: Chunk = TryFrom::try_from(chunk_data.as_ref()).unwrap();

    let _chunk_string = chunk.data_as_string().unwrap();
}

#[test]
fn numbers_are_written_most_significant_byte_first() {
    assert_eq!(u32_to_be_bytes(0x0102_0304), [1, 2, 3, 4]);
    assert_eq!(u32_to_be_bytes(42), [0, 0, 0, 42]);
    assert_eq!(u32_to_be_bytes(2882656334), [0xab, 0xd1, 0xd8, 0x4e]);
    assert_eq!(u32_to_be_bytes(u32::MAX), [255, 255, 255, 255]);
    assert_eq!(u32_from_be_bytes([1, 2, 3, 4]), 0x0102_0304);
    assert_eq!(u32_from_be_bytes([0xab, 0xd1, 0xd8, 0x4e]), 2882656334);
    assert_eq!(u32_from_be_bytes([255, 255, 255, 255]), u32::MAX);
    for value in [0u32, 1, 255, 256, 65_535, 65_536, 0x7fff_ffff, 0x8000_0000] {
        assert_eq!(u32_to_be_bytes(value), value.to_be_bytes());
        assert_eq!(u32_from_be_bytes(value.to_be_bytes()), value);
    }
}

#[test]
fn checksum_is_crc32_of_type_and_data() {
    // The last chunk of every PNG file: type IEND, no data.
    let end = Chunk::new(ChunkType::from_str("IEND").unwrap(), Vec::new());
    assert_eq!(end.crc(), 0xae42_6082);
    // The checksum covers the type: another type, another checksum.
    let other = Chunk::new(ChunkType::from_str("IDAT").unwrap(), Vec::new());
    assert_ne!(other.crc(), end.crc());
    // And it covers the data.
    let filled = Chunk::new(ChunkType::from_str("IEND").unwrap(), vec![0]);
    assert_ne!(filled.crc(), end.crc());
}

#[test]
fn chunk_is_written_as_length_type_data_checksum() {
    let end = Chunk::new(ChunkType::from_str("IEND").unwrap(), Vec::new());
    assert_eq!(
        end.as_bytes(),
        vec![0, 0, 0, 0, 73, 69, 78, 68, 0xae, 0x42, 0x60, 0x82]
    );

    let chunk = testing_chunk();
    let written = chunk.as_bytes();
    assert_eq!(written.len(), 12 + 42);
    assert_eq!(&written[0..4], &[0, 0, 0, 42]);
    assert_eq!(&written[4..8], "RuSt".as_bytes());
    assert_eq!(
        &written[8..50],
        "This is where your secret message will be!".as_bytes()
    );
    assert_eq!(&written[50..54], &[0xab, 0xd1, 0xd8, 0x4e]);
}

#[test]
fn write_fields_takes_the_checksum_as_given() {
    let chunk = Chunk::new(ChunkType::from_str("RuSt").unwrap(), vec![7, 8]);
    assert_eq!(
        chunk.write_fields(0x0a0b_0c0d),
        vec![0, 0, 0, 2, 82, 117, 83, 116, 7, 8, 0x0a, 0x0b, 0x0c, 0x0d]
    );
}

#[test]
fn read_fields_leaves_the_checksum_unjudged() {
    let bytes = framed(2, b"RuSt", &[7, 8], 0x0a0b_0c0d);
    let (chunk, stored, rest) = Chunk::read_fields(&bytes).unwrap();
    assert_eq!(chunk.chunk_type().bytes(), [82, 117, 83, 116]);
    assert_eq!(chunk.data(), &[7, 8]);
    assert_eq!(stored, 0x0a0b_0c0d);
    assert!(rest.is_empty());
}

#[test]
fn check_crc_reports_both_checksums() {
    assert_eq!(Chunk::check_crc(5, 5), Ok(()));
    assert_eq!(
        Chunk::check_crc(5, 6),
        Err(ChunkDecodeError::CrcMismatch {
            expected: 5,
            actual: 6
        })
    );
}

#[test]
fn written_chunk_is_read_back() {
    for data in [
        Vec::new(),
        vec![0u8],
        "hello".as_bytes().to_vec(),
        (0..=255u8).collect::<Vec<u8>>(),
        vec![0xffu8; 1000],
    ] {
        let chunk = Chunk::new(ChunkType::from_str("teXt").unwrap(), data.clone());
        let written = chunk.as_bytes();
        assert_eq!(written.len(), 12 + data.len());
        let (read, rest) = Chunk::parse(&written).unwrap();
        assert_eq!(read.data(), &data[..]);
        assert_eq!(read.chunk_type(), chunk.chunk_type());
        assert_eq!(read, chunk);
        assert!(rest.is_empty());
    }
}

#[test]
fn parse_hands_out_the_bytes_behind_the_chunk() {
    let mut bytes = testing_chunk().as_bytes();
    bytes.extend_from_slice(&[1, 2, 3]);
    let (chunk, rest) = Chunk::parse(&bytes).unwrap();
    assert_eq!(chunk, testing_chunk());
    assert_eq!(rest, &[1, 2, 3]);
    // `try_from` reads the same chunk and lets go of the rest.
    assert_eq!(Chunk::try_from(&bytes[..]).unwrap(), testing_chunk());
}

#[test]
fn fewer_than_twelve_bytes_are_too_short() {
    let whole = Chunk::new(ChunkType::from_str("IEND").unwrap(), Vec::new()).as_bytes();
    for kept in 0..12 {
        assert_eq!(
            Chunk::parse(&whole[..kept]),
            Err(ChunkDecodeError::TooShort)
        );
    }
    assert!(Chunk::parse(&whole).is_ok());
}

#[test]
fn announced_data_beyond_the_end_is_too_short() {
    let whole = testing_chunk().as_bytes();
    for kept in 0..whole.len() {
        assert_eq!(
            Chunk::parse(&whole[..kept]),
            Err(ChunkDecodeError::TooShort)
        );
    }
    // A length field that no buffer could satisfy.
    let bytes = framed(u32::MAX, b"RuSt", &[1, 2, 3, 4], 0);
    assert_eq!(Chunk::parse(&bytes), Err(ChunkDecodeError::TooShort));
    assert_eq!(Chunk::read_fields(&bytes).err(), Some(ChunkDecodeError::TooShort));
    // One byte of data is missing.
    let bytes = framed(5, b"RuSt", &[1, 2, 3, 4], 0);
    assert_eq!(Chunk::parse(&bytes), Err(ChunkDecodeError::TooShort));
    // Bytes that are too short are not looked at any further.
    let bytes = framed(5, b"Ru1t", &[1, 2, 3, 4], 0);
    assert_eq!(Chunk::parse(&bytes), Err(ChunkDecodeError::TooShort));
}

#[test]
fn type_that_is_no_valid_type_is_refused() {
    let with_digit = framed(1, b"Ru1t", &[0], 0);
    assert_eq!(Chunk::parse(&with_digit), Err(ChunkDecodeError::InvalidType));
    // Four letters, but the reserved bit is set.
    let chunk = Chunk::new(ChunkType::try_from(*b"Rust").unwrap(), vec![0]);
    assert_eq!(
        Chunk::parse(&chunk.as_bytes()),
        Err(ChunkDecodeError::InvalidType)
    );
    assert_eq!(
        Chunk::try_from(&chunk.as_bytes()[..]),
        Err(ChunkDecodeError::InvalidType)
    );
}

#[test]
fn wrong_checksum_is_reported_with_both_values() {
    let bytes = framed(
        42,
        b"RuSt",
        "This is where your secret message will be!".as_bytes(),
        2882656333,
    );
    assert_eq!(
        Chunk::parse(&bytes),
        Err(ChunkDecodeError::CrcMismatch {
            expected: 2882656333,
            actual: 2882656334
        })
    );
}

#[test]
fn any_flipped_bit_of_type_or_data_is_noticed() {
    let written = testing_chunk().as_bytes();
    let stored = 2882656334;
    for position in 4..written.len() - 4 {
        for bit in 0..8 {
            let mut changed = written.clone();
            changed[position] ^= 1 << bit;
            match Chunk::parse(&changed) {
                Err(ChunkDecodeError::CrcMismatch { expected, actual }) => {
                    assert_eq!(expected, stored);
                    assert_ne!(actual, stored);
                }
                // A flip in the type may leave no valid type behind.
                Err(ChunkDecodeError::InvalidType) => assert!(position < 8),
                other => panic!("byte {position}, bit {bit}: {other:?}"),
            }
        }
    }
}

#[test]
fn data_that_is_no_text_is_told_apart() {
    let chunk_type = ChunkType::from_str("teXt").unwrap();
    let text = Chunk::new(chunk_type, "gr\u{fc}\u{df}e \u{2603}".as_bytes().to_vec());
    assert_eq!(text.data_as_string(), Ok(String::from("gr\u{fc}\u{df}e \u{2603}")));
    let empty = Chunk::new(chunk_type, Vec::new());
    assert_eq!(empty.data_as_string(), Ok(String::new()));
    let broken = Chunk::new(chunk_type, vec![b'a', 0xff, b'b']);
    assert_eq!(broken.data_as_string(), Err(Utf8Decode));
    let cut = Chunk::new(chunk_type, vec![0xe2, 0x98]);
    assert_eq!(cut.data_as_string(), Err(Utf8Decode));
}

#[test]
fn accessors_give_what_the_chunk_was_made_of() {
    let chunk_type = ChunkType::from_str("RuSt").unwrap();
    let chunk = Chunk::new(chunk_type, vec![1, 2, 3]);
    assert_eq!(chunk.length(), 3);
    assert_eq!(chunk.data(), &[1, 2, 3]);
    assert_eq!(*chunk.chunk_type(), chunk_type);
    assert_eq!(chunk.clone(), chunk);
    assert_eq!(Chunk::METADATA_BYTES, 12);
    assert_eq!(
        Chunk::DATA_LENGTH_BYTES + Chunk::CHUNK_TYPE_BYTES + Chunk::CRC_BYTES,
        Chunk::METADATA_BYTES
    );
}
