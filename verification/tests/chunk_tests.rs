use pngme::chunk::Chunk;
use pngme::chunk_type::ChunkType;

fn testing_chunk_bytes() -> Vec<u8> {
    let data_length: u32 = 42;
    let chunk_type = "RuSt".as_bytes();
    let message_bytes = "This is where your secret message will be!".as_bytes();
    let crc: u32 = 2882656334;

    let mut chunk_data: Vec<u8> = Vec::new();
    chunk_data.extend_from_slice(&data_length.to_be_bytes());
    chunk_data.extend_from_slice(chunk_type);
    chunk_data.extend_from_slice(message_bytes);
    chunk_data.extend_from_slice(&crc.to_be_bytes());
    chunk_data
}

fn testing_chunk() -> Chunk {
    Chunk::parse(testing_chunk_bytes().as_slice()).unwrap()
}

#[test]
fn test_new_chunk() {
    let chunk_type = ChunkType::from_string("RuSt").unwrap();
    let data = "This is where your secret message will be!"
        .as_bytes()
        .to_vec();
    let chunk = Chunk::new(chunk_type, data);
    assert_eq!(chunk.length(), 42);
    assert_eq!(chunk.crc(), 2882656334);
}

#[test]
fn test_chunk_length() {
    let chunk = testing_chunk();
    assert_eq!(chunk.length(), 42);
}

#[test]
fn test_chunk_type() {
    let chunk = testing_chunk();
    assert_eq!(chunk.chunk_type().to_string(), String::from("RuSt"));
}

#[test]
fn test_chunk_string() {
    let chunk = testing_chunk();
    let chunk_string = chunk.data_as_string().unwrap();
    let expected_chunk_string = String::from("This is where your secret message will be!");
    assert_eq!(chunk_string, expected_chunk_string);
}

#[test]
fn test_chunk_crc() {
    let chunk = testing_chunk();
    assert_eq!(chunk.crc(), 2882656334);
}

#[test]
fn test_valid_chunk_from_bytes() {
    let data_length: u32 = 42;
    let chunk_type = "RuSt".as_bytes();
    let message_bytes = "This is where your secret message will be!".as_bytes();
    let crc: u32 = 2882656334;

    let mut chunk_data: Vec<u8> = Vec::new();
    chunk_data.extend_from_slice(&data_length.to_be_bytes());
    chunk_data.extend_from_slice(chunk_type);
    chunk_data.extend_from_slice(message_bytes);
    chunk_data.extend_from_slice(&crc.to_be_bytes());

    let chunk = Chunk::parse(chunk_data.as_slice()).unwrap();

    let chunk_string = chunk.data_as_string().unwrap();
    let expected_chunk_string = String::from("This is where your secret message will be!");

    assert_eq!(chunk.length(), 42);
    assert_eq!(chunk.chunk_type().to_string(), String::from("RuSt"));
    assert_eq!(chunk_string, expected_chunk_string);
    assert_eq!(chunk.crc(), 2882656334);
}

#[test]
fn test_invalid_chunk_from_bytes() {
    let data_length: u32 = 42;
    let chunk_type = "RuSt".as_bytes();
    let message_bytes = "This is where your secret message will be!".as_bytes();
    let crc: u32 = 2882656333;

    let mut chunk_data: Vec<u8> = Vec::new();
    chunk_data.extend_from_slice(&data_length.to_be_bytes());
    chunk_data.extend_from_slice(chunk_type);
    chunk_data.extend_from_slice(message_bytes);
    chunk_data.extend_from_slice(&crc.to_be_bytes());

    let chunk = Chunk::parse(chunk_data.as_slice());

    assert!(chunk.is_err());
}

#[test]
pub fn test_chunk_trait_impls() {
    let data_length: u32 = 42;
    let chunk_type = "RuSt".as_bytes();
    let message_bytes = "This is where your secret message will be!".as_bytes();
    let crc: u32 = 2882656334;

    let mut chunk_data: Vec<u8> = Vec::new();
    chunk_data.extend_from_slice(&data_length.to_be_bytes());
    chunk_data.extend_from_slice(chunk_type);
    chunk_data.extend_from_slice(message_bytes);
    chunk_data.extend_from_slice(&crc.to_be_bytes());

    let chunk: Chunk = Chunk::parse(chunk_data.as_slice()).unwrap();

    let _chunk_string = format!("{:?}", chunk);
}

#[test]
fn test_chunk_round_trip_bytes() {
    let chunk = testing_chunk();
    let bytes = chunk.as_bytes();
    assert_eq!(bytes, testing_chunk_bytes());
    let reparsed = Chunk::parse(bytes.as_slice()).unwrap();
    assert_eq!(reparsed.length(), chunk.length());
    assert_eq!(reparsed.chunk_type().bytes(), chunk.chunk_type().bytes());
    assert_eq!(reparsed.data(), chunk.data());
    assert_eq!(reparsed.crc(), chunk.crc());
}

#[test]
fn test_chunk_parse_ignores_trailing_bytes() {
    let mut bytes = testing_chunk_bytes();
    bytes.extend_from_slice(&[1, 2, 3]);
    let chunk = Chunk::parse(bytes.as_slice()).unwrap();
    assert_eq!(chunk.length(), 42);
}

#[test]
fn test_chunk_data_not_utf8() {
    let chunk_type = ChunkType::from_string("RuSt").unwrap();
    let chunk = Chunk::new(chunk_type, vec![0xff, 0xfe]);
    assert_eq!(
        chunk.data_as_string(),
        Err(pngme::error::FormatError::InvalidText)
    );
}

#[test]
fn test_chunk_data_multibyte_utf8() {
    let chunk_type = ChunkType::from_string("RuSt").unwrap();
    let message = "caf\u{e9} \u{2603}";
    let chunk = Chunk::new(chunk_type, message.as_bytes().to_vec());
    let text = chunk.data_as_string().unwrap();
    assert_eq!(text, message);
    assert_eq!(text.chars().count(), 6);
    assert_eq!(chunk.length() as usize, message.len());
}

#[test]
fn test_chunk_parse_truncated() {
    let bytes = testing_chunk_bytes();
    let cut = &bytes[0..bytes.len() - 5];
    assert!(matches!(
        Chunk::parse(cut),
        Err(pngme::error::FormatError::Truncated)
    ));
    assert!(matches!(
        Chunk::parse(&bytes[0..7]),
        Err(pngme::error::FormatError::Truncated)
    ));
}

#[test]
fn test_chunk_parse_invalid_tag() {
    // A tag with a digit is rejected while reading, before any checksum.
    let mut bytes = testing_chunk_bytes();
    bytes[5] = b'1';
    assert!(matches!(
        Chunk::parse(bytes.as_slice()),
        Err(pngme::error::FormatError::InvalidTag)
    ));
    // A reserved-bit-invalid tag is rejected even with a matching checksum.
    let data = "This is where your secret message will be!".as_bytes();
    let mut covered: Vec<u8> = Vec::new();
    covered.extend_from_slice("Rust".as_bytes());
    covered.extend_from_slice(data);
    let crc = crc::Crc::<u32>::new(&crc::CRC_32_ISO_HDLC).checksum(&covered);
    let mut lower: Vec<u8> = Vec::new();
    lower.extend_from_slice(&42u32.to_be_bytes());
    lower.extend_from_slice("Rust".as_bytes());
    lower.extend_from_slice(data);
    lower.extend_from_slice(&crc.to_be_bytes());
    assert!(matches!(
        Chunk::parse(lower.as_slice()),
        Err(pngme::error::FormatError::InvalidTag)
    ));
}

#[test]
fn test_chunk_crc_mismatch_carries_both_checksums() {
    let bytes = testing_chunk_bytes();
    let mut corrupt = bytes.clone();
    let last = corrupt.len() - 1;
    corrupt[last] ^= 1;
    match Chunk::parse(corrupt.as_slice()) {
        Err(pngme::error::FormatError::CrcMismatch { expected, actual }) => {
            assert_eq!(expected, 2882656334);
            assert_eq!(actual, 2882656334 ^ 1);
        }
        other => panic!("expected a checksum mismatch, got {:?}", other),
    }
}

#[test]
fn test_chunk_crc_sensitivity() {
    // Flipping any single bit of the payload leaves the stored checksum
    // stale: parsing must fail with a checksum mismatch.
    let bytes = testing_chunk_bytes();
    for byte_index in 8..8 + 42 {
        for bit in 0..8 {
            let mut corrupt = bytes.clone();
            corrupt[byte_index] ^= 1u8 << bit;
            match Chunk::parse(corrupt.as_slice()) {
                Err(pngme::error::FormatError::CrcMismatch { .. }) => {}
                other => panic!(
                    "bit {} of byte {}: expected a checksum mismatch, got {:?}",
                    bit, byte_index, other
                ),
            }
        }
    }
    // Flipping a bit of the type tag fails too: with a mismatch when the
    // tag still reads as a legal tag, else with a tag error.
    for byte_index in 4..8 {
        for bit in 0..8 {
            let mut corrupt = bytes.clone();
            corrupt[byte_index] ^= 1u8 << bit;
            match Chunk::parse(corrupt.as_slice()) {
                Err(pngme::error::FormatError::CrcMismatch { .. }) => {}
                Err(pngme::error::FormatError::InvalidTag) => {}
                other => panic!(
                    "bit {} of byte {}: expected a failure, got {:?}",
                    bit, byte_index, other
                ),
            }
        }
    }
}
