use pngme::errors::PngError;
use pngme::Chunk;
use pngme::ChunkType;

fn testing_chunk() -> Chunk {
    let data_length: u32 = 42;
    let chunk_type = "RuSt".as_bytes();
    let message_bytes = "This is where your secret message will be!".as_bytes();
    let crc: u32 = 2882656334;

    let chunk_data: Vec<u8> = data_length
        .to_be_bytes()
        .iter()
        .chain(chunk_type.iter())
        .chain(message_bytes.iter())
        .chain(crc.to_be_bytes().iter())
        .copied()
        .collect();

    Chunk::parse(&chunk_data).unwrap()
}

#[test]
fn test_chunk_length() {
    let chunk = testing_chunk();
    assert_eq!(chunk.length(), 42);
}

#[test]
fn test_chunk_type() {
    let chunk = testing_chunk();
    assert_eq!(chunk.chunk_type().as_string(), String::from("RuSt"));
}

#[test]
fn test_chunk_string() {
    let chunk = testing_chunk();
    let chunk_string = chunk.data_as_string().unwrap();
    let expected_chunk_string = String::from("This is where your secret message will be!");
    assert_eq!(chunk_string, expected_chunk_string);
}

#[test]
fn test_chunk_crc() {
    let chunk = testing_chunk();
    assert_eq!(chunk.crc(), 2882656334);
}

#[test]
fn test_valid_chunk_from_bytes() {
    let data_length: u32 = 42;
    let chunk_type = "RuSt".as_bytes();
    let message_bytes = "This is where your secret message will be!".as_bytes();
    let crc: u32 = 2882656334;

    let chunk_data: Vec<u8> = data_length
        .to_be_bytes()
        .iter()
        .chain(chunk_type.iter())
        .chain(message_bytes.iter())
        .chain(crc.to_be_bytes().iter())
        .copied()
        .collect();

    let chunk = Chunk::parse(&chunk_data).unwrap();

    let chunk_string = chunk.data_as_string().unwrap();
    let expected_chunk_string = String::from("This is where your secret message will be!");

    assert_eq!(chunk.length(), 42);
    assert_eq!(chunk.chunk_type().as_string(), String::from("RuSt"));
    assert_eq!(chunk_string, expected_chunk_string);
    assert_eq!(chunk.crc(), 2882656334);
}

#[test]
fn test_invalid_chunk_from_bytes() {
    let data_length: u32 = 42;
    let chunk_type = "RuSt".as_bytes();
    let message_bytes = "This is where your secret message will be!".as_bytes();
    let crc: u32 = 2882656333;

    let chunk_data: Vec<u8> = data_length
        .to_be_bytes()
        .iter()
        .chain(chunk_type.iter())
        .chain(message_bytes.iter())
        .chain(crc.to_be_bytes().iter())
        .copied()
        .collect();

    let chunk = Chunk::parse(&chunk_data);

    assert!(chunk.is_err());
}

#[test]
fn test_chunk_trait_impls() {
    let data_length: u32 = 42;
    let chunk_type = "RuSt".as_bytes();
    let message_bytes = "This is where your secret message will be!".as_bytes();
    let crc: u32 = 2882656334;

    let chunk_data: Vec<u8> = data_length
        .to_be_bytes()
        .iter()
        .chain(chunk_type.iter())
        .chain(message_bytes.iter())
        .chain(crc.to_be_bytes().iter())
        .copied()
        .collect();

    let chunk: Chunk = Chunk::parse(&chunk_data).unwrap();

    let _chunk_string = chunk.display_string();
}

#[test]
fn test_chunk_new_round_trips_through_bytes() {
    let chunk_type = ChunkType::from_str("RuSt").unwrap();
    let data: Vec<u8> = "Secret decoder ring".as_bytes().to_vec();
    let chunk = Chunk::new(chunk_type, data.clone());
    assert_eq!(chunk.length() as usize, data.len());

    let bytes = chunk.as_bytes();
    let reparsed = Chunk::parse(&bytes).unwrap();
    assert_eq!(reparsed.chunk_type().bytes(), chunk.chunk_type().bytes());
    assert_eq!(reparsed.data(), chunk.data());
    assert_eq!(reparsed.crc(), chunk.crc());
}

#[test]
fn test_chunk_crc_bit_flips_are_rejected() {
    let chunk_type = ChunkType::from_str("RuSt").unwrap();
    let chunk = Chunk::new(chunk_type, b"payload".to_vec());
    let bytes = chunk.as_bytes();

    for byte_in_crc in 0..4usize {
        for bit in 0..8u8 {
            let mut corrupted = bytes.clone();
            let idx = bytes.len() - 4 + byte_in_crc;
            corrupted[idx] ^= 1 << bit;
            match Chunk::parse(&corrupted) {
                Err(PngError::ChecksumMismatch { expected, found }) => {
                    assert_eq!(expected, chunk.crc());
                    assert_ne!(found, expected);
                }
                other => panic!("expected a checksum mismatch, got {:?}", other),
            }
        }
    }
}

#[test]
fn test_chunk_overlong_declared_length_rejected() {
    // Declared length 2^31, followed by a valid type and no payload at all:
    // the length bound is checked before any payload byte is read.
    let mut bytes: Vec<u8> = vec![0x80, 0x00, 0x00, 0x00];
    bytes.extend_from_slice("RuSt".as_bytes());
    assert_eq!(Chunk::parse(&bytes).unwrap_err(), PngError::LengthTooLong);
}

#[test]
fn test_chunk_truncated_buffers_rejected() {
    let chunk_type = ChunkType::from_str("RuSt").unwrap();
    let chunk = Chunk::new(chunk_type, b"payload".to_vec());
    let bytes = chunk.as_bytes();

    let too_short_for_length: Vec<u8> = bytes[..3].to_vec();
    assert_eq!(
        Chunk::parse(&too_short_for_length).unwrap_err(),
        PngError::UnexpectedEof
    );

    let too_short_for_type: Vec<u8> = bytes[..6].to_vec();
    assert_eq!(
        Chunk::parse(&too_short_for_type).unwrap_err(),
        PngError::UnexpectedEof
    );

    let too_short_for_payload: Vec<u8> = bytes[..bytes.len() - 1].to_vec();
    assert_eq!(
        Chunk::parse(&too_short_for_payload).unwrap_err(),
        PngError::UnexpectedEof
    );
}

#[test]
fn test_chunk_bad_type_byte_rejected() {
    let chunk_type = ChunkType::from_str("RuSt").unwrap();
    let chunk = Chunk::new(chunk_type, b"payload".to_vec());
    let mut bytes = chunk.as_bytes();
    bytes[5] = b'1';
    assert_eq!(Chunk::parse(&bytes).unwrap_err(), PngError::InvalidChunkType);
}

#[test]
fn test_chunk_data_as_string_rejects_non_text() {
    let chunk_type = ChunkType::from_str("RuSt").unwrap();
    let chunk = Chunk::new(chunk_type, vec![0xff, 0xfe, 0x00]);
    assert_eq!(chunk.data_as_string(), Err(PngError::InvalidUtf8));
    assert_eq!(chunk.display_string(), "RuSt\t[data]");
}
