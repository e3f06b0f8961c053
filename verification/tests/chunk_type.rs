use pngme::errors::PngError;
use pngme::ChunkType;

#[test]
fn test_chunk_type_from_bytes() {
    let expected = [82, 117, 83, 116];
    let actual = ChunkType::try_from([82, 117, 83, 116]).unwrap();
    println!("{}", actual.as_string());
    assert_eq!(expected, actual.bytes());
}

#[test]
fn test_chunk_type_from_str() {
    let expected = ChunkType::try_from([82, 117, 83, 116]).unwrap();
    let actual = ChunkType::from_str("RuSt").unwrap();
    assert_eq!(expected, actual);
}

#[test]
fn test_chunk_type_is_critical() {
    let chunk = ChunkType::from_str("RuSt").unwrap();
    assert!(chunk.is_critical());
}

#[test]
fn test_chunk_type_is_not_critical() {
    let chunk = ChunkType::from_str("ruSt").unwrap();
    assert!(!chunk.is_critical());
}

#[test]
fn test_chunk_type_is_public() {
    let chunk = ChunkType::from_str("RUSt").unwrap();
    assert!(chunk.is_public());
}

#[test]
fn test_chunk_type_is_not_public() {
    let chunk = ChunkType::from_str("RuSt").unwrap();
    assert!(!chunk.is_public());
}

#[test]
fn test_chunk_type_is_reserved_bit_valid() {
    let chunk = ChunkType::from_str("RuSt").unwrap();
    assert!(chunk.is_reserved_bit_valid());
}

#[test]
fn test_chunk_type_is_reserved_bit_invalid() {
    let chunk = ChunkType::from_str("Rust").unwrap();
    assert!(!chunk.is_reserved_bit_valid());
}

#[test]
fn test_chunk_type_is_safe_to_copy() {
    let chunk = ChunkType::from_str("RuSt").unwrap();
    assert!(chunk.is_safe_to_copy());
}

#[test]
fn test_chunk_type_is_unsafe_to_copy() {
    let chunk = ChunkType::from_str("RuST").unwrap();
    assert!(!chunk.is_safe_to_copy());
}

#[test]
fn test_valid_chunk_is_valid() {
    let chunk = ChunkType::from_str("RuSt").unwrap();
    assert!(chunk.is_valid());
}

#[test]
fn test_invalid_chunk_is_valid() {
    let chunk = ChunkType::from_str("Rust").unwrap();
    assert!(!chunk.is_valid());

    let chunk = ChunkType::from_str("Ru1t");
    assert!(chunk.is_err());
}

#[test]
fn test_chunk_type_string() {
    let chunk = ChunkType::from_str("RuSt").unwrap();
    println!("{}", chunk.as_string());
    assert_eq!(&chunk.as_string(), "RuSt");
}

#[test]
fn test_chunk_type_trait_impls() {
    let chunk_type_1: ChunkType = ChunkType::try_from([82, 117, 83, 116]).unwrap();
    let chunk_type_2: ChunkType = ChunkType::from_str("RuSt").unwrap();
    let _chunk_string = chunk_type_1.as_string();
    let _are_chunks_equal = chunk_type_1 == chunk_type_2;
}

#[test]
fn test_chunk_type_accepts_only_four_letters() {
    assert!(ChunkType::from_str("PnGm").is_ok());
    assert_eq!(ChunkType::from_str("RuS"), Err(PngError::ExpectedFourBytes));
    assert_eq!(ChunkType::from_str("RuStX"), Err(PngError::ExpectedFourBytes));
    assert_eq!(ChunkType::from_str("Ru1t"), Err(PngError::InvalidChunkType));
    assert_eq!(ChunkType::from_str("Ru!t"), Err(PngError::InvalidChunkType));
    assert_eq!(
        ChunkType::try_from([82, 117, 49, 116]),
        Err(PngError::InvalidChunkType)
    );
}

#[test]
fn test_chunk_type_bit_predicates_concrete() {
    let rust_mixed = ChunkType::try_from([82, 117, 83, 116]).unwrap();
    assert!(rust_mixed.is_critical());
    assert!(!rust_mixed.is_public());
    assert!(rust_mixed.is_reserved_bit_valid());
    assert!(rust_mixed.is_safe_to_copy());
    assert!(rust_mixed.is_valid());

    let rust_lower_tail = ChunkType::from_str("Rust").unwrap();
    assert!(!rust_lower_tail.is_reserved_bit_valid());
    assert!(!rust_lower_tail.is_valid());
}
