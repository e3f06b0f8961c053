use pngme::errors::PngError;
use pngme::Chunk;
use pngme::ChunkType;
use pngme::Png;

const SIGNATURE: [u8; 8] = [137, 80, 78, 71, 13, 10, 26, 10];

fn chunk(type_str: &str, data: &str) -> Chunk {
    Chunk::new(
        ChunkType::from_str(type_str).unwrap(),
        data.as_bytes().to_vec(),
    )
}

fn terminal_chunk() -> Chunk {
    Chunk::new(ChunkType::from_str("IEND").unwrap(), Vec::new())
}

fn container_bytes(chunks: &[Chunk]) -> Vec<u8> {
    let mut bytes: Vec<u8> = SIGNATURE.to_vec();
    for c in chunks {
        bytes.extend_from_slice(&c.as_bytes());
    }
    bytes
}

fn type_strings(png: &Png) -> Vec<String> {
    png.chunks()
        .iter()
        .map(|c| c.chunk_type().as_string())
        .collect()
}

#[test]
fn test_png_parse_round_trip() {
    let bytes = container_bytes(&[
        chunk("FrSt", "I am the first chunk"),
        chunk("miDl", "I am another chunk"),
        chunk("LASt", "I am the last chunk"),
        terminal_chunk(),
    ]);
    let png = Png::parse(&bytes).unwrap();
    assert_eq!(png.chunks().len(), 4);
    assert_eq!(
        type_strings(&png),
        vec!["FrSt", "miDl", "LASt", "IEND"]
    );
    assert_eq!(
        png.chunks()[0].data_as_string().unwrap(),
        "I am the first chunk"
    );

    let reserialized = png.as_bytes();
    assert_eq!(reserialized, bytes);

    let reparsed = Png::parse(&reserialized).unwrap();
    assert_eq!(reparsed.chunks().len(), png.chunks().len());
    assert_eq!(type_strings(&reparsed), type_strings(&png));
    for (a, b) in reparsed.chunks().iter().zip(png.chunks().iter()) {
        assert_eq!(a.data(), b.data());
        assert_eq!(a.crc(), b.crc());
    }
}

#[test]
fn test_png_parse_rejects_bad_signature() {
    let mut bytes = container_bytes(&[chunk("FrSt", "hello"), terminal_chunk()]);
    bytes[0] = 13;
    assert_eq!(Png::parse(&bytes).unwrap_err(), PngError::SignatureMismatch);

    let short: Vec<u8> = vec![137, 80, 78];
    assert_eq!(Png::parse(&short).unwrap_err(), PngError::SignatureMismatch);
}

#[test]
fn test_png_parse_rejects_bad_chunk() {
    let mut bytes = container_bytes(&[chunk("FrSt", "hello"), terminal_chunk()]);
    let last = bytes.len() - 1;
    bytes[last] ^= 0x40;
    assert!(matches!(
        Png::parse(&bytes).unwrap_err(),
        PngError::ChecksumMismatch { .. }
    ));

    let truncated: Vec<u8> = bytes[..bytes.len() - 2].to_vec();
    assert_eq!(Png::parse(&truncated).unwrap_err(), PngError::UnexpectedEof);
}

#[test]
fn test_png_append_before_terminal_marker() {
    let bytes = container_bytes(&[chunk("FrSt", "one"), terminal_chunk()]);
    let mut png = Png::parse(&bytes).unwrap();
    png.append_chunk(chunk("seCt", "two"));
    assert_eq!(type_strings(&png), vec!["FrSt", "seCt", "IEND"]);

    let expected = container_bytes(&[
        chunk("FrSt", "one"),
        chunk("seCt", "two"),
        terminal_chunk(),
    ]);
    assert_eq!(png.as_bytes(), expected);
}

#[test]
fn test_png_append_without_terminal_marker() {
    let bytes = container_bytes(&[chunk("FrSt", "one"), chunk("miDl", "two")]);
    let mut png = Png::parse(&bytes).unwrap();
    png.append_chunk(chunk("LASt", "three"));
    assert_eq!(type_strings(&png), vec!["FrSt", "miDl", "LASt"]);
}

#[test]
fn test_png_chunk_by_type_finds_first_match() {
    let bytes = container_bytes(&[
        chunk("FrSt", "one"),
        chunk("duPl", "first of two"),
        chunk("duPl", "second of two"),
        terminal_chunk(),
    ]);
    let png = Png::parse(&bytes).unwrap();
    let found = png
        .chunk_by_type(ChunkType::from_str("duPl").unwrap())
        .unwrap();
    assert_eq!(found.data_as_string().unwrap(), "first of two");
}

#[test]
fn test_png_chunk_by_type_absent_is_none() {
    let bytes = container_bytes(&[chunk("FrSt", "one"), terminal_chunk()]);
    let png = Png::parse(&bytes).unwrap();
    assert!(png
        .chunk_by_type(ChunkType::from_str("noNe").unwrap())
        .is_none());
}

#[test]
fn test_png_remove_existing_chunk() {
    let bytes = container_bytes(&[
        chunk("FrSt", "one"),
        chunk("miDl", "two"),
        terminal_chunk(),
    ]);
    let mut png = Png::parse(&bytes).unwrap();
    let removed = png
        .remove_chunk(ChunkType::from_str("miDl").unwrap())
        .unwrap();
    assert_eq!(removed.data_as_string().unwrap(), "two");
    assert_eq!(png.chunks().len(), 2);
    assert_eq!(type_strings(&png), vec!["FrSt", "IEND"]);
}

#[test]
fn test_png_remove_absent_chunk_reports_not_found() {
    let bytes = container_bytes(&[chunk("FrSt", "one"), terminal_chunk()]);
    let mut png = Png::parse(&bytes).unwrap();
    let before = png.as_bytes();
    let err = png
        .remove_chunk(ChunkType::from_str("noNe").unwrap())
        .unwrap_err();
    assert_eq!(err, PngError::ChunkNotFound);
    assert_eq!(png.as_bytes(), before);
}

#[test]
fn test_png_from_chunks_serializes_in_order() {
    let png = Png::from_chunks(vec![
        chunk("FrSt", "one"),
        chunk("miDl", "two"),
        terminal_chunk(),
    ]);
    let expected = container_bytes(&[
        chunk("FrSt", "one"),
        chunk("miDl", "two"),
        terminal_chunk(),
    ]);
    assert_eq!(png.as_bytes(), expected);
}

#[test]
fn test_png_parse_empty_chunk_stream() {
    let png = Png::parse(&SIGNATURE.to_vec()).unwrap();
    assert_eq!(png.chunks().len(), 0);
    assert_eq!(png.as_bytes(), SIGNATURE.to_vec());
}
