use pngme::chunk::Chunk;
use pngme::chunk_type::ChunkType;
use pngme::error::PngError;
use pngme::png::{signature, Png};

fn chunk_of(type_str: &str, payload: &str) -> Chunk {
    let chunk_type = ChunkType::from_str(type_str).unwrap();
    Chunk::new(chunk_type, payload.as_bytes().to_vec())
}

fn empty_png() -> Png {
    Png::parse(&signature()).unwrap()
}

#[test]
fn test_png_parse_signature_only() {
    let png = empty_png();
    assert_eq!(png.as_bytes(), signature().to_vec());
}

#[test]
fn test_png_parse_rejects_bad_signature() {
    let bytes: Vec<u8> = vec![0x88, 0x50, 0x4e, 0x47, 0x0d, 0x0a, 0x1a, 0x0a];
    assert_eq!(Png::parse(bytes.as_slice()).unwrap_err(), PngError::BadSignature);
    let short: Vec<u8> = vec![0x89, 0x50];
    assert_eq!(Png::parse(short.as_slice()).unwrap_err(), PngError::BadSignature);
}

#[test]
fn test_png_parse_rejects_trailing_garbage() {
    let mut bytes = signature().to_vec();
    bytes.extend_from_slice(&[0, 0]);
    assert_eq!(Png::parse(bytes.as_slice()).unwrap_err(), PngError::Truncated);
}

#[test]
fn test_png_parse_rejects_tampered_chunk() {
    let mut png = empty_png();
    png.append_chunk(chunk_of("teSt", "hello"));
    let mut bytes = png.as_bytes();
    let payload_start = 8 + 8;
    bytes[payload_start] ^= 0x01;
    assert_eq!(
        Png::parse(bytes.as_slice()).unwrap_err(),
        PngError::ChecksumMismatch
    );
}

#[test]
fn test_png_append_and_lookup_and_delete() {
    let mut png = empty_png();
    png.append_chunk(chunk_of("teSt", "hello"));

    let found = png.chunk_by_type("teSt").unwrap();
    assert_eq!(found.data_as_string().unwrap(), "hello");

    let removed = png.delete_chunk("teSt").unwrap();
    assert_eq!(removed.data_as_string().unwrap(), "hello");
    assert_eq!(removed.chunk_type().chunk_type(), "teSt");

    assert!(png.chunk_by_type("teSt").is_none());
}

#[test]
fn test_png_delete_missing_type_leaves_sequence() {
    let mut png = empty_png();
    png.append_chunk(chunk_of("FrSt", "I am the first chunk"));
    png.append_chunk(chunk_of("miDl", "I am another chunk"));
    let before = png.as_bytes();

    assert_eq!(png.delete_chunk("noNe").unwrap_err(), PngError::NotFound);
    assert_eq!(png.as_bytes(), before);
}

#[test]
fn test_png_lookup_returns_first_match() {
    let mut png = empty_png();
    png.append_chunk(chunk_of("same", "one"));
    png.append_chunk(chunk_of("same", "two"));
    assert_eq!(
        png.chunk_by_type("same").unwrap().data_as_string().unwrap(),
        "one"
    );
    let removed = png.delete_chunk("same").unwrap();
    assert_eq!(removed.data_as_string().unwrap(), "one");
    assert_eq!(
        png.chunk_by_type("same").unwrap().data_as_string().unwrap(),
        "two"
    );
}

#[test]
fn test_png_append_keeps_end_marker_last() {
    let mut png = empty_png();
    png.append_chunk(chunk_of("FrSt", "first"));
    png.append_chunk(Chunk::new(
        ChunkType::from_str("IEND").unwrap(),
        Vec::new(),
    ));
    png.append_chunk(chunk_of("miDl", "inserted later"));

    let reparsed = Png::parse(png.as_bytes().as_slice()).unwrap();
    assert_eq!(reparsed.chunks.len(), 3);
    assert_eq!(reparsed.chunks[0].chunk_type().chunk_type(), "FrSt");
    assert_eq!(reparsed.chunks[1].chunk_type().chunk_type(), "miDl");
    assert_eq!(reparsed.chunks[2].chunk_type().chunk_type(), "IEND");
}

#[test]
fn test_png_round_trip() {
    let mut png = empty_png();
    png.append_chunk(chunk_of("FrSt", "I am the first chunk"));
    png.append_chunk(chunk_of("miDl", "I am another chunk"));
    png.append_chunk(chunk_of("LASt", "I am the last chunk"));
    let bytes = png.as_bytes();

    let reparsed = Png::parse(bytes.as_slice()).unwrap();
    assert_eq!(reparsed.chunks.len(), 3);
    for (a, b) in png.chunks.iter().zip(reparsed.chunks.iter()) {
        assert_eq!(a.length(), b.length());
        assert_eq!(a.chunk_type().bytes(), b.chunk_type().bytes());
        assert_eq!(a.data(), b.data());
        assert_eq!(a.crc(), b.crc());
    }
    // Serializing again reproduces the same bytes.
    assert_eq!(reparsed.as_bytes(), bytes);
}

#[test]
fn test_png_from_chunks() {
    let chunks = vec![chunk_of("FrSt", "first"), chunk_of("LASt", "last")];
    let png = Png::from_chunks(chunks);
    assert_eq!(png.chunks.len(), 2);
    assert!(png.chunk_by_type("FrSt").is_some());
    assert!(png.chunk_by_type("LASt").is_some());
    assert!(png.chunk_by_type("none").is_none());
}
