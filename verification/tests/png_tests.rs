use pngme::chunk::Chunk;
use pngme::chunk_type::ChunkType;
use pngme::error::PngError;
use pngme::png::Png;

fn chunk_of(ty: &str, data: &[u8]) -> Chunk {
    Chunk::new(ChunkType::from_string(ty).unwrap(), data.to_vec())
}

fn sample_png() -> Png {
    Png::from_chunks(vec![
        chunk_of("FrSt", b"I am the first chunk"),
        chunk_of("miDl", b"I am another chunk"),
        chunk_of("LASt", b"I am the last chunk"),
    ])
}

const SIGNATURE: [u8; 8] = [0x89, 0x50, 0x4E, 0x47, 0x0D, 0x0A, 0x1A, 0x0A];

#[test]
fn as_bytes_starts_with_signature() {
    let png = sample_png();
    let bytes = png.as_bytes();
    assert_eq!(&bytes[..8], &SIGNATURE);
    assert_eq!(pngme::png::signature(), SIGNATURE);
}

#[test]
fn empty_png_serializes_to_signature_only() {
    let png = Png::from_chunks(Vec::new());
    assert_eq!(png.as_bytes(), SIGNATURE.to_vec());
}

#[test]
fn empty_png_round_trip() {
    let parsed = Png::try_from(&SIGNATURE[..]).unwrap();
    assert_eq!(parsed.chunks().len(), 0);
    assert_eq!(parsed.as_bytes(), SIGNATURE.to_vec());
}

#[test]
fn png_round_trip_preserves_chunk_sequence() {
    let png = sample_png();
    let bytes = png.as_bytes();
    let parsed = Png::try_from(bytes.as_slice()).unwrap();
    assert_eq!(parsed.chunks().len(), png.chunks().len());
    for (a, b) in parsed.chunks().iter().zip(png.chunks().iter()) {
        assert_eq!(a.chunk_type(), b.chunk_type());
        assert_eq!(a.data(), b.data());
        assert_eq!(a.crc(), b.crc());
    }
    assert_eq!(parsed.as_bytes(), bytes);
}

#[test]
fn non_conformant_chunk_types_still_round_trip() {
    // A tag with a non-letter byte is not valid per the PNG rules, but a
    // container holding it must still serialize and parse losslessly.
    let png = Png::from_chunks(vec![chunk_of("Ru1t", b"odd tag"), chunk_of("Rust", b"reserved")]);
    let bytes = png.as_bytes();
    let parsed = Png::try_from(bytes.as_slice()).unwrap();
    assert_eq!(parsed.as_bytes(), bytes);
    assert!(!parsed.chunks()[0].chunk_type().is_valid());
}

#[test]
fn wrong_signature_is_invalid_signature() {
    let png = sample_png();
    let mut bytes = png.as_bytes();
    for pos in 0..8 {
        let mut corrupt = bytes.clone();
        corrupt[pos] ^= 0x20;
        assert_eq!(Png::try_from(corrupt.as_slice()).unwrap_err(), PngError::InvalidSignature);
    }
    bytes.truncate(7);
    assert_eq!(Png::try_from(bytes.as_slice()).unwrap_err(), PngError::InvalidSignature);
    assert_eq!(Png::try_from(&[][..]).unwrap_err(), PngError::InvalidSignature);
}

#[test]
fn corrupt_chunk_fails_the_whole_parse() {
    let png = sample_png();
    let mut bytes = png.as_bytes();
    // Flip one data byte of the second chunk: signature (8) + first chunk
    // (12 + 20) + second chunk header (8) puts its data at offset 48.
    bytes[48] ^= 0x01;
    assert_eq!(Png::try_from(bytes.as_slice()).unwrap_err(), PngError::CrcMismatch);
}

#[test]
fn trailing_garbage_fails_the_parse() {
    let png = sample_png();
    let mut bytes = png.as_bytes();
    bytes.extend_from_slice(&[0, 0]);
    assert_eq!(Png::try_from(bytes.as_slice()).unwrap_err(), PngError::UnexpectedEof);
}

#[test]
fn append_then_remove_restores_the_container() {
    let mut png = sample_png();
    let before = png.as_bytes();
    png.append_chunk(chunk_of("TeSt", b"Message"));
    assert_ne!(png.as_bytes(), before);
    let removed = png.remove_chunk("TeSt").unwrap();
    assert_eq!(removed.data(), &b"Message".to_vec());
    assert_eq!(png.as_bytes(), before);
}

#[test]
fn remove_missing_type_is_chunk_not_found() {
    let mut png = sample_png();
    assert_eq!(png.remove_chunk("NoNe").unwrap_err(), PngError::ChunkNotFound);
    assert_eq!(png.remove_chunk("").unwrap_err(), PngError::ChunkNotFound);
}

#[test]
fn remove_takes_the_first_match_and_leaves_the_second() {
    let mut png = Png::from_chunks(Vec::new());
    png.append_chunk(chunk_of("DuPe", b"A"));
    png.append_chunk(chunk_of("DuPe", b"B"));
    let removed = png.remove_chunk("DuPe").unwrap();
    assert_eq!(removed.data(), &b"A".to_vec());
    assert_eq!(png.chunks().len(), 1);
    assert_eq!(png.chunks()[0].data(), &b"B".to_vec());
}

#[test]
fn append_keeps_order() {
    let mut png = sample_png();
    png.append_chunk(chunk_of("TeSt", b"Message"));
    let last = png.chunks().last().unwrap();
    assert_eq!(last.chunk_type().bytes(), *b"TeSt");
}

#[test]
fn chunk_by_type_finds_the_first_match() {
    let mut png = sample_png();
    png.append_chunk(chunk_of("miDl", b"second of its type"));
    let found = png.chunk_by_type("miDl").unwrap();
    assert_eq!(found.data(), &b"I am another chunk".to_vec());
    assert!(png.chunk_by_type("NoNe").is_none());
}

#[test]
fn embed_and_read_back_a_message() {
    let mut png = sample_png();
    png.append_chunk(chunk_of("ruSt", b"hidden words"));
    let bytes = png.as_bytes();
    let parsed = Png::try_from(bytes.as_slice()).unwrap();
    let found = parsed.chunk_by_type("ruSt").unwrap();
    assert_eq!(found.data_as_string().unwrap(), "hidden words");
}
