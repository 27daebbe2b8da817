use pngme::chunk::Chunk;
use pngme::chunk_type::ChunkType;
use pngme::error::PngError;

fn sample_chunk(ty: &str, data: &[u8]) -> Chunk {
    Chunk::new(ChunkType::from_string(ty).unwrap(), data.to_vec())
}

#[test]
fn length_counts_data_bytes() {
    assert_eq!(sample_chunk("RuSt", b"hello").length(), 5);
    assert_eq!(sample_chunk("RuSt", b"").length(), 0);
}

#[test]
fn crc_has_the_standard_check_value() {
    // CRC-32 (ISO-HDLC) of the ASCII bytes "123456789" is 0xCBF43926; here
    // the first four bytes are the tag and the rest the payload.
    let c = Chunk::new(ChunkType::from_bytes(*b"1234"), b"56789".to_vec());
    assert_eq!(c.crc(), 0xCBF43926);
}

#[test]
fn crc_of_bare_iend_tag() {
    // The IEND chunk has no payload; its CRC-32 is the PNG standard's
    // well-known 0xAE426082.
    let c = sample_chunk("IEND", b"");
    assert_eq!(c.crc(), 0xAE426082);
}

#[test]
fn as_bytes_is_the_wire_format() {
    let c = sample_chunk("RuSt", b"ab");
    let expected_crc = c.crc();
    let mut expected: Vec<u8> = vec![0, 0, 0, 2];
    expected.extend_from_slice(b"RuSt");
    expected.extend_from_slice(b"ab");
    expected.extend_from_slice(&expected_crc.to_be_bytes());
    assert_eq!(c.as_bytes(), expected);
}

#[test]
fn chunk_round_trip_preserves_everything() {
    let c = sample_chunk("RuSt", b"This is where your secret message will be!");
    let bytes = c.as_bytes();
    let parsed = Chunk::try_from(bytes.as_slice()).unwrap();
    assert_eq!(parsed.chunk_type(), c.chunk_type());
    assert_eq!(parsed.data(), c.data());
    assert_eq!(parsed.crc(), c.crc());
    assert_eq!(parsed.length(), c.length());
    assert_eq!(parsed.as_bytes(), bytes);
}

#[test]
fn empty_payload_round_trip() {
    let c = sample_chunk("teXt", b"");
    let bytes = c.as_bytes();
    assert_eq!(bytes.len(), 12);
    let parsed = Chunk::try_from(bytes.as_slice()).unwrap();
    assert_eq!(parsed.length(), 0);
    assert_eq!(parsed.crc(), c.crc());
}

#[test]
fn flipping_any_type_or_data_byte_is_a_crc_mismatch() {
    let c = sample_chunk("RuSt", b"payload");
    let bytes = c.as_bytes();
    // The type region is bytes 4..8 and the data region 8..8+len.
    for pos in 4..(8 + c.length() as usize) {
        let mut corrupt = bytes.clone();
        corrupt[pos] ^= 0x01;
        assert_eq!(Chunk::try_from(corrupt.as_slice()).unwrap_err(), PngError::CrcMismatch);
        let mut corrupt_high = bytes.clone();
        corrupt_high[pos] ^= 0x80;
        assert_eq!(Chunk::try_from(corrupt_high.as_slice()).unwrap_err(), PngError::CrcMismatch);
    }
}

#[test]
fn corrupted_crc_field_is_a_crc_mismatch() {
    let c = sample_chunk("RuSt", b"payload");
    let bytes = c.as_bytes();
    let mut corrupt = bytes.clone();
    let last = corrupt.len() - 1;
    corrupt[last] ^= 0xFF;
    assert_eq!(Chunk::try_from(corrupt.as_slice()).unwrap_err(), PngError::CrcMismatch);
}

#[test]
fn truncated_input_is_unexpected_eof() {
    let c = sample_chunk("RuSt", b"payload");
    let bytes = c.as_bytes();
    for cut in 0..bytes.len() {
        let r = Chunk::try_from(&bytes[..cut]);
        assert_eq!(r.unwrap_err(), PngError::UnexpectedEof);
    }
}

#[test]
fn trailing_bytes_after_record_are_ignored() {
    let c = sample_chunk("RuSt", b"xy");
    let mut bytes = c.as_bytes();
    bytes.extend_from_slice(b"junk");
    let parsed = Chunk::try_from(bytes.as_slice()).unwrap();
    assert_eq!(parsed.data(), c.data());
}

#[test]
fn summary_names_type_length_and_crc() {
    let c = sample_chunk("IEND", b"");
    assert_eq!(c.summary(), "IEND length=0 crc=2923585666");
}

#[test]
fn summary_marks_unprintable_tag_bytes() {
    let c = Chunk::new(ChunkType::from_bytes([0x01, 0x62, 0x63, 0x64]), b"xy".to_vec());
    assert!(c.summary().starts_with("?bcd length=2 crc="));
}

#[test]
fn data_as_string_decodes_utf8() {
    let c = sample_chunk("RuSt", b"hello png");
    assert_eq!(c.data_as_string().unwrap(), "hello png");
}

#[test]
fn data_as_string_rejects_invalid_utf8() {
    let c = sample_chunk("RuSt", &[0xFF, 0xFE, 0x00]);
    assert_eq!(c.data_as_string().unwrap_err(), PngError::Utf8Error);
}
