use pngme::chunk_type::ChunkType;
use pngme::error::PngError;

#[test]
fn from_bytes_is_verbatim() {
    let ct = ChunkType::from_bytes([82, 117, 83, 116]);
    assert_eq!(ct.bytes(), [82, 117, 83, 116]);
}

#[test]
fn from_string_four_letters() {
    let ct = ChunkType::from_string("RuSt").unwrap();
    assert_eq!(ct.bytes(), *b"RuSt");
    assert_eq!(ct, ChunkType::from_bytes(*b"RuSt"));
}

#[test]
fn from_string_wrong_length_is_invalid_format() {
    assert_eq!(ChunkType::from_string("12").unwrap_err(), PngError::InvalidFormat);
    assert_eq!(ChunkType::from_string("").unwrap_err(), PngError::InvalidFormat);
    assert_eq!(ChunkType::from_string("RuSty").unwrap_err(), PngError::InvalidFormat);
}

#[test]
fn from_string_non_letter_parses_but_is_not_valid() {
    let ct = ChunkType::from_string("Ru1t").unwrap();
    assert_eq!(ct.bytes(), *b"Ru1t");
    assert!(!ct.is_valid());
}

#[test]
fn ihdr_bit_semantics() {
    // "IHDR": bytes 0x49, 0x48, 0x44, 0x52 -- every bit 5 clear.
    let ct = ChunkType::from_string("IHDR").unwrap();
    assert!(ct.is_critical());
    assert!(ct.is_public());
    assert!(ct.is_reserved_bit_valid());
    assert!(!ct.is_safe_to_copy());
    assert!(!ct.is_private());
    assert!(ct.is_valid());
}

#[test]
fn lowercase_first_byte_is_ancillary() {
    // "ruSt": bit 5 of 'r' (0x72) is set, so the chunk is not critical.
    let ct = ChunkType::from_string("ruSt").unwrap();
    assert!(!ct.is_critical());
}

#[test]
fn rust_bit_semantics() {
    // "RuSt": 'R' = 0x52 has bit 5 clear -> critical; 'u' set -> private;
    // 'S' clear -> reserved bit valid; 't' set -> safe to copy.
    let ct = ChunkType::from_string("RuSt").unwrap();
    assert!(ct.is_critical());
    assert!(ct.is_private());
    assert!(!ct.is_public());
    assert!(ct.is_reserved_bit_valid());
    assert!(ct.is_safe_to_copy());
    assert!(ct.is_valid());
}

#[test]
fn reserved_bit_set_is_not_valid() {
    // "Rust": 's' = 0x73 has bit 5 set, so the tag is not valid.
    let ct = ChunkType::from_string("Rust").unwrap();
    assert!(!ct.is_reserved_bit_valid());
    assert!(!ct.is_valid());
}

#[test]
fn textual_form_reads_bytes_as_ascii() {
    assert_eq!(ChunkType::from_string("RuSt").unwrap().as_string(), "RuSt");
    assert_eq!(ChunkType::from_bytes([0x01, 0x62, 0x63, 0x64]).as_string(), "?bcd");
}

#[test]
fn ordering_is_byte_for_byte() {
    assert!(ChunkType::from_bytes(*b"AAAA") < ChunkType::from_bytes(*b"AAAB"));
    assert!(ChunkType::from_bytes(*b"IHDR") < ChunkType::from_bytes(*b"ruSt"));
}

#[test]
fn equality_is_byte_for_byte() {
    let a = ChunkType::from_bytes(*b"RuSt");
    let b = ChunkType::from_string("RuSt").unwrap();
    let c = ChunkType::from_bytes(*b"Rust");
    assert_eq!(a, b);
    assert_ne!(a, c);
}
