use rockies::codec::{decode_chunk, encode_chunk, CellRecord, ChunkEntry, DecodeError};
use rockies::color::Color;

fn entry(x: i32, y: i32, r: u8, g: u8, b: u8, mass: i32) -> ChunkEntry {
    ChunkEntry { x, y, record: CellRecord { color: Color { r, g, b }, mass } }
}

// Chunk round trip: decoding an encoded chunk restores the dimensions, the
// version, and the exact entry list.
#[test]
fn test_chunk_round_trip() {
    let entries = vec![
        entry(0, 0, 1, 2, 3, 0),
        entry(63, 63, 255, 0, 255, 1),
        entry(-5, 100, 9, 9, 9, 7),
        entry(i32::MIN, i32::MAX, 0, 0, 0, i32::MAX),
    ];
    let bytes = encode_chunk(64, 64, 3, &entries);
    let decoded = decode_chunk(&bytes).unwrap();
    assert_eq!(decoded.width, 64);
    assert_eq!(decoded.height, 64);
    assert_eq!(decoded.version, 3);
    assert_eq!(decoded.entries, entries);
}

#[test]
fn test_empty_chunk_round_trip() {
    let entries: Vec<ChunkEntry> = Vec::new();
    let bytes = encode_chunk(64, 64, 0, &entries);
    assert_eq!(bytes.len(), 32);
    let decoded = decode_chunk(&bytes).unwrap();
    assert_eq!(decoded.width, 64);
    assert_eq!(decoded.height, 64);
    assert_eq!(decoded.version, 0);
    assert!(decoded.entries.is_empty());
}

// The exact byte layout of one encoded entry.
#[test]
fn test_encode_exact_bytes() {
    let entries = vec![entry(1, 2, 10, 20, 30, 5)];
    let bytes = encode_chunk(64, 65, 7, &entries);
    let mut expected: Vec<u8> = Vec::new();
    expected.extend_from_slice(&[64, 0, 0, 0, 0, 0, 0, 0]);
    expected.extend_from_slice(&[65, 0, 0, 0, 0, 0, 0, 0]);
    expected.extend_from_slice(&[7, 0, 0, 0, 0, 0, 0, 0]);
    expected.extend_from_slice(&[1, 0, 0, 0, 0, 0, 0, 0]);
    expected.extend_from_slice(&[1, 0, 0, 0]);
    expected.extend_from_slice(&[2, 0, 0, 0]);
    expected.extend_from_slice(&[10, 20, 30]);
    expected.extend_from_slice(&[5, 0, 0, 0]);
    assert_eq!(bytes, expected);
}

// A truncated header is rejected whole.
#[test]
fn test_decode_truncated_header() {
    let bytes = vec![1u8; 31];
    match decode_chunk(&bytes) {
        Err(DecodeError::TruncatedHeader) => {}
        _ => panic!("a truncated header must be rejected"),
    }
}

// A body whose length does not match the declared count is rejected whole.
#[test]
fn test_decode_length_mismatch() {
    let entries = vec![entry(0, 0, 0, 0, 0, 1)];
    let mut bytes = encode_chunk(64, 64, 0, &entries);
    bytes.pop();
    match decode_chunk(&bytes) {
        Err(DecodeError::LengthMismatch) => {}
        _ => panic!("a short body must be rejected"),
    }
    let entries2: Vec<ChunkEntry> = Vec::new();
    let mut bytes2 = encode_chunk(64, 64, 0, &entries2);
    bytes2.push(0);
    match decode_chunk(&bytes2) {
        Err(DecodeError::LengthMismatch) => {}
        _ => panic!("a long body must be rejected"),
    }
}
