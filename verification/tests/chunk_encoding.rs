//! Tests of the generic chunk tree: header packing, flattening order,
//! length additivity, primitive payload round trips, and the payload size
//! boundary.

use psn_encoder::serialize::{Chunk, EncodeError};

fn le32(word: u32) -> Vec<u8> {
    word.to_le_bytes().to_vec()
}

#[test]
fn leaf_header_bit_exact() {
    let chunk = Chunk::from_u64(0x0006, 0);
    let buf = chunk.to_buffer().unwrap();
    // id | (len << 16) | (1 << 31), little-endian.
    let word: u32 = 0x0006 | (8 << 16) | (1 << 31);
    assert_eq!(&buf[..4], &word.to_le_bytes());
    assert_eq!(buf.len(), 12);
}

#[test]
fn container_header_flag_clear() {
    let leaf = Chunk::from_u64(0x0009, 7);
    let container = Chunk { id: 0x0005, data: vec![], sub_chunks: vec![leaf] };
    let buf = container.to_buffer().unwrap();
    let word = u32::from_le_bytes([buf[0], buf[1], buf[2], buf[3]]);
    assert_eq!(word & (1 << 31), 0);
    assert_eq!(word, 0x0000_0005);
}

#[test]
fn childless_container_header_flag_set() {
    let container = Chunk { id: 0x0001, data: vec![], sub_chunks: vec![] };
    assert_eq!(container.header(), 0x8000_0001);
    let buf = container.to_buffer().unwrap();
    assert_eq!(buf, le32(0x8000_0001));
}

#[test]
fn header_word_values() {
    let leaf = Chunk::from_string(0x0007, "hi".to_string());
    assert_eq!(leaf.header(), 0x0007 | (2 << 16) | (1 << 31));
    let container = Chunk { id: 0x1234, data: vec![], sub_chunks: vec![leaf] };
    assert_eq!(container.header(), 0x0000_1234);
}

#[test]
fn string_payload_is_raw_bytes() {
    let buf = Chunk::from_string(0x0007, "hi".to_string()).to_buffer().unwrap();
    let mut expected = le32(0x0007 | (2 << 16) | (1 << 31));
    expected.extend_from_slice(b"hi");
    assert_eq!(buf, expected);
}

#[test]
fn u64_payload_little_endian() {
    let buf = Chunk::from_u64(0x0003, 0x0102_0304_0506_0708).to_buffer().unwrap();
    assert_eq!(&buf[4..], &[0x08, 0x07, 0x06, 0x05, 0x04, 0x03, 0x02, 0x01]);
}

#[test]
fn u64_payload_round_trip() {
    let value: u64 = 0xDEAD_BEEF_0123_4567;
    let buf = Chunk::from_u64(0x0006, value).to_buffer().unwrap();
    let payload: [u8; 8] = buf[4..12].try_into().unwrap();
    assert_eq!(u64::from_le_bytes(payload), value);
}

#[test]
fn float_payload_round_trip_bit_exact() {
    // The library carries each float as its IEEE-754 bit pattern; decoding
    // the little-endian payload must reproduce the float bit-exactly.
    for &value in &[1.5f32, -0.0f32, f32::MIN_POSITIVE, 3.141_592_7f32] {
        let bits = value.to_bits();
        let chunk = Chunk { id: 0x0000, data: bits.to_le_bytes().to_vec(), sub_chunks: vec![] };
        let out = chunk.to_buffer().unwrap();
        let payload: [u8; 4] = out[4..8].try_into().unwrap();
        let decoded = f32::from_bits(u32::from_le_bytes(payload));
        assert_eq!(decoded.to_bits(), value.to_bits());
    }
}

#[test]
fn flatten_is_length_additive() {
    let leaf_a = Chunk::from_string(0x0001, "abc".to_string());
    let leaf_b = Chunk::from_u64(0x0002, 99);
    let container = Chunk { id: 0x0003, data: vec![], sub_chunks: vec![leaf_a, leaf_b] };
    let buf = container.to_buffer().unwrap();
    // 4 (container header) + (4 + 3) + (4 + 8)
    assert_eq!(buf.len(), 4 + 7 + 12);
}

#[test]
fn children_keep_list_order() {
    // Children appear in the supplied order, never reordered by id.
    let first = Chunk::from_string(0x0002, "first".to_string());
    let second = Chunk::from_string(0x0001, "second".to_string());
    let container = Chunk { id: 0x0009, data: vec![], sub_chunks: vec![first, second] };
    let buf = container.to_buffer().unwrap();
    let mut expected = le32(0x0000_0009);
    expected.extend_from_slice(&le32(0x0002 | (5 << 16) | (1 << 31)));
    expected.extend_from_slice(b"first");
    expected.extend_from_slice(&le32(0x0001 | (6 << 16) | (1 << 31)));
    expected.extend_from_slice(b"second");
    assert_eq!(buf, expected);
}

#[test]
fn payload_of_32767_bytes_encodes() {
    let name = "a".repeat(32767);
    let buf = Chunk::from_string(0x0001, name).to_buffer().unwrap();
    assert_eq!(buf.len(), 4 + 32767);
    let word = u32::from_le_bytes([buf[0], buf[1], buf[2], buf[3]]);
    assert_eq!(word, 0x0001 | (32767 << 16) | (1 << 31));
}

#[test]
fn payload_of_32768_bytes_is_rejected() {
    let name = "a".repeat(32768);
    let result = Chunk::from_string(0x0001, name).to_buffer();
    assert_eq!(result, Err(EncodeError::PayloadTooLarge));
}

#[test]
fn oversized_payload_deep_in_tree_is_rejected() {
    let leaf = Chunk { id: 0x0004, data: vec![0u8; 40000], sub_chunks: vec![] };
    let container = Chunk { id: 0x0005, data: vec![], sub_chunks: vec![leaf] };
    assert_eq!(container.to_buffer(), Err(EncodeError::PayloadTooLarge));
}
