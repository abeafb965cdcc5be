use envoy_filters::proto_decode::read_varint;
use envoy_filters::proto_encode::{
    encode_bytes_field, encode_fixed32_field, encode_fixed64_field, encode_tag, encode_varint,
    encode_varint_field, u32_le_bytes, u64_le_bytes,
};

#[test]
fn test_encode_varint_small() {
    assert_eq!(encode_varint(0), vec![0x00]);
    assert_eq!(encode_varint(1), vec![0x01]);
    assert_eq!(encode_varint(127), vec![0x7F]);
}

#[test]
fn test_encode_varint_150() {
    assert_eq!(encode_varint(150), vec![0x96, 0x01]);
}

#[test]
fn test_encode_varint_field() {
    // field 1, varint, value 150 -> tag(0x08) + varint(150)
    let encoded = encode_varint_field(1, 150);
    assert_eq!(encoded, vec![0x08, 0x96, 0x01]);
}

#[test]
fn test_encode_bytes_field() {
    // field 2, string "testing"
    let encoded = encode_bytes_field(2, b"testing");
    assert_eq!(
        encoded,
        vec![0x12, 0x07, 0x74, 0x65, 0x73, 0x74, 0x69, 0x6e, 0x67]
    );
}

#[test]
fn test_roundtrip_varint() {
    for &val in &[0u64, 1, 127, 128, 150, 300, 16384, u64::MAX] {
        let encoded = encode_varint(val);
        let (decoded, _) = read_varint(&encoded).unwrap();
        assert_eq!(decoded, val, "roundtrip failed for {}", val);
    }
}

#[test]
fn test_encode_fixed32_field() {
    let encoded = encode_fixed32_field(3, 42);
    // tag for field 3, wire type 5 = (3 << 3) | 5 = 29 = 0x1D
    assert_eq!(encoded[0], 0x1D);
    assert_eq!(&encoded[1..], &42u32.to_le_bytes());
}

#[test]
fn test_encode_fixed64_field() {
    let encoded = encode_fixed64_field(4, 12345);
    // tag for field 4, wire type 1 = (4 << 3) | 1 = 33 = 0x21
    assert_eq!(encoded[0], 0x21);
    assert_eq!(&encoded[1..], &12345u64.to_le_bytes());
}

#[test]
fn varint_of_max_value_takes_ten_bytes() {
    let encoded = encode_varint(u64::MAX);
    assert_eq!(encoded.len(), 10);
    assert_eq!(encoded[9], 0x01);
    assert!(encoded[..9].iter().all(|b| *b == 0xff));
}

#[test]
fn varint_of_300_and_16384() {
    assert_eq!(encode_varint(300), vec![0xAC, 0x02]);
    assert_eq!(encode_varint(16384), vec![0x80, 0x80, 0x01]);
}

#[test]
fn tag_of_large_field_number_is_a_multi_byte_varint() {
    // field 16, wire type 2 -> (16 << 3) | 2 = 130
    assert_eq!(encode_tag(16, 2), vec![0x82, 0x01]);
    assert_eq!(encode_tag(1, 0), vec![0x08]);
}

#[test]
fn little_endian_byte_helpers() {
    assert_eq!(u32_le_bytes(0x0102_0304), vec![4, 3, 2, 1]);
    assert_eq!(u64_le_bytes(0x0102_0304_0506_0708), vec![8, 7, 6, 5, 4, 3, 2, 1]);
}

#[test]
fn empty_bytes_field_has_zero_length() {
    assert_eq!(encode_bytes_field(1, b""), vec![0x0A, 0x00]);
}
