use envoy_filters::display::decoded_fields_text;
use envoy_filters::proto_decode::{decode_raw, read_le_u32, read_le_u64, read_varint, RawValue};
use envoy_filters::proto_encode::{
    encode_bytes_field, encode_fixed32_field, encode_fixed64_field, encode_varint_field,
};

#[test]
fn test_varint_decode() {
    // 150 encoded as varint: 0x96 0x01
    let (val, len) = read_varint(&[0x96, 0x01]).unwrap();
    assert_eq!(val, 150);
    assert_eq!(len, 2);
}

#[test]
fn test_decode_simple_message() {
    // field 1, varint, value 150
    let data = [0x08, 0x96, 0x01];
    let fields = decode_raw(&data);
    assert_eq!(fields.len(), 1);
    assert_eq!(fields[0].field_number, 1);
    match &fields[0].value {
        RawValue::Varint(v) => assert_eq!(*v, 150),
        _ => panic!("expected varint"),
    }
}

#[test]
fn test_decode_string_field() {
    // field 2, length-delimited, "testing"
    let data = [0x12, 0x07, 0x74, 0x65, 0x73, 0x74, 0x69, 0x6e, 0x67];
    let fields = decode_raw(&data);
    assert_eq!(fields.len(), 1);
    assert_eq!(fields[0].field_number, 2);
    match &fields[0].value {
        RawValue::LengthDelimited(v) => assert_eq!(v, b"testing"),
        _ => panic!("expected length-delimited"),
    }
}

#[test]
fn test_decode_multiple_fields() {
    // field 1 = varint(1), field 2 = string("hi")
    let data = [0x08, 0x01, 0x12, 0x02, 0x68, 0x69];
    let fields = decode_raw(&data);
    assert_eq!(fields.len(), 2);
    assert_eq!(fields[0].field_number, 1);
    assert_eq!(fields[1].field_number, 2);
}

#[test]
fn varint_reader_rejects_unterminated_and_overlong_input() {
    assert_eq!(read_varint(&[]), None);
    assert_eq!(read_varint(&[0x80, 0x80]), None);
    assert_eq!(read_varint(&[0xff; 11]), None);
    assert_eq!(read_varint(&[0x01, 0xff]), Some((1, 1)));
}

#[test]
fn little_endian_readers() {
    assert_eq!(read_le_u32(&[1, 2, 3, 4]), 0x0403_0201);
    assert_eq!(read_le_u64(&[1, 0, 0, 0, 0, 0, 0, 0x80]), 0x8000_0000_0000_0001);
}

#[test]
fn decode_reads_fixed_width_fields() {
    let mut data = encode_fixed32_field(3, 42);
    data.extend(encode_fixed64_field(4, 12345));
    let fields = decode_raw(&data);
    assert_eq!(fields.len(), 2);
    assert!(matches!(fields[0].value, RawValue::Fixed32(42)));
    assert!(matches!(fields[1].value, RawValue::Fixed64(12345)));
}

#[test]
fn decode_stops_at_field_number_zero() {
    let data = [0x08, 0x01, 0x00, 0x01, 0x10, 0x02];
    let fields = decode_raw(&data);
    assert_eq!(fields.len(), 1);
}

#[test]
fn decode_stops_at_unknown_wire_type() {
    // field 1 varint, then field 2 with wire type 3 (group start)
    let data = [0x08, 0x05, 0x13, 0x00];
    let fields = decode_raw(&data);
    assert_eq!(fields.len(), 1);
    assert!(matches!(fields[0].value, RawValue::Varint(5)));
}

#[test]
fn decode_stops_at_truncated_length_delimited_field() {
    let mut data = encode_varint_field(1, 7);
    data.extend_from_slice(&[0x12, 0x05, b'a', b'b']);
    let fields = decode_raw(&data);
    assert_eq!(fields.len(), 1);
}

#[test]
fn decode_of_encoded_fields_gives_them_back() {
    let mut data = encode_varint_field(1, 300);
    data.extend(encode_bytes_field(2, b"abc"));
    data.extend(encode_fixed32_field(3, 7));
    let fields = decode_raw(&data);
    assert_eq!(fields.len(), 3);
    assert!(matches!(fields[0].value, RawValue::Varint(300)));
    match &fields[1].value {
        RawValue::LengthDelimited(v) => assert_eq!(v, b"abc"),
        _ => panic!("expected bytes"),
    }
    assert!(matches!(fields[2].value, RawValue::Fixed32(7)));
}

#[test]
fn debug_text_of_scalar_values() {
    assert_eq!(RawValue::Varint(150).debug_text(), "varint(150)");
    assert_eq!(RawValue::Fixed64(9).debug_text(), "fixed64(9)");
    assert_eq!(RawValue::Fixed32(0).debug_text(), "fixed32(0)");
}

#[test]
fn debug_text_of_text_bytes_is_quoted_string() {
    let v = RawValue::LengthDelimited(b"say \"hi\"\n".to_vec());
    assert_eq!(v.debug_text(), "string(\"say \\\"hi\\\"\\n\")");
}

#[test]
fn debug_text_of_binary_bytes() {
    let v = RawValue::LengthDelimited(vec![0xff, 0xfe, 0x00]);
    assert_eq!(v.debug_text(), "bytes(3 bytes: [ff, fe, 00])");
}

#[test]
fn debug_text_of_nested_message() {
    // bytes that are not text but decode as a message: field 1 = varint 0x96 0x01
    let v = RawValue::LengthDelimited(vec![0x08, 0x96, 0x01]);
    assert_eq!(
        v.debug_text(),
        "message([RawField { field_number: 1, value: varint(150) }])"
    );
}

#[test]
fn debug_text_of_long_binary_bytes_shows_first_32() {
    let bytes: Vec<u8> = (0..40u8).map(|b| b | 0x80).collect();
    let text = RawValue::LengthDelimited(bytes).debug_text();
    assert!(text.starts_with("bytes(40 bytes: [80, 81, "));
    assert!(text.ends_with("9e, 9f])"));
}

#[test]
fn decoded_fields_text_lists_fields() {
    let data = [0x08, 0x01, 0x12, 0x02, 0x68, 0x69];
    assert_eq!(
        decoded_fields_text(&data),
        "[RawField { field_number: 1, value: varint(1) }, RawField { field_number: 2, value: string(\"hi\") }]"
    );
    assert_eq!(decoded_fields_text(&[]), "[]");
}

#[test]
fn string_rendering_wraps_the_quoted_text() {
    let mut out = String::from("x=");
    envoy_filters::display::push_string_debug(&mut out, "\"a\\tb\"");
    assert_eq!(out, "x=string(\"a\\tb\")");
}

#[test]
fn decoding_keeps_fields_before_a_bad_tag_and_nothing_after() {
    let mut data = encode_varint_field(1, 5);
    data.extend(encode_bytes_field(2, b"ok"));
    data.push(0x1E); // field 3, wire type 6
    data.extend(encode_varint_field(4, 9));
    let fields = decode_raw(&data);
    assert_eq!(fields.len(), 2);
    assert_eq!(fields[0].field_number, 1);
    assert_eq!(fields[1].field_number, 2);
}
