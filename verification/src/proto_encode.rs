//! Encoding of protobuf wire-format primitives: varints, tags and fields.

use vstd::prelude::*;

verus! {

/// Powers of 128, the weight of the `i`-th seven-bit group of a varint.
pub open spec fn pow128(i: nat) -> nat
    decreases i,
{
    if i == 0 {
        1
    } else {
        128 * pow128((i - 1) as nat)
    }
}

/// The base-128 varint encoding of `v`: little-endian groups of seven bits,
/// every byte but the last with its high bit set.
pub open spec fn spec_varint(v: nat) -> Seq<u8>
    decreases v,
{
    if v < 128 {
        seq![v as u8]
    } else {
        seq![(v % 128 + 128) as u8] + spec_varint(v / 128)
    }
}

/// The tag of a field: the field number shifted left by three bits, or-ed
/// with the wire type.
pub open spec fn spec_tag(field_number: u32, wire_type: u8) -> u64 {
    ((field_number as u64) << 3u64) | (wire_type as u64)
}

/// Little-endian bytes of a 32-bit value.
pub open spec fn le_bytes32(v: u32) -> Seq<u8> {
    seq![(v & 0xff) as u8, ((v >> 8u32) & 0xff) as u8, ((v >> 16u32) & 0xff) as u8, ((v >> 24u32) & 0xff) as u8]
}

/// Little-endian bytes of a 64-bit value.
pub open spec fn le_bytes64(v: u64) -> Seq<u8> {
    seq![
        (v & 0xff) as u8,
        ((v >> 8u64) & 0xff) as u8,
        ((v >> 16u64) & 0xff) as u8,
        ((v >> 24u64) & 0xff) as u8,
        ((v >> 32u64) & 0xff) as u8,
        ((v >> 40u64) & 0xff) as u8,
        ((v >> 48u64) & 0xff) as u8,
        ((v >> 56u64) & 0xff) as u8,
    ]
}

pub open spec fn spec_varint_field(field_number: u32, value: u64) -> Seq<u8> {
    spec_varint(spec_tag(field_number, 0) as nat) + spec_varint(value as nat)
}

pub open spec fn spec_bytes_field(field_number: u32, data: Seq<u8>) -> Seq<u8> {
    spec_varint(spec_tag(field_number, 2) as nat) + spec_varint(data.len()) + data
}

pub open spec fn spec_fixed32_field(field_number: u32, value: u32) -> Seq<u8> {
    spec_varint(spec_tag(field_number, 5) as nat) + le_bytes32(value)
}

pub open spec fn spec_fixed64_field(field_number: u32, value: u64) -> Seq<u8> {
    spec_varint(spec_tag(field_number, 1) as nat) + le_bytes64(value)
}

/// A varint of a value below `128^k` takes at most `k` bytes.
pub proof fn lemma_varint_len_bound(v: nat, k: nat)
    requires
        v < pow128(k),
        k >= 1,
    ensures
        1 <= spec_varint(v).len() <= k,
    decreases v,
{
    if v >= 128 {
        if k == 1 {
            assert(pow128(1) == 128 * pow128(0));
        } else {
            assert(v / 128 < pow128((k - 1) as nat));
            lemma_varint_len_bound(v / 128, (k - 1) as nat);
        }
    }
}

/// Every varint of a 64-bit value fits in ten bytes.
pub proof fn lemma_varint_len_u64(v: u64)
    ensures
        1 <= spec_varint(v as nat).len() <= 10,
{
    reveal_with_fuel(pow128, 11);
    assert(pow128(10) == 0x40_0000_0000_0000_0000_nat);
    lemma_varint_len_bound(v as nat, 10);
}

/// For a wire type below 8 the tag is the field number times 8 plus the wire type.
pub proof fn lemma_tag_value(field_number: u32, wire_type: u8)
    requires
        wire_type < 8,
    ensures
        spec_tag(field_number, wire_type) == field_number * 8 + wire_type,
        spec_tag(field_number, wire_type) / 8 == field_number,
        spec_tag(field_number, wire_type) % 8 == wire_type,
{
    let f = field_number as u64;
    let w = wire_type as u64;
    assert((f << 3u64) | w == f * 8 + w) by (bit_vector)
        requires
            f < 0x1_0000_0000,
            w < 8,
    ;
}

/// Encode a varint value.
pub fn encode_varint(value: u64) -> (buf: Vec<u8>)
    ensures
        buf@ == spec_varint(value as nat),
{
    let mut buf: Vec<u8> = Vec::new();
    let mut v: u64 = value;
    loop
        invariant_except_break
            buf@ + spec_varint(v as nat) == spec_varint(value as nat),
        ensures
            buf@ == spec_varint(value as nat),
        decreases v,
    {
        let low: u8 = (v & 0x7F) as u8;
        let rest: u64 = v >> 7;
        assert(low as int == v % 128 && rest as int == v / 128) by (bit_vector)
            requires
                low == (v & 0x7F) as u8,
                rest == v >> 7,
        ;
        let ghost old_buf = buf@;
        if rest != 0 {
            let byte: u8 = low | 0x80;
            assert(byte == low + 128) by (bit_vector)
                requires
                    byte == low | 0x80,
                    low < 128,
            ;
            buf.push(byte);
            assert(buf@ + spec_varint(rest as nat) == old_buf + spec_varint(v as nat));
            v = rest;
        } else {
            buf.push(low);
            assert(buf@ == old_buf + spec_varint(v as nat));
            break;
        }
    }
    buf
}

/// Encode a protobuf tag (field_number << 3 | wire_type).
pub fn encode_tag(field_number: u32, wire_type: u8) -> (buf: Vec<u8>)
    ensures
        buf@ == spec_varint(spec_tag(field_number, wire_type) as nat),
{
    encode_varint(((field_number as u64) << 3) | (wire_type as u64))
}

/// Little-endian bytes of a 32-bit value.
pub fn u32_le_bytes(v: u32) -> (r: Vec<u8>)
    ensures
        r@ == le_bytes32(v),
{
    let mut r: Vec<u8> = Vec::new();
    r.push((v & 0xff) as u8);
    r.push(((v >> 8) & 0xff) as u8);
    r.push(((v >> 16) & 0xff) as u8);
    r.push(((v >> 24) & 0xff) as u8);
    r
}

/// Little-endian bytes of a 64-bit value.
pub fn u64_le_bytes(v: u64) -> (r: Vec<u8>)
    ensures
        r@ == le_bytes64(v),
{
    let mut r: Vec<u8> = Vec::new();
    r.push((v & 0xff) as u8);
    r.push(((v >> 8) & 0xff) as u8);
    r.push(((v >> 16) & 0xff) as u8);
    r.push(((v >> 24) & 0xff) as u8);
    r.push(((v >> 32) & 0xff) as u8);
    r.push(((v >> 40) & 0xff) as u8);
    r.push(((v >> 48) & 0xff) as u8);
    r.push(((v >> 56) & 0xff) as u8);
    r
}

/// Encode a varint field (wire type 0).
pub fn encode_varint_field(field_number: u32, value: u64) -> (buf: Vec<u8>)
    ensures
        buf@ == spec_varint_field(field_number, value),
{
    let mut buf = encode_tag(field_number, 0);
    let mut v = encode_varint(value);
    buf.append(&mut v);
    buf
}

/// Encode a length-delimited field (wire type 2) for strings, bytes, embedded messages.
pub fn encode_bytes_field(field_number: u32, data: &[u8]) -> (buf: Vec<u8>)
    ensures
        buf@ == spec_bytes_field(field_number, data@),
{
    let mut buf = encode_tag(field_number, 2);
    let mut len = encode_varint(data.len() as u64);
    buf.append(&mut len);
    let mut body = vstd::slice::slice_to_vec(data);
    buf.append(&mut body);
    buf
}

/// Encode a fixed32 field (wire type 5).
pub fn encode_fixed32_field(field_number: u32, value: u32) -> (buf: Vec<u8>)
    ensures
        buf@ == spec_fixed32_field(field_number, value),
{
    let mut buf = encode_tag(field_number, 5);
    let mut bytes = u32_le_bytes(value);
    buf.append(&mut bytes);
    buf
}

/// Encode a fixed64 field (wire type 1).
pub fn encode_fixed64_field(field_number: u32, value: u64) -> (buf: Vec<u8>)
    ensures
        buf@ == spec_fixed64_field(field_number, value),
{
    let mut buf = encode_tag(field_number, 1);
    let mut bytes = u64_le_bytes(value);
    buf.append(&mut bytes);
    buf
}

} // verus!
