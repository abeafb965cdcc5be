//! Schema-less decoding of protobuf messages into field number / raw value pairs.

use vstd::prelude::*;
use crate::proto_encode::{
    le_bytes32, le_bytes64, lemma_tag_value, lemma_varint_len_u64, pow128, spec_bytes_field,
    spec_fixed32_field, spec_fixed64_field, spec_tag, spec_varint, spec_varint_field,
};

verus! {

/// Possible wire type values from a protobuf message.
#[derive(Clone)]
pub enum RawValue {
    /// Wire type 0: varint (int32, int64, uint32, uint64, sint32, sint64, bool, enum)
    Varint(u64),
    /// Wire type 1: 64-bit (fixed64, sfixed64, double)
    Fixed64(u64),
    /// Wire type 2: length-delimited (string, bytes, embedded messages, packed repeated)
    LengthDelimited(Vec<u8>),
    /// Wire type 5: 32-bit (fixed32, sfixed32, float)
    Fixed32(u32),
}

/// A raw protobuf field decoded without a schema.
#[derive(Clone)]
pub struct RawField {
    pub field_number: u32,
    pub value: RawValue,
}

/// The mathematical content of a [`RawValue`].
pub enum SpecRawValue {
    Varint(u64),
    Fixed64(u64),
    LengthDelimited(Seq<u8>),
    Fixed32(u32),
}

/// The mathematical content of a [`RawField`].
pub struct SpecRawField {
    pub field_number: u32,
    pub value: SpecRawValue,
}

impl View for RawValue {
    type V = SpecRawValue;

    open spec fn view(&self) -> SpecRawValue {
        match self {
            RawValue::Varint(v) => SpecRawValue::Varint(*v),
            RawValue::Fixed64(v) => SpecRawValue::Fixed64(*v),
            RawValue::LengthDelimited(b) => SpecRawValue::LengthDelimited(b@),
            RawValue::Fixed32(v) => SpecRawValue::Fixed32(*v),
        }
    }
}

impl View for RawField {
    type V = SpecRawField;

    open spec fn view(&self) -> SpecRawField {
        SpecRawField { field_number: self.field_number, value: self.value@ }
    }
}

impl DeepView for RawField {
    type V = SpecRawField;

    open spec fn deep_view(&self) -> SpecRawField {
        self@
    }
}

/// The wire type number under which a value is encoded.
pub open spec fn spec_wire_type(v: SpecRawValue) -> u64 {
    match v {
        SpecRawValue::Varint(_) => 0,
        SpecRawValue::Fixed64(_) => 1,
        SpecRawValue::LengthDelimited(_) => 2,
        SpecRawValue::Fixed32(_) => 5,
    }
}

// ---------------------------------------------------------------------------
// Specification of the wire format
// ---------------------------------------------------------------------------

/// The payload bits of a varint byte.
pub open spec fn low7(b: u8) -> nat {
    (b % 128) as nat
}

/// The value that a run of varint bytes denotes, before any truncation.
pub open spec fn varint_sum(s: Seq<u8>) -> nat
    decreases s.len(),
{
    if s.len() == 0 {
        0
    } else {
        low7(s[0]) + 128 * varint_sum(s.drop_first())
    }
}

/// Where the varint that starts `s` ends, looking from index `i`: one past the
/// first byte without the continuation bit, if that byte is among the first ten.
pub open spec fn varint_end(s: Seq<u8>, i: nat) -> Option<nat>
    decreases s.len() - i,
{
    if i >= s.len() || i >= 10 {
        None
    } else if s[i as int] < 128 {
        Some(i + 1)
    } else {
        varint_end(s, i + 1)
    }
}

/// The varint at the start of `s` and the number of bytes it takes; the value
/// keeps the low 64 bits.
pub open spec fn spec_read_varint(s: Seq<u8>) -> Option<(u64, nat)> {
    match varint_end(s, 0) {
        Some(n) => Some(((varint_sum(s.take(n as int)) % 0x1_0000_0000_0000_0000) as u64, n)),
        None => None,
    }
}

/// A little-endian 32-bit value from four bytes.
pub open spec fn spec_le_u32(s: Seq<u8>) -> u32 {
    (s[0] as u32) | ((s[1] as u32) << 8u32) | ((s[2] as u32) << 16u32) | ((s[3] as u32) << 24u32)
}

/// A little-endian 64-bit value from eight bytes.
pub open spec fn spec_le_u64(s: Seq<u8>) -> u64 {
    (s[0] as u64) | ((s[1] as u64) << 8u64) | ((s[2] as u64) << 16u64) | ((s[3] as u64) << 24u64)
        | ((s[4] as u64) << 32u64) | ((s[5] as u64) << 40u64) | ((s[6] as u64) << 48u64) | ((
    s[7] as u64) << 56u64)
}

/// The field number that a tag carries: bits 3 and up, cut to 32 bits.
pub open spec fn tag_field_number(tag: u64) -> u32 {
    ((tag / 8) % 0x1_0000_0000) as u32
}

/// The field at the start of `s` and the number of bytes it takes, or `None`
/// where decoding stops: a bad tag, field number 0, an unknown wire type, or
/// a value that runs past the end.
pub open spec fn spec_parse_field(s: Seq<u8>) -> Option<(SpecRawField, nat)> {
    match spec_read_varint(s) {
        None => None,
        Some((tag, tl)) => {
            let field_number = tag_field_number(tag);
            let wire_type = tag % 8;
            let rest = s.skip(tl as int);
            if field_number == 0 {
                None
            } else if wire_type == 0 {
                match spec_read_varint(rest) {
                    Some((v, vl)) => Some(
                        (
                            SpecRawField { field_number, value: SpecRawValue::Varint(v) },
                            tl + vl,
                        ),
                    ),
                    None => None,
                }
            } else if wire_type == 1 {
                if rest.len() >= 8 {
                    Some(
                        (
                            SpecRawField {
                                field_number,
                                value: SpecRawValue::Fixed64(spec_le_u64(rest)),
                            },
                            tl + 8,
                        ),
                    )
                } else {
                    None
                }
            } else if wire_type == 2 {
                match spec_read_varint(rest) {
                    Some((len, ll)) => {
                        if len <= rest.len() - ll {
                            Some(
                                (
                                    SpecRawField {
                                        field_number,
                                        value: SpecRawValue::LengthDelimited(
                                            rest.subrange(ll as int, ll + len),
                                        ),
                                    },
                                    (tl + ll + len) as nat,
                                ),
                            )
                        } else {
                            None
                        }
                    },
                    None => None,
                }
            } else if wire_type == 5 {
                if rest.len() >= 4 {
                    Some(
                        (
                            SpecRawField {
                                field_number,
                                value: SpecRawValue::Fixed32(spec_le_u32(rest)),
                            },
                            tl + 4,
                        ),
                    )
                } else {
                    None
                }
            } else {
                None
            }
        },
    }
}

/// The fields of a message, in order, up to the first place where decoding stops.
pub open spec fn spec_decode_raw(s: Seq<u8>) -> Seq<SpecRawField>
    decreases s.len(),
{
    if s.len() == 0 {
        seq![]
    } else {
        match spec_parse_field(s) {
            Some((f, n)) => {
                proof {
                    lemma_parse_field_len(s);
                }
                seq![f] + spec_decode_raw(s.skip(n as int))
            },
            None => seq![],
        }
    }
}

/// The wire bytes of one field.
pub open spec fn spec_encode_field(f: SpecRawField) -> Seq<u8> {
    match f.value {
        SpecRawValue::Varint(v) => spec_varint_field(f.field_number, v),
        SpecRawValue::Fixed64(v) => spec_fixed64_field(f.field_number, v),
        SpecRawValue::LengthDelimited(d) => spec_bytes_field(f.field_number, d),
        SpecRawValue::Fixed32(v) => spec_fixed32_field(f.field_number, v),
    }
}

/// The wire bytes of a list of fields, one after the other.
pub open spec fn spec_encode_fields(fs: Seq<SpecRawField>) -> Seq<u8>
    decreases fs.len(),
{
    if fs.len() == 0 {
        seq![]
    } else {
        spec_encode_fields(fs.drop_last()) + spec_encode_field(fs.last())
    }
}

/// A field that the decoder gives back as it was encoded: its number is not 0
/// and a length-delimited value has a length that a varint of 64 bits holds.
pub open spec fn field_roundtrips(f: SpecRawField) -> bool {
    &&& f.field_number != 0
    &&& (f.value matches SpecRawValue::LengthDelimited(d) ==> d.len() <= u64::MAX)
}

// ---------------------------------------------------------------------------
// Lemmas about the wire format
// ---------------------------------------------------------------------------

pub proof fn lemma_varint_end_bounds(s: Seq<u8>, i: nat)
    ensures
        varint_end(s, i) matches Some(n) ==> i < n <= s.len() && n <= 10,
    decreases s.len() - i,
{
    if !(i >= s.len() || i >= 10) && s[i as int] >= 128 {
        lemma_varint_end_bounds(s, i + 1);
    }
}

/// A varint takes at least one byte and no more than there are.
pub proof fn lemma_read_varint_len(s: Seq<u8>)
    ensures
        spec_read_varint(s) matches Some((v, n)) ==> 1 <= n <= s.len() && n <= 10,
{
    lemma_varint_end_bounds(s, 0);
}

/// A parsed field takes at least one byte and no more than there are.
pub proof fn lemma_parse_field_len(s: Seq<u8>)
    ensures
        spec_parse_field(s) matches Some((f, n)) ==> 1 <= n <= s.len(),
{
    lemma_read_varint_len(s);
    if let Some((tag, tl)) = spec_read_varint(s) {
        lemma_read_varint_len(s.skip(tl as int));
    }
}

/// The varint ends right after index `i` when all bytes before it carry the
/// continuation bit and it does not.
pub proof fn lemma_varint_end_at(s: Seq<u8>, k: nat, i: nat)
    requires
        k <= i,
        i < s.len(),
        i < 10,
        s[i as int] < 128,
        forall|j: int| k <= j < i ==> s[j] >= 128,
    ensures
        varint_end(s, k) == Some(i + 1),
    decreases i - k,
{
    if k < i {
        lemma_varint_end_at(s, k + 1, i);
    }
}

/// Without a terminating byte among the first `i` ones, where `i` reaches the
/// end or ten, there is no varint.
pub proof fn lemma_varint_end_none(s: Seq<u8>, k: nat, i: nat)
    requires
        k <= i,
        i >= s.len() || i >= 10,
        forall|j: int| k <= j < i && j < s.len() ==> s[j] >= 128,
    ensures
        varint_end(s, k) is None,
    decreases i - k,
{
    if k < i && k < s.len() && k < 10 {
        lemma_varint_end_none(s, k + 1, i);
    }
}

/// The value of one more byte: its payload times the weight of its position.
pub proof fn lemma_varint_sum_snoc(s: Seq<u8>, i: nat)
    requires
        i < s.len(),
    ensures
        varint_sum(s.take(i + 1 as int)) == varint_sum(s.take(i as int)) + low7(s[i as int]) * pow128(i),
    decreases i,
{
    if i == 0 {
        assert(s.take(1).drop_first() =~= seq![]);
        assert(s.take(0) =~= seq![]);
        assert(varint_sum(s.take(1).drop_first()) == 0);
        assert(varint_sum(s.take(0)) == 0);
        assert(s.take(1)[0] == s[0]);
        assert(pow128(0) == 1);
    } else {
        let t = s.drop_first();
        lemma_varint_sum_snoc(t, (i - 1) as nat);
        assert(s.take(i + 1 as int).drop_first() =~= t.take(i as int));
        assert(s.take(i as int).drop_first() =~= t.take(i - 1));
        assert(t[i - 1] == s[i as int]);
        let a = varint_sum(t.take(i - 1));
        let b = low7(s[i as int]);
        let p = pow128((i - 1) as nat);
        assert(s.take(i + 1 as int)[0] == s[0]);
        assert(s.take(i as int)[0] == s[0]);
        assert(pow128(i) == 128 * p);
        assert(128 * (a + b * p) == 128 * a + b * (128 * p)) by (nonlinear_arith);
    }
}

/// The shape of an encoded varint: continuation bits on all bytes but the last,
/// and the bytes denote the value.
pub proof fn lemma_varint_shape(x: nat)
    ensures
        spec_varint(x).len() >= 1,
        forall|j: int| 0 <= j < spec_varint(x).len() - 1 ==> spec_varint(x)[j] >= 128,
        spec_varint(x).last() < 128,
        varint_sum(spec_varint(x)) == x,
    decreases x,
{
    let s = spec_varint(x);
    if x < 128 {
        assert(s.drop_first() =~= seq![]);
        assert(varint_sum(s.drop_first()) == 0);
        assert(s[0] == x);
    } else {
        lemma_varint_shape(x / 128);
        assert(s.drop_first() =~= spec_varint(x / 128));
        assert(s[0] == x % 128 + 128);
        assert(low7(s[0]) == x % 128);
        assert(x == x % 128 + 128 * (x / 128));
    }
}

/// Reading back an encoded varint, whatever follows it, gives the value and
/// the length of its encoding.
pub proof fn lemma_read_varint_roundtrip(v: u64, rest: Seq<u8>)
    ensures
        spec_read_varint(spec_varint(v as nat) + rest) == Some((v, spec_varint(v as nat).len())),
{
    let s = spec_varint(v as nat);
    let t = s + rest;
    lemma_varint_shape(v as nat);
    lemma_varint_len_u64(v);
    let n = s.len();
    assert(t[n - 1] == s.last());
    assert forall|j: int| 0 <= j < n - 1 implies t[j] >= 128 by {
        assert(t[j] == s[j]);
    }
    lemma_varint_end_at(t, 0, (n - 1) as nat);
    assert(t.take(n as int) =~= s);
}

/// The little-endian bytes of a value read back as that value.
pub proof fn lemma_le64_roundtrip(v: u64, rest: Seq<u8>)
    ensures
        spec_le_u64(le_bytes64(v) + rest) == v,
{
    let s = le_bytes64(v) + rest;
    let b0 = s[0];
    let b1 = s[1];
    let b2 = s[2];
    let b3 = s[3];
    let b4 = s[4];
    let b5 = s[5];
    let b6 = s[6];
    let b7 = s[7];
    assert(b0 == (v & 0xff) as u8);
    assert(b7 == ((v >> 56u64) & 0xff) as u8);
    assert((b0 as u64) | ((b1 as u64) << 8u64) | ((b2 as u64) << 16u64) | ((b3 as u64) << 24u64)
        | ((b4 as u64) << 32u64) | ((b5 as u64) << 40u64) | ((b6 as u64) << 48u64) | ((
    b7 as u64) << 56u64) == v) by (bit_vector)
        requires
            b0 == (v & 0xff) as u8,
            b1 == ((v >> 8u64) & 0xff) as u8,
            b2 == ((v >> 16u64) & 0xff) as u8,
            b3 == ((v >> 24u64) & 0xff) as u8,
            b4 == ((v >> 32u64) & 0xff) as u8,
            b5 == ((v >> 40u64) & 0xff) as u8,
            b6 == ((v >> 48u64) & 0xff) as u8,
            b7 == ((v >> 56u64) & 0xff) as u8,
    ;
}

/// The little-endian bytes of a value read back as that value.
pub proof fn lemma_le32_roundtrip(v: u32, rest: Seq<u8>)
    ensures
        spec_le_u32(le_bytes32(v) + rest) == v,
{
    let s = le_bytes32(v) + rest;
    let b0 = s[0];
    let b1 = s[1];
    let b2 = s[2];
    let b3 = s[3];
    assert((b0 as u32) | ((b1 as u32) << 8u32) | ((b2 as u32) << 16u32) | ((b3 as u32) << 24u32)
        == v) by (bit_vector)
        requires
            b0 == (v & 0xff) as u8,
            b1 == ((v >> 8u32) & 0xff) as u8,
            b2 == ((v >> 16u32) & 0xff) as u8,
            b3 == ((v >> 24u32) & 0xff) as u8,
    ;
}

/// The tag of an encoded field reads back, and after it comes the encoded value.
proof fn lemma_parse_field_tag(f: SpecRawField, rest: Seq<u8>) -> (tl: nat)
    requires
        field_roundtrips(f),
    ensures
        spec_read_varint(spec_encode_field(f) + rest) == Some(
            (spec_tag(f.field_number, spec_wire_type(f.value) as u8), tl),
        ),
        tl == spec_varint(spec_tag(f.field_number, spec_wire_type(f.value) as u8) as nat).len(),
        tag_field_number(spec_tag(f.field_number, spec_wire_type(f.value) as u8)) == f.field_number,
        spec_tag(f.field_number, spec_wire_type(f.value) as u8) % 8 == spec_wire_type(f.value),
        spec_encode_field(f) == spec_varint(
            spec_tag(f.field_number, spec_wire_type(f.value) as u8) as nat,
        ) + spec_encode_field(f).skip(tl as int),
        (spec_encode_field(f) + rest).skip(tl as int) == spec_encode_field(f).skip(tl as int)
            + rest,
{
    let wt: u8 = spec_wire_type(f.value) as u8;
    lemma_tag_value(f.field_number, wt);
    let tag = spec_tag(f.field_number, wt);
    let tbytes = spec_varint(tag as nat);
    let body = spec_encode_field(f).skip(tbytes.len() as int);
    assert(spec_encode_field(f) =~= tbytes + body);
    let s = spec_encode_field(f) + rest;
    assert(s =~= tbytes + (body + rest));
    lemma_read_varint_roundtrip(tag, body + rest);
    assert(s.skip(tbytes.len() as int) =~= body + rest);
    tbytes.len()
}

/// Parsing an encoded field, whatever follows it, gives the field back and
/// the length of its encoding.
pub proof fn lemma_parse_field_roundtrip(f: SpecRawField, rest: Seq<u8>)
    requires
        field_roundtrips(f),
    ensures
        spec_parse_field(spec_encode_field(f) + rest) == Some((f, spec_encode_field(f).len())),
{
    let tl = lemma_parse_field_tag(f, rest);
    let body = spec_encode_field(f).skip(tl as int);
    let s = spec_encode_field(f) + rest;
    assert(s.skip(tl as int) == body + rest);
    match f.value {
        SpecRawValue::Varint(v) => {
            assert(body =~= spec_varint(v as nat));
            lemma_read_varint_roundtrip(v, rest);
        },
        SpecRawValue::Fixed64(v) => {
            assert(body =~= le_bytes64(v));
            lemma_le64_roundtrip(v, rest);
        },
        SpecRawValue::Fixed32(v) => {
            assert(body =~= le_bytes32(v));
            lemma_le32_roundtrip(v, rest);
        },
        SpecRawValue::LengthDelimited(d) => {
            lemma_parse_ld_body(d, rest);
            assert(body =~= spec_varint(d.len()) + d);
        },
    }
}

/// The length and the bytes of an encoded length-delimited value read back.
proof fn lemma_parse_ld_body(d: Seq<u8>, rest: Seq<u8>)
    requires
        d.len() <= u64::MAX,
    ensures
        ({
            let t = spec_varint(d.len()) + d + rest;
            let ll = spec_varint(d.len()).len();
            &&& spec_read_varint(t) == Some((d.len() as u64, ll))
            &&& d.len() <= t.len() - ll
            &&& t.subrange(ll as int, (ll + d.len()) as int) == d
        }),
{
    let l = d.len() as u64;
    let lbytes = spec_varint(l as nat);
    let t = lbytes + d + rest;
    assert(t =~= lbytes + (d + rest));
    lemma_read_varint_roundtrip(l, d + rest);
    assert(t.subrange(lbytes.len() as int, lbytes.len() + l) =~= d);
}

/// The encoding of a list of fields is the first field's encoding followed by
/// the encoding of the others.
pub proof fn lemma_encode_fields_first(fs: Seq<SpecRawField>)
    requires
        fs.len() >= 1,
    ensures
        spec_encode_fields(fs) == spec_encode_field(fs[0]) + spec_encode_fields(fs.drop_first()),
    decreases fs.len(),
{
    if fs.len() == 1 {
        assert(fs.drop_last() =~= seq![]);
        assert(fs.drop_first() =~= seq![]);
        assert(spec_encode_fields(fs.drop_first()) =~= seq![]);
        assert(spec_encode_fields(fs) =~= spec_encode_field(fs[0]));
    } else {
        lemma_encode_fields_first(fs.drop_last());
        assert(fs.drop_last().drop_first() =~= fs.drop_first().drop_last());
        assert(fs.drop_first().last() == fs.last());
        assert(fs.drop_last()[0] == fs[0]);
        assert(spec_encode_fields(fs) =~= spec_encode_field(fs[0]) + spec_encode_fields(
            fs.drop_first(),
        ));
    }
}

/// The encoding of a concatenation is the concatenation of the encodings.
pub proof fn lemma_encode_fields_append(a: Seq<SpecRawField>, b: Seq<SpecRawField>)
    ensures
        spec_encode_fields(a + b) == spec_encode_fields(a) + spec_encode_fields(b),
    decreases b.len(),
{
    if b.len() == 0 {
        assert(a + b =~= a);
        assert(spec_encode_fields(a) + spec_encode_fields(b) =~= spec_encode_fields(a));
    } else {
        lemma_encode_fields_append(a, b.drop_last());
        assert((a + b).drop_last() =~= a + b.drop_last());
        assert((a + b).last() == b.last());
        assert(spec_encode_fields(a + b) =~= spec_encode_fields(a) + spec_encode_fields(b));
    }
}

/// Decoding what the encoder wrote gives the fields back, for fields whose
/// number is not 0 and whose length-delimited values fit a 64-bit length.
pub proof fn lemma_decode_encode_fields(fs: Seq<SpecRawField>)
    requires
        forall|i: int| 0 <= i < fs.len() ==> field_roundtrips(#[trigger] fs[i]),
    ensures
        spec_decode_raw(spec_encode_fields(fs)) == fs,
    decreases fs.len(),
{
    if fs.len() == 0 {
        assert(spec_encode_fields(fs) =~= seq![]);
    } else {
        lemma_encode_fields_first(fs);
        let e0 = spec_encode_field(fs[0]);
        let rest = spec_encode_fields(fs.drop_first());
        assert(field_roundtrips(fs[0]));
        lemma_parse_field_roundtrip(fs[0], rest);
        lemma_decode_encode_fields(fs.drop_first());
        let s = spec_encode_fields(fs);
        assert(s.len() > 0) by {
            lemma_varint_shape(spec_tag(fs[0].field_number, spec_wire_type(fs[0].value) as u8) as nat);
        }
        assert(s.skip(e0.len() as int) =~= rest);
        assert(spec_decode_raw(s) =~= seq![fs[0]] + fs.drop_first());
        assert(seq![fs[0]] + fs.drop_first() =~= fs);
    }
}

/// Every field's encoding lies within the encoding of the list.
pub proof fn lemma_encode_fields_contains(fs: Seq<SpecRawField>, i: int)
    requires
        0 <= i < fs.len(),
    ensures
        spec_encode_field(fs[i]).len() <= spec_encode_fields(fs).len(),
    decreases fs.len(),
{
    if i < fs.len() - 1 {
        lemma_encode_fields_contains(fs.drop_last(), i);
        assert(fs.drop_last()[i] == fs[i]);
    }
}

/// A message that the encoder wrote reads back as the fields it was written
/// from, when no field number is 0 and the message fits a 64-bit length.
pub proof fn lemma_decode_encoded_message(fs: Seq<SpecRawField>)
    requires
        forall|i: int| 0 <= i < fs.len() ==> (#[trigger] fs[i]).field_number != 0,
        spec_encode_fields(fs).len() <= u64::MAX,
    ensures
        spec_decode_raw(spec_encode_fields(fs)) == fs,
{
    assert forall|i: int| 0 <= i < fs.len() implies field_roundtrips(#[trigger] fs[i]) by {
        lemma_encode_fields_contains(fs, i);
        if let SpecRawValue::LengthDelimited(d) = fs[i].value {
            assert(spec_encode_field(fs[i]) =~= spec_varint(spec_tag(fs[i].field_number, 2) as nat)
                + spec_varint(d.len()) + d);
        }
    }
    lemma_decode_encode_fields(fs);
}

/// A one-byte tag at which decoding stops: field number 0, or a wire type
/// other than 0, 1, 2 and 5.
pub open spec fn bad_tag_byte(b: u8) -> bool {
    b < 0x80 && (b / 8 == 0 || b % 8 == 3 || b % 8 == 4 || b % 8 == 6 || b % 8 == 7)
}

/// Decoding bytes that start with a bad one-byte tag gives no field.
proof fn lemma_decode_bad_tag(rest: Seq<u8>)
    requires
        rest.len() > 0,
        bad_tag_byte(rest[0]),
    ensures
        spec_decode_raw(rest) == Seq::<SpecRawField>::empty(),
{
    assert(varint_end(rest, 0) == Some(1nat));
    let one = rest.take(1);
    assert(one.drop_first() =~= Seq::<u8>::empty());
    assert(varint_sum(one.drop_first()) == 0);
    assert(varint_sum(one) == low7(rest[0]));
    assert(spec_read_varint(rest) == Some((rest[0] as u64, 1nat)));
    assert(spec_parse_field(rest) is None);
}

/// Decoding stops at a bad tag: fields encoded before a bad one-byte tag are
/// all read back, and nothing after the tag is read, whatever follows it.
pub proof fn lemma_decode_stops_at_bad_tag(fs: Seq<SpecRawField>, rest: Seq<u8>)
    requires
        forall|i: int| 0 <= i < fs.len() ==> (#[trigger] fs[i]).field_number != 0,
        spec_encode_fields(fs).len() <= u64::MAX,
        rest.len() > 0,
        bad_tag_byte(rest[0]),
    ensures
        spec_decode_raw(spec_encode_fields(fs) + rest) == fs,
{
    assert forall|i: int| 0 <= i < fs.len() implies field_roundtrips(#[trigger] fs[i]) by {
        lemma_encode_fields_contains(fs, i);
        if let SpecRawValue::LengthDelimited(d) = fs[i].value {
            assert(spec_encode_field(fs[i]) =~= spec_varint(spec_tag(fs[i].field_number, 2) as nat)
                + spec_varint(d.len()) + d);
        }
    }
    lemma_decode_fields_then_bad_tag(fs, rest);
}

proof fn lemma_decode_fields_then_bad_tag(fs: Seq<SpecRawField>, rest: Seq<u8>)
    requires
        forall|i: int| 0 <= i < fs.len() ==> field_roundtrips(#[trigger] fs[i]),
        rest.len() > 0,
        bad_tag_byte(rest[0]),
    ensures
        spec_decode_raw(spec_encode_fields(fs) + rest) == fs,
    decreases fs.len(),
{
    if fs.len() == 0 {
        assert(spec_encode_fields(fs) + rest =~= rest);
        lemma_decode_bad_tag(rest);
    } else {
        lemma_encode_fields_first(fs);
        let tail = fs.drop_first();
        assert forall|i: int| 0 <= i < tail.len() implies field_roundtrips(#[trigger] tail[i]) by {
            assert(tail[i] == fs[i + 1]);
        }
        lemma_decode_fields_then_bad_tag(tail, rest);
        assert(field_roundtrips(fs[0]));
        let after = spec_encode_fields(tail) + rest;
        lemma_parse_field_roundtrip(fs[0], after);
        let e0 = spec_encode_field(fs[0]);
        let s = spec_encode_fields(fs) + rest;
        assert(s =~= e0 + after);
        assert(s.len() > 0);
        assert(s.skip(e0.len() as int) =~= after);
        assert(spec_decode_raw(s) =~= seq![fs[0]] + tail);
        assert(seq![fs[0]] + tail =~= fs);
    }
}

/// Decoded fields never have number 0, and their values are no longer than the input.
pub proof fn lemma_decoded_fields_roundtrip(s: Seq<u8>)
    requires
        s.len() <= u64::MAX,
    ensures
        forall|i: int| 0 <= i < spec_decode_raw(s).len() ==> field_roundtrips(
            #[trigger] spec_decode_raw(s)[i],
        ),
    decreases s.len(),
{
    let fs = spec_decode_raw(s);
    if s.len() > 0 {
        if let Some((f, n)) = spec_parse_field(s) {
            lemma_parse_field_len(s);
            lemma_decoded_fields_roundtrip(s.skip(n as int));
            assert forall|i: int| 0 <= i < fs.len() implies field_roundtrips(#[trigger] fs[i]) by {
                if i > 0 {
                    assert(fs[i] == spec_decode_raw(s.skip(n as int))[i - 1]);
                }
            }
        }
    }
}

// ---------------------------------------------------------------------------
// Executable decoding
// ---------------------------------------------------------------------------

/// Read a varint from the buffer, returning (value, bytes_consumed).
pub fn read_varint(data: &[u8]) -> (r: Option<(u64, usize)>)
    ensures
        r matches Some((v, n)) ==> spec_read_varint(data@) == Some((v, n as nat)),
        r is None ==> spec_read_varint(data@) is None,
{
    let mut acc: u128 = 0;
    let mut mult: u128 = 1;
    let mut i: usize = 0;
    while i < data.len() && i < 10
        invariant
            i <= data.len(),
            i <= 10,
            mult == pow128(i as nat),
            acc == varint_sum(data@.take(i as int)),
            acc < mult,
            mult <= 0x40_0000_0000_0000_0000,
            forall|j: int| 0 <= j < i ==> data@[j] >= 128,
        decreases data.len() - i,
    {
        let byte: u8 = data[i];
        let payload: u128 = (byte & 0x7F) as u128;
        assert(payload == low7(byte)) by (bit_vector)
            requires
                payload == (byte & 0x7F) as u128,
        ;
        proof {
            lemma_varint_sum_snoc(data@, i as nat);
            lemma_pow128_mono(i as nat, 9);
            reveal_with_fuel(pow128, 10);
            assert(pow128(9) == 0x8000_0000_0000_0000);
            assert(payload * mult <= 127 * mult) by (nonlinear_arith)
                requires
                    payload <= 127,
            ;
        }
        acc = acc + payload * mult;
        if byte < 128 {
            proof {
                lemma_varint_end_at(data@, 0, i as nat);
            }
            let value: u64 = (acc % 0x1_0000_0000_0000_0000u128) as u64;
            return Some((value, i + 1));
        }
        proof {
            assert(pow128((i + 1) as nat) == 128 * pow128(i as nat));
        }
        mult = mult * 128;
        i = i + 1;
    }
    proof {
        lemma_varint_end_none(data@, 0, i as nat);
    }
    None
}

/// Powers of 128 grow with the exponent.
pub proof fn lemma_pow128_mono(a: nat, b: nat)
    requires
        a <= b,
    ensures
        pow128(a) <= pow128(b),
    decreases b - a,
{
    if a < b {
        lemma_pow128_mono(a, (b - 1) as nat);
        assert(pow128(b) == 128 * pow128((b - 1) as nat));
    }
}

/// A little-endian 32-bit value from the first four bytes.
pub fn read_le_u32(s: &[u8]) -> (v: u32)
    requires
        s@.len() >= 4,
    ensures
        v == spec_le_u32(s@),
{
    (s[0] as u32) | ((s[1] as u32) << 8) | ((s[2] as u32) << 16) | ((s[3] as u32) << 24)
}

/// A little-endian 64-bit value from the first eight bytes.
pub fn read_le_u64(s: &[u8]) -> (v: u64)
    requires
        s@.len() >= 8,
    ensures
        v == spec_le_u64(s@),
{
    (s[0] as u64) | ((s[1] as u64) << 8) | ((s[2] as u64) << 16) | ((s[3] as u64) << 24) | ((
    s[4] as u64) << 32) | ((s[5] as u64) << 40) | ((s[6] as u64) << 48) | ((s[7] as u64) << 56)
}

/// Decode the field at the start of `s`, with the number of bytes it takes.
fn parse_field(s: &[u8]) -> (r: Option<(RawField, usize)>)
    ensures
        match r {
            Some((f, n)) => spec_parse_field(s@) == Some((f@, n as nat)),
            None => spec_parse_field(s@) is None,
        },
{
    let (tag, tl) = match read_varint(s) {
        Some(v) => v,
        None => return None,
    };
    proof {
        lemma_read_varint_len(s@);
    }
    let field_number: u32 = ((tag >> 3) & 0xffff_ffff) as u32;
    let wire_type: u64 = tag & 0x07;
    assert(field_number == ((tag / 8) % 0x1_0000_0000) as u32 && wire_type == tag % 8)
        by (bit_vector)
        requires
            field_number == ((tag >> 3) & 0xffff_ffff) as u32,
            wire_type == tag & 0x07,
    ;
    if field_number == 0 {
        return None;
    }
    let rest = &s[tl..s.len()];
    assert(rest@ =~= s@.skip(tl as int));
    if wire_type == 0 {
        match read_varint(rest) {
            Some((v, vl)) => {
                proof {
                    lemma_read_varint_len(rest@);
                }
                Some((RawField { field_number, value: RawValue::Varint(v) }, tl + vl))
            },
            None => None,
        }
    } else if wire_type == 1 {
        if rest.len() >= 8 {
            let v = read_le_u64(rest);
            Some((RawField { field_number, value: RawValue::Fixed64(v) }, tl + 8))
        } else {
            None
        }
    } else if wire_type == 2 {
        match read_varint(rest) {
            Some((len, ll)) => {
                proof {
                    lemma_read_varint_len(rest@);
                }
                let avail: usize = rest.len() - ll;
                if len <= avail as u64 {
                    let end: usize = ll + len as usize;
                    let bytes = vstd::slice::slice_to_vec(&rest[ll..end]);
                    assert(bytes@ =~= rest@.subrange(ll as int, ll + len));
                    Some((RawField { field_number, value: RawValue::LengthDelimited(bytes) }, tl + end))
                } else {
                    None
                }
            },
            None => None,
        }
    } else if wire_type == 5 {
        if rest.len() >= 4 {
            let v = read_le_u32(rest);
            Some((RawField { field_number, value: RawValue::Fixed32(v) }, tl + 4))
        } else {
            None
        }
    } else {
        None
    }
}

/// Decode a raw protobuf message without a schema.
/// Returns a list of field number + raw value pairs.
pub fn decode_raw(data: &[u8]) -> (fields: Vec<RawField>)
    ensures
        fields.deep_view() == spec_decode_raw(data@),
{
    let mut fields: Vec<RawField> = Vec::new();
    let mut offset: usize = 0;
    assert(data@.skip(0) =~= data@);
    assert(fields.deep_view() =~= seq![]);
    while offset < data.len()
        invariant
            offset <= data.len(),
            fields.deep_view() + spec_decode_raw(data@.skip(offset as int)) == spec_decode_raw(
                data@,
            ),
        decreases data.len() - offset,
    {
        let rest = &data[offset..data.len()];
        assert(rest@ =~= data@.skip(offset as int));
        match parse_field(rest) {
            Some((field, n)) => {
                proof {
                    lemma_parse_field_len(rest@);
                    assert(rest@.skip(n as int) =~= data@.skip(offset + n));
                }
                let ghost before = fields.deep_view();
                fields.push(field);
                assert(fields.deep_view() =~= before.push(field@));
                offset = offset + n;
            },
            None => {
                assert(fields.deep_view() + seq![] =~= fields.deep_view());
                return fields;
            },
        }
    }
    assert(data@.skip(offset as int) =~= seq![]);
    assert(fields.deep_view() + seq![] =~= fields.deep_view());
    fields
}

} // verus!
