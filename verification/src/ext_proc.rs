//! Hand-rolled protobuf encoding of the external processing protocol and the
//! application of the field mutations that it returns.

use vstd::prelude::*;
use crate::proto_decode::{
    decode_raw, field_roundtrips, lemma_decode_encode_fields, lemma_decode_encoded_message,
    lemma_encode_fields_contains,
    lemma_decoded_fields_roundtrip, read_le_u32, read_le_u64, read_varint, spec_decode_raw, spec_encode_field,
    spec_encode_fields, spec_le_u32, spec_le_u64, spec_read_varint, RawField, RawValue,
    SpecRawField, SpecRawValue,
};
use crate::proto_encode::{
    encode_bytes_field, encode_fixed32_field, encode_fixed64_field, encode_varint,
    encode_varint_field, le_bytes32, le_bytes64, spec_varint, u32_le_bytes, u64_le_bytes,
};
use crate::display::spec_value_debug;
use crate::grpc::{be_bytes32, spec_grpc_frame};
use crate::text::utf8_string;

verus! {

// --- Direction enum values (matches service.proto) ---
pub const DIRECTION_REQUEST: u64 = 1;
pub const DIRECTION_RESPONSE: u64 = 2;

// --- ResponseAction enum values (matches service.proto) ---
pub const ACTION_CONTINUE: u64 = 0;
pub const ACTION_MUTATE_FIELDS: u64 = 1;
pub const ACTION_REPLACE_BODY: u64 = 2;
pub const ACTION_REJECT: u64 = 3;

// --- MutationOp enum values (matches service.proto) ---
pub const MUTATION_OP_SET: u64 = 0;
pub const MUTATION_OP_ADD: u64 = 1;
pub const MUTATION_OP_REMOVE: u64 = 2;

/// A decoded ProcessMessageResponse.
#[derive(Debug)]
pub struct ProcessMessageResponse {
    pub action: u64,
    pub mutations: Vec<FieldMutation>,
    pub replaced_body: Option<Vec<u8>>,
    pub headers_to_add: Vec<(String, String)>,
}

/// One field mutation of a ProcessMessageResponse.
#[derive(Debug)]
pub struct FieldMutation {
    pub operation: u64,
    pub field_number: u32,
    pub field_type: u64,
    pub value: Vec<u8>,
}

/// The mathematical content of a [`FieldMutation`].
pub struct SpecFieldMutation {
    pub operation: u64,
    pub field_number: u32,
    pub field_type: u64,
    pub value: Seq<u8>,
}

/// The mathematical content of a [`ProcessMessageResponse`].
pub struct SpecProcessMessageResponse {
    pub action: u64,
    pub mutations: Seq<SpecFieldMutation>,
    pub replaced_body: Option<Seq<u8>>,
    pub headers_to_add: Seq<(Seq<char>, Seq<char>)>,
}

impl View for FieldMutation {
    type V = SpecFieldMutation;

    open spec fn view(&self) -> SpecFieldMutation {
        SpecFieldMutation {
            operation: self.operation,
            field_number: self.field_number,
            field_type: self.field_type,
            value: self.value@,
        }
    }
}

impl DeepView for FieldMutation {
    type V = SpecFieldMutation;

    open spec fn deep_view(&self) -> SpecFieldMutation {
        self@
    }
}

/// The headers of a response, as pairs of character sequences.
pub open spec fn headers_view(h: Seq<(String, String)>) -> Seq<(Seq<char>, Seq<char>)> {
    h.map_values(|p: (String, String)| (p.0@, p.1@))
}

impl View for ProcessMessageResponse {
    type V = SpecProcessMessageResponse;

    open spec fn view(&self) -> SpecProcessMessageResponse {
        SpecProcessMessageResponse {
            action: self.action,
            mutations: self.mutations.deep_view(),
            replaced_body: match self.replaced_body {
                Some(b) => Some(b@),
                None => None,
            },
            headers_to_add: headers_view(self.headers_to_add@),
        }
    }
}

// ---------------------------------------------------------------------------
// Decoding of ProcessMessageResponse
// ---------------------------------------------------------------------------

/// The truncation of a varint to a field number.
pub open spec fn to_u32(v: u64) -> u32 {
    (v % 0x1_0000_0000) as u32
}

/// A FieldMutation with every field at its default.
pub open spec fn empty_mutation() -> SpecFieldMutation {
    SpecFieldMutation { operation: 0, field_number: 0, field_type: 0, value: seq![] }
}

/// The effect of one decoded field on a FieldMutation being read: fields
/// 1 to 3 are varints, 4 is bytes; a later field of a number replaces an
/// earlier one and a field of the wrong wire type is ignored.
pub open spec fn mutation_step(m: SpecFieldMutation, f: SpecRawField) -> SpecFieldMutation {
    match f.value {
        SpecRawValue::Varint(v) => {
            if f.field_number == 1 {
                SpecFieldMutation { operation: v, ..m }
            } else if f.field_number == 2 {
                SpecFieldMutation { field_number: to_u32(v), ..m }
            } else if f.field_number == 3 {
                SpecFieldMutation { field_type: v, ..m }
            } else {
                m
            }
        },
        SpecRawValue::LengthDelimited(b) => {
            if f.field_number == 4 {
                SpecFieldMutation { value: b, ..m }
            } else {
                m
            }
        },
        _ => m,
    }
}

pub open spec fn mutation_fold(fs: Seq<SpecRawField>) -> SpecFieldMutation
    decreases fs.len(),
{
    if fs.len() == 0 {
        empty_mutation()
    } else {
        mutation_step(mutation_fold(fs.drop_last()), fs.last())
    }
}

/// A FieldMutation sub-message, kept when it names a field or removes one.
pub open spec fn spec_decode_field_mutation(data: Seq<u8>) -> Option<SpecFieldMutation> {
    let m = mutation_fold(spec_decode_raw(data));
    if m.field_number > 0 || m.operation == MUTATION_OP_REMOVE {
        Some(m)
    } else {
        None
    }
}

/// The text that bytes hold, when they are valid UTF-8.
pub open spec fn utf8_text(b: Seq<u8>) -> Option<Seq<char>> {
    if vstd::utf8::valid_utf8(b) {
        Some(vstd::utf8::decode_utf8(b))
    } else {
        None
    }
}

/// The key and value read so far from a map entry.
pub struct SpecMapEntry {
    pub key: Option<Seq<char>>,
    pub value: Option<Seq<char>>,
}

pub open spec fn map_entry_step(e: SpecMapEntry, f: SpecRawField) -> SpecMapEntry {
    match f.value {
        SpecRawValue::LengthDelimited(b) => {
            if f.field_number == 1 {
                SpecMapEntry { key: utf8_text(b), ..e }
            } else if f.field_number == 2 {
                SpecMapEntry { value: utf8_text(b), ..e }
            } else {
                e
            }
        },
        _ => e,
    }
}

pub open spec fn map_entry_fold(fs: Seq<SpecRawField>) -> SpecMapEntry
    decreases fs.len(),
{
    if fs.len() == 0 {
        SpecMapEntry { key: None, value: None }
    } else {
        map_entry_step(map_entry_fold(fs.drop_last()), fs.last())
    }
}

/// A map<string,string> entry: the last key and the last value, each of which
/// must be valid UTF-8.
pub open spec fn spec_decode_map_entry(data: Seq<u8>) -> Option<(Seq<char>, Seq<char>)> {
    let e = map_entry_fold(spec_decode_raw(data));
    match (e.key, e.value) {
        (Some(k), Some(v)) => Some((k, v)),
        _ => None,
    }
}

/// The response before any field is read: continue, and nothing else.
pub open spec fn empty_response() -> SpecProcessMessageResponse {
    SpecProcessMessageResponse {
        action: ACTION_CONTINUE,
        mutations: seq![],
        replaced_body: None,
        headers_to_add: seq![],
    }
}

/// The effect of one decoded field on the response being read.
pub open spec fn response_step(
    r: SpecProcessMessageResponse,
    f: SpecRawField,
) -> SpecProcessMessageResponse {
    match f.value {
        SpecRawValue::Varint(v) => {
            if f.field_number == 1 {
                SpecProcessMessageResponse { action: v, ..r }
            } else {
                r
            }
        },
        SpecRawValue::LengthDelimited(b) => {
            if f.field_number == 2 {
                match spec_decode_field_mutation(b) {
                    Some(m) => SpecProcessMessageResponse { mutations: r.mutations.push(m), ..r },
                    None => r,
                }
            } else if f.field_number == 3 {
                SpecProcessMessageResponse { replaced_body: Some(b), ..r }
            } else if f.field_number == 4 {
                match spec_decode_map_entry(b) {
                    Some(kv) => SpecProcessMessageResponse {
                        headers_to_add: r.headers_to_add.push(kv),
                        ..r
                    },
                    None => r,
                }
            } else {
                r
            }
        },
        _ => r,
    }
}

pub open spec fn response_fold(fs: Seq<SpecRawField>) -> SpecProcessMessageResponse
    decreases fs.len(),
{
    if fs.len() == 0 {
        empty_response()
    } else {
        response_step(response_fold(fs.drop_last()), fs.last())
    }
}

/// A ProcessMessageResponse read from raw protobuf bytes.
pub open spec fn spec_decode_process_response(data: Seq<u8>) -> SpecProcessMessageResponse {
    response_fold(spec_decode_raw(data))
}

/// Decode a ProcessMessageResponse from raw protobuf bytes.
pub fn decode_process_response(data: &[u8]) -> (response: ProcessMessageResponse)
    ensures
        response@ == spec_decode_process_response(data@),
{
    let fields = decode_raw(data);
    let mut response = ProcessMessageResponse {
        action: ACTION_CONTINUE,
        mutations: Vec::new(),
        replaced_body: None,
        headers_to_add: Vec::new(),
    };
    let ghost fs = fields.deep_view();
    assert(response@ == response_fold(fs.take(0))) by {
        assert(fs.take(0) =~= seq![]);
        assert(response@.mutations =~= seq![]);
        assert(response@.headers_to_add =~= seq![]);
    }
    let mut i: usize = 0;
    while i < fields.len()
        invariant
            i <= fields.len(),
            fs == fields.deep_view(),
            response@ == response_fold(fs.take(i as int)),
        decreases fields.len() - i,
    {
        let field = &fields[i];
        let ghost before = response@;
        assert(fs.take(i + 1).drop_last() =~= fs.take(i as int));
        assert(fs[i as int] == field@);
        match &field.value {
            RawValue::Varint(v) => {
                if field.field_number == 1 {
                    response.action = *v;
                }
            },
            RawValue::LengthDelimited(bytes) => {
                if field.field_number == 2 {
                    if let Some(mutation) = decode_field_mutation(bytes.as_slice()) {
                        response.mutations.push(mutation);
                        assert(response@.mutations =~= before.mutations.push(mutation@));
                    }
                } else if field.field_number == 3 {
                    response.replaced_body = Some(bytes.clone());
                } else if field.field_number == 4 {
                    if let Some((k, v)) = decode_map_entry(bytes.as_slice()) {
                        let ghost kv = (k@, v@);
                        response.headers_to_add.push((k, v));
                        assert(response@.headers_to_add =~= before.headers_to_add.push(kv));
                    }
                }
            },
            _ => {},
        }
        i = i + 1;
    }
    assert(fs.take(fields.len() as int) =~= fs);
    response
}

/// Decode a FieldMutation sub-message.
///
///   1: operation    (enum / varint)
///   2: field_number (uint32)
///   3: field_type   (enum / varint)
///   4: value        (bytes)
fn decode_field_mutation(data: &[u8]) -> (r: Option<FieldMutation>)
    ensures
        match r {
            Some(m) => spec_decode_field_mutation(data@) == Some(m@),
            None => spec_decode_field_mutation(data@) is None,
        },
{
    let fields = decode_raw(data);
    let mut mutation = FieldMutation {
        operation: 0,
        field_number: 0,
        field_type: 0,
        value: Vec::new(),
    };
    let ghost fs = fields.deep_view();
    assert(fs.take(0) =~= seq![]);
    assert(mutation@ == mutation_fold(fs.take(0)));
    let mut i: usize = 0;
    while i < fields.len()
        invariant
            i <= fields.len(),
            fs == fields.deep_view(),
            mutation@ == mutation_fold(fs.take(i as int)),
        decreases fields.len() - i,
    {
        let field = &fields[i];
        assert(fs.take(i + 1).drop_last() =~= fs.take(i as int));
        assert(fs[i as int] == field@);
        match &field.value {
            RawValue::Varint(v) => {
                if field.field_number == 1 {
                    mutation.operation = *v;
                } else if field.field_number == 2 {
                    let x: u64 = *v;
                    let n: u32 = (x & 0xffff_ffff) as u32;
                    assert(n == (x % 0x1_0000_0000) as u32) by (bit_vector)
                        requires
                            n == (x & 0xffff_ffff) as u32,
                    ;
                    mutation.field_number = n;
                } else if field.field_number == 3 {
                    mutation.field_type = *v;
                }
            },
            RawValue::LengthDelimited(bytes) => {
                if field.field_number == 4 {
                    mutation.value = bytes.clone();
                }
            },
            _ => {},
        }
        i = i + 1;
    }
    assert(fs.take(fields.len() as int) =~= fs);
    if mutation.field_number > 0 || mutation.operation == MUTATION_OP_REMOVE {
        Some(mutation)
    } else {
        None
    }
}

/// Decode a map<string,string> entry (sub-message with fields 1 and 2).
fn decode_map_entry(data: &[u8]) -> (r: Option<(String, String)>)
    ensures
        match r {
            Some((k, v)) => spec_decode_map_entry(data@) == Some((k@, v@)),
            None => spec_decode_map_entry(data@) is None,
        },
{
    let fields = decode_raw(data);
    let mut key: Option<String> = None;
    let mut value: Option<String> = None;
    let ghost fs = fields.deep_view();
    assert(fs.take(0) =~= seq![]);
    let mut i: usize = 0;
    while i < fields.len()
        invariant
            i <= fields.len(),
            fs == fields.deep_view(),
            ({
                let e = map_entry_fold(fs.take(i as int));
                &&& (key matches Some(k) ==> e.key == Some(k@))
                &&& (key is None ==> e.key is None)
                &&& (value matches Some(v) ==> e.value == Some(v@))
                &&& (value is None ==> e.value is None)
            }),
        decreases fields.len() - i,
    {
        let field = &fields[i];
        assert(fs.take(i + 1).drop_last() =~= fs.take(i as int));
        assert(fs[i as int] == field@);
        match &field.value {
            RawValue::LengthDelimited(bytes) => {
                if field.field_number == 1 {
                    key = utf8_string(bytes.clone());
                } else if field.field_number == 2 {
                    value = utf8_string(bytes.clone());
                }
            },
            _ => {},
        }
        i = i + 1;
    }
    assert(fs.take(fields.len() as int) =~= fs);
    match (key, value) {
        (Some(k), Some(v)) => Some((k, v)),
        _ => None,
    }
}

// ---------------------------------------------------------------------------
// Mutation application
// ---------------------------------------------------------------------------

/// A RawValue built from mutation bytes according to the field type: a varint
/// read from the bytes (0 if none), the first eight or four bytes little-endian
/// (0 if too few), or the bytes themselves.
pub open spec fn spec_bytes_to_raw_value(field_type: u64, data: Seq<u8>) -> SpecRawValue {
    if field_type == 0 {
        match spec_read_varint(data) {
            Some((v, _)) => SpecRawValue::Varint(v),
            None => SpecRawValue::Varint(0),
        }
    } else if field_type == 1 {
        if data.len() >= 8 {
            SpecRawValue::Fixed64(spec_le_u64(data))
        } else {
            SpecRawValue::Fixed64(0)
        }
    } else if field_type == 5 {
        if data.len() >= 4 {
            SpecRawValue::Fixed32(spec_le_u32(data))
        } else {
            SpecRawValue::Fixed32(0)
        }
    } else {
        SpecRawValue::LengthDelimited(data)
    }
}

/// The index of the first field with the given number, searching from `i`.
pub open spec fn find_field(fs: Seq<SpecRawField>, n: u32, i: nat) -> Option<nat>
    decreases fs.len() - i,
{
    if i >= fs.len() {
        None
    } else if fs[i as int].field_number == n {
        Some(i)
    } else {
        find_field(fs, n, i + 1)
    }
}

/// The index found is in range and holds a field of that number, and no
/// earlier field from `i` on has that number.
pub proof fn lemma_find_field(fs: Seq<SpecRawField>, n: u32, i: nat)
    ensures
        find_field(fs, n, i) matches Some(j) ==> i <= j < fs.len() && fs[j as int].field_number
            == n && forall|k: int| i <= k < j ==> fs[k].field_number != n,
        find_field(fs, n, i) is None ==> forall|k: int| i <= k < fs.len() ==> fs[k].field_number
            != n,
    decreases fs.len() - i,
{
    if i < fs.len() && fs[i as int].field_number != n {
        lemma_find_field(fs, n, i + 1);
    }
}

/// Whether a field keeps a number other than `n`.
pub open spec fn other_number(n: u32) -> spec_fn(SpecRawField) -> bool {
    |f: SpecRawField| f.field_number != n
}

/// The fields after one mutation: SET replaces the value of the first field of
/// that number or appends a field, ADD appends a field, REMOVE drops every
/// field of that number, any other operation changes nothing.
pub open spec fn apply_mutation(fs: Seq<SpecRawField>, m: SpecFieldMutation) -> Seq<SpecRawField> {
    let nf = SpecRawField {
        field_number: m.field_number,
        value: spec_bytes_to_raw_value(m.field_type, m.value),
    };
    if m.operation == MUTATION_OP_SET {
        match find_field(fs, m.field_number, 0) {
            Some(i) => fs.update(i as int, nf),
            None => fs.push(nf),
        }
    } else if m.operation == MUTATION_OP_ADD {
        fs.push(nf)
    } else if m.operation == MUTATION_OP_REMOVE {
        fs.filter(other_number(m.field_number))
    } else {
        fs
    }
}

/// The fields after the mutations, applied in order.
pub open spec fn apply_all(fs: Seq<SpecRawField>, ms: Seq<SpecFieldMutation>) -> Seq<
    SpecRawField,
>
    decreases ms.len(),
{
    if ms.len() == 0 {
        fs
    } else {
        apply_mutation(apply_all(fs, ms.drop_last()), ms.last())
    }
}

/// The payload after the mutations: the decoded fields, mutated in order,
/// and encoded again.
pub open spec fn spec_apply_mutations(original: Seq<u8>, ms: Seq<SpecFieldMutation>) -> Seq<u8> {
    spec_encode_fields(apply_all(spec_decode_raw(original), ms))
}

/// Convert raw bytes to a RawValue based on the field type enum.
fn bytes_to_raw_value(field_type: u64, data: &[u8]) -> (v: RawValue)
    ensures
        v@ == spec_bytes_to_raw_value(field_type, data@),
{
    if field_type == 0 {
        match read_varint(data) {
            Some((v, _)) => RawValue::Varint(v),
            None => RawValue::Varint(0),
        }
    } else if field_type == 1 {
        if data.len() >= 8 {
            RawValue::Fixed64(read_le_u64(data))
        } else {
            RawValue::Fixed64(0)
        }
    } else if field_type == 2 {
        RawValue::LengthDelimited(vstd::slice::slice_to_vec(data))
    } else if field_type == 5 {
        if data.len() >= 4 {
            RawValue::Fixed32(read_le_u32(data))
        } else {
            RawValue::Fixed32(0)
        }
    } else {
        RawValue::LengthDelimited(vstd::slice::slice_to_vec(data))
    }
}

/// A copy of a raw value with the same content.
fn copy_value(v: &RawValue) -> (r: RawValue)
    ensures
        r@ == v@,
{
    match v {
        RawValue::Varint(x) => RawValue::Varint(*x),
        RawValue::Fixed64(x) => RawValue::Fixed64(*x),
        RawValue::LengthDelimited(b) => RawValue::LengthDelimited(b.clone()),
        RawValue::Fixed32(x) => RawValue::Fixed32(*x),
    }
}

/// The index of the first field with the given number.
fn position_of(fields: &Vec<RawField>, n: u32) -> (r: Option<usize>)
    ensures
        match r {
            Some(i) => find_field(fields.deep_view(), n, 0) == Some(i as nat),
            None => find_field(fields.deep_view(), n, 0) is None,
        },
{
    let ghost fs = fields.deep_view();
    let mut i: usize = 0;
    while i < fields.len()
        invariant
            i <= fields.len(),
            fs == fields.deep_view(),
            find_field(fs, n, 0) == find_field(fs, n, i as nat),
        decreases fields.len() - i,
    {
        if fields[i].field_number == n {
            return Some(i);
        }
        i = i + 1;
    }
    None
}

/// The fields whose number differs from `n`, in order.
fn without_number(fields: Vec<RawField>, n: u32) -> (r: Vec<RawField>)
    ensures
        r.deep_view() == fields.deep_view().filter(other_number(n)),
{
    let ghost fs = fields.deep_view();
    let mut kept: Vec<RawField> = Vec::new();
    let mut i: usize = 0;
    assert(fs.take(0) =~= seq![]);
    proof {
        reveal_with_fuel(Seq::filter, 1);
    }
    assert(kept.deep_view() =~= fs.take(0).filter(other_number(n)));
    while i < fields.len()
        invariant
            i <= fields.len(),
            fs == fields.deep_view(),
            kept.deep_view() == fs.take(i as int).filter(other_number(n)),
        decreases fields.len() - i,
    {
        let ghost before = kept.deep_view();
        proof {
            assert(fs.take(i + 1).drop_last() =~= fs.take(i as int));
            assert(fs.take(i + 1).last() == fs[i as int]);
            reveal_with_fuel(Seq::filter, 1);
        }
        if fields[i].field_number != n {
            let f = RawField { field_number: fields[i].field_number, value: copy_value(&fields[i].value) };
            kept.push(f);
            assert(kept.deep_view() =~= before.push(fs[i as int]));
        }
        i = i + 1;
    }
    assert(fs.take(fields.len() as int) =~= fs);
    kept
}

/// Apply a list of mutations to a raw protobuf payload, returning the new payload.
pub fn apply_mutations(original: &[u8], mutations: &[FieldMutation]) -> (r: Vec<u8>)
    ensures
        r@ == spec_apply_mutations(original@, mutations@.map_values(|m: FieldMutation| m@)),
{
    let ghost ms = mutations@.map_values(|m: FieldMutation| m@);
    let mut fields = decode_raw(original);
    let ghost start = fields.deep_view();
    assert(ms.take(0) =~= seq![]);
    let mut k: usize = 0;
    while k < mutations.len()
        invariant
            k <= mutations.len(),
            ms == mutations@.map_values(|m: FieldMutation| m@),
            fields.deep_view() == apply_all(start, ms.take(k as int)),
        decreases mutations.len() - k,
    {
        let mutation = &mutations[k];
        assert(ms.take(k + 1).drop_last() =~= ms.take(k as int));
        assert(ms[k as int] == mutation@);
        let ghost before = fields.deep_view();
        if mutation.operation == MUTATION_OP_SET {
            let new_value = bytes_to_raw_value(mutation.field_type, mutation.value.as_slice());
            let pos = position_of(&fields, mutation.field_number);
            proof {
                lemma_find_field(before, mutation.field_number, 0);
            }
            match pos {
                Some(j) => {
                    fields.set(j, RawField { field_number: mutation.field_number, value: new_value });
                },
                None => {
                    fields.push(RawField { field_number: mutation.field_number, value: new_value });
                },
            }
            assert(fields.deep_view() =~= apply_mutation(before, mutation@));
        } else if mutation.operation == MUTATION_OP_ADD {
            fields.push(
                RawField {
                    field_number: mutation.field_number,
                    value: bytes_to_raw_value(mutation.field_type, mutation.value.as_slice()),
                },
            );
            assert(fields.deep_view() =~= apply_mutation(before, mutation@));
        } else if mutation.operation == MUTATION_OP_REMOVE {
            fields = without_number(fields, mutation.field_number);
        }
        k = k + 1;
    }
    assert(ms.take(mutations.len() as int) =~= ms);
    encode_fields(&fields)
}

/// Re-encode a list of RawFields into protobuf bytes.
fn encode_fields(fields: &Vec<RawField>) -> (buf: Vec<u8>)
    ensures
        buf@ == spec_encode_fields(fields.deep_view()),
{
    let ghost fs = fields.deep_view();
    let mut buf: Vec<u8> = Vec::new();
    assert(fs.take(0) =~= seq![]);
    let mut i: usize = 0;
    while i < fields.len()
        invariant
            i <= fields.len(),
            fs == fields.deep_view(),
            buf@ == spec_encode_fields(fs.take(i as int)),
        decreases fields.len() - i,
    {
        let field = &fields[i];
        assert(fs.take(i + 1).drop_last() =~= fs.take(i as int));
        assert(fs[i as int] == field@);
        let mut bytes = match &field.value {
            RawValue::Varint(v) => encode_varint_field(field.field_number, *v),
            RawValue::Fixed64(v) => encode_fixed64_field(field.field_number, *v),
            RawValue::LengthDelimited(data) => encode_bytes_field(
                field.field_number,
                data.as_slice(),
            ),
            RawValue::Fixed32(v) => encode_fixed32_field(field.field_number, *v),
        };
        assert(bytes@ == spec_encode_field(fs[i as int]));
        buf.append(&mut bytes);
        i = i + 1;
    }
    assert(fs.take(fields.len() as int) =~= fs);
    buf
}

// ---------------------------------------------------------------------------
// ProcessMessageRequest encoding (hand-rolled protobuf, no codegen)
//
// Proto field layout:
//   1: service_name  (string)
//   2: method_name   (string)
//   3: direction     (enum / varint)
//   4: raw_body      (bytes)
//   5: decoded_fields (repeated ProtoField message)
// ---------------------------------------------------------------------------

/// The raw bytes of a value: the varint encoding, the little-endian bytes, or
/// the bytes themselves.
pub open spec fn spec_raw_value_bytes(v: SpecRawValue) -> Seq<u8> {
    match v {
        SpecRawValue::Varint(n) => spec_varint(n as nat),
        SpecRawValue::Fixed64(n) => le_bytes64(n),
        SpecRawValue::LengthDelimited(b) => b,
        SpecRawValue::Fixed32(n) => le_bytes32(n),
    }
}

/// A field of the given number holding bytes.
pub open spec fn bytes_field(n: u32, b: Seq<u8>) -> SpecRawField {
    SpecRawField { field_number: n, value: SpecRawValue::LengthDelimited(b) }
}

/// A field of the given number holding a varint.
pub open spec fn varint_field(n: u32, v: u64) -> SpecRawField {
    SpecRawField { field_number: n, value: SpecRawValue::Varint(v) }
}

/// The fields of a ProtoField sub-message: 1 the field number, 2 the wire
/// type, 3 the raw value bytes, 4 the UTF-8 of the value's rendering.
pub open spec fn proto_field_fields(f: SpecRawField) -> Seq<SpecRawField> {
    seq![
        varint_field(1, f.field_number as u64),
        varint_field(2, crate::proto_decode::spec_wire_type(f.value)),
        bytes_field(3, spec_raw_value_bytes(f.value)),
        bytes_field(4, vstd::utf8::encode_utf8(spec_value_debug(f.value))),
    ]
}

/// The wire bytes of a ProtoField sub-message.
pub open spec fn spec_encode_proto_field(f: SpecRawField) -> Seq<u8> {
    spec_encode_fields(proto_field_fields(f))
}

/// The fields of a ProcessMessageRequest: the service and method names and
/// the body when not empty, the direction when not 0, then one ProtoField per
/// decoded field.
pub open spec fn request_fields(
    service_name: Seq<char>,
    method_name: Seq<char>,
    direction: u64,
    raw_body: Seq<u8>,
    decoded_fields: Seq<SpecRawField>,
) -> Seq<SpecRawField> {
    (if service_name.len() != 0 {
        seq![bytes_field(1, vstd::utf8::encode_utf8(service_name))]
    } else {
        seq![]
    }) + (if method_name.len() != 0 {
        seq![bytes_field(2, vstd::utf8::encode_utf8(method_name))]
    } else {
        seq![]
    }) + (if direction != 0 {
        seq![varint_field(3, direction)]
    } else {
        seq![]
    }) + (if raw_body.len() != 0 {
        seq![bytes_field(4, raw_body)]
    } else {
        seq![]
    }) + decoded_fields.map_values(|f: SpecRawField| bytes_field(5, spec_encode_proto_field(f)))
}

/// Extract raw bytes for a RawValue.
fn raw_value_bytes(value: &RawValue) -> (r: Vec<u8>)
    ensures
        r@ == spec_raw_value_bytes(value@),
{
    match value {
        RawValue::Varint(v) => encode_varint(*v),
        RawValue::Fixed64(v) => u64_le_bytes(*v),
        RawValue::LengthDelimited(bytes) => bytes.clone(),
        RawValue::Fixed32(v) => u32_le_bytes(*v),
    }
}

/// Encode a ProtoField sub-message.
///
/// Proto field layout:
///   1: field_number  (uint32)
///   2: field_type    (enum / varint)
///   3: raw_value     (bytes)
///   4: display_value (string)
fn encode_proto_field(field: &RawField) -> (buf: Vec<u8>)
    ensures
        buf@ == spec_encode_proto_field(field@),
{
    let wire_type: u64 = match &field.value {
        RawValue::Varint(_) => 0u64,
        RawValue::Fixed64(_) => 1,
        RawValue::LengthDelimited(_) => 2,
        RawValue::Fixed32(_) => 5,
    };
    let display = field.value.debug_text();
    let display_bytes = display.as_str().as_bytes();
    let mut parts: Vec<RawField> = Vec::new();
    parts.push(RawField { field_number: 1, value: RawValue::Varint(field.field_number as u64) });
    parts.push(RawField { field_number: 2, value: RawValue::Varint(wire_type) });
    parts.push(RawField { field_number: 3, value: RawValue::LengthDelimited(raw_value_bytes(&field.value)) });
    parts.push(
        RawField {
            field_number: 4,
            value: RawValue::LengthDelimited(vstd::slice::slice_to_vec(display_bytes)),
        },
    );
    assert(parts.deep_view() =~= proto_field_fields(field@));
    encode_fields(&parts)
}

/// Encode a ProcessMessageRequest as raw protobuf bytes.
pub fn encode_process_request(
    service_name: &str,
    method_name: &str,
    direction: u64,
    raw_body: &[u8],
    decoded_fields: &[RawField],
) -> (buf: Vec<u8>)
    ensures
        buf@ == spec_encode_fields(
            request_fields(
                service_name@,
                method_name@,
                direction,
                raw_body@,
                decoded_fields@.map_values(|f: RawField| f@),
            ),
        ),
{
    let ghost decoded = decoded_fields@.map_values(|f: RawField| f@);
    let mut fields: Vec<RawField> = Vec::new();
    if !service_name.is_empty() {
        fields.push(
            RawField {
                field_number: 1,
                value: RawValue::LengthDelimited(vstd::slice::slice_to_vec(service_name.as_bytes())),
            },
        );
    }
    if !method_name.is_empty() {
        fields.push(
            RawField {
                field_number: 2,
                value: RawValue::LengthDelimited(vstd::slice::slice_to_vec(method_name.as_bytes())),
            },
        );
    }
    if direction != 0 {
        fields.push(RawField { field_number: 3, value: RawValue::Varint(direction) });
    }
    if !raw_body.is_empty() {
        fields.push(
            RawField {
                field_number: 4,
                value: RawValue::LengthDelimited(vstd::slice::slice_to_vec(raw_body)),
            },
        );
    }
    let ghost head = fields.deep_view();
    let ghost tail = decoded.map_values(|f: SpecRawField| bytes_field(5, spec_encode_proto_field(f)));
    assert(head + tail.take(0) =~= head);
    let mut i: usize = 0;
    while i < decoded_fields.len()
        invariant
            i <= decoded_fields.len(),
            decoded == decoded_fields@.map_values(|f: RawField| f@),
            tail == decoded.map_values(|f: SpecRawField| bytes_field(5, spec_encode_proto_field(f))),
            fields.deep_view() == head + tail.take(i as int),
        decreases decoded_fields.len() - i,
    {
        let sub_msg = encode_proto_field(&decoded_fields[i]);
        let ghost before = fields.deep_view();
        assert(decoded[i as int] == decoded_fields@[i as int]@);
        assert(tail[i as int] == bytes_field(5, sub_msg@));
        assert(tail.take(i + 1) =~= tail.take(i as int).push(tail[i as int]));
        fields.push(RawField { field_number: 5, value: RawValue::LengthDelimited(sub_msg) });
        assert(fields.deep_view() =~= before.push(tail[i as int]));
        assert(fields.deep_view() =~= head + tail.take(i + 1));
        i = i + 1;
    }
    assert(tail.take(decoded_fields.len() as int) =~= tail);
    assert(fields.deep_view() =~= request_fields(
        service_name@,
        method_name@,
        direction,
        raw_body@,
        decoded,
    ));
    encode_fields(&fields)
}

/// Wrap a protobuf payload in a gRPC frame (uncompressed).
pub fn encode_grpc_frame(payload: &[u8]) -> (frame: Vec<u8>)
    ensures
        frame@ == spec_grpc_frame(payload@),
{
    let n: u32 = (payload.len() as u64 % 0x1_0000_0000) as u32;
    let mut frame: Vec<u8> = Vec::new();
    frame.push(0);
    frame.push(((n >> 24) & 0xff) as u8);
    frame.push(((n >> 16) & 0xff) as u8);
    frame.push(((n >> 8) & 0xff) as u8);
    frame.push((n & 0xff) as u8);
    let mut body = vstd::slice::slice_to_vec(payload);
    frame.append(&mut body);
    assert(frame@ =~= seq![0u8] + be_bytes32(n) + payload@);
    frame
}

// ---------------------------------------------------------------------------
// Laws
// ---------------------------------------------------------------------------

/// A ProcessMessageRequest reads back as its fields: the service and method
/// names and the body when not empty, the direction when not 0, and one
/// ProtoField per decoded field, in that order.
pub proof fn lemma_process_request_reads_back(
    service_name: Seq<char>,
    method_name: Seq<char>,
    direction: u64,
    raw_body: Seq<u8>,
    decoded_fields: Seq<SpecRawField>,
)
    requires
        spec_encode_fields(
            request_fields(service_name, method_name, direction, raw_body, decoded_fields),
        ).len() <= u64::MAX,
    ensures
        spec_decode_raw(
            spec_encode_fields(
                request_fields(service_name, method_name, direction, raw_body, decoded_fields),
            ),
        ) == request_fields(service_name, method_name, direction, raw_body, decoded_fields),
{
    let fs = request_fields(service_name, method_name, direction, raw_body, decoded_fields);
    assert forall|i: int| 0 <= i < fs.len() implies (#[trigger] fs[i]).field_number != 0 by {}
    lemma_decode_encoded_message(fs);
}

/// The fields of a map entry holding a header: key as field 1, value as field
/// 2, each as its UTF-8 bytes.
pub open spec fn header_entry_fields(h: (Seq<char>, Seq<char>)) -> Seq<SpecRawField> {
    seq![
        SpecRawField {
            field_number: 1,
            value: SpecRawValue::LengthDelimited(vstd::utf8::encode_utf8(h.0)),
        },
        SpecRawField {
            field_number: 2,
            value: SpecRawValue::LengthDelimited(vstd::utf8::encode_utf8(h.1)),
        },
    ]
}

/// A header as a headers_to_add entry of a response: field 4 holding the
/// encoded map entry.
pub open spec fn header_field(h: (Seq<char>, Seq<char>)) -> SpecRawField {
    SpecRawField {
        field_number: 4,
        value: SpecRawValue::LengthDelimited(spec_encode_fields(header_entry_fields(h))),
    }
}

/// The fields of a response with an action and headers to add.
pub open spec fn response_with_headers(action: u64, hs: Seq<(Seq<char>, Seq<char>)>) -> Seq<
    SpecRawField,
> {
    seq![SpecRawField { field_number: 1, value: SpecRawValue::Varint(action) }] + hs.map_values(
        |h: (Seq<char>, Seq<char>)| header_field(h),
    )
}

/// An encoded map entry reads back as its key and value.
proof fn lemma_header_entry_reads_back(h: (Seq<char>, Seq<char>))
    requires
        spec_encode_fields(header_entry_fields(h)).len() <= u64::MAX,
    ensures
        spec_decode_map_entry(spec_encode_fields(header_entry_fields(h))) == Some(h),
{
    broadcast use vstd::utf8::encode_utf8_valid_utf8, vstd::utf8::encode_utf8_decode_utf8;

    let ef = header_entry_fields(h);
    assert forall|i: int| 0 <= i < ef.len() implies (#[trigger] ef[i]).field_number != 0 by {}
    lemma_decode_encoded_message(ef);
    assert(ef.drop_last().drop_last() =~= Seq::<SpecRawField>::empty());
    assert(ef.drop_last().last() == ef[0]);
    assert(ef.last() == ef[1]);
    assert(utf8_text(vstd::utf8::encode_utf8(h.0)) == Some(h.0));
    assert(utf8_text(vstd::utf8::encode_utf8(h.1)) == Some(h.1));
    let e0 = map_entry_fold(ef.drop_last());
    assert(e0.key == Some(h.0));
    let e1 = map_entry_fold(ef);
    assert(e1.key == Some(h.0) && e1.value == Some(h.1));
}

/// A header field adds its header to the response being read.
proof fn lemma_header_step(r: SpecProcessMessageResponse, h: (Seq<char>, Seq<char>))
    requires
        spec_encode_fields(header_entry_fields(h)).len() <= u64::MAX,
    ensures
        response_step(r, header_field(h)) == (SpecProcessMessageResponse {
            headers_to_add: r.headers_to_add.push(h),
            ..r
        }),
{
    lemma_header_entry_reads_back(h);
}

/// A response whose only field is the action reads as that action.
proof fn lemma_fold_action(action: u64, t: Seq<SpecRawField>)
    requires
        t == seq![SpecRawField { field_number: 1, value: SpecRawValue::Varint(action) }],
    ensures
        response_fold(t) == (SpecProcessMessageResponse {
            action,
            mutations: seq![],
            replaced_body: None,
            headers_to_add: seq![],
        }),
{
    assert(t.drop_last() =~= Seq::<SpecRawField>::empty());
    assert(t.last() == t[0]);
    assert(response_fold(t.drop_last()) == empty_response());
}

proof fn lemma_fold_response_headers(action: u64, hs: Seq<(Seq<char>, Seq<char>)>, n: nat)
    requires
        n <= hs.len(),
        forall|i: int|
            0 <= i < hs.len() ==> spec_encode_fields(header_entry_fields(#[trigger] hs[i])).len()
                <= u64::MAX,
    ensures
        response_fold(response_with_headers(action, hs).take(1 + n as int)) == (SpecProcessMessageResponse {
            action,
            mutations: seq![],
            replaced_body: None,
            headers_to_add: hs.take(n as int),
        }),
    decreases n,
{
    let fs = response_with_headers(action, hs);
    let t = fs.take(1 + n as int);
    if n == 0 {
        assert(t =~= seq![SpecRawField { field_number: 1, value: SpecRawValue::Varint(action) }]);
        lemma_fold_action(action, t);
        assert(hs.take(0) =~= Seq::<(Seq<char>, Seq<char>)>::empty());
    } else {
        lemma_fold_response_headers(action, hs, (n - 1) as nat);
        let prev = response_fold(fs.take(n as int));
        assert(t.drop_last() =~= fs.take(n as int));
        let h = hs[n - 1];
        assert(t.last() == fs[n as int]);
        assert(fs[n as int] == header_field(h));
        assert(response_fold(t) == response_step(prev, header_field(h)));
        lemma_header_step(prev, h);
        assert(hs.take(n - 1).push(h) =~= hs.take(n as int));
    }
}

/// A response encoded with an action and a list of headers to add reads back
/// as that action and every header, in order (duplicate names included), with
/// no mutation and no replacement body.
pub proof fn lemma_response_headers_read_back(action: u64, hs: Seq<(Seq<char>, Seq<char>)>)
    requires
        spec_encode_fields(response_with_headers(action, hs)).len() <= u64::MAX,
    ensures
        spec_decode_process_response(spec_encode_fields(response_with_headers(action, hs)))
            == (SpecProcessMessageResponse {
            action,
            mutations: seq![],
            replaced_body: None,
            headers_to_add: hs,
        }),
{
    let fs = response_with_headers(action, hs);
    assert forall|i: int| 0 <= i < fs.len() implies (#[trigger] fs[i]).field_number != 0 by {}
    lemma_decode_encoded_message(fs);
    assert forall|i: int|
        0 <= i < hs.len() implies spec_encode_fields(header_entry_fields(#[trigger] hs[i])).len()
        <= u64::MAX by {
        lemma_encode_fields_contains(fs, i + 1);
        assert(fs[i + 1] == header_field(hs[i]));
    }
    lemma_fold_response_headers(action, hs, hs.len());
    assert(fs.take(1 + hs.len() as int) =~= fs);
    assert(hs.take(hs.len() as int) =~= hs);
}

/// A mutation that sets or adds a field names a field other than 0 and has a
/// value that fits a 64-bit length.
pub open spec fn writes_readable_field(m: SpecFieldMutation) -> bool {
    (m.operation == MUTATION_OP_SET || m.operation == MUTATION_OP_ADD) ==> (m.field_number != 0
        && m.value.len() <= u64::MAX)
}

/// A mutation keeps every field readable back when, if it sets or adds a
/// field, it names a field other than 0 and its value fits a 64-bit length.
proof fn lemma_apply_mutation_roundtrips(fs: Seq<SpecRawField>, m: SpecFieldMutation)
    requires
        forall|i: int| 0 <= i < fs.len() ==> field_roundtrips(#[trigger] fs[i]),
        writes_readable_field(m),
    ensures
        forall|i: int|
            0 <= i < apply_mutation(fs, m).len() ==> field_roundtrips(
                #[trigger] apply_mutation(fs, m)[i],
            ),
{
    let r = apply_mutation(fs, m);
    lemma_find_field(fs, m.field_number, 0);
    if m.operation == MUTATION_OP_REMOVE {
        lemma_filter_roundtrips(fs, other_number(m.field_number));
    }
}

/// Filtering keeps every field readable back.
proof fn lemma_filter_roundtrips(fs: Seq<SpecRawField>, p: spec_fn(SpecRawField) -> bool)
    requires
        forall|i: int| 0 <= i < fs.len() ==> field_roundtrips(#[trigger] fs[i]),
    ensures
        forall|i: int| 0 <= i < fs.filter(p).len() ==> field_roundtrips(#[trigger] fs.filter(p)[i]),
    decreases fs.len(),
{
    reveal(Seq::filter);
    if fs.len() > 0 {
        lemma_filter_roundtrips(fs.drop_last(), p);
        assert(field_roundtrips(fs[fs.len() - 1]));
        let sub = fs.drop_last().filter(p);
        assert forall|i: int| 0 <= i < fs.filter(p).len() implies field_roundtrips(
            #[trigger] fs.filter(p)[i],
        ) by {
            if i < sub.len() {
                assert(fs.filter(p)[i] == sub[i]);
            }
        }
    }
}

/// Mutations keep every field readable back when each that sets or adds a
/// field names a field other than 0 with a value that fits a 64-bit length.
proof fn lemma_apply_all_roundtrips(fs: Seq<SpecRawField>, ms: Seq<SpecFieldMutation>)
    requires
        forall|i: int| 0 <= i < fs.len() ==> field_roundtrips(#[trigger] fs[i]),
        forall|j: int| 0 <= j < ms.len() ==> writes_readable_field(#[trigger] ms[j]),
    ensures
        forall|i: int|
            0 <= i < apply_all(fs, ms).len() ==> field_roundtrips(#[trigger] apply_all(fs, ms)[i]),
    decreases ms.len(),
{
    if ms.len() > 0 {
        lemma_apply_all_roundtrips(fs, ms.drop_last());
        assert(ms.drop_last().len() == ms.len() - 1);
        let last = ms.last();
        assert(ms[ms.len() - 1] == last);
        lemma_apply_mutation_roundtrips(apply_all(fs, ms.drop_last()), last);
    }
}

/// Decoding a mutated payload gives the decoded fields of the original with
/// the mutations applied in order, when every mutation that sets or adds a
/// field names a field other than 0 and every length fits 64 bits.
pub proof fn lemma_apply_mutations_reads_back(original: Seq<u8>, ms: Seq<SpecFieldMutation>)
    requires
        original.len() <= u64::MAX,
        forall|j: int| 0 <= j < ms.len() ==> writes_readable_field(#[trigger] ms[j]),
    ensures
        spec_decode_raw(spec_apply_mutations(original, ms)) == apply_all(
            spec_decode_raw(original),
            ms,
        ),
{
    lemma_decoded_fields_roundtrip(original);
    lemma_apply_all_roundtrips(spec_decode_raw(original), ms);
    lemma_decode_encode_fields(apply_all(spec_decode_raw(original), ms));
}

/// After a REMOVE, no field of that number is left.
pub proof fn lemma_remove_leaves_none(fs: Seq<SpecRawField>, m: SpecFieldMutation)
    requires
        m.operation == MUTATION_OP_REMOVE,
    ensures
        forall|i: int|
            0 <= i < apply_mutation(fs, m).len() ==> (#[trigger] apply_mutation(fs, m)[i]).field_number
                != m.field_number,
{
    broadcast use vstd::seq_lib::group_filter_ensures;
}

/// A SET leaves a field of that number holding the new value, and an ADD
/// appends one.
pub proof fn lemma_set_and_add_hold_value(fs: Seq<SpecRawField>, m: SpecFieldMutation)
    requires
        m.operation == MUTATION_OP_SET || m.operation == MUTATION_OP_ADD,
    ensures
        exists|i: int|
            0 <= i < apply_mutation(fs, m).len() && #[trigger] apply_mutation(fs, m)[i] == (
            SpecRawField {
                field_number: m.field_number,
                value: spec_bytes_to_raw_value(m.field_type, m.value),
            }),
        m.operation == MUTATION_OP_ADD ==> apply_mutation(fs, m).last() == (SpecRawField {
            field_number: m.field_number,
            value: spec_bytes_to_raw_value(m.field_type, m.value),
        }),
{
    lemma_find_field(fs, m.field_number, 0);
    let r = apply_mutation(fs, m);
    let nf = SpecRawField {
        field_number: m.field_number,
        value: spec_bytes_to_raw_value(m.field_type, m.value),
    };
    if m.operation == MUTATION_OP_SET {
        if let Some(i) = find_field(fs, m.field_number, 0) {
            assert(r[i as int] == nf);
        } else {
            assert(r[r.len() - 1] == nf);
        }
    } else {
        assert(r[r.len() - 1] == nf);
    }
}

} // verus!
