//! Human-readable rendering of raw protobuf values, as the decoder's debug
//! output shows them.

use vstd::prelude::*;
use crate::proto_decode::{decode_raw, spec_decode_raw, spec_parse_field, lemma_parse_field_len, RawField, RawValue, SpecRawField, SpecRawValue};
use crate::text::{decimal, digit_char, push_char, push_decimal, push_text, utf8_string};

verus! {

/// The Debug rendering of a string: quoted, with escapes.
pub uninterp spec fn str_debug(s: Seq<char>) -> Seq<char>;

/// Renders a string as `{:?}` does.
///
/// Calls std's `Debug` formatting of `str` through `format!`; the contract
/// names its result, which depends on the string alone.
#[verifier::external_body]
fn debug_quoted(s: &str) -> (r: String)
    ensures
        r@ == str_debug(s@),
{
    format!("{:?}", s)
}

/// A control character (Unicode general category Cc).
pub open spec fn is_control(c: char) -> bool {
    (c as u32) <= 0x1f || (0x7f <= (c as u32) && (c as u32) <= 0x9f)
}

/// Text without control characters other than newline and tab.
pub open spec fn printable_text(cs: Seq<char>) -> bool {
    forall|i: int| 0 <= i < cs.len() ==> !is_control(#[trigger] cs[i]) || cs[i] == '\n' || cs[i] == '\t'
}

/// A lowercase hexadecimal digit.
pub open spec fn hex_digit(d: nat) -> char {
    if d < 10 {
        digit_char(d)
    } else if d == 10 {
        'a'
    } else if d == 11 {
        'b'
    } else if d == 12 {
        'c'
    } else if d == 13 {
        'd'
    } else if d == 14 {
        'e'
    } else {
        'f'
    }
}

/// A byte as two lowercase hexadecimal digits.
pub open spec fn hex_byte(b: u8) -> Seq<char> {
    seq![hex_digit((b / 16) as nat), hex_digit((b % 16) as nat)]
}

/// Bytes as two-digit hexadecimal numbers separated by ", ".
pub open spec fn hex_items(bs: Seq<u8>) -> Seq<char>
    decreases bs.len(),
{
    if bs.len() == 0 {
        seq![]
    } else if bs.len() == 1 {
        hex_byte(bs[0])
    } else {
        hex_items(bs.drop_last()) + ", "@ + hex_byte(bs.last())
    }
}

/// A nested decode looks plausible: some fields, all numbered between 1 and 9999.
pub open spec fn spec_nested_looks_valid(fs: Seq<SpecRawField>) -> bool {
    fs.len() > 0 && forall|i: int|
        0 <= i < fs.len() ==> 0 < (#[trigger] fs[i]).field_number && fs[i].field_number < 10000
}

/// The rendering of a fixed-width or varint value.
pub open spec fn scalar_debug(v: SpecRawValue) -> Seq<char> {
    match v {
        SpecRawValue::Varint(n) => "varint("@ + decimal(n as nat) + ")"@,
        SpecRawValue::Fixed64(n) => "fixed64("@ + decimal(n as nat) + ")"@,
        SpecRawValue::Fixed32(n) => "fixed32("@ + decimal(n as nat) + ")"@,
        SpecRawValue::LengthDelimited(_) => seq![],
    }
}

/// Every length-delimited value in `fs` is shorter than `bound`.
pub open spec fn values_shorter(fs: Seq<SpecRawField>, bound: nat) -> bool {
    forall|i: int|
        0 <= i < fs.len() ==> ((#[trigger] fs[i]).value matches SpecRawValue::LengthDelimited(c)
            ==> c.len() < bound)
}

/// The rendering of a length-delimited value: printable UTF-8 text as a quoted
/// string, a plausible nested message as its fields, anything else as its
/// length and the hexadecimal of its first 32 bytes.
pub open spec fn spec_bytes_debug(b: Seq<u8>) -> Seq<char>
    decreases b.len(), 1nat, 0nat,
{
    if vstd::utf8::valid_utf8(b) && printable_text(vstd::utf8::decode_utf8(b)) {
        "string("@ + str_debug(vstd::utf8::decode_utf8(b)) + ")"@
    } else {
        let nested = spec_decode_raw(b);
        if spec_nested_looks_valid(nested) {
            proof {
                lemma_decode_values_shorter(b);
            }
            "message(["@ + spec_field_items(b, nested) + "])"@
        } else {
            let shown = if b.len() <= 32 {
                b
            } else {
                b.take(32)
            };
            "bytes("@ + decimal(b.len()) + " bytes: ["@ + hex_items(shown) + "])"@
        }
    }
}

/// The fields of a nested message, rendered as `RawField { .. }` items
/// separated by ", ".
pub open spec fn spec_field_items(parent: Seq<u8>, fs: Seq<SpecRawField>) -> Seq<char>
    decreases parent.len(), 0nat, fs.len(),
{
    if !values_shorter(fs, parent.len()) || fs.len() == 0 {
        seq![]
    } else {
        let f = fs.last();
        let shown = match f.value {
            SpecRawValue::LengthDelimited(c) => spec_bytes_debug(c),
            _ => scalar_debug(f.value),
        };
        let item = "RawField { field_number: "@ + decimal(f.field_number as nat) + ", value: "@
            + shown + " }"@;
        if fs.len() == 1 {
            item
        } else {
            spec_field_items(parent, fs.drop_last()) + ", "@ + item
        }
    }
}

/// The rendering of a raw value.
pub open spec fn spec_value_debug(v: SpecRawValue) -> Seq<char> {
    match v {
        SpecRawValue::LengthDelimited(b) => spec_bytes_debug(b),
        _ => scalar_debug(v),
    }
}

/// The length-delimited values of a decoded message are shorter than the message.
pub proof fn lemma_decode_values_shorter(s: Seq<u8>)
    ensures
        values_shorter(spec_decode_raw(s), s.len()),
    decreases s.len(),
{
    let fs = spec_decode_raw(s);
    if s.len() > 0 {
        if let Some((f, n)) = spec_parse_field(s) {
            lemma_parse_field_len(s);
            lemma_decode_values_shorter(s.skip(n as int));
            assert forall|i: int| 0 <= i < fs.len() implies ((#[trigger] fs[i]).value matches SpecRawValue::LengthDelimited(c)
                ==> c.len() < s.len()) by {
                if i > 0 {
                    assert(fs[i] == spec_decode_raw(s.skip(n as int))[i - 1]);
                }
            }
        }
    }
}

/// Check if a nested decode looks plausible (consumed most bytes, reasonable field numbers).
fn nested_looks_valid(_original: &[u8], fields: &[RawField]) -> (r: bool)
    ensures
        r == spec_nested_looks_valid(fields@.map_values(|f: RawField| f@)),
{
    let ghost fs = fields@.map_values(|f: RawField| f@);
    if fields.len() == 0 {
        return false;
    }
    let mut i: usize = 0;
    while i < fields.len()
        invariant
            i <= fields.len(),
            fs == fields@.map_values(|f: RawField| f@),
            forall|j: int| 0 <= j < i ==> 0 < (#[trigger] fs[j]).field_number && fs[j].field_number < 10000,
        decreases fields.len() - i,
    {
        let n = fields[i].field_number;
        if !(n > 0 && n < 10000) {
            assert(fs[i as int].field_number == n);
            return false;
        }
        i = i + 1;
    }
    true
}

pub(crate) fn hex_char(d: u8) -> (c: char)
    requires
        d < 16,
    ensures
        c == hex_digit(d as nat),
{
    if d < 10 {
        if d == 0 { '0' } else if d == 1 { '1' } else if d == 2 { '2' } else if d == 3 { '3' }
        else if d == 4 { '4' } else if d == 5 { '5' } else if d == 6 { '6' } else if d == 7 { '7' }
        else if d == 8 { '8' } else { '9' }
    } else if d == 10 {
        'a'
    } else if d == 11 {
        'b'
    } else if d == 12 {
        'c'
    } else if d == 13 {
        'd'
    } else if d == 14 {
        'e'
    } else {
        'f'
    }
}

/// Appends bytes as two-digit hexadecimal numbers separated by ", ".
fn push_hex_items(out: &mut String, bs: &[u8])
    ensures
        final(out)@ == old(out)@ + hex_items(bs@),
{
    let ghost start = out@;
    let mut i: usize = 0;
    assert(bs@.take(0) =~= seq![]);
    while i < bs.len()
        invariant
            i <= bs.len(),
            out@ == start + hex_items(bs@.take(i as int)),
        decreases bs.len() - i,
    {
        let ghost before = out@;
        assert(bs@.take(i + 1).drop_last() =~= bs@.take(i as int));
        if i > 0 {
            push_text(out, ", ");
        }
        let b = bs[i];
        push_char(out, hex_char(b / 16));
        push_char(out, hex_char(b % 16));
        assert(out@ =~= start + hex_items(bs@.take(i + 1)));
        i = i + 1;
    }
    assert(bs@.take(bs.len() as int) =~= bs@);
}

/// Whether the text holds no control character but newline and tab.
fn is_printable(s: &str) -> (r: bool)
    ensures
        r == printable_text(s@),
{
    let n = s.unicode_len();
    let mut i: usize = 0;
    while i < n
        invariant
            i <= n,
            n == s@.len(),
            forall|j: int| 0 <= j < i ==> !is_control(#[trigger] s@[j]) || s@[j] == '\n' || s@[j] == '\t',
        decreases n - i,
    {
        let c = s.get_char(i);
        let code = c as u32;
        if (code <= 0x1f || (0x7f <= code && code <= 0x9f)) && c != '\n' && c != '\t' {
            return false;
        }
        i = i + 1;
    }
    true
}

/// Appends the rendering of a fixed-width or varint value.
fn push_scalar_debug(out: &mut String, v: &RawValue)
    requires
        !(v@ is LengthDelimited),
    ensures
        final(out)@ == old(out)@ + scalar_debug(v@),
{
    match v {
        RawValue::Varint(n) => {
            push_text(out, "varint(");
            push_decimal(out, *n);
        },
        RawValue::Fixed64(n) => {
            push_text(out, "fixed64(");
            push_decimal(out, *n);
        },
        RawValue::Fixed32(n) => {
            push_text(out, "fixed32(");
            push_decimal(out, *n as u64);
        },
        RawValue::LengthDelimited(_) => {},
    }
    push_text(out, ")");
}

/// Appends the rendering of text, given its quoted form.
pub fn push_string_debug(out: &mut String, quoted: &str)
    ensures
        final(out)@ == old(out)@ + "string("@ + quoted@ + ")"@,
{
    push_text(out, "string(");
    push_text(out, quoted);
    push_text(out, ")");
}

/// Appends the rendering of a length-delimited value.
fn push_bytes_debug(out: &mut String, b: &[u8])
    ensures
        final(out)@ == old(out)@ + spec_bytes_debug(b@),
    decreases b@.len(), 1nat,
{
    let ghost start = out@;
    if let Some(text) = utf8_string(vstd::slice::slice_to_vec(b)) {
        if is_printable(text.as_str()) {
            let quoted = debug_quoted(text.as_str());
            push_string_debug(out, quoted.as_str());
            return;
        }
    }
    let nested = decode_raw(b);
    if nested_looks_valid(b, nested.as_slice()) {
        proof {
            lemma_decode_values_shorter(b@);
            assert(nested@.map_values(|f: RawField| f@) =~= nested.deep_view());
        }
        push_text(out, "message([");
        push_field_items(out, b, &nested);
        push_text(out, "])");
        return;
    }
    proof {
        assert(nested@.map_values(|f: RawField| f@) =~= nested.deep_view());
    }
    let shown_len: usize = if b.len() <= 32 { b.len() } else { 32 };
    let shown = &b[0..shown_len];
    assert(shown@ =~= if b@.len() <= 32 { b@ } else { b@.take(32) });
    push_text(out, "bytes(");
    push_decimal(out, b.len() as u64);
    push_text(out, " bytes: [");
    push_hex_items(out, shown);
    push_text(out, "])");
}

/// Appends the rendering of the fields of a nested message.
#[verifier::rlimit(40)]
fn push_field_items(out: &mut String, parent: &[u8], fields: &Vec<RawField>)
    requires
        values_shorter(fields.deep_view(), parent@.len()),
    ensures
        final(out)@ == old(out)@ + spec_field_items(parent@, fields.deep_view()),
    decreases parent@.len(), 0nat,
{
    let ghost fs = fields.deep_view();
    let ghost start = out@;
    let mut i: usize = 0;
    assert(fs.take(0) =~= seq![]);
    while i < fields.len()
        invariant
            i <= fields.len(),
            fs == fields.deep_view(),
            values_shorter(fs, parent@.len()),
            out@ == start + spec_field_items(parent@, fs.take(i as int)),
        decreases fields.len() - i,
    {
        let field = &fields[i];
        let ghost sub = fs.take(i + 1);
        assert(sub.drop_last() =~= fs.take(i as int));
        assert(sub.last() == field@);
        assert(values_shorter(sub, parent@.len()));
        assert(values_shorter(sub.drop_last(), parent@.len()));
        if i > 0 {
            push_text(out, ", ");
        }
        push_text(out, "RawField { field_number: ");
        push_decimal(out, field.field_number as u64);
        push_text(out, ", value: ");
        match &field.value {
            RawValue::LengthDelimited(c) => {
                assert(fs[i as int].value matches SpecRawValue::LengthDelimited(cc) ==> cc.len() < parent@.len());
                push_bytes_debug(out, c.as_slice());
            },
            _ => {
                push_scalar_debug(out, &field.value);
            },
        }
        push_text(out, " }");
        assert(out@ =~= start + spec_field_items(parent@, sub));
        i = i + 1;
    }
    assert(fs.take(fields.len() as int) =~= fs);
}

impl RawValue {
    /// The human-readable rendering of the value: `varint(150)`,
    /// `string("text")`, `message([...])` or `bytes(n bytes: [..])`.
    pub fn debug_text(&self) -> (s: String)
        ensures
            s@ == spec_value_debug(self@),
    {
        let mut out = String::new();
        match self {
            RawValue::LengthDelimited(b) => push_bytes_debug(&mut out, b.as_slice()),
            _ => push_scalar_debug(&mut out, self),
        }
        assert(out@ =~= spec_value_debug(self@));
        out
    }
}

/// The rendering of a message's decoded fields as a list.
pub open spec fn spec_fields_text(data: Seq<u8>) -> Seq<char> {
    "["@ + spec_field_items(data, spec_decode_raw(data)) + "]"@
}

/// Renders the decoded fields of a message as a list, as `{:?}` shows a
/// vector of fields.
pub fn decoded_fields_text(data: &[u8]) -> (s: String)
    ensures
        s@ == spec_fields_text(data@),
{
    let fields = decode_raw(data);
    proof {
        lemma_decode_values_shorter(data@);
    }
    let mut out = String::new();
    push_text(&mut out, "[");
    push_field_items(&mut out, data, &fields);
    push_text(&mut out, "]");
    assert(out@ =~= spec_fields_text(data@));
    out
}

} // verus!
