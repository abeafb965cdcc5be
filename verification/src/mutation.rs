//! The mutation engine: rules, their matching against messages, and the
//! responses that they produce.

use vstd::prelude::*;
use crate::proto::{
    copy_mutations, copy_strings, FieldCondition, FieldMutation, MutationRule,
    ProcessMessageRequest, ProcessMessageResponse, ProtoField, RuleMatch, SpecFieldCondition,
    SpecFieldMutation, SpecMutationRule, SpecProcessMessageRequest, SpecProtoField,
    CONDITION_OP_CONTAINS, CONDITION_OP_EQUALS, CONDITION_OP_EXISTS, CONDITION_OP_NOT_EQUALS,
    CONDITION_OP_NOT_EXISTS, DIRECTION_UNSPECIFIED, FIELD_TYPE_VARINT,
    RESPONSE_ACTION_CONTINUE, RESPONSE_ACTION_MUTATE_FIELDS, RESPONSE_ACTION_REJECT,
    RESPONSE_ACTION_REPLACE_BODY,
};
use crate::base64_text::{base64_decode, spec_base64_decode};
use crate::proto_encode::{encode_varint, spec_varint};
use crate::text::{decimal, decimal_string, text_equals, utf8_string};

verus! {

// ---------------------------------------------------------------------------
// Identifiers and time
// ---------------------------------------------------------------------------

/// A lowercase hexadecimal digit.
pub open spec fn is_lower_hex(c: char) -> bool {
    ('0' <= c && c <= '9') || ('a' <= c && c <= 'f')
}

/// The hyphenated lowercase text of a random (version 4) UUID.
pub open spec fn is_uuid_text(s: Seq<char>) -> bool {
    &&& s.len() == 36
    &&& forall|i: int|
        0 <= i < 36 ==> if i == 8 || i == 13 || i == 18 || i == 23 {
            s[i] == '-'
        } else {
            is_lower_hex(#[trigger] s[i])
        }
    &&& s[14] == '4'
    &&& (s[19] == '8' || s[19] == '9' || s[19] == 'a' || s[19] == 'b')
}

/// A fresh random rule identifier.
///
/// Calls `uuid::Uuid::new_v4` and formats the result with `to_string`; the
/// contract claims the shape of that text: 36 characters, hyphens at 8, 13,
/// 18 and 23, lowercase hexadecimal digits elsewhere, the version digit 4 and
/// the variant digit 8, 9, a or b. Which identifier comes back is left open.
#[verifier::external_body]
pub(crate) fn new_rule_id() -> (id: String)
    ensures
        is_uuid_text(id@),
{
    uuid::Uuid::new_v4().to_string()
}

/// A point in time of the system clock.
#[verifier::external_type_specification]
#[verifier::external_body]
pub struct ExSystemTime(std::time::SystemTime);

/// The error of a time that lies before the point it is measured from.
#[verifier::external_type_specification]
#[verifier::external_body]
pub struct ExSystemTimeError(std::time::SystemTimeError);

/// The current time of the system clock.
///
/// Calls `std::time::SystemTime::now`; nothing is claimed of the result.
#[verifier::external_body]
fn system_now() -> std::time::SystemTime {
    std::time::SystemTime::now()
}

/// The time elapsed from the Unix epoch to `t`, or an error when `t` lies
/// before it.
///
/// Calls `std::time::SystemTime::duration_since` with `UNIX_EPOCH`; nothing is
/// claimed of the result.
#[verifier::external_body]
fn since_unix_epoch(t: &std::time::SystemTime) -> Result<core::time::Duration, std::time::SystemTimeError> {
    t.duration_since(std::time::UNIX_EPOCH)
}

/// The whole seconds of a duration.
///
/// Calls `core::time::Duration::as_secs`; nothing is claimed of the result.
#[verifier::external_body]
fn whole_secs(d: &core::time::Duration) -> u64 {
    d.as_secs()
}

/// The current time in whole seconds since the Unix epoch, 0 if the clock is
/// before the epoch.
fn unix_time_secs() -> u64 {
    let now = system_now();
    match since_unix_epoch(&now) {
        Ok(d) => whole_secs(&d),
        Err(_) => 0,
    }
}

// ---------------------------------------------------------------------------
// Matching
// ---------------------------------------------------------------------------

/// Simple wildcard matching: a pattern ending in '*' matches every value that
/// starts with the rest of the pattern; any other pattern matches itself.
pub open spec fn spec_wildcard_match(pattern: Seq<char>, value: Seq<char>) -> bool {
    if pattern.len() > 0 && pattern.last() == '*' {
        let prefix = pattern.drop_last();
        prefix.len() <= value.len() && value.take(prefix.len() as int) == prefix
    } else {
        pattern == value
    }
}

/// Some pattern of the list matches the value.
pub open spec fn any_pattern_matches(ps: Seq<Seq<char>>, v: Seq<char>) -> bool {
    exists|i: int| 0 <= i < ps.len() && spec_wildcard_match(#[trigger] ps[i], v)
}

/// An empty pattern list matches everything; otherwise some pattern must match.
pub open spec fn patterns_allow(ps: Seq<Seq<char>>, v: Seq<char>) -> bool {
    ps.len() == 0 || any_pattern_matches(ps, v)
}

/// Simple wildcard matching (supports trailing '*' only, e.g. "mypackage.*").
pub fn wildcard_match(pattern: &str, value: &str) -> (r: bool)
    ensures
        r == spec_wildcard_match(pattern@, value@),
{
    let n = pattern.unicode_len();
    if n > 0 && pattern.get_char(n - 1) == '*' {
        let m = value.unicode_len();
        if n - 1 > m {
            return false;
        }
        let ghost prefix = pattern@.drop_last();
        let mut i: usize = 0;
        while i < n - 1
            invariant
                i <= n - 1,
                n == pattern@.len(),
                m == value@.len(),
                n - 1 <= m,
                prefix == pattern@.drop_last(),
                forall|j: int| 0 <= j < i ==> value@[j] == prefix[j],
            decreases n - 1 - i,
        {
            if pattern.get_char(i) != value.get_char(i) {
                assert(value@.take(prefix.len() as int)[i as int] != prefix[i as int]);
                return false;
            }
            i = i + 1;
        }
        assert(value@.take(prefix.len() as int) =~= prefix);
        true
    } else {
        text_equals(pattern, value)
    }
}

/// Whether the list allows the value: empty, or some pattern matches it.
fn patterns_match(patterns: &Vec<String>, value: &str) -> (r: bool)
    ensures
        r == patterns_allow(patterns.deep_view(), value@),
{
    if patterns.len() == 0 {
        return true;
    }
    let ghost ps = patterns.deep_view();
    let mut i: usize = 0;
    while i < patterns.len()
        invariant
            i <= patterns.len(),
            ps == patterns.deep_view(),
            forall|j: int| 0 <= j < i ==> !spec_wildcard_match(#[trigger] ps[j], value@),
        decreases patterns.len() - i,
    {
        if wildcard_match(patterns[i].as_str(), value) {
            assert(ps[i as int] == patterns[i as int]@);
            return true;
        }
        i = i + 1;
    }
    false
}

/// The index of the first field with the given number, searching from `i`.
pub open spec fn find_proto_field(fs: Seq<SpecProtoField>, n: u32, i: nat) -> Option<nat>
    decreases fs.len() - i,
{
    if i >= fs.len() {
        None
    } else if fs[i as int].field_number == n {
        Some(i)
    } else {
        find_proto_field(fs, n, i + 1)
    }
}

pub proof fn lemma_find_proto_field(fs: Seq<SpecProtoField>, n: u32, i: nat)
    ensures
        find_proto_field(fs, n, i) matches Some(j) ==> i <= j < fs.len() && fs[j as int].field_number
            == n,
    decreases fs.len() - i,
{
    if i < fs.len() && fs[i as int].field_number != n {
        lemma_find_proto_field(fs, n, i + 1);
    }
}

/// `needle` occurs as a contiguous run in `hay`.
pub open spec fn seq_contains<T>(hay: Seq<T>, needle: Seq<T>) -> bool {
    exists|k: int|
        0 <= k && k + needle.len() <= hay.len() && #[trigger] hay.subrange(k, k + needle.len())
            == needle
}

/// Containment as the condition tests it: as text when both sides are valid
/// UTF-8, as bytes otherwise.
pub open spec fn raw_contains(raw: Seq<u8>, needle: Seq<u8>) -> bool {
    if vstd::utf8::valid_utf8(raw) && vstd::utf8::valid_utf8(needle) {
        seq_contains(vstd::utf8::decode_utf8(raw), vstd::utf8::decode_utf8(needle))
    } else {
        seq_contains(raw, needle)
    }
}

/// Whether a field condition holds of the decoded fields, where the first
/// field of the condition's number is the one compared; an unknown operator
/// holds.
pub open spec fn spec_condition_matches(c: SpecFieldCondition, fs: Seq<SpecProtoField>) -> bool {
    let found = find_proto_field(fs, c.field_number, 0);
    if c.operator == CONDITION_OP_EXISTS {
        found is Some
    } else if c.operator == CONDITION_OP_NOT_EXISTS {
        found is None
    } else if c.operator == CONDITION_OP_EQUALS {
        match found {
            Some(i) => fs[i as int].raw_value == c.value,
            None => false,
        }
    } else if c.operator == CONDITION_OP_NOT_EQUALS {
        match found {
            Some(i) => fs[i as int].raw_value != c.value,
            None => true,
        }
    } else if c.operator == CONDITION_OP_CONTAINS {
        match found {
            Some(i) => raw_contains(fs[i as int].raw_value, c.value),
            None => false,
        }
    } else {
        true
    }
}

/// A containment test whose byte search would use windows of size 0: the
/// field is not valid UTF-8 and the condition's value is empty.
pub open spec fn condition_panics(c: SpecFieldCondition, fs: Seq<SpecProtoField>) -> bool {
    &&& c.operator == CONDITION_OP_CONTAINS
    &&& find_proto_field(fs, c.field_number, 0) matches Some(i)
    &&& !vstd::utf8::valid_utf8(fs[i as int].raw_value)
    &&& c.value.len() == 0
}

/// All conditions hold.
pub open spec fn conditions_hold(cs: Seq<SpecFieldCondition>, fs: Seq<SpecProtoField>) -> bool {
    forall|k: int| 0 <= k < cs.len() ==> spec_condition_matches(#[trigger] cs[k], fs)
}

/// Testing the conditions in order reaches one that cannot be tested.
pub open spec fn conditions_panic(cs: Seq<SpecFieldCondition>, fs: Seq<SpecProtoField>) -> bool
    decreases cs.len(),
{
    if cs.len() == 0 {
        false
    } else if condition_panics(cs[0], fs) {
        true
    } else if !spec_condition_matches(cs[0], fs) {
        false
    } else {
        conditions_panic(cs.drop_first(), fs)
    }
}

/// A rule matches a message: no criteria, or the direction, services, methods
/// and field conditions all allow it.
pub open spec fn spec_rule_matches(rule: SpecMutationRule, req: SpecProcessMessageRequest) -> bool {
    match rule.match_criteria {
        None => true,
        Some(mc) => {
            &&& (mc.direction == DIRECTION_UNSPECIFIED || mc.direction == req.direction)
            &&& patterns_allow(mc.services, req.service_name)
            &&& patterns_allow(mc.methods, req.method_name)
            &&& conditions_hold(mc.field_conditions, req.decoded_fields)
        },
    }
}

/// Matching the rule against the message reaches a condition that cannot be tested.
pub open spec fn rule_match_panics(rule: SpecMutationRule, req: SpecProcessMessageRequest) -> bool {
    match rule.match_criteria {
        None => false,
        Some(mc) => {
            &&& (mc.direction == DIRECTION_UNSPECIFIED || mc.direction == req.direction)
            &&& patterns_allow(mc.services, req.service_name)
            &&& patterns_allow(mc.methods, req.method_name)
            &&& conditions_panic(mc.field_conditions, req.decoded_fields)
        },
    }
}

/// The index of the first field with the given number.
fn find_proto_field_index(fields: &Vec<ProtoField>, n: u32) -> (r: Option<usize>)
    ensures
        match r {
            Some(j) => find_proto_field(fields.deep_view(), n, 0) == Some(j as nat),
            None => find_proto_field(fields.deep_view(), n, 0) is None,
        },
{
    let ghost fs = fields.deep_view();
    let mut i: usize = 0;
    while i < fields.len()
        invariant
            i <= fields.len(),
            fs == fields.deep_view(),
            find_proto_field(fs, n, 0) == find_proto_field(fs, n, i as nat),
        decreases fields.len() - i,
    {
        if fields[i].field_number == n {
            return Some(i);
        }
        i = i + 1;
    }
    None
}

/// Containment of a run of characters.
fn contains_chars(hay: &Vec<char>, needle: &Vec<char>) -> (r: bool)
    ensures
        r == seq_contains(hay@, needle@),
{
    if needle.len() > hay.len() {
        return false;
    }
    let last = hay.len() - needle.len();
    let mut k: usize = 0;
    while k <= last
        invariant
            last == hay@.len() - needle@.len(),
            k <= last,
            forall|j: int| 0 <= j < k ==> #[trigger] hay@.subrange(j, j + needle@.len()) != needle@,
        decreases last - k,
    {
        let mut i: usize = 0;
        let mut same = true;
        while i < needle.len()
            invariant
                i <= needle.len(),
                k + needle.len() <= hay.len(),
                same ==> forall|j: int| 0 <= j < i ==> hay@[k + j] == needle@[j],
                !same ==> hay@.subrange(k as int, k + needle@.len()) != needle@,
            decreases needle.len() - i,
        {
            if same && hay[k + i] != needle[i] {
                same = false;
                assert(hay@.subrange(k as int, k + needle@.len())[i as int] != needle@[i as int]);
            }
            i = i + 1;
        }
        if same {
            assert(hay@.subrange(k as int, k + needle@.len()) =~= needle@);
            return true;
        }
        if k == last {
            return false;
        }
        k = k + 1;
    }
    false
}

/// Containment of a run of bytes.
fn contains_bytes(hay: &[u8], needle: &[u8]) -> (r: bool)
    ensures
        r == seq_contains(hay@, needle@),
{
    if needle.len() > hay.len() {
        return false;
    }
    let last = hay.len() - needle.len();
    let mut k: usize = 0;
    while k <= last
        invariant
            last == hay@.len() - needle@.len(),
            k <= last,
            forall|j: int| 0 <= j < k ==> #[trigger] hay@.subrange(j, j + needle@.len()) != needle@,
        decreases last - k,
    {
        let mut i: usize = 0;
        let mut same = true;
        while i < needle.len()
            invariant
                i <= needle.len(),
                k + needle.len() <= hay.len(),
                same ==> forall|j: int| 0 <= j < i ==> hay@[k + j] == needle@[j],
                !same ==> hay@.subrange(k as int, k + needle@.len()) != needle@,
            decreases needle.len() - i,
        {
            if same && hay[k + i] != needle[i] {
                same = false;
                assert(hay@.subrange(k as int, k + needle@.len())[i as int] != needle@[i as int]);
            }
            i = i + 1;
        }
        if same {
            assert(hay@.subrange(k as int, k + needle@.len()) =~= needle@);
            return true;
        }
        if k == last {
            return false;
        }
        k = k + 1;
    }
    false
}

/// The characters of a text.
fn chars_of(s: &str) -> (r: Vec<char>)
    ensures
        r@ == s@,
{
    let n = s.unicode_len();
    let mut r: Vec<char> = Vec::new();
    let mut i: usize = 0;
    while i < n
        invariant
            i <= n,
            n == s@.len(),
            r@ =~= s@.take(i as int),
        decreases n - i,
    {
        r.push(s.get_char(i));
        i = i + 1;
    }
    assert(s@.take(n as int) =~= s@);
    r
}

fn field_condition_matches(condition: &FieldCondition, fields: &Vec<ProtoField>) -> (r: bool)
    requires
        !condition_panics(condition.deep_view(), fields.deep_view()),
    ensures
        r == spec_condition_matches(condition.deep_view(), fields.deep_view()),
{
    let ghost fs = fields.deep_view();
    let found = find_proto_field_index(fields, condition.field_number);
    proof {
        lemma_find_proto_field(fs, condition.field_number, 0);
    }
    let op = condition.operator;
    if op == CONDITION_OP_EXISTS {
        found.is_some()
    } else if op == CONDITION_OP_NOT_EXISTS {
        found.is_none()
    } else if op == CONDITION_OP_EQUALS {
        match found {
            Some(j) => crate::text::bytes_equal(fields[j].raw_value.as_slice(), condition.value.as_slice()),
            None => false,
        }
    } else if op == CONDITION_OP_NOT_EQUALS {
        match found {
            Some(j) => !crate::text::bytes_equal(fields[j].raw_value.as_slice(), condition.value.as_slice()),
            None => true,
        }
    } else if op == CONDITION_OP_CONTAINS {
        match found {
            Some(j) => {
                let raw = &fields[j].raw_value;
                let field_text = utf8_string(raw.clone());
                let cond_text = utf8_string(condition.value.clone());
                match (field_text, cond_text) {
                    (Some(ft), Some(ct)) => {
                        let hay = chars_of(ft.as_str());
                        let needle = chars_of(ct.as_str());
                        contains_chars(&hay, &needle)
                    },
                    _ => contains_bytes(raw.as_slice(), condition.value.as_slice()),
                }
            },
            None => false,
        }
    } else {
        true
    }
}

/// A condition in the middle of a list cannot be tested only if testing the
/// list reaches it.
proof fn lemma_conditions_panic_at(cs: Seq<SpecFieldCondition>, fs: Seq<SpecProtoField>, i: int)
    requires
        0 <= i < cs.len(),
        !conditions_panic(cs, fs),
        forall|k: int| 0 <= k < i ==> spec_condition_matches(#[trigger] cs[k], fs),
    ensures
        !condition_panics(cs[i], fs),
    decreases i,
{
    if i > 0 {
        assert(spec_condition_matches(cs[0], fs));
        let rest = cs.drop_first();
        assert forall|k: int| 0 <= k < i - 1 implies spec_condition_matches(#[trigger] rest[k], fs) by {
            assert(rest[k] == cs[k + 1]);
        }
        lemma_conditions_panic_at(rest, fs, i - 1);
    }
}

// ---------------------------------------------------------------------------
// Evaluation
// ---------------------------------------------------------------------------

/// The state of an evaluation after some rules: the action so far, the
/// mutations collected, the replacement body, and whether evaluation stopped.
pub struct EvalState {
    pub action: i32,
    pub mutations: Seq<SpecFieldMutation>,
    pub replaced_body: Seq<u8>,
    pub stopped: bool,
}

pub open spec fn eval_start() -> EvalState {
    EvalState {
        action: RESPONSE_ACTION_CONTINUE,
        mutations: seq![],
        replaced_body: seq![],
        stopped: false,
    }
}

/// One rule's effect: an enabled matching MUTATE_FIELDS rule adds its
/// mutations and turns CONTINUE into MUTATE_FIELDS; REPLACE_BODY sets the
/// body and REJECT rejects, and both stop the evaluation; other rules change
/// nothing.
pub open spec fn eval_step(st: EvalState, rule: SpecMutationRule, req: SpecProcessMessageRequest) -> EvalState {
    if st.stopped || !rule.enabled || !spec_rule_matches(rule, req) {
        st
    } else if rule.action == RESPONSE_ACTION_MUTATE_FIELDS {
        EvalState {
            mutations: st.mutations + rule.mutations,
            action: if st.action == RESPONSE_ACTION_CONTINUE {
                RESPONSE_ACTION_MUTATE_FIELDS
            } else {
                st.action
            },
            ..st
        }
    } else if rule.action == RESPONSE_ACTION_REPLACE_BODY {
        EvalState {
            replaced_body: rule.replace_body,
            action: RESPONSE_ACTION_REPLACE_BODY,
            stopped: true,
            ..st
        }
    } else if rule.action == RESPONSE_ACTION_REJECT {
        EvalState { action: RESPONSE_ACTION_REJECT, stopped: true, ..st }
    } else {
        st
    }
}

/// The state after evaluating the rules in order.
pub open spec fn eval_rules(rules: Seq<SpecMutationRule>, req: SpecProcessMessageRequest) -> EvalState
    decreases rules.len(),
{
    if rules.len() == 0 {
        eval_start()
    } else {
        eval_step(eval_rules(rules.drop_last(), req), rules.last(), req)
    }
}

/// Evaluating the rules in order reaches a rule whose matching cannot be completed.
pub open spec fn eval_panics(rules: Seq<SpecMutationRule>, req: SpecProcessMessageRequest) -> bool
    decreases rules.len(),
{
    if rules.len() == 0 {
        false
    } else {
        eval_panics(rules.drop_last(), req) || (!eval_rules(rules.drop_last(), req).stopped
            && rules.last().enabled && rule_match_panics(rules.last(), req))
    }
}

/// The bytes of a text, the placeholder values of dynamic mutations.
pub open spec fn placeholder(s: Seq<char>) -> Seq<u8> {
    vstd::utf8::encode_utf8(s)
}

/// The bytes that a timestamp placeholder becomes: a varint for a varint
/// field, decimal text otherwise.
pub open spec fn timestamp_value(field_type: i32, t: u64) -> Seq<u8> {
    if field_type == FIELD_TYPE_VARINT {
        spec_varint(t as nat)
    } else {
        vstd::utf8::encode_utf8(decimal(t as nat))
    }
}

/// The bytes that a timestamp placeholder becomes at the given time.
pub fn timestamp_bytes(field_type: i32, secs: u64) -> (b: Vec<u8>)
    ensures
        b@ == timestamp_value(field_type, secs),
{
    if field_type == FIELD_TYPE_VARINT {
        encode_varint(secs)
    } else {
        let text = decimal_string(secs);
        vstd::slice::slice_to_vec(text.as_str().as_bytes())
    }
}

/// `r` is `m` with a dynamic value resolved: "$uuid" becomes the text of a
/// random UUID, "$timestamp" the current time; other values stay.
pub open spec fn resolves_to(m: SpecFieldMutation, r: SpecFieldMutation) -> bool {
    &&& r.operation == m.operation
    &&& r.field_number == m.field_number
    &&& r.field_type == m.field_type
    &&& if m.value == placeholder("$uuid"@) {
        exists|s: Seq<char>| is_uuid_text(s) && r.value == #[trigger] vstd::utf8::encode_utf8(s)
    } else if m.value == placeholder("$timestamp"@) {
        exists|t: u64| r.value == #[trigger] timestamp_value(m.field_type, t)
    } else {
        r.value == m.value
    }
}

/// Each mutation of `rs` resolves the one of `ms` at its index.
pub open spec fn all_resolve(ms: Seq<SpecFieldMutation>, rs: Seq<SpecFieldMutation>) -> bool {
    ms.len() == rs.len() && forall|i: int| 0 <= i < ms.len() ==> resolves_to(#[trigger] ms[i], rs[i])
}

/// The name of the header that reports how many mutations a response carries.
pub open spec fn mutations_header() -> Seq<char> {
    "x-proto-mutations-applied"@
}

/// Resolve dynamic values in a mutation (e.g., UUID, timestamp).
fn resolve_mutation(m: &FieldMutation) -> (r: FieldMutation)
    ensures
        resolves_to(m.deep_view(), r.deep_view()),
{
    let mut resolved = m.duplicate();
    let uuid_tag = "$uuid".as_bytes();
    let timestamp_tag = "$timestamp".as_bytes();
    assert(uuid_tag@ == placeholder("$uuid"@));
    assert(timestamp_tag@ == placeholder("$timestamp"@));
    if crate::text::bytes_equal(m.value.as_slice(), uuid_tag) {
        let id = new_rule_id();
        resolved.value = vstd::slice::slice_to_vec(id.as_str().as_bytes());
        assert(resolved.deep_view().value == vstd::utf8::encode_utf8(id@));
        assert(is_uuid_text(id@));
        assert(exists|s: Seq<char>| is_uuid_text(s) && resolved.deep_view().value == #[trigger] vstd::utf8::encode_utf8(s));
        assert(resolves_to(m.deep_view(), resolved.deep_view()));
    } else if crate::text::bytes_equal(m.value.as_slice(), timestamp_tag) {
        let ts = unix_time_secs();
        resolved.value = timestamp_bytes(m.field_type, ts);
        assert(exists|t: u64| resolved.deep_view().value == #[trigger] timestamp_value(m.field_type, t));
        assert(m.deep_view().value != placeholder("$uuid"@));
        assert(m.deep_view().value == placeholder("$timestamp"@));
        assert(resolved.deep_view().operation == m.operation);
        assert(resolves_to(m.deep_view(), resolved.deep_view()));
    } else {
        assert(resolves_to(m.deep_view(), resolved.deep_view()));
    }
    resolved
}

/// Resolve dynamic values in mutations (e.g., UUID, timestamp).
fn resolve_mutations(mutations: &Vec<FieldMutation>, out: &mut Vec<FieldMutation>)
    ensures
        final(out).deep_view().len() == old(out).deep_view().len() + mutations.deep_view().len(),
        final(out).deep_view().take(old(out).deep_view().len() as int) == old(out).deep_view(),
        all_resolve(
            mutations.deep_view(),
            final(out).deep_view().skip(old(out).deep_view().len() as int),
        ),
{
    let ghost start = out.deep_view();
    let ghost ms = mutations.deep_view();
    let mut i: usize = 0;
    assert(out.deep_view().skip(start.len() as int) =~= seq![]);
    while i < mutations.len()
        invariant
            i <= mutations.len(),
            ms == mutations.deep_view(),
            out.deep_view().len() == start.len() + i,
            out.deep_view().take(start.len() as int) == start,
            all_resolve(ms.take(i as int), out.deep_view().skip(start.len() as int)),
        decreases mutations.len() - i,
    {
        let r = resolve_mutation(&mutations[i]);
        let ghost before = out.deep_view();
        out.push(r);
        proof {
            let after = out.deep_view();
            assert(after =~= before.push(r.deep_view()));
            assert(after.take(start.len() as int) =~= before.take(start.len() as int));
            let rs = after.skip(start.len() as int);
            let old_rs = before.skip(start.len() as int);
            assert(rs =~= old_rs.push(r.deep_view()));
            assert(ms.take(i + 1) =~= ms.take(i as int).push(ms[i as int]));
            assert forall|k: int| 0 <= k < i + 1 implies resolves_to(#[trigger] ms.take(i + 1)[k], rs[k]) by {
                if k < i {
                    assert(ms.take(i + 1)[k] == ms.take(i as int)[k]);
                    assert(rs[k] == old_rs[k]);
                }
            }
        }
        i = i + 1;
    }
    assert(ms.take(mutations.len() as int) =~= ms);
}

/// Once evaluation stops, later rules change nothing.
proof fn lemma_eval_stopped(rules: Seq<SpecMutationRule>, req: SpecProcessMessageRequest, i: int)
    requires
        0 <= i <= rules.len(),
        eval_rules(rules.take(i), req).stopped,
    ensures
        eval_rules(rules, req) == eval_rules(rules.take(i), req),
    decreases rules.len() - i,
{
    if i < rules.len() {
        assert(rules.drop_last().take(i) =~= rules.take(i));
        lemma_eval_stopped(rules.drop_last(), req, i);
    } else {
        assert(rules.take(i) =~= rules);
    }
}

/// A prefix that cannot be evaluated makes the whole list unevaluable.
proof fn lemma_eval_panics_prefix(rules: Seq<SpecMutationRule>, req: SpecProcessMessageRequest, i: int)
    requires
        0 <= i <= rules.len(),
        eval_panics(rules.take(i), req),
    ensures
        eval_panics(rules, req),
    decreases rules.len() - i,
{
    if i < rules.len() {
        assert(rules.drop_last().take(i) =~= rules.take(i));
        lemma_eval_panics_prefix(rules.drop_last(), req, i);
    } else {
        assert(rules.take(i) =~= rules);
    }
}

// ---------------------------------------------------------------------------
// Order of the rules
// ---------------------------------------------------------------------------

/// The first index from `i` on whose rule has a priority lower than `p`, or
/// the length.
pub open spec fn insert_position(s: Seq<SpecMutationRule>, p: i32, i: nat) -> nat
    decreases s.len() - i,
{
    if i >= s.len() {
        s.len()
    } else if s[i as int].priority < p {
        i
    } else {
        insert_position(s, p, i + 1)
    }
}

/// A rule placed before the first rule of lower priority, after all rules of
/// the same or higher priority.
pub open spec fn insert_by_priority(s: Seq<SpecMutationRule>, r: SpecMutationRule) -> Seq<
    SpecMutationRule,
> {
    s.insert(insert_position(s, r.priority, 0) as int, r)
}

/// The rules in order of decreasing priority; rules of equal priority keep
/// their order (a stable sort).
pub open spec fn sort_by_priority(s: Seq<SpecMutationRule>) -> Seq<SpecMutationRule>
    decreases s.len(),
{
    if s.len() == 0 {
        s
    } else {
        insert_by_priority(sort_by_priority(s.drop_last()), s.last())
    }
}

/// Priorities do not increase along the sequence.
pub open spec fn sorted_by_priority(s: Seq<SpecMutationRule>) -> bool {
    forall|i: int, j: int| 0 <= i < j < s.len() ==> s[i].priority >= s[j].priority
}

pub proof fn lemma_insert_position(s: Seq<SpecMutationRule>, p: i32, i: nat)
    requires
        i <= s.len(),
    ensures
        i <= insert_position(s, p, i) <= s.len(),
        forall|k: int| i <= k < insert_position(s, p, i) ==> s[k].priority >= p,
        insert_position(s, p, i) < s.len() ==> s[insert_position(s, p, i) as int].priority < p,
    decreases s.len() - i,
{
    if i < s.len() && s[i as int].priority >= p {
        lemma_insert_position(s, p, i + 1);
    }
}

/// Inserting into a sorted sequence keeps it sorted and adds the rule to its elements.
pub proof fn lemma_insert_by_priority(s: Seq<SpecMutationRule>, r: SpecMutationRule)
    ensures
        sorted_by_priority(s) ==> sorted_by_priority(insert_by_priority(s, r)),
        insert_by_priority(s, r).to_multiset() == s.to_multiset().insert(r),
        insert_by_priority(s, r).len() == s.len() + 1,
{
    let pos = insert_position(s, r.priority, 0);
    lemma_insert_position(s, r.priority, 0);
    s.insert_ensures(pos as int, r);
    broadcast use vstd::seq_lib::group_to_multiset_ensures;
    let t = insert_by_priority(s, r);
    if sorted_by_priority(s) {
        assert forall|i: int, j: int| 0 <= i < j < t.len() implies t[i].priority >= t[j].priority by {
            if j < pos {
            } else if j == pos {
            } else if i < pos {
                assert(t[j] == s[j - 1]);
            } else if i == pos {
                assert(t[j] == s[j - 1]);
                assert(s[pos as int].priority >= s[j - 1].priority);
            } else {
                assert(t[i] == s[i - 1]);
                assert(t[j] == s[j - 1]);
            }
        }
    }
}

/// Sorting gives a sorted sequence of the same rules.
pub proof fn lemma_sort_by_priority(s: Seq<SpecMutationRule>)
    ensures
        sorted_by_priority(sort_by_priority(s)),
        sort_by_priority(s).to_multiset() == s.to_multiset(),
        sort_by_priority(s).len() == s.len(),
    decreases s.len(),
{
    broadcast use vstd::seq_lib::group_to_multiset_ensures;
    if s.len() > 0 {
        lemma_sort_by_priority(s.drop_last());
        lemma_insert_by_priority(sort_by_priority(s.drop_last()), s.last());
        assert(s.drop_last().push(s.last()) =~= s);
    }
}

/// Inserting a rule before the first rule of lower priority.
fn insert_rule_by_priority(rules: &mut Vec<MutationRule>, rule: MutationRule)
    ensures
        final(rules).deep_view() == insert_by_priority(old(rules).deep_view(), rule.deep_view()),
{
    let ghost s = rules.deep_view();
    let p = rule.priority;
    let mut pos: usize = 0;
    while pos < rules.len() && !(rules[pos].priority < p)
        invariant
            pos <= rules.len(),
            s == rules.deep_view(),
            insert_position(s, p, 0) == insert_position(s, p, pos as nat),
        decreases rules.len() - pos,
    {
        pos = pos + 1;
    }
    let ghost r = rule.deep_view();
    rules.insert(pos, rule);
    assert(rules.deep_view() =~= s.insert(pos as int, r));
}

/// The rules in order of decreasing priority, keeping the order of rules of
/// equal priority.
fn sort_rules_by_priority(rules: &Vec<MutationRule>) -> (sorted: Vec<MutationRule>)
    ensures
        sorted.deep_view() == sort_by_priority(rules.deep_view()),
{
    let ghost s = rules.deep_view();
    let mut sorted: Vec<MutationRule> = Vec::new();
    let mut i: usize = 0;
    assert(s.take(0) =~= seq![]);
    assert(sorted.deep_view() =~= seq![]);
    while i < rules.len()
        invariant
            i <= rules.len(),
            s == rules.deep_view(),
            sorted.deep_view() == sort_by_priority(s.take(i as int)),
        decreases rules.len() - i,
    {
        assert(s.take(i + 1).drop_last() =~= s.take(i as int));
        assert(s.take(i + 1).last() == rules[i as int].deep_view());
        insert_rule_by_priority(&mut sorted, rules[i].duplicate());
        i = i + 1;
    }
    assert(s.take(rules.len() as int) =~= s);
    sorted
}

// ---------------------------------------------------------------------------
// Conversion of configured rules
// ---------------------------------------------------------------------------

/// The text of an optional string, empty when absent.
pub open spec fn text_or_empty(v: Option<String>) -> Seq<char> {
    match v {
        Some(s) => s@,
        None => ""@,
    }
}

/// A parsed unsigned number, 0 when the text does not parse.
pub open spec fn number_or_zero(s: Seq<char>, max: nat) -> nat {
    match crate::text::spec_parse_unsigned(s, max) {
        Some(v) => v,
        None => 0,
    }
}

pub open spec fn direction_code(d: Seq<char>) -> i32 {
    if d == "request"@ {
        crate::proto::DIRECTION_REQUEST
    } else if d == "response"@ {
        crate::proto::DIRECTION_RESPONSE
    } else {
        DIRECTION_UNSPECIFIED
    }
}

pub open spec fn action_code(a: Seq<char>) -> i32 {
    if a == "mutate_fields"@ {
        RESPONSE_ACTION_MUTATE_FIELDS
    } else if a == "replace_body"@ {
        RESPONSE_ACTION_REPLACE_BODY
    } else if a == "reject"@ {
        RESPONSE_ACTION_REJECT
    } else {
        RESPONSE_ACTION_CONTINUE
    }
}

pub open spec fn operator_code(o: Seq<char>) -> i32 {
    if o == "exists"@ {
        CONDITION_OP_EXISTS
    } else if o == "not_exists"@ {
        CONDITION_OP_NOT_EXISTS
    } else if o == "equals"@ {
        CONDITION_OP_EQUALS
    } else if o == "not_equals"@ {
        CONDITION_OP_NOT_EQUALS
    } else if o == "contains"@ {
        CONDITION_OP_CONTAINS
    } else {
        CONDITION_OP_EXISTS
    }
}

pub open spec fn operation_code(o: Seq<char>) -> i32 {
    if o == "set"@ {
        crate::proto::MUTATION_OP_SET
    } else if o == "add"@ {
        crate::proto::MUTATION_OP_ADD
    } else if o == "remove"@ {
        crate::proto::MUTATION_OP_REMOVE
    } else {
        crate::proto::MUTATION_OP_SET
    }
}

pub open spec fn field_type_code(t: Seq<char>) -> i32 {
    if t == "varint"@ {
        FIELD_TYPE_VARINT
    } else if t == "fixed64"@ {
        crate::proto::FIELD_TYPE_FIXED64
    } else if t == "fixed32"@ {
        crate::proto::FIELD_TYPE_FIXED32
    } else {
        crate::proto::FIELD_TYPE_LENGTH_DELIMITED
    }
}

/// The bytes of a static value: a varint, little-endian 32 or 64 bits of a
/// parsed number (0 if it does not parse), or the UTF-8 of the text.
pub open spec fn static_value(field_type: Seq<char>, raw: Seq<char>) -> Seq<u8> {
    if field_type == "varint"@ {
        spec_varint(number_or_zero(raw, u64::MAX as nat))
    } else if field_type == "fixed32"@ {
        crate::proto_encode::le_bytes32(number_or_zero(raw, u32::MAX as nat) as u32)
    } else if field_type == "fixed64"@ {
        crate::proto_encode::le_bytes64(number_or_zero(raw, u64::MAX as nat) as u64)
    } else {
        vstd::utf8::encode_utf8(raw)
    }
}

/// A configured mutation as a FieldMutation; dynamic sources become placeholders.
pub open spec fn spec_convert_mutation(cfg: crate::service_config::MutationConfig) -> SpecFieldMutation {
    SpecFieldMutation {
        operation: operation_code(cfg.operation@),
        field_number: cfg.field_number,
        field_type: field_type_code(cfg.field_type@),
        value: if cfg.value_source@ == "uuid"@ {
            placeholder("$uuid"@)
        } else if cfg.value_source@ == "timestamp"@ {
            placeholder("$timestamp"@)
        } else {
            static_value(cfg.field_type@, text_or_empty(cfg.value))
        },
    }
}

/// A configured field condition as a FieldCondition.
pub open spec fn spec_convert_condition(fc: crate::service_config::FieldConditionConfig) -> SpecFieldCondition {
    SpecFieldCondition {
        field_number: fc.field_number,
        operator: operator_code(fc.operator@),
        value: vstd::utf8::encode_utf8(text_or_empty(fc.value)),
    }
}

/// A configured rule as a MutationRule with the given identifier.
pub open spec fn spec_convert_rule(cfg: crate::service_config::RuleConfig, id: Seq<char>) -> SpecMutationRule {
    SpecMutationRule {
        id,
        name: cfg.name@,
        match_criteria: Some(
            crate::proto::SpecRuleMatch {
                services: cfg.match_criteria.services.deep_view(),
                methods: cfg.match_criteria.methods.deep_view(),
                direction: direction_code(cfg.match_criteria.direction@),
                field_conditions: cfg.match_criteria.field_conditions@.map_values(
                    |fc: crate::service_config::FieldConditionConfig| spec_convert_condition(fc),
                ),
            },
        ),
        action: action_code(cfg.action@),
        mutations: cfg.mutations@.map_values(
            |m: crate::service_config::MutationConfig| spec_convert_mutation(m),
        ),
        replace_body: match cfg.replace_body {
            Some(b) => replacement_bytes(b@),
            None => seq![],
        },
        priority: cfg.priority,
        enabled: cfg.enabled,
    }
}

/// A configured replacement body: the bytes its base64 text stands for, or,
/// when the text is not base64, the text's own bytes.
pub open spec fn replacement_bytes(text: Seq<char>) -> Seq<u8> {
    match spec_base64_decode(text) {
        Some(b) => b,
        None => vstd::utf8::encode_utf8(text),
    }
}

fn replacement_body(text: &str) -> (b: Vec<u8>)
    ensures
        b@ == replacement_bytes(text@),
{
    match base64_decode(text) {
        Some(b) => b,
        None => vstd::slice::slice_to_vec(text.as_bytes()),
    }
}

/// The configured rules converted with the given identifiers, in order.
pub open spec fn converted_rules(cfgs: Seq<crate::service_config::RuleConfig>, ids: Seq<Seq<char>>) -> Seq<SpecMutationRule> {
    Seq::new(cfgs.len(), |i: int| spec_convert_rule(cfgs[i], ids[i]))
}

fn convert_mutation_config(cfg: &crate::service_config::MutationConfig) -> (m: FieldMutation)
    ensures
        m.deep_view() == spec_convert_mutation(*cfg),
{
    let operation = if text_equals(cfg.operation.as_str(), "set") {
        crate::proto::MUTATION_OP_SET
    } else if text_equals(cfg.operation.as_str(), "add") {
        crate::proto::MUTATION_OP_ADD
    } else if text_equals(cfg.operation.as_str(), "remove") {
        crate::proto::MUTATION_OP_REMOVE
    } else {
        crate::proto::MUTATION_OP_SET
    };
    let ft = cfg.field_type.as_str();
    let field_type = if text_equals(ft, "varint") {
        FIELD_TYPE_VARINT
    } else if text_equals(ft, "fixed64") {
        crate::proto::FIELD_TYPE_FIXED64
    } else if text_equals(ft, "fixed32") {
        crate::proto::FIELD_TYPE_FIXED32
    } else {
        crate::proto::FIELD_TYPE_LENGTH_DELIMITED
    };
    let source = cfg.value_source.as_str();
    let value = if text_equals(source, "uuid") {
        vstd::slice::slice_to_vec("$uuid".as_bytes())
    } else if text_equals(source, "timestamp") {
        vstd::slice::slice_to_vec("$timestamp".as_bytes())
    } else {
        let raw: &str = match &cfg.value {
            Some(v) => v.as_str(),
            None => "",
        };
        if text_equals(ft, "varint") {
            let n: u64 = match crate::text::parse_unsigned(raw, u64::MAX) {
                Some(n) => n,
                None => 0,
            };
            encode_varint(n)
        } else if text_equals(ft, "fixed32") {
            let n: u64 = match crate::text::parse_unsigned(raw, 0xffff_ffff) {
                Some(n) => n,
                None => 0,
            };
            crate::proto_encode::u32_le_bytes(n as u32)
        } else if text_equals(ft, "fixed64") {
            let n: u64 = match crate::text::parse_unsigned(raw, u64::MAX) {
                Some(n) => n,
                None => 0,
            };
            crate::proto_encode::u64_le_bytes(n)
        } else {
            vstd::slice::slice_to_vec(raw.as_bytes())
        }
    };
    FieldMutation { operation, field_number: cfg.field_number, field_type, value }
}

fn convert_condition_config(fc: &crate::service_config::FieldConditionConfig) -> (c: FieldCondition)
    ensures
        c.deep_view() == spec_convert_condition(*fc),
{
    let op = fc.operator.as_str();
    let operator = if text_equals(op, "exists") {
        CONDITION_OP_EXISTS
    } else if text_equals(op, "not_exists") {
        CONDITION_OP_NOT_EXISTS
    } else if text_equals(op, "equals") {
        CONDITION_OP_EQUALS
    } else if text_equals(op, "not_equals") {
        CONDITION_OP_NOT_EQUALS
    } else if text_equals(op, "contains") {
        CONDITION_OP_CONTAINS
    } else {
        CONDITION_OP_EXISTS
    };
    let text: &str = match &fc.value {
        Some(v) => v.as_str(),
        None => "",
    };
    FieldCondition {
        field_number: fc.field_number,
        operator,
        value: vstd::slice::slice_to_vec(text.as_bytes()),
    }
}

/// Convert a configured rule into a MutationRule with the given identifier.
pub fn convert_rule_config_with_id(cfg: &crate::service_config::RuleConfig, id: String) -> (rule: MutationRule)
    ensures
        rule.deep_view() == spec_convert_rule(*cfg, id@),
{
    let d = cfg.match_criteria.direction.as_str();
    let direction = if text_equals(d, "request") {
        crate::proto::DIRECTION_REQUEST
    } else if text_equals(d, "response") {
        crate::proto::DIRECTION_RESPONSE
    } else {
        DIRECTION_UNSPECIFIED
    };
    let a = cfg.action.as_str();
    let action = if text_equals(a, "mutate_fields") {
        RESPONSE_ACTION_MUTATE_FIELDS
    } else if text_equals(a, "replace_body") {
        RESPONSE_ACTION_REPLACE_BODY
    } else if text_equals(a, "reject") {
        RESPONSE_ACTION_REJECT
    } else {
        RESPONSE_ACTION_CONTINUE
    };
    let ghost mcfgs = cfg.mutations@;
    let mut mutations: Vec<FieldMutation> = Vec::new();
    let mut i: usize = 0;
    while i < cfg.mutations.len()
        invariant
            i <= cfg.mutations.len(),
            mcfgs == cfg.mutations@,
            mutations.deep_view() =~= mcfgs.take(i as int).map_values(
                |m: crate::service_config::MutationConfig| spec_convert_mutation(m),
            ),
        decreases cfg.mutations.len() - i,
    {
        let m = convert_mutation_config(&cfg.mutations[i]);
        let ghost before = mutations.deep_view();
        mutations.push(m);
        assert(mutations.deep_view() =~= before.push(spec_convert_mutation(mcfgs[i as int])));
        assert(mcfgs.take(i + 1) =~= mcfgs.take(i as int).push(mcfgs[i as int]));
        i = i + 1;
    }
    assert(mcfgs.take(cfg.mutations.len() as int) =~= mcfgs);
    let ghost ccfgs = cfg.match_criteria.field_conditions@;
    let mut conditions: Vec<FieldCondition> = Vec::new();
    let mut j: usize = 0;
    while j < cfg.match_criteria.field_conditions.len()
        invariant
            j <= cfg.match_criteria.field_conditions.len(),
            ccfgs == cfg.match_criteria.field_conditions@,
            conditions.deep_view() =~= ccfgs.take(j as int).map_values(
                |fc: crate::service_config::FieldConditionConfig| spec_convert_condition(fc),
            ),
        decreases cfg.match_criteria.field_conditions.len() - j,
    {
        let c = convert_condition_config(&cfg.match_criteria.field_conditions[j]);
        let ghost before = conditions.deep_view();
        conditions.push(c);
        assert(conditions.deep_view() =~= before.push(spec_convert_condition(ccfgs[j as int])));
        assert(ccfgs.take(j + 1) =~= ccfgs.take(j as int).push(ccfgs[j as int]));
        j = j + 1;
    }
    assert(ccfgs.take(cfg.match_criteria.field_conditions.len() as int) =~= ccfgs);
    let replace_body = match &cfg.replace_body {
        Some(b) => replacement_body(b.as_str()),
        None => Vec::new(),
    };
    let rule = MutationRule {
        id,
        name: cfg.name.clone(),
        match_criteria: Some(
            RuleMatch {
                services: copy_strings(&cfg.match_criteria.services),
                methods: copy_strings(&cfg.match_criteria.methods),
                direction,
                field_conditions: conditions,
            },
        ),
        action,
        mutations,
        replace_body,
        priority: cfg.priority,
        enabled: cfg.enabled,
    };
    assert(rule.deep_view().replace_body =~= spec_convert_rule(*cfg, rule.id@).replace_body);
    rule
}

/// Convert a configured rule into a MutationRule with a fresh random identifier.
pub fn convert_rule_config(cfg: &crate::service_config::RuleConfig) -> (rule: MutationRule)
    ensures
        is_uuid_text(rule.id@),
        rule.deep_view() == spec_convert_rule(*cfg, rule.id@),
{
    convert_rule_config_with_id(cfg, new_rule_id())
}

/// The engine holds all rules and evaluates them against incoming messages.
pub struct MutationEngine {
    rules: Vec<MutationRule>,
}

impl MutationEngine {
    /// The rules are kept in order of decreasing priority.
    #[verifier::type_invariant]
    spec fn rules_in_order(self) -> bool {
        sorted_by_priority(self.rules.deep_view())
    }
}

impl View for MutationEngine {
    type V = Seq<SpecMutationRule>;

    closed spec fn view(&self) -> Seq<SpecMutationRule> {
        self.rules.deep_view()
    }
}

/// The response to a message: the evaluation's action and body, the resolved
/// mutations, and a header counting them when there are any.
pub open spec fn response_matches(
    r: crate::proto::SpecProcessMessageResponse,
    rules: Seq<SpecMutationRule>,
    req: SpecProcessMessageRequest,
) -> bool {
    let st = eval_rules(rules, req);
    &&& r.action == st.action
    &&& r.replaced_body == st.replaced_body
    &&& all_resolve(st.mutations, r.mutations)
    &&& r.headers_to_add == if st.mutations.len() > 0 {
        seq![(mutations_header(), decimal(st.mutations.len()))]
    } else {
        seq![]
    }
}

/// Whether a rule has an identifier other than `id`.
pub open spec fn other_id(id: Seq<char>) -> spec_fn(SpecMutationRule) -> bool {
    |r: SpecMutationRule| r.id != id
}

/// The index of the first rule with the identifier, searching from `i`.
pub open spec fn find_rule(s: Seq<SpecMutationRule>, id: Seq<char>, i: nat) -> Option<nat>
    decreases s.len() - i,
{
    if i >= s.len() {
        None
    } else if s[i as int].id == id {
        Some(i)
    } else {
        find_rule(s, id, i + 1)
    }
}

pub proof fn lemma_find_rule(s: Seq<SpecMutationRule>, id: Seq<char>, i: nat)
    ensures
        find_rule(s, id, i) matches Some(j) ==> i <= j < s.len() && s[j as int].id == id,
        find_rule(s, id, i) is None ==> forall|k: int| i <= k < s.len() ==> s[k].id != id,
    decreases s.len() - i,
{
    if i < s.len() && s[i as int].id != id {
        lemma_find_rule(s, id, i + 1);
    }
}

/// A rule as `add_rule` stores it: with the given identifier.
pub open spec fn with_id(rule: SpecMutationRule, id: Seq<char>) -> SpecMutationRule {
    SpecMutationRule { id, ..rule }
}

/// The index of the first rule with the identifier.
fn find_rule_index(rules: &Vec<MutationRule>, id: &str) -> (r: Option<usize>)
    ensures
        match r {
            Some(j) => find_rule(rules.deep_view(), id@, 0) == Some(j as nat),
            None => find_rule(rules.deep_view(), id@, 0) is None,
        },
{
    let ghost s = rules.deep_view();
    let mut i: usize = 0;
    while i < rules.len()
        invariant
            i <= rules.len(),
            s == rules.deep_view(),
            find_rule(s, id@, 0) == find_rule(s, id@, i as nat),
        decreases rules.len() - i,
    {
        if text_equals(rules[i].id.as_str(), id) {
            return Some(i);
        }
        i = i + 1;
    }
    None
}

impl MutationEngine {
    pub fn new() -> (engine: Self)
        ensures
            engine@ == Seq::<SpecMutationRule>::empty(),
            sorted_by_priority(engine@),
    {
        let engine = MutationEngine { rules: Vec::new() };
        assert(engine@ =~= Seq::<SpecMutationRule>::empty());
        engine
    }

    /// Whether evaluating the message would reach a contains-condition with an
    /// empty value on a field that is not valid UTF-8.
    pub fn evaluation_panics(&self, request: &ProcessMessageRequest) -> (r: bool)
        ensures
            r == eval_panics(self@, request.deep_view()),
    {
        let ghost rules = self@;
        let ghost req = request.deep_view();
        let mut stopped = false;
        let mut action: i32 = RESPONSE_ACTION_CONTINUE;
        let mut i: usize = 0;
        assert(rules.take(0) =~= seq![]);
        while i < self.rules.len()
            invariant
                i <= self.rules.len(),
                rules == self@,
                rules == self.rules.deep_view(),
                req == request.deep_view(),
                !eval_panics(rules.take(i as int), req),
                stopped == eval_rules(rules.take(i as int), req).stopped,
                action == eval_rules(rules.take(i as int), req).action,
            decreases self.rules.len() - i,
        {
            let rule = &self.rules[i];
            proof {
                assert(rules.take(i + 1).drop_last() =~= rules.take(i as int));
                assert(rules.take(i + 1).last() == rule.deep_view());
            }
            if !stopped && rule.enabled {
                if self.match_panics(rule, request) {
                    proof {
                        lemma_eval_panics_prefix(rules, req, i + 1);
                    }
                    return true;
                }
                if self.rule_matches(rule, request) {
                    if rule.action == RESPONSE_ACTION_MUTATE_FIELDS {
                        if action == RESPONSE_ACTION_CONTINUE {
                            action = RESPONSE_ACTION_MUTATE_FIELDS;
                        }
                    } else if rule.action == RESPONSE_ACTION_REPLACE_BODY {
                        action = RESPONSE_ACTION_REPLACE_BODY;
                        stopped = true;
                    } else if rule.action == RESPONSE_ACTION_REJECT {
                        action = RESPONSE_ACTION_REJECT;
                        stopped = true;
                    }
                }
            }
            i = i + 1;
        }
        assert(rules.take(self.rules.len() as int) =~= rules);
        false
    }

    /// Whether matching the rule against the message reaches a condition that
    /// cannot be tested.
    fn match_panics(&self, rule: &MutationRule, request: &ProcessMessageRequest) -> (r: bool)
        ensures
            r == rule_match_panics(rule.deep_view(), request.deep_view()),
    {
        let match_criteria = match &rule.match_criteria {
            None => return false,
            Some(m) => m,
        };
        if match_criteria.direction != DIRECTION_UNSPECIFIED && match_criteria.direction
            != request.direction {
            return false;
        }
        if !patterns_match(&match_criteria.services, request.service_name.as_str()) {
            return false;
        }
        if !patterns_match(&match_criteria.methods, request.method_name.as_str()) {
            return false;
        }
        let ghost cs = match_criteria.field_conditions.deep_view();
        let ghost fs = request.decoded_fields.deep_view();
        assert(cs.skip(0) =~= cs);
        let mut i: usize = 0;
        while i < match_criteria.field_conditions.len()
            invariant
                i <= match_criteria.field_conditions.len(),
                cs == match_criteria.field_conditions.deep_view(),
                fs == request.decoded_fields.deep_view(),
                conditions_panic(cs, fs) == conditions_panic(cs.skip(i as int), fs),
                rule.deep_view().match_criteria == Some(match_criteria.deep_view()),
                match_criteria.direction == DIRECTION_UNSPECIFIED || match_criteria.direction
                    == request.direction,
                patterns_allow(match_criteria.services.deep_view(), request.service_name@),
                patterns_allow(match_criteria.methods.deep_view(), request.method_name@),
            decreases match_criteria.field_conditions.len() - i,
        {
            let c = &match_criteria.field_conditions[i];
            let ghost rest = cs.skip(i as int);
            assert(rest[0] == c.deep_view());
            assert(rest.drop_first() =~= cs.skip(i + 1));
            let op = c.operator;
            if op == CONDITION_OP_CONTAINS && c.value.len() == 0 {
                let found = find_proto_field_index(&request.decoded_fields, c.field_number);
                proof {
                    lemma_find_proto_field(fs, c.field_number, 0);
                }
                if let Some(j) = found {
                    if utf8_string(request.decoded_fields[j].raw_value.clone()).is_none() {
                        assert(fs[j as int].raw_value == request.decoded_fields[j as int].raw_value@);
                        assert(condition_panics(rest[0], fs));
                        assert(conditions_panic(rest, fs));
                        return true;
                    }
                }
            }
            assert(!condition_panics(rest[0], fs));
            if !field_condition_matches(c, &request.decoded_fields) {
                assert(!conditions_panic(rest, fs));
                return false;
            }
            i = i + 1;
        }
        assert(cs.skip(i as int).len() == 0);
        false
    }

    /// Whether a rule matches a message.
    fn rule_matches(&self, rule: &MutationRule, request: &ProcessMessageRequest) -> (r: bool)
        requires
            !rule_match_panics(rule.deep_view(), request.deep_view()),
        ensures
            r == spec_rule_matches(rule.deep_view(), request.deep_view()),
    {
        let match_criteria = match &rule.match_criteria {
            None => return true,
            Some(m) => m,
        };
        if match_criteria.direction != DIRECTION_UNSPECIFIED && match_criteria.direction
            != request.direction {
            return false;
        }
        if !patterns_match(&match_criteria.services, request.service_name.as_str()) {
            return false;
        }
        if !patterns_match(&match_criteria.methods, request.method_name.as_str()) {
            return false;
        }
        let ghost cs = match_criteria.field_conditions.deep_view();
        let ghost fs = request.decoded_fields.deep_view();
        assert(!conditions_panic(cs, fs));
        let mut i: usize = 0;
        while i < match_criteria.field_conditions.len()
            invariant
                i <= match_criteria.field_conditions.len(),
                cs == match_criteria.field_conditions.deep_view(),
                fs == request.decoded_fields.deep_view(),
                !conditions_panic(cs, fs),
                forall|k: int| 0 <= k < i ==> spec_condition_matches(#[trigger] cs[k], fs),
                rule.deep_view().match_criteria == Some(match_criteria.deep_view()),
                match_criteria.direction == DIRECTION_UNSPECIFIED || match_criteria.direction
                    == request.direction,
                patterns_allow(match_criteria.services.deep_view(), request.service_name@),
                patterns_allow(match_criteria.methods.deep_view(), request.method_name@),
            decreases match_criteria.field_conditions.len() - i,
        {
            proof {
                lemma_conditions_panic_at(cs, fs, i as int);
            }
            let c = &match_criteria.field_conditions[i];
            assert(cs[i as int] == c.deep_view());
            if !field_condition_matches(c, &request.decoded_fields) {
                return false;
            }
            i = i + 1;
        }
        true
    }

    /// Evaluate all matching rules against a request and return the response.
    pub fn evaluate(&self, request: &ProcessMessageRequest) -> (response: ProcessMessageResponse)
        requires
            !eval_panics(self@, request.deep_view()),
        ensures
            response_matches(response.deep_view(), self@, request.deep_view()),
            crate::proto::distinct_keys(response.deep_view().headers_to_add),
    {
        let ghost rules = self@;
        let ghost req = request.deep_view();
        let mut all_mutations: Vec<FieldMutation> = Vec::new();
        let mut action: i32 = RESPONSE_ACTION_CONTINUE;
        let mut replaced_body: Vec<u8> = Vec::new();
        let mut i: usize = 0;
        assert(rules.take(0) =~= seq![]);
        assert(all_mutations.deep_view() =~= seq![]);
        loop
            invariant_except_break
                !eval_rules(rules.take(i as int), req).stopped,
            invariant
                i <= self.rules.len(),
                rules == self@,
                rules == self.rules.deep_view(),
                req == request.deep_view(),
                !eval_panics(rules, req),
                action == eval_rules(rules.take(i as int), req).action,
                replaced_body@ == eval_rules(rules.take(i as int), req).replaced_body,
                all_resolve(eval_rules(rules.take(i as int), req).mutations, all_mutations.deep_view()),
            ensures
                eval_rules(rules, req) == eval_rules(rules.take(i as int), req),
            decreases self.rules.len() - i,
        {
            if i >= self.rules.len() {
                assert(rules.take(i as int) =~= rules);
                break;
            }
            let rule = &self.rules[i];
            let ghost st = eval_rules(rules.take(i as int), req);
            proof {
                assert(rules.take(i + 1).drop_last() =~= rules.take(i as int));
                assert(rules.take(i + 1).last() == rule.deep_view());
                assert(rules[i as int] == rule.deep_view());
                if rule.enabled && rule_match_panics(rule.deep_view(), req) {
                    lemma_eval_panics_prefix(rules, req, i + 1);
                }
            }
            i = i + 1;
            if !rule.enabled {
                continue;
            }
            if !self.rule_matches(rule, request) {
                continue;
            }
            if rule.action == RESPONSE_ACTION_MUTATE_FIELDS {
                let ghost before = all_mutations.deep_view();
                resolve_mutations(&rule.mutations, &mut all_mutations);
                proof {
                    let after = all_mutations.deep_view();
                    let ms = st.mutations + rule.mutations.deep_view();
                    assert(after.take(before.len() as int) == before);
                    assert(after =~= before + after.skip(before.len() as int));
                    assert forall|k: int| 0 <= k < ms.len() implies resolves_to(#[trigger] ms[k], after[k]) by {
                        if k < st.mutations.len() {
                            assert(after[k] == before[k]);
                        } else {
                            let j = k - st.mutations.len();
                            assert(ms[k] == rule.mutations.deep_view()[j]);
                            assert(after[k] == after.skip(before.len() as int)[j]);
                        }
                    }
                }
                if action == RESPONSE_ACTION_CONTINUE {
                    action = RESPONSE_ACTION_MUTATE_FIELDS;
                }
            } else if rule.action == RESPONSE_ACTION_REPLACE_BODY {
                replaced_body = rule.replace_body.clone();
                action = RESPONSE_ACTION_REPLACE_BODY;
                proof {
                    lemma_eval_stopped(rules, req, i as int);
                }
                break;
            } else if rule.action == RESPONSE_ACTION_REJECT {
                action = RESPONSE_ACTION_REJECT;
                proof {
                    lemma_eval_stopped(rules, req, i as int);
                }
                break;
            }
        }
        let mut headers_to_add: Vec<(String, String)> = Vec::new();
        if all_mutations.len() > 0 {
            let name = String::from_str("x-proto-mutations-applied");
            let count = decimal_string(all_mutations.len() as u64);
            headers_to_add.push((name, count));
        }
        let response = ProcessMessageResponse {
            action,
            mutations: all_mutations,
            replaced_body,
            headers_to_add,
        };
        assert(response.deep_view().headers_to_add =~= (if eval_rules(rules, req).mutations.len() > 0 {
            seq![(mutations_header(), decimal(eval_rules(rules, req).mutations.len()))]
        } else {
            seq![]
        }));
        response
    }

    /// Build the engine from a service configuration.
    pub fn from_config(config: &crate::service_config::ServiceConfig) -> (engine: Self)
        ensures
            exists|ids: Seq<Seq<char>>|
                {
                    &&& ids.len() == config.rules@.len()
                    &&& forall|i: int| 0 <= i < ids.len() ==> is_uuid_text(#[trigger] ids[i])
                    &&& engine@ == sort_by_priority(converted_rules(config.rules@, ids))
                },
            sorted_by_priority(engine@),
    {
        let ghost cfgs = config.rules@;
        let ghost mut ids: Seq<Seq<char>> = seq![];
        let mut rules: Vec<MutationRule> = Vec::new();
        let mut i: usize = 0;
        assert(rules.deep_view() =~= converted_rules(cfgs.take(0), ids));
        while i < config.rules.len()
            invariant
                i <= config.rules.len(),
                cfgs == config.rules@,
                ids.len() == i,
                forall|k: int| 0 <= k < ids.len() ==> is_uuid_text(#[trigger] ids[k]),
                rules.deep_view() == converted_rules(cfgs.take(i as int), ids),
            decreases config.rules.len() - i,
        {
            let rule = convert_rule_config(&config.rules[i]);
            let ghost before = rules.deep_view();
            proof {
                ids = ids.push(rule.id@);
            }
            rules.push(rule);
            assert(rules.deep_view() =~= converted_rules(cfgs.take(i + 1), ids)) by {
                assert(rules.deep_view() =~= before.push(rule.deep_view()));
                assert forall|k: int| 0 <= k < i implies #[trigger] converted_rules(cfgs.take(i + 1), ids)[k] == before[k] by {
                    assert(before[k] == spec_convert_rule(cfgs.take(i as int)[k], ids.drop_last()[k]));
                }
            }
            i = i + 1;
        }
        assert(cfgs.take(config.rules.len() as int) =~= cfgs);
        let sorted = sort_rules_by_priority(&rules);
        proof {
            lemma_sort_by_priority(rules.deep_view());
        }
        MutationEngine { rules: sorted }
    }

    // ---- Rule management (used by admin service) ----

    pub fn list_rules(&self) -> (rules: Vec<MutationRule>)
        ensures
            rules.deep_view() == self@,
            sorted_by_priority(rules.deep_view()),
    {
        proof {
            use_type_invariant(self);
        }
        let mut rules: Vec<MutationRule> = Vec::new();
        let mut i: usize = 0;
        while i < self.rules.len()
            invariant
                i <= self.rules.len(),
                rules.deep_view() =~= self.rules.deep_view().take(i as int),
            decreases self.rules.len() - i,
        {
            let ghost before = rules.deep_view();
            rules.push(self.rules[i].duplicate());
            assert(rules.deep_view() =~= before.push(self.rules.deep_view()[i as int]));
            assert(self.rules.deep_view().take(i + 1) =~= self.rules.deep_view().take(i as int).push(
                self.rules.deep_view()[i as int],
            ));
            i = i + 1;
        }
        assert(self.rules.deep_view().take(self.rules.len() as int) =~= self.rules.deep_view());
        rules
    }

    /// Add a rule, giving it a fresh random identifier when it has none, and
    /// return its identifier.
    pub fn add_rule(&mut self, rule: MutationRule) -> (id: String)
        ensures
            rule.id@.len() != 0 ==> id@ == rule.id@,
            rule.id@.len() == 0 ==> is_uuid_text(id@),
            final(self)@ == sort_by_priority(old(self)@.push(with_id(rule.deep_view(), id@))),
            sorted_by_priority(final(self)@),
            final(self)@.to_multiset() == old(self)@.to_multiset().insert(
                with_id(rule.deep_view(), id@),
            ),
    {
        let mut rule = rule;
        let ghost original = rule.deep_view();
        if rule.id.as_str().is_empty() {
            rule.id = new_rule_id();
        }
        let id = rule.id.clone();
        assert(rule.deep_view() == with_id(original, id@));
        let ghost old_rules = self.rules.deep_view();
        let mut rules: Vec<MutationRule> = Vec::new();
        core::mem::swap(&mut rules, &mut self.rules);
        rules.push(rule);
        assert(rules.deep_view() =~= old_rules.push(with_id(original, id@)));
        proof {
            lemma_sort_by_priority(old_rules.push(with_id(original, id@)));
            broadcast use vstd::seq_lib::group_to_multiset_ensures;
        }
        self.rules = sort_rules_by_priority(&rules);
        id
    }

    /// Remove every rule with the identifier; true when one was removed.
    pub fn remove_rule(&mut self, rule_id: &str) -> (found: bool)
        ensures
            final(self)@ == old(self)@.filter(other_id(rule_id@)),
            found == (final(self)@.len() < old(self)@.len()),
            sorted_by_priority(final(self)@),
    {
        proof {
            use_type_invariant(&*self);
        }
        let ghost s = self.rules.deep_view();
        let len_before = self.rules.len();
        let mut kept: Vec<MutationRule> = Vec::new();
        let mut i: usize = 0;
        assert(s.take(0) =~= seq![]);
        proof {
            reveal_with_fuel(Seq::filter, 1);
        }
        assert(kept.deep_view() =~= s.take(0).filter(other_id(rule_id@)));
        while i < self.rules.len()
            invariant
                i <= self.rules.len(),
                s == self.rules.deep_view(),
                kept.deep_view() == s.take(i as int).filter(other_id(rule_id@)),
            decreases self.rules.len() - i,
        {
            let ghost before = kept.deep_view();
            proof {
                assert(s.take(i + 1).drop_last() =~= s.take(i as int));
                assert(s.take(i + 1).last() == s[i as int]);
                reveal_with_fuel(Seq::filter, 1);
            }
            if !text_equals(self.rules[i].id.as_str(), rule_id) {
                kept.push(self.rules[i].duplicate());
                assert(kept.deep_view() =~= before.push(s[i as int]));
            }
            i = i + 1;
        }
        assert(s.take(self.rules.len() as int) =~= s);
        proof {
            s.lemma_filter_len(other_id(rule_id@));
            lemma_filter_keeps_order(s, other_id(rule_id@));
        }
        self.rules = kept;
        self.rules.len() < len_before
    }

    /// Replace the first rule with the same identifier; true when there was one.
    pub fn update_rule(&mut self, rule: MutationRule) -> (found: bool)
        ensures
            match find_rule(old(self)@, rule.id@, 0) {
                Some(i) => found && final(self)@ == sort_by_priority(
                    old(self)@.update(i as int, rule.deep_view()),
                ),
                None => !found && final(self)@ == old(self)@,
            },
            sorted_by_priority(final(self)@),
    {
        proof {
            use_type_invariant(&*self);
        }
        let ghost s = self.rules.deep_view();
        let pos = find_rule_index(&self.rules, rule.id.as_str());
        proof {
            lemma_find_rule(s, rule.id@, 0);
        }
        match pos {
            Some(j) => {
                let ghost r = rule.deep_view();
                let mut rules: Vec<MutationRule> = Vec::new();
                core::mem::swap(&mut rules, &mut self.rules);
                rules.set(j, rule);
                assert(rules.deep_view() =~= s.update(j as int, r));
                proof {
                    lemma_sort_by_priority(s.update(j as int, r));
                }
                self.rules = sort_rules_by_priority(&rules);
                true
            },
            None => false,
        }
    }
}

// ---------------------------------------------------------------------------
// Laws
// ---------------------------------------------------------------------------

/// Keeping only some of the rules keeps them in order.
pub proof fn lemma_filter_keeps_order(s: Seq<SpecMutationRule>, p: spec_fn(SpecMutationRule) -> bool)
    requires
        sorted_by_priority(s),
    ensures
        sorted_by_priority(s.filter(p)),
    decreases s.len(),
{
    reveal_with_fuel(Seq::filter, 1);
    if s.len() > 0 {
        let t = s.drop_last();
        assert(sorted_by_priority(t));
        lemma_filter_keeps_order(t, p);
        if p(s.last()) {
            let f = t.filter(p);
            assert forall|i: int| 0 <= i < f.len() implies f[i].priority >= s.last().priority by {
                assert(f.contains(f[i]));
                t.lemma_filter_contains_rev(p, f[i]);
                let k = choose|k: int| 0 <= k < t.len() && t[k] == f[i];
                assert(s[k] == t[k]);
            }
        }
    }
}

/// Sorting rules that are already in order changes nothing.
pub proof fn lemma_sort_sorted_is_identity(s: Seq<SpecMutationRule>)
    requires
        sorted_by_priority(s),
    ensures
        sort_by_priority(s) == s,
    decreases s.len(),
{
    if s.len() > 0 {
        let t = s.drop_last();
        assert(sorted_by_priority(t));
        lemma_sort_sorted_is_identity(t);
        lemma_insert_position(t, s.last().priority, 0);
        let pos = insert_position(t, s.last().priority, 0);
        if pos < t.len() {
            assert(t[pos as int] == s[pos as int]);
        }
        assert(pos == t.len());
        assert(t.insert(t.len() as int, s.last()) =~= s);
    }
}

/// Keeping only the elements that satisfy a predicate that all of them satisfy keeps all.
proof fn lemma_filter_all(s: Seq<SpecMutationRule>, p: spec_fn(SpecMutationRule) -> bool)
    requires
        forall|i: int| 0 <= i < s.len() ==> p(#[trigger] s[i]),
    ensures
        s.filter(p) == s,
    decreases s.len(),
{
    reveal(Seq::filter);
    if s.len() > 0 {
        lemma_filter_all(s.drop_last(), p);
        assert(p(s[s.len() - 1]));
        assert(s.drop_last().push(s.last()) =~= s);
    }
}

/// Removing a rule right after adding it to rules in order, under an
/// identifier that none of them has, gives the rules back.
pub proof fn lemma_add_then_remove(s: Seq<SpecMutationRule>, r: SpecMutationRule)
    requires
        sorted_by_priority(s),
        forall|i: int| 0 <= i < s.len() ==> (#[trigger] s[i]).id != r.id,
    ensures
        sort_by_priority(s.push(r)).filter(other_id(r.id)) == s,
{
    let p = other_id(r.id);
    assert(s.push(r).drop_last() =~= s);
    lemma_sort_sorted_is_identity(s);
    let pos = insert_position(s, r.priority, 0);
    lemma_insert_position(s, r.priority, 0);
    let front = s.take(pos as int);
    let back = s.skip(pos as int);
    assert(s.insert(pos as int, r) =~= front.push(r) + back);
    Seq::filter_distributes_over_add(front.push(r), back, p);
    reveal_with_fuel(Seq::filter, 1);
    assert(front.push(r).drop_last() =~= front);
    assert forall|i: int| 0 <= i < front.len() implies p(#[trigger] front[i]) by {
        assert(front[i] == s[i]);
    }
    assert forall|i: int| 0 <= i < back.len() implies p(#[trigger] back[i]) by {
        assert(back[i] == s[i + pos]);
    }
    lemma_filter_all(front, p);
    lemma_filter_all(back, p);
    assert(front + back =~= s);
}

/// A list holding the pattern "*" lets every value through, and so does an empty list.
pub proof fn lemma_star_matches_all(ps: Seq<Seq<char>>, v: Seq<char>)
    requires
        ps.len() == 0 || exists|i: int| 0 <= i < ps.len() && #[trigger] ps[i] == seq!['*'],
    ensures
        patterns_allow(ps, v),
{
    if ps.len() > 0 {
        let i = choose|i: int| 0 <= i < ps.len() && #[trigger] ps[i] == seq!['*'];
        assert(ps[i].drop_last() =~= seq![]);
        assert(v.take(0) =~= seq![]);
        assert(spec_wildcard_match(ps[i], v));
    }
}

/// A pattern without a trailing '*' lets exactly the equal value through.
pub proof fn lemma_exact_pattern(pattern: Seq<char>, v: Seq<char>)
    ensures
        pattern == v ==> spec_wildcard_match(pattern, v),
{
    if pattern == v && pattern.len() > 0 && pattern.last() == '*' {
        assert(v.take(pattern.drop_last().len() as int) =~= pattern.drop_last());
    }
}

/// An enabled matching rule that rejects or replaces the body decides the
/// outcome: the rules after it change nothing.
pub proof fn lemma_stopping_rule_is_final(
    rules: Seq<SpecMutationRule>,
    req: SpecProcessMessageRequest,
    i: int,
)
    requires
        0 <= i < rules.len(),
        !eval_rules(rules.take(i), req).stopped,
        rules[i].enabled,
        spec_rule_matches(rules[i], req),
        rules[i].action == RESPONSE_ACTION_REJECT || rules[i].action == RESPONSE_ACTION_REPLACE_BODY,
    ensures
        eval_rules(rules, req) == eval_step(eval_rules(rules.take(i), req), rules[i], req),
        eval_rules(rules, req).action == rules[i].action,
        eval_rules(rules, req).mutations == eval_rules(rules.take(i), req).mutations,
{
    assert(rules.take(i + 1).drop_last() =~= rules.take(i));
    assert(rules.take(i + 1).last() == rules[i]);
    lemma_eval_stopped(rules, req, i + 1);
}

/// A rule with criteria matches a message only if every one of its field
/// conditions, at every position of the list, holds of the message's decoded
/// fields; a rule with a failing condition anywhere does not match.
pub proof fn lemma_match_needs_every_condition(
    rule: SpecMutationRule,
    req: SpecProcessMessageRequest,
    k: int,
)
    requires
        rule.match_criteria is Some,
        0 <= k < rule.match_criteria->0.field_conditions.len(),
    ensures
        spec_rule_matches(rule, req) ==> spec_condition_matches(
            rule.match_criteria->0.field_conditions[k],
            req.decoded_fields,
        ),
        !spec_condition_matches(rule.match_criteria->0.field_conditions[k], req.decoded_fields)
            ==> !spec_rule_matches(rule, req),
{
}

/// The field conditions in terms of the decoded fields: EXISTS holds exactly
/// when some field has the number and NOT_EXISTS exactly when none has; EQUALS
/// holds exactly when the first field with the number (every earlier field
/// having another number) holds the value, and NOT_EQUALS exactly when there
/// is no such field or it holds another value.
pub proof fn lemma_condition_operators(c: SpecFieldCondition, fs: Seq<SpecProtoField>)
    ensures
        c.operator == CONDITION_OP_EXISTS ==> (spec_condition_matches(c, fs) <==> exists|i: int|
            0 <= i < fs.len() && (#[trigger] fs[i]).field_number == c.field_number),
        c.operator == CONDITION_OP_NOT_EXISTS ==> (spec_condition_matches(c, fs) <==> forall|i: int|
            0 <= i < fs.len() ==> (#[trigger] fs[i]).field_number != c.field_number),
        c.operator == CONDITION_OP_EQUALS ==> (spec_condition_matches(c, fs) <==> exists|i: int|
            0 <= i < fs.len() && (#[trigger] fs[i]).field_number == c.field_number && (forall|j: int|
                0 <= j < i ==> (#[trigger] fs[j]).field_number != c.field_number) && fs[i].raw_value
                == c.value),
        c.operator == CONDITION_OP_NOT_EQUALS ==> (spec_condition_matches(c, fs) <==> !exists|i: int|
            0 <= i < fs.len() && (#[trigger] fs[i]).field_number == c.field_number && (forall|j: int|
                0 <= j < i ==> (#[trigger] fs[j]).field_number != c.field_number) && fs[i].raw_value
                == c.value),
{
    lemma_find_proto_field_first(fs, c.field_number, 0);
}

/// The first field with a number: found exactly when some field from `i` on
/// has it, and then at the lowest such index.
proof fn lemma_find_proto_field_first(fs: Seq<SpecProtoField>, n: u32, i: nat)
    ensures
        find_proto_field(fs, n, i) matches Some(j) ==> i <= j < fs.len() && fs[j as int].field_number
            == n && forall|k: int| i <= k < j ==> fs[k].field_number != n,
        find_proto_field(fs, n, i) is None ==> forall|k: int| i <= k < fs.len() ==> fs[k].field_number
            != n,
    decreases fs.len() - i,
{
    if i < fs.len() && fs[i as int].field_number != n {
        lemma_find_proto_field_first(fs, n, i + 1);
    }
}

/// A rule configured for the "response" direction converts to the response
/// direction and matches no message of another direction, requests included;
/// a rule configured for "request" matches no message of another direction.
pub proof fn lemma_configured_direction_restricts(
    cfg: crate::service_config::RuleConfig,
    id: Seq<char>,
    req: SpecProcessMessageRequest,
)
    ensures
        cfg.match_criteria.direction@ == "response"@ ==> spec_convert_rule(cfg, id).match_criteria->0.direction
            == crate::proto::DIRECTION_RESPONSE,
        cfg.match_criteria.direction@ == "response"@ && req.direction != crate::proto::DIRECTION_RESPONSE
            ==> !spec_rule_matches(spec_convert_rule(cfg, id), req),
        cfg.match_criteria.direction@ == "request"@ ==> spec_convert_rule(cfg, id).match_criteria->0.direction
            == crate::proto::DIRECTION_REQUEST,
        cfg.match_criteria.direction@ == "request"@ && req.direction != crate::proto::DIRECTION_REQUEST
            ==> !spec_rule_matches(spec_convert_rule(cfg, id), req),
{
    reveal_strlit("request");
    reveal_strlit("response");
    assert("request"@ != "response"@) by {
        assert("request"@[2] != "response"@[2]);
    }
}

/// Disabled rules and rules that do not match change nothing.
pub proof fn lemma_inactive_rule_changes_nothing(
    st: EvalState,
    rule: SpecMutationRule,
    req: SpecProcessMessageRequest,
)
    requires
        !rule.enabled || !spec_rule_matches(rule, req),
    ensures
        eval_step(st, rule, req) == st,
{
}

} // verus!
