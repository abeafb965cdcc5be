//! gRPC request paths and the length-prefixed message framing of gRPC bodies.

use vstd::prelude::*;
use crate::text::text_equals;

verus! {

/// The index of the first `c` in `s` at or after `i`.
pub open spec fn first_index_of(s: Seq<char>, c: char, i: nat) -> Option<nat>
    decreases s.len() - i,
{
    if i >= s.len() {
        None
    } else if s[i as int] == c {
        Some(i)
    } else {
        first_index_of(s, c, i + 1)
    }
}

/// The service and method of a path "/service/method": a leading slash, then
/// the text up to the next slash and the text after it, both non-empty.
pub open spec fn spec_parse_grpc_path(p: Seq<char>) -> Option<(Seq<char>, Seq<char>)> {
    if p.len() >= 1 && p[0] == '/' {
        let rest = p.drop_first();
        match first_index_of(rest, '/', 0) {
            Some(k) => {
                let service = rest.take(k as int);
                let method = rest.skip(k + 1 as int);
                if service.len() > 0 && method.len() > 0 {
                    Some((service, method))
                } else {
                    None
                }
            },
            None => None,
        }
    } else {
        None
    }
}

pub proof fn lemma_first_index_of(s: Seq<char>, c: char, i: nat)
    ensures
        first_index_of(s, c, i) matches Some(j) ==> i <= j < s.len() && s[j as int] == c
            && forall|k: int| i <= k < j ==> s[k] != c,
        first_index_of(s, c, i) is None ==> forall|k: int| i <= k < s.len() ==> s[k] != c,
    decreases s.len() - i,
{
    if i < s.len() && s[i as int] != c {
        lemma_first_index_of(s, c, i + 1);
    }
}

/// Parse a gRPC path like "/package.ServiceName/MethodName" into (service, method).
pub fn parse_grpc_path(path: &str) -> (r: Option<(&str, &str)>)
    ensures
        match r {
            Some((service, method)) => spec_parse_grpc_path(path@) == Some((service@, method@)),
            None => spec_parse_grpc_path(path@) is None,
        },
{
    let n = path.unicode_len();
    if n == 0 || path.get_char(0) != '/' {
        return None;
    }
    let ghost rest = path@.drop_first();
    let mut j: usize = 1;
    while j < n
        invariant
            1 <= j <= n,
            n == path@.len(),
            rest == path@.drop_first(),
            path@[0] == '/',
            first_index_of(rest, '/', 0) == first_index_of(rest, '/', (j - 1) as nat),
        decreases n - j,
    {
        if path.get_char(j) == '/' {
            assert(rest[j - 1] == '/');
            assert(first_index_of(rest, '/', (j - 1) as nat) == Some((j - 1) as nat));
            if j == 1 || j + 1 == n {
                assert(rest.take(j - 1).len() == 0 || rest.skip(j as int).len() == 0);
                return None;
            }
            let service = path.substring_char(1, j);
            let method = path.substring_char(j + 1, n);
            assert(service@ =~= rest.take(j - 1));
            assert(method@ =~= rest.skip(j as int));
            return Some((service, method));
        }
        j = j + 1;
    }
    None
}

/// A big-endian 32-bit value from four bytes.
pub open spec fn spec_be_u32(s: Seq<u8>) -> u32 {
    ((s[0] as u32) << 24u32) | ((s[1] as u32) << 16u32) | ((s[2] as u32) << 8u32) | (s[3] as u32)
}

/// Big-endian bytes of a 32-bit value.
pub open spec fn be_bytes32(v: u32) -> Seq<u8> {
    seq![((v >> 24u32) & 0xff) as u8, ((v >> 16u32) & 0xff) as u8, ((v >> 8u32) & 0xff) as u8, (v & 0xff) as u8]
}

/// The uncompressed payloads of the gRPC frames at the start of a body: each
/// frame is a compressed flag, a big-endian 32-bit length and that many bytes;
/// compressed frames are skipped, and reading stops at a frame that runs past
/// the end.
pub open spec fn spec_grpc_frames(s: Seq<u8>) -> Seq<Seq<u8>>
    decreases s.len(),
{
    if s.len() < 5 {
        seq![]
    } else {
        let len = spec_be_u32(s.subrange(1, 5)) as int;
        if len > s.len() - 5 {
            seq![]
        } else {
            let rest = spec_grpc_frames(s.skip(5 + len));
            if s[0] == 0 {
                seq![s.subrange(5, 5 + len)] + rest
            } else {
                rest
            }
        }
    }
}

/// An uncompressed gRPC frame around a payload; the length field keeps the low
/// 32 bits of the payload's length.
pub open spec fn spec_grpc_frame(payload: Seq<u8>) -> Seq<u8> {
    seq![0u8] + be_bytes32((payload.len() % 0x1_0000_0000) as u32) + payload
}

/// The frames of a list of payloads, one after the other.
pub open spec fn spec_grpc_frames_of(ps: Seq<Seq<u8>>) -> Seq<u8>
    decreases ps.len(),
{
    if ps.len() == 0 {
        seq![]
    } else {
        spec_grpc_frame(ps[0]) + spec_grpc_frames_of(ps.drop_first())
    }
}

/// The big-endian bytes of a value read back as that value.
pub proof fn lemma_be32_roundtrip(v: u32)
    ensures
        spec_be_u32(be_bytes32(v)) == v,
{
    let s = be_bytes32(v);
    let b0 = s[0];
    let b1 = s[1];
    let b2 = s[2];
    let b3 = s[3];
    assert(((b0 as u32) << 24u32) | ((b1 as u32) << 16u32) | ((b2 as u32) << 8u32) | (b3 as u32)
        == v) by (bit_vector)
        requires
            b0 == ((v >> 24u32) & 0xff) as u8,
            b1 == ((v >> 16u32) & 0xff) as u8,
            b2 == ((v >> 8u32) & 0xff) as u8,
            b3 == (v & 0xff) as u8,
    ;
}

/// Reading the frames of a body that starts with a frame gives its payload,
/// then the frames of the rest.
pub proof fn lemma_grpc_frame_roundtrip(p: Seq<u8>, rest: Seq<u8>)
    requires
        p.len() <= u32::MAX,
    ensures
        spec_grpc_frames(spec_grpc_frame(p) + rest) == seq![p] + spec_grpc_frames(rest),
{
    let s = spec_grpc_frame(p) + rest;
    lemma_be32_roundtrip(p.len() as u32);
    assert(s.subrange(1, 5) =~= be_bytes32(p.len() as u32));
    assert(s.subrange(5, 5 + p.len() as int) =~= p);
    assert(s.skip(5 + p.len() as int) =~= rest);
}

/// Reading the frames of a body made of frames gives back the payloads.
pub proof fn lemma_grpc_frames_roundtrip(ps: Seq<Seq<u8>>)
    requires
        forall|i: int| 0 <= i < ps.len() ==> (#[trigger] ps[i]).len() <= u32::MAX,
    ensures
        spec_grpc_frames(spec_grpc_frames_of(ps)) == ps,
    decreases ps.len(),
{
    if ps.len() == 0 {
        assert(spec_grpc_frames_of(ps) =~= seq![]);
    } else {
        assert(ps[0].len() <= u32::MAX);
        lemma_grpc_frame_roundtrip(ps[0], spec_grpc_frames_of(ps.drop_first()));
        lemma_grpc_frames_roundtrip(ps.drop_first());
        assert(seq![ps[0]] + ps.drop_first() =~= ps);
    }
}

/// A gRPC frame with the given compressed flag around a payload.
pub open spec fn flagged_frame(flag: u8, payload: Seq<u8>) -> Seq<u8> {
    seq![flag] + be_bytes32((payload.len() % 0x1_0000_0000) as u32) + payload
}

/// The frames of a list of (flag, payload) pairs, one after the other.
pub open spec fn flagged_frames_of(fs: Seq<(u8, Seq<u8>)>) -> Seq<u8>
    decreases fs.len(),
{
    if fs.len() == 0 {
        seq![]
    } else {
        flagged_frame(fs[0].0, fs[0].1) + flagged_frames_of(fs.drop_first())
    }
}

/// The payloads of the pairs whose flag is 0, in order.
pub open spec fn uncompressed_payloads(fs: Seq<(u8, Seq<u8>)>) -> Seq<Seq<u8>>
    decreases fs.len(),
{
    if fs.len() == 0 {
        seq![]
    } else if fs[0].0 == 0 {
        seq![fs[0].1] + uncompressed_payloads(fs.drop_first())
    } else {
        uncompressed_payloads(fs.drop_first())
    }
}

/// Bytes that do not hold a whole frame: fewer than five, or a length that
/// runs past the end.
pub open spec fn incomplete_frame(t: Seq<u8>) -> bool {
    t.len() < 5 || spec_be_u32(t.subrange(1, 5)) > t.len() - 5
}

/// Reading the frames of a body that starts with a frame gives its payload
/// when the frame is uncompressed, and nothing when it is compressed, then the
/// frames of the rest.
pub proof fn lemma_flagged_frame_roundtrip(flag: u8, p: Seq<u8>, rest: Seq<u8>)
    requires
        p.len() <= u32::MAX,
    ensures
        spec_grpc_frames(flagged_frame(flag, p) + rest) == if flag == 0 {
            seq![p] + spec_grpc_frames(rest)
        } else {
            spec_grpc_frames(rest)
        },
{
    let s = flagged_frame(flag, p) + rest;
    lemma_be32_roundtrip(p.len() as u32);
    assert(s.subrange(1, 5) =~= be_bytes32(p.len() as u32));
    assert(s.subrange(5, 5 + p.len() as int) =~= p);
    assert(s.skip(5 + p.len() as int) =~= rest);
}

/// Reading the frames of a body made of frames, compressed or not, followed by
/// bytes that hold no whole frame, gives the payloads of the uncompressed
/// frames in order.
pub proof fn lemma_grpc_frames_with_flags_and_tail(fs: Seq<(u8, Seq<u8>)>, tail: Seq<u8>)
    requires
        forall|i: int| 0 <= i < fs.len() ==> (#[trigger] fs[i]).1.len() <= u32::MAX,
        incomplete_frame(tail),
    ensures
        spec_grpc_frames(flagged_frames_of(fs) + tail) == uncompressed_payloads(fs),
    decreases fs.len(),
{
    if fs.len() == 0 {
        assert(flagged_frames_of(fs) + tail =~= tail);
    } else {
        assert(fs[0].1.len() <= u32::MAX);
        let rest = fs.drop_first();
        assert forall|i: int| 0 <= i < rest.len() implies (#[trigger] rest[i]).1.len() <= u32::MAX by {
            assert(rest[i] == fs[i + 1]);
        }
        lemma_grpc_frames_with_flags_and_tail(rest, tail);
        lemma_flagged_frame_roundtrip(fs[0].0, fs[0].1, flagged_frames_of(rest) + tail);
        assert(flagged_frames_of(fs) + tail =~= flagged_frame(fs[0].0, fs[0].1) + (
        flagged_frames_of(rest) + tail));
    }
}

/// The payloads that a list of slices views.
pub open spec fn slices_view(v: Seq<&[u8]>) -> Seq<Seq<u8>> {
    v.map_values(|f: &[u8]| f@)
}

/// Parse gRPC length-prefixed frames from a body buffer.
///
/// Each frame is:
///   - 1 byte: compressed flag (0 = uncompressed, 1 = compressed)
///   - 4 bytes: message length (big-endian u32)
///   - N bytes: protobuf payload
///
/// Returns a Vec of the raw protobuf payloads (skipping compressed frames).
pub fn parse_grpc_frames(data: &[u8]) -> (frames: Vec<&[u8]>)
    ensures
        slices_view(frames@) == spec_grpc_frames(data@),
{
    let mut frames: Vec<&[u8]> = Vec::new();
    let mut offset: usize = 0;
    assert(data@.skip(0) =~= data@);
    loop
        invariant
            offset <= data.len(),
            slices_view(frames@) + spec_grpc_frames(data@.skip(offset as int)) == spec_grpc_frames(
                data@,
            ),
        decreases data.len() - offset,
    {
        let ghost s = data@.skip(offset as int);
        if data.len() - offset < 5 {
            assert(slices_view(frames@) + seq![] =~= slices_view(frames@));
            return frames;
        }
        let compressed: u8 = data[offset];
        let b0 = data[offset + 1];
        let b1 = data[offset + 2];
        let b2 = data[offset + 3];
        let b3 = data[offset + 4];
        let length32: u32 = ((b0 as u32) << 24) | ((b1 as u32) << 16) | ((b2 as u32) << 8) | (
        b3 as u32);
        assert(s.subrange(1, 5) =~= seq![b0, b1, b2, b3]);
        assert(length32 == spec_be_u32(s.subrange(1, 5)));
        let length: usize = length32 as usize;
        let start: usize = offset + 5;
        if length > data.len() - start {
            assert(slices_view(frames@) + seq![] =~= slices_view(frames@));
            return frames;
        }
        let end: usize = start + length;
        assert(s.skip(5 + length) =~= data@.skip(end as int));
        if compressed == 0 {
            let frame = &data[start..end];
            assert(frame@ =~= s.subrange(5, 5 + length));
            let ghost before = slices_view(frames@);
            frames.push(frame);
            assert(slices_view(frames@) =~= before.push(frame@));
            assert(before.push(frame@) + spec_grpc_frames(data@.skip(end as int)) =~= before + (
            seq![frame@] + spec_grpc_frames(data@.skip(end as int))));
        }
        offset = end;
    }
}

/// The frames of one more payload follow the frames of the others.
pub proof fn lemma_grpc_frames_of_snoc(ps: Seq<Seq<u8>>, p: Seq<u8>)
    ensures
        spec_grpc_frames_of(ps.push(p)) == spec_grpc_frames_of(ps) + spec_grpc_frame(p),
    decreases ps.len(),
{
    if ps.len() == 0 {
        assert(ps.push(p).drop_first() =~= seq![]);
        assert(spec_grpc_frames_of(ps.push(p).drop_first()) =~= seq![]);
        assert(spec_grpc_frames_of(ps) =~= seq![]);
        assert(spec_grpc_frames_of(ps.push(p)) =~= spec_grpc_frame(p));
    } else {
        lemma_grpc_frames_of_snoc(ps.drop_first(), p);
        assert(ps.push(p).drop_first() =~= ps.drop_first().push(p));
        assert(spec_grpc_frames_of(ps.push(p)) =~= spec_grpc_frames_of(ps) + spec_grpc_frame(p));
    }
}

/// Whether a name is allowed by a list: the list is empty or holds the name.
pub open spec fn name_allowed(list: Seq<Seq<char>>, name: Seq<char>) -> bool {
    list.len() == 0 || list.contains(name)
}

/// Whether the list holds the name.
pub fn list_contains(list: &Vec<String>, name: &str) -> (r: bool)
    ensures
        r == list.deep_view().contains(name@),
{
    let ghost l = list.deep_view();
    let mut i: usize = 0;
    while i < list.len()
        invariant
            i <= list.len(),
            l == list.deep_view(),
            forall|j: int| 0 <= j < i ==> l[j] != name@,
        decreases list.len() - i,
    {
        if text_equals(list[i].as_str(), name) {
            assert(l[i as int] == name@);
            return true;
        }
        i = i + 1;
    }
    false
}

/// The text of an optional string, empty when absent.
pub open spec fn text_or_empty(v: Option<String>) -> Seq<char> {
    match v {
        Some(s) => s@,
        None => seq![],
    }
}

/// A payload cut to at most `max` bytes when `max` is not 0.
pub open spec fn truncate_payload(p: Seq<u8>, max: usize) -> Seq<u8> {
    if max > 0 && p.len() > max {
        p.take(max as int)
    } else {
        p
    }
}

/// Whether a content type starts with "application/grpc".
pub fn starts_with_grpc(ct: &str) -> (r: bool)
    ensures
        r == (ct@.len() >= 16 && ct@.take(16) == "application/grpc"@),
{
    let prefix = "application/grpc";
    proof {
        reveal_strlit("application/grpc");
    }
    let n = ct.unicode_len();
    if n < 16 {
        return false;
    }
    let mut i: usize = 0;
    while i < 16
        invariant
            i <= 16,
            n == ct@.len(),
            n >= 16,
            prefix@ == "application/grpc"@,
            prefix@.len() == 16,
            forall|j: int| 0 <= j < i ==> ct@[j] == prefix@[j],
        decreases 16 - i,
    {
        if ct.get_char(i) != prefix.get_char(i) {
            assert(ct@.take(16)[i as int] != prefix@[i as int]);
            return false;
        }
        i = i + 1;
    }
    assert(ct@.take(16) =~= prefix@);
    true
}

} // verus!
