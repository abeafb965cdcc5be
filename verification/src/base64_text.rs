//! Standard base64 (RFC 4648 alphabet, with `=` padding) read back into bytes.

use vstd::prelude::*;

verus! {

/// The value of a character of the base64 alphabet.
pub open spec fn b64_digit(c: char) -> Option<int> {
    if 'A' <= c && c <= 'Z' {
        Some(c as int - 'A' as int)
    } else if 'a' <= c && c <= 'z' {
        Some(c as int - 'a' as int + 26)
    } else if '0' <= c && c <= '9' {
        Some(c as int - '0' as int + 52)
    } else if c == '+' {
        Some(62)
    } else if c == '/' {
        Some(63)
    } else {
        None
    }
}

/// The bytes that a group of four characters stands for. Only the last group
/// may end in padding: `xx==` gives one byte and `xxx=` two.
pub open spec fn b64_quad(g: Seq<char>, last: bool) -> Option<Seq<u8>> {
    match (b64_digit(g[0]), b64_digit(g[1])) {
        (Some(a), Some(b)) => {
            let first = (a * 4 + b / 16) as u8;
            if last && g[2] == '=' && g[3] == '=' {
                Some(seq![first])
            } else {
                match b64_digit(g[2]) {
                    Some(c) => {
                        let second = ((b % 16) * 16 + c / 4) as u8;
                        if last && g[3] == '=' {
                            Some(seq![first, second])
                        } else {
                            match b64_digit(g[3]) {
                                Some(d) => Some(seq![first, second, ((c % 4) * 64 + d) as u8]),
                                None => None,
                            }
                        }
                    },
                    None => None,
                }
            }
        },
        _ => None,
    }
}

/// The bytes that a base64 text stands for, when it is one.
pub open spec fn spec_base64_decode(s: Seq<char>) -> Option<Seq<u8>>
    decreases s.len(),
{
    if s.len() == 0 {
        Some(seq![])
    } else if s.len() < 4 {
        None
    } else {
        match b64_quad(s.take(4), s.len() == 4) {
            Some(head) => match spec_base64_decode(s.skip(4)) {
                Some(tail) => Some(head + tail),
                None => None,
            },
            None => None,
        }
    }
}

/// `out` put in front of a decoding, when there is one.
pub open spec fn prepend(out: Seq<u8>, rest: Option<Seq<u8>>) -> Option<Seq<u8>> {
    match rest {
        Some(r) => Some(out + r),
        None => None,
    }
}

fn digit_value(c: char) -> (r: Option<u8>)
    ensures
        match b64_digit(c) {
            Some(v) => r == Some(v as u8) && 0 <= v < 64,
            None => r is None,
        },
{
    if 'A' <= c && c <= 'Z' {
        Some((c as u32 - 'A' as u32) as u8)
    } else if 'a' <= c && c <= 'z' {
        Some((c as u32 - 'a' as u32 + 26) as u8)
    } else if '0' <= c && c <= '9' {
        Some((c as u32 - '0' as u32 + 52) as u8)
    } else if c == '+' {
        Some(62)
    } else if c == '/' {
        Some(63)
    } else {
        None
    }
}

/// Decode a base64 text; `None` when it is not one.
pub fn base64_decode(s: &str) -> (r: Option<Vec<u8>>)
    ensures
        match r {
            Some(b) => spec_base64_decode(s@) == Some(b@),
            None => spec_base64_decode(s@) is None,
        },
{
    let n = s.unicode_len();
    let mut out: Vec<u8> = Vec::new();
    let mut i: usize = 0;
    assert(s@.skip(0) =~= s@);
    while i < n
        invariant
            i <= n,
            n == s@.len(),
            spec_base64_decode(s@) == prepend(out@, spec_base64_decode(s@.skip(i as int))),
        decreases n - i,
    {
        let ghost t = s@.skip(i as int);
        if n - i < 4 {
            assert(spec_base64_decode(t) is None);
            return None;
        }
        let last = n - i == 4;
        assert(t.take(4) =~= seq![
            s@[i as int],
            s@[i + 1],
            s@[i + 2],
            s@[i + 3],
        ]);
        assert(t.skip(4) =~= s@.skip(i + 4));
        let c0 = s.get_char(i);
        let c1 = s.get_char(i + 1);
        let c2 = s.get_char(i + 2);
        let c3 = s.get_char(i + 3);
        let (a, b) = match (digit_value(c0), digit_value(c1)) {
            (Some(a), Some(b)) => (a, b),
            _ => {
                return None;
            },
        };
        let first: u8 = a * 4 + b / 16;
        let ghost before = out@;
        if last && c2 == '=' && c3 == '=' {
            out.push(first);
            assert(b64_quad(t.take(4), true) == Some(seq![first]));
        } else {
            let c = match digit_value(c2) {
                Some(c) => c,
                None => {
                    return None;
                },
            };
            let second: u8 = (b % 16) * 16 + c / 4;
            if last && c3 == '=' {
                out.push(first);
                out.push(second);
                assert(b64_quad(t.take(4), true) == Some(seq![first, second]));
            } else {
                let d = match digit_value(c3) {
                    Some(d) => d,
                    None => {
                        return None;
                    },
                };
                let third: u8 = (c % 4) * 64 + d;
                out.push(first);
                out.push(second);
                out.push(third);
                assert(b64_quad(t.take(4), last) == Some(seq![first, second, third]));
            }
        }
        assert(out@ =~= before + b64_quad(t.take(4), last)->0);
        proof {
            let head = b64_quad(t.take(4), last)->0;
            match spec_base64_decode(s@.skip(i + 4)) {
                Some(tail) => {
                    assert(before + (head + tail) =~= out@ + tail);
                },
                None => {},
            }
        }
        i = i + 4;
    }
    assert(s@.skip(n as int) =~= seq![]);
    assert(out@ + seq![] =~= out@);
    Some(out)
}

} // verus!
