//! JSON string escaping, and the decoding of JSON string contents that it is
//! proved against.

use vstd::prelude::*;
use crate::display::{hex_char, hex_digit};
use crate::text::{push_char, push_text};

verus! {

/// The JSON escape of one character: quote, backslash, newline, carriage
/// return and tab by their short escapes, other control characters below
/// U+0020 as `\u00XX`, everything else as itself.
pub open spec fn escape_char(c: char) -> Seq<char> {
    if c == '"' {
        seq!['\\', '"']
    } else if c == '\\' {
        seq!['\\', '\\']
    } else if c == '\n' {
        seq!['\\', 'n']
    } else if c == '\r' {
        seq!['\\', 'r']
    } else if c == '\t' {
        seq!['\\', 't']
    } else if (c as u32) < 0x20 {
        seq!['\\', 'u', '0', '0', hex_digit(((c as u32) / 16) as nat), hex_digit(((c as u32) % 16) as nat)]
    } else {
        seq![c]
    }
}

/// The contents of a JSON string literal that stands for `s`.
pub open spec fn json_escape(s: Seq<char>) -> Seq<char>
    decreases s.len(),
{
    if s.len() == 0 {
        seq![]
    } else {
        json_escape(s.drop_last()) + escape_char(s.last())
    }
}

/// The value of a hexadecimal digit, either case.
pub open spec fn hex_value(c: char) -> Option<int> {
    if '0' <= c && c <= '9' {
        Some(c as int - '0' as int)
    } else if 'a' <= c && c <= 'f' {
        Some(c as int - 'a' as int + 10)
    } else if 'A' <= c && c <= 'F' {
        Some(c as int - 'A' as int + 10)
    } else {
        None
    }
}

/// A character put in front of a decoding, when there is one.
pub open spec fn cons(c: char, rest: Option<Seq<char>>) -> Option<Seq<char>> {
    match rest {
        Some(r) => Some(seq![c] + r),
        None => None,
    }
}

/// The code point of a character.
pub open spec fn code_point(c: char) -> int {
    (c as u32) as int
}

/// The code point of a `\uXXXX` escape at the start of `s` (which begins
/// with the backslash), when its four digits are hexadecimal.
pub open spec fn unicode_escape(s: Seq<char>) -> Option<int> {
    match (hex_value(s[2]), hex_value(s[3]), hex_value(s[4]), hex_value(s[5])) {
        (Some(a), Some(b), Some(c), Some(d)) => Some(((a * 16 + b) * 16 + c) * 16 + d),
        _ => None,
    }
}

/// The text that the contents of a JSON string literal stand for, or `None`
/// when they are not valid: a raw quote or control character, or an unknown
/// or cut escape. (A `\u` escape of a surrogate, which JSON pairs with a
/// second one, is not read here: no character has that code.)
pub open spec fn json_unescape(s: Seq<char>) -> Option<Seq<char>>
    decreases s.len(),
{
    if s.len() == 0 {
        Some(seq![])
    } else if s[0] == '\\' {
        if s.len() < 2 {
            None
        } else {
            let e = s[1];
            if e == '"' || e == '\\' || e == '/' {
                cons(e, json_unescape(s.skip(2)))
            } else if e == 'n' {
                cons('\n', json_unescape(s.skip(2)))
            } else if e == 'r' {
                cons('\r', json_unescape(s.skip(2)))
            } else if e == 't' {
                cons('\t', json_unescape(s.skip(2)))
            } else if e == 'b' {
                cons('\x08', json_unescape(s.skip(2)))
            } else if e == 'f' {
                cons('\x0c', json_unescape(s.skip(2)))
            } else if e == 'u' && s.len() >= 6 {
                match unicode_escape(s) {
                    Some(code) => if exists|ch: char| #[trigger] code_point(ch) == code {
                        cons(choose|ch: char| #[trigger] code_point(ch) == code, json_unescape(s.skip(6)))
                    } else {
                        None
                    },
                    None => None,
                }
            } else {
                None
            }
        }
    } else if s[0] == '"' || (s[0] as u32) < 0x20 {
        None
    } else {
        cons(s[0], json_unescape(s.drop_first()))
    }
}

/// Escaping a concatenation escapes each part.
pub proof fn lemma_json_escape_append(a: Seq<char>, b: Seq<char>)
    ensures
        json_escape(a + b) == json_escape(a) + json_escape(b),
    decreases b.len(),
{
    if b.len() == 0 {
        assert(a + b =~= a);
        assert(json_escape(a) + json_escape(b) =~= json_escape(a));
    } else {
        lemma_json_escape_append(a, b.drop_last());
        assert((a + b).drop_last() =~= a + b.drop_last());
        assert((a + b).last() == b.last());
        assert(json_escape(a) + json_escape(b) =~= json_escape(a) + json_escape(b.drop_last())
            + escape_char(b.last()));
    }
}

proof fn lemma_hex_digit_value(d: nat)
    requires
        d < 16,
    ensures
        hex_value(hex_digit(d)) == Some(d as int),
{
}

/// A character is given back by its code.
proof fn lemma_char_code(c: char)
    ensures
        (c as u32) as char == c,
{
}

/// Reading back an escaped text gives the text: the escape is valid JSON
/// string contents and decodes to what was escaped.
pub proof fn lemma_json_unescape_escape(s: Seq<char>)
    ensures
        json_unescape(json_escape(s)) == Some(s),
    decreases s.len(),
{
    if s.len() > 0 {
        let c = s[0];
        let rest = s.drop_first();
        lemma_json_escape_append(seq![c], rest);
        assert(seq![c] + rest =~= s);
        assert(json_escape(seq![c]) =~= escape_char(c)) by {
            assert(seq![c].drop_last() =~= Seq::<char>::empty());
            assert(json_escape(Seq::<char>::empty()) == Seq::<char>::empty());
            assert(seq![c].last() == c);
            assert(Seq::<char>::empty() + escape_char(c) =~= escape_char(c));
        }
        let r = json_escape(rest);
        let t = escape_char(c) + r;
        lemma_json_unescape_escape(rest);
        assert(json_unescape(r) == Some(rest));
        if c == '"' || c == '\\' || c == '\n' || c == '\r' || c == '\t' {
            assert(t.skip(2) =~= r);
        } else if (c as u32) < 0x20 {
            let hi = ((c as u32) / 16) as nat;
            let lo = ((c as u32) % 16) as nat;
            lemma_hex_digit_value(hi);
            lemma_hex_digit_value(lo);
            assert(hex_value('0') == Some(0int));
            assert(unicode_escape(t) == Some((c as u32) as int));
            assert(t.skip(6) =~= r);
            assert(code_point(c) == (c as u32) as int);
            let ch = choose|ch: char| #[trigger] code_point(ch) == (c as u32) as int;
            lemma_char_code(ch);
            lemma_char_code(c);
            assert(ch == c);
        } else {
            assert(t.drop_first() =~= r);
        }
        assert(seq![c] + rest =~= s);
    }
}

/// Appends the JSON escape of a text.
pub fn push_json_escaped(out: &mut String, s: &str)
    ensures
        final(out)@ == old(out)@ + json_escape(s@),
{
    let ghost start = out@;
    let n = s.unicode_len();
    let mut i: usize = 0;
    assert(s@.take(0) =~= seq![]);
    while i < n
        invariant
            i <= n,
            n == s@.len(),
            out@ == start + json_escape(s@.take(i as int)),
        decreases n - i,
    {
        let c = s.get_char(i);
        assert(s@.take(i + 1).drop_last() =~= s@.take(i as int));
        assert(s@.take(i + 1).last() == c);
        let code = c as u32;
        if c == '"' {
            push_text(out, "\\\"");
        } else if c == '\\' {
            push_text(out, "\\\\");
        } else if c == '\n' {
            push_text(out, "\\n");
        } else if c == '\r' {
            push_text(out, "\\r");
        } else if c == '\t' {
            push_text(out, "\\t");
        } else if code < 0x20 {
            push_text(out, "\\u00");
            push_char(out, hex_char((code / 16) as u8));
            push_char(out, hex_char((code % 16) as u8));
        } else {
            push_char(out, c);
        }
        proof {
            reveal_strlit("\\\"");
            reveal_strlit("\\\\");
            reveal_strlit("\\n");
            reveal_strlit("\\r");
            reveal_strlit("\\t");
            reveal_strlit("\\u00");
        }
        assert(out@ =~= start + json_escape(s@.take(i + 1)));
        i = i + 1;
    }
    assert(s@.take(n as int) =~= s@);
}

} // verus!
