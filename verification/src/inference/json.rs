//! Strings in JSON: escaping them, and finding one behind a key.

use vstd::prelude::*;

use crate::text::{chars_of, digit_value, find, find_chars, hex_digit, skip_spaces, trim_start};

verus! {

/// A character as it stands in a JSON string, which holds no control characters.
pub open spec fn escaped_char(c: char) -> Seq<char> {
    if c == '\\' {
        seq!['\\', '\\']
    } else if c == '"' {
        seq!['\\', '"']
    } else if c == '\n' {
        seq!['\\', 'n']
    } else if c == '\r' {
        seq!['\\', 'r']
    } else if c == '\t' {
        seq!['\\', 't']
    } else if is_control(c) {
        seq!['\\', 'u', '0', '0', hex_digit(c as nat / 16), hex_digit(c as nat % 16)]
    } else {
        seq![c]
    }
}

/// A control character.
pub open spec fn is_control(c: char) -> bool {
    ' ' > c
}

/// A text as it stands in a JSON string.
pub open spec fn escaped(s: Seq<char>) -> Seq<char>
    decreases s.len(),
{
    if s.len() == 0 {
        Seq::empty()
    } else {
        escaped(s.drop_last()) + escaped_char(s.last())
    }
}

/// What a backslash and a character stand for. A pair that means nothing stands for
/// itself.
pub open spec fn unescaped_char(c: char) -> Seq<char> {
    if c == 'n' {
        seq!['\n']
    } else if c == 'r' {
        seq!['\r']
    } else if c == 't' {
        seq!['\t']
    } else if c == '"' || c == '\\' || c == '/' {
        seq![c]
    } else {
        seq!['\\', c]
    }
}

/// The text of a JSON string from behind its opening quote up to the closing one; none
/// where it is not closed.
pub open spec fn string_body(s: Seq<char>) -> Option<Seq<char>>
    decreases s.len(),
{
    if s.len() == 0 {
        None
    } else if s[0] == '"' {
        Some(Seq::empty())
    } else if s[0] == '\\' {
        if s.len() < 2 {
            None
        } else {
            match string_body(s.skip(2)) {
                Some(rest) => Some(unescaped_char(s[1]) + rest),
                None => None,
            }
        }
    } else {
        match string_body(s.skip(1)) {
            Some(rest) => Some(seq![s[0]] + rest),
            None => None,
        }
    }
}

/// The string value behind the first occurrence of a key: white space may stand between
/// them.
pub open spec fn string_after(json: Seq<char>, key: Seq<char>) -> Option<Seq<char>> {
    match find(json, key) {
        None => None,
        Some(p) => {
            let rest = trim_start(json.skip(p + key.len()));
            if rest.len() > 0 && rest[0] == '"' {
                string_body(rest.skip(1))
            } else {
                None
            }
        },
    }
}

/// The hexadecimal digit of a value below sixteen.
fn hex_char(d: u8) -> (r: char)
    requires
        d < 16,
    ensures
        r == hex_digit(d as nat),
{
    if d < 10 {
        (48 + d) as char
    } else {
        (55 + d) as char
    }
}

/// Append a control character by its number.
fn push_control(out: &mut String, c: char)
    requires
        is_control(c),
    ensures
        final(out)@ == old(out)@ + seq![
            '\\',
            'u',
            '0',
            '0',
            hex_digit(c as nat / 16),
            hex_digit(c as nat % 16),
        ],
{
    let d = c as u8;
    out.push_str("\\u00");
    out.push(hex_char(d / 16));
    out.push(hex_char(d % 16));
    proof {
        reveal_strlit("\\u00");
        assert("\\u00"@ =~= seq!['\\', 'u', '0', '0']);
    }
    assert(out@ =~= old(out)@ + seq!['\\', 'u', '0', '0', hex_digit(c as nat / 16), hex_digit(c as nat % 16)]);
}

/// Escape a text for a JSON string.
pub fn escape(s: &str) -> (r: String)
    ensures
        r@ == escaped(s@),
{
    let cs = chars_of(s);
    let mut out = String::new();
    let mut i: usize = 0;
    assert(s@.take(0) =~= Seq::empty());
    while i < cs.len()
        invariant
            cs@ == s@,
            i <= cs@.len(),
            out@ == escaped(s@.take(i as int)),
        decreases cs@.len() - i,
    {
        let c = cs[i];
        let ghost before = out@;
        if c == '\\' {
            out.push('\\');
            out.push('\\');
        } else if c == '"' {
            out.push('\\');
            out.push('"');
        } else if c == '\n' {
            out.push('\\');
            out.push('n');
        } else if c == '\r' {
            out.push('\\');
            out.push('r');
        } else if c == '\t' {
            out.push('\\');
            out.push('t');
        } else if ' ' > c {
            push_control(&mut out, c);
        } else {
            out.push(c);
        }
        assert(out@ =~= before + escaped_char(c));
        i += 1;
        assert(s@.take(i as int).drop_last() =~= s@.take(i - 1));
    }
    assert(s@.take(s@.len() as int) =~= s@);
    out
}

/// The string value behind the first occurrence of a key.
pub fn extract_json_string(json: &str, key: &str) -> (r: Option<String>)
    ensures
        match r {
            Some(s) => string_after(json@, key@) == Some(s@),
            None => string_after(json@, key@) is None,
        },
{
    let cs = chars_of(json);
    let ck = chars_of(key);
    let p = match find_chars(cs.as_slice(), ck.as_slice(), 0) {
        Some(p) => p,
        None => {
            return None;
        },
    };
    proof {
        crate::text::lemma_find_from(json@, key@, 0);
    }
    let n = cs.len();
    let start = skip_spaces(cs.as_slice(), p + ck.len(), n);
    assert(cs@.subrange(p + ck@.len(), n as int) =~= json@.skip(p + key@.len()));
    let ghost rest = cs@.subrange(start as int, n as int);
    if start >= n || cs[start] != '"' {
        return None;
    }
    let mut out = String::new();
    let mut i: usize = start + 1;
    let ghost body = rest.skip(1);
    proof {
        assert(cs@.skip(i as int) =~= body);
        match string_body(body) {
            Some(r) => {
                assert(out@ + r =~= r);
            },
            None => {},
        }
    }
    while i < n
        invariant
            n == cs@.len(),
            i <= n,
            string_after(json@, key@) == string_body(body),
            string_body(body) == match string_body(cs@.skip(i as int)) {
                Some(r) => Some(out@ + r),
                None => None,
            },
        decreases n - i,
    {
        let c = cs[i];
        let ghost here = cs@.skip(i as int);
        assert(here[0] == c);
        if c == '"' {
            assert(out@ + Seq::<char>::empty() =~= out@);
            return Some(out);
        }
        let ghost before = out@;
        if c == '\\' {
            if i + 1 >= n {
                return None;
            }
            let e = cs[i + 1];
            assert(here[1] == e);
            if e == 'n' {
                out.push('\n');
            } else if e == 'r' {
                out.push('\r');
            } else if e == 't' {
                out.push('\t');
            } else if e == '"' || e == '\\' || e == '/' {
                out.push(e);
            } else {
                out.push('\\');
                out.push(e);
            }
            i += 2;
            proof {
                assert(here.skip(2) =~= cs@.skip(i as int));
                assert(out@ =~= before + unescaped_char(e));
                match string_body(cs@.skip(i as int)) {
                    Some(r) => {
                        assert(before + (unescaped_char(e) + r) =~= out@ + r);
                    },
                    None => {},
                }
            }
        } else {
            out.push(c);
            i += 1;
            proof {
                assert(here.skip(1) =~= cs@.skip(i as int));
                match string_body(cs@.skip(i as int)) {
                    Some(r) => {
                        assert(before + (seq![c] + r) =~= out@ + r);
                    },
                    None => {},
                }
            }
        }
    }
    None
}

/// What may stand between the quotes of a JSON string: no quote and no control character,
/// and a backslash only where it begins an escape.
pub open spec fn valid_string(s: Seq<char>) -> bool
    decreases s.len(),
{
    if s.len() == 0 {
        true
    } else if s[0] == '\\' {
        if s.len() >= 2 && (s[1] == '"' || s[1] == '\\' || s[1] == '/' || s[1] == 'b' || s[1] == 'f' || s[1] == 'n'
            || s[1] == 'r' || s[1] == 't') {
            valid_string(s.skip(2))
        } else {
            &&& s.len() >= 6
            &&& s[1] == 'u'
            &&& digit_value(s[2], true) is Some
            &&& digit_value(s[3], true) is Some
            &&& digit_value(s[4], true) is Some
            &&& digit_value(s[5], true) is Some
            &&& valid_string(s.skip(6))
        }
    } else {
        s[0] != '"' && !is_control(s[0]) && valid_string(s.skip(1))
    }
}

/// Whatever the text, what is escaped is the inside of a JSON string.
pub proof fn law_escaped_is_valid(s: Seq<char>)
    ensures
        valid_string(escaped(s)),
{
    lemma_escaped_valid(s, Seq::empty());
    assert(escaped(s) + Seq::<char>::empty() =~= escaped(s));
}

proof fn lemma_escaped_valid(s: Seq<char>, t: Seq<char>)
    requires
        valid_string(t),
    ensures
        valid_string(escaped(s) + t),
    decreases s.len(),
{
    if s.len() == 0 {
        assert(escaped(s) + t =~= t);
    } else {
        let c = s.last();
        let e = escaped_char(c);
        let u = e + t;
        if e.len() == 2 {
            assert(u.skip(2) =~= t);
        } else if e.len() == 6 {
            lemma_control_digits(c);
            assert(u.skip(6) =~= t);
        } else {
            assert(u.skip(1) =~= t);
        }
        lemma_escaped_valid(s.drop_last(), u);
        assert(escaped(s) + t =~= escaped(s.drop_last()) + u);
    }
}

proof fn lemma_control_digits(c: char)
    requires
        is_control(c),
    ensures
        digit_value(hex_digit(c as nat / 16), true) is Some,
        digit_value(hex_digit(c as nat % 16), true) is Some,
{
}

/// A character that is read back as it was written: no control character but a line end
/// or a tab.
pub open spec fn is_readable(c: char) -> bool {
    !is_control(c) || c == '\n' || c == '\r' || c == '\t'
}

/// Reading a string gives back the text that was escaped into it, whatever follows the
/// closing quote: unless the text holds control characters besides line ends and tabs,
/// which reading leaves escaped.
pub proof fn law_escape_round_trip(s: Seq<char>, tail: Seq<char>)
    requires
        forall|i: int| 0 <= i < s.len() ==> is_readable(#[trigger] s[i]),
    ensures
        string_body(escaped(s) + seq!['"'] + tail) == Some(s),
{
    lemma_escaped_prefix(s, seq!['"'] + tail);
    assert(escaped(s) + seq!['"'] + tail =~= escaped(s) + (seq!['"'] + tail));
    let t = seq!['"'] + tail;
    assert(string_body(t) == Some(Seq::<char>::empty()));
    assert(s + Seq::<char>::empty() =~= s);
}

/// The characters of an escaped text are read before what follows it.
proof fn lemma_escaped_prefix(s: Seq<char>, t: Seq<char>)
    requires
        forall|i: int| 0 <= i < s.len() ==> is_readable(#[trigger] s[i]),
    ensures
        string_body(escaped(s) + t) == match string_body(t) {
            Some(r) => Some(s + r),
            None => None,
        },
    decreases s.len(),
{
    if s.len() == 0 {
        assert(escaped(s) + t =~= t);
        match string_body(t) {
            Some(r) => {
                assert(s + r =~= r);
            },
            None => {},
        }
    } else {
        let c = s.last();
        let e = escaped_char(c);
        assert(c == s[s.len() - 1]);
        assert forall|i: int| 0 <= i < s.drop_last().len() implies is_readable(#[trigger] s.drop_last()[i]) by {
            assert(s.drop_last()[i] == s[i]);
        }
        lemma_escaped_prefix(s.drop_last(), e + t);
        assert(escaped(s) + t =~= escaped(s.drop_last()) + (e + t));
        let u = e + t;
        if e.len() == 2 {
            assert(u.skip(2) =~= t);
        } else {
            assert(u.skip(1) =~= t);
        }
        match string_body(t) {
            Some(r) => {
                assert(s.drop_last() + (seq![c] + r) =~= s + r);
            },
            None => {},
        }
    }
}

} // verus!
