//! Text helpers: searching, trimming, comparing and formatting, all stated over
//! the character sequence of a string.

use vstd::prelude::*;
use vstd::string::*;
use vstd::utf8::*;

verus! {

/// `String::push` of std: appends one character.
pub assume_specification[ std::string::String::push ](s: &mut std::string::String, c: char)
    ensures
        final(s)@ == old(s)@.push(c),
;

/// `String::push_str` of std: appends every character of the argument.
pub assume_specification[ std::string::String::push_str ](s: &mut std::string::String, other: &str)
    ensures
        final(s)@ == old(s)@ + other@,
;

/// `core::str::from_utf8` of std: the text that the bytes encode, or `None` when
/// they are not well-formed UTF-8.
#[verifier::external_body]
pub(crate) fn utf8_text(bytes: &[u8]) -> (r: Option<String>)
    ensures
        r is Some <==> valid_utf8(bytes@),
        r is Some ==> r->0@ == decode_utf8(bytes@),
{
    core::str::from_utf8(bytes).ok().map(String::from)
}

// ---------------------------------------------------------------------------
// Characters and strings
// ---------------------------------------------------------------------------

/// The characters of `s`, in order.
pub fn chars_of(s: &str) -> (r: Vec<char>)
    ensures
        r@ == s@,
{
    let mut out: Vec<char> = Vec::new();
    for c in it: s.chars()
        invariant
            out@ == s@.take(it.index()),
            it.seq() == s@,
    {
        proof {
            assert(s@.take(it.index() + 1) =~= s@.take(it.index()).push(s@[it.index()]));
        }
        out.push(c);
    }
    assert(s@.take(s@.len() as int) =~= s@);
    out
}

/// The string made of the characters `cs[from..to]`.
pub fn text_range(cs: &[char], from: usize, to: usize) -> (r: String)
    requires
        from <= to <= cs@.len(),
    ensures
        r@ == cs@.subrange(from as int, to as int),
{
    let mut out = String::new();
    let mut i: usize = from;
    while i < to
        invariant
            from <= i <= to <= cs@.len(),
            out@ == cs@.subrange(from as int, i as int),
        decreases to - i,
    {
        out.push(cs[i]);
        i += 1;
        assert(cs@.subrange(from as int, i as int) =~= cs@.subrange(
            from as int,
            i - 1,
        ).push(cs@[i - 1]));
    }
    out
}

/// Two strings with the same UTF-8 bytes hold the same characters.
pub proof fn lemma_utf8_injective(a: Seq<char>, b: Seq<char>)
    requires
        encode_utf8(a) == encode_utf8(b),
    ensures
        a == b,
{
    encode_utf8_decode_utf8(a);
    encode_utf8_decode_utf8(b);
}

/// Whether two byte slices hold the same bytes.
pub fn bytes_eq(a: &[u8], b: &[u8]) -> (r: bool)
    ensures
        r == (a@ == b@),
{
    if a.len() != b.len() {
        return false;
    }
    let mut i: usize = 0;
    while i < a.len()
        invariant
            a@.len() == b@.len(),
            i <= a@.len(),
            forall|j: int| 0 <= j < i ==> a@[j] == b@[j],
        decreases a@.len() - i,
    {
        if a[i] != b[i] {
            return false;
        }
        i += 1;
    }
    assert(a@ =~= b@);
    true
}

/// Whether two strings hold the same characters.
pub fn text_eq(a: &str, b: &str) -> (r: bool)
    ensures
        r == (a@ == b@),
{
    let r = bytes_eq(a.as_bytes(), b.as_bytes());
    proof {
        if r {
            lemma_utf8_injective(a@, b@);
        }
    }
    r
}

/// A fresh string with the characters of `s`.
pub fn text(s: &str) -> (r: String)
    ensures
        r@ == s@,
{
    s.to_owned()
}

/// `a` followed by `b`.
pub fn text_join(a: &str, b: &str) -> (r: String)
    ensures
        r@ == a@ + b@,
{
    let mut out = a.to_owned();
    out.push_str(b);
    out
}

// ---------------------------------------------------------------------------
// Lexicographic order
// ---------------------------------------------------------------------------

/// `a` stands before `b` in the order of strings: by the first character in which
/// they differ, a proper prefix before what it is a prefix of.
pub open spec fn text_less(a: Seq<char>, b: Seq<char>) -> bool
    decreases a.len(),
{
    if b.len() == 0 {
        false
    } else if a.len() == 0 {
        true
    } else if a[0] != b[0] {
        (a[0] as int) < (b[0] as int)
    } else {
        text_less(a.drop_first(), b.drop_first())
    }
}

/// No string stands before itself.
pub proof fn lemma_less_irreflexive(a: Seq<char>)
    ensures
        !text_less(a, a),
    decreases a.len(),
{
    if a.len() > 0 {
        lemma_less_irreflexive(a.drop_first());
    }
}

/// Of two different strings one stands before the other.
pub proof fn lemma_less_total(a: Seq<char>, b: Seq<char>)
    ensures
        text_less(a, b) || text_less(b, a) || a == b,
    decreases a.len(),
{
    if a.len() > 0 && b.len() > 0 && a[0] == b[0] {
        lemma_less_total(a.drop_first(), b.drop_first());
        if a.drop_first() == b.drop_first() {
            assert(a =~= seq![a[0]] + a.drop_first());
            assert(b =~= seq![b[0]] + b.drop_first());
        }
    } else if a.len() == 0 && b.len() == 0 {
        assert(a =~= b);
    }
}

/// The order of strings is transitive.
pub proof fn lemma_less_transitive(a: Seq<char>, b: Seq<char>, c: Seq<char>)
    requires
        text_less(a, b),
        text_less(b, c),
    ensures
        text_less(a, c),
    decreases a.len(),
{
    if a.len() > 0 && a[0] == b[0] && b[0] == c[0] {
        lemma_less_transitive(a.drop_first(), b.drop_first(), c.drop_first());
    }
}

/// Whether `a` stands before `b`.
pub fn less_text(a: &str, b: &str) -> (r: bool)
    ensures
        r == text_less(a@, b@),
{
    let ca = chars_of(a);
    let cb = chars_of(b);
    let mut i: usize = 0;
    proof {
        assert(ca@.skip(0) =~= a@);
        assert(cb@.skip(0) =~= b@);
    }
    while i < ca.len() && i < cb.len() && ca[i] == cb[i]
        invariant
            i <= ca@.len(),
            i <= cb@.len(),
            text_less(a@, b@) == text_less(ca@.skip(i as int), cb@.skip(i as int)),
        decreases ca@.len() - i,
    {
        proof {
            assert(ca@.skip(i as int).drop_first() =~= ca@.skip(i + 1));
            assert(cb@.skip(i as int).drop_first() =~= cb@.skip(i + 1));
        }
        i += 1;
    }
    if i >= cb.len() {
        false
    } else if i >= ca.len() {
        true
    } else {
        ca[i] < cb[i]
    }
}

// ---------------------------------------------------------------------------
// Searching
// ---------------------------------------------------------------------------

/// `pat` stands in `s` at position `i`.
pub open spec fn occurs_at<T>(s: Seq<T>, pat: Seq<T>, i: int) -> bool {
    &&& 0 <= i
    &&& i + pat.len() <= s.len()
    &&& s.subrange(i, i + pat.len()) == pat
}

/// The first position at or behind `i` where `pat` stands in `s`.
pub open spec fn find_from<T>(s: Seq<T>, pat: Seq<T>, i: int) -> Option<int>
    decreases s.len() + 1 - i,
{
    if i < 0 || i + pat.len() > s.len() {
        None
    } else if s.subrange(i, i + pat.len()) == pat {
        Some(i)
    } else {
        find_from(s, pat, i + 1)
    }
}

/// The first position where `pat` stands in `s`.
pub open spec fn find<T>(s: Seq<T>, pat: Seq<T>) -> Option<int> {
    find_from(s, pat, 0)
}

/// What a search returns: a place where the pattern stands, with none before it;
/// or nothing, when it stands nowhere.
pub proof fn lemma_find_from<T>(s: Seq<T>, pat: Seq<T>, i: int)
    requires
        0 <= i,
    ensures
        match find_from(s, pat, i) {
            Some(p) => i <= p && occurs_at(s, pat, p) && forall|q: int|
                i <= q < p ==> !occurs_at(s, pat, q),
            None => forall|q: int| i <= q ==> !occurs_at(s, pat, q),
        },
    decreases s.len() + 1 - i,
{
    if i + pat.len() <= s.len() && s.subrange(i, i + pat.len()) != pat {
        lemma_find_from(s, pat, i + 1);
        assert(!occurs_at(s, pat, i));
    }
}

/// `pat` stands somewhere in `s`.
pub open spec fn contains<T>(s: Seq<T>, pat: Seq<T>) -> bool {
    find(s, pat) is Some
}

/// `s` begins with `pat`.
pub open spec fn starts_with<T>(s: Seq<T>, pat: Seq<T>) -> bool {
    s.len() >= pat.len() && s.subrange(0, pat.len() as int) == pat
}

/// Whether `pat` stands in `s` at position `i`.
pub fn chars_at(s: &[char], pat: &[char], i: usize) -> (r: bool)
    ensures
        r == occurs_at(s@, pat@, i as int),
{
    if pat.len() > s.len() || i > s.len() - pat.len() {
        return false;
    }
    let mut j: usize = 0;
    while j < pat.len()
        invariant
            i + pat@.len() <= s.len(),
            j <= pat@.len(),
            forall|k: int| 0 <= k < j ==> s@[i + k] == pat@[k],
        decreases pat@.len() - j,
    {
        if s[i + j] != pat[j] {
            assert(s@.subrange(i as int, i + pat@.len())[j as int] != pat@[j as int]);
            return false;
        }
        j += 1;
    }
    assert(s@.subrange(i as int, i + pat@.len()) =~= pat@);
    true
}

/// The first position at or behind `from` where `pat` stands in `s`.
pub fn find_chars(s: &[char], pat: &[char], from: usize) -> (r: Option<usize>)
    ensures
        match r {
            Some(p) => find_from(s@, pat@, from as int) == Some(p as int),
            None => find_from(s@, pat@, from as int) is None,
        },
{
    if pat.len() > s.len() {
        return None;
    }
    let last = s.len() - pat.len();
    let mut i: usize = from;
    while i <= last
        invariant
            last + pat@.len() == s@.len(),
            from <= i,
            find_from(s@, pat@, from as int) == find_from(s@, pat@, i as int),
        decreases last + 1 - i,
    {
        if chars_at(s, pat, i) {
            return Some(i);
        }
        if i == last {
            assert(find_from(s@, pat@, i + 1) is None);
            return None;
        }
        i += 1;
    }
    None
}

/// Whether `pat` stands in `s` at position `i`.
pub fn bytes_at(s: &[u8], pat: &[u8], i: usize) -> (r: bool)
    ensures
        r == occurs_at(s@, pat@, i as int),
{
    if pat.len() > s.len() || i > s.len() - pat.len() {
        return false;
    }
    let mut j: usize = 0;
    while j < pat.len()
        invariant
            i + pat@.len() <= s.len(),
            j <= pat@.len(),
            forall|k: int| 0 <= k < j ==> s@[i + k] == pat@[k],
        decreases pat@.len() - j,
    {
        if s[i + j] != pat[j] {
            assert(s@.subrange(i as int, i + pat@.len())[j as int] != pat@[j as int]);
            return false;
        }
        j += 1;
    }
    assert(s@.subrange(i as int, i + pat@.len()) =~= pat@);
    true
}

/// The first position at or behind `from` where `pat` stands in `s`.
pub fn find_bytes(s: &[u8], pat: &[u8], from: usize) -> (r: Option<usize>)
    ensures
        match r {
            Some(p) => find_from(s@, pat@, from as int) == Some(p as int),
            None => find_from(s@, pat@, from as int) is None,
        },
{
    if pat.len() > s.len() {
        return None;
    }
    let last = s.len() - pat.len();
    let mut i: usize = from;
    while i <= last
        invariant
            last + pat@.len() == s@.len(),
            from <= i,
            find_from(s@, pat@, from as int) == find_from(s@, pat@, i as int),
        decreases last + 1 - i,
    {
        if bytes_at(s, pat, i) {
            return Some(i);
        }
        if i == last {
            assert(find_from(s@, pat@, i + 1) is None);
            return None;
        }
        i += 1;
    }
    None
}

/// Whether `s` begins with `pat`.
pub fn begins(s: &str, pat: &str) -> (r: bool)
    ensures
        r == starts_with(s@, pat@),
{
    let cs = chars_of(s);
    let cp = chars_of(pat);
    chars_at(&cs, &cp, 0)
}

/// Whether `pat` stands somewhere in `s`.
pub fn holds(s: &str, pat: &str) -> (r: bool)
    ensures
        r == contains(s@, pat@),
{
    let cs = chars_of(s);
    let cp = chars_of(pat);
    find_chars(&cs, &cp, 0).is_some()
}

// ---------------------------------------------------------------------------
// Truncation and numbers
// ---------------------------------------------------------------------------

/// The first `n` characters of `s`, or all of them where it is shorter.
pub open spec fn first_chars(s: Seq<char>, n: int) -> Seq<char> {
    if s.len() <= n {
        s
    } else {
        s.take(n)
    }
}

/// The first `n` characters of `s`, or all of them where it is shorter.
pub fn take_chars(s: &str, n: usize) -> (r: String)
    ensures
        r@ == first_chars(s@, n as int),
{
    let cs = chars_of(s);
    if cs.len() <= n {
        return s.to_owned();
    }
    let r = text_range(&cs, 0, n);
    assert(cs@.subrange(0, n as int) =~= s@.take(n as int));
    r
}

/// A white-space character.
pub open spec fn is_space(c: char) -> bool {
    ||| '\u{9}' <= c <= '\u{d}'
    ||| c == ' '
    ||| c == '\u{85}'
    ||| c == '\u{a0}'
    ||| c == '\u{1680}'
    ||| '\u{2000}' <= c <= '\u{200a}'
    ||| c == '\u{2028}'
    ||| c == '\u{2029}'
    ||| c == '\u{202f}'
    ||| c == '\u{205f}'
    ||| c == '\u{3000}'
}

/// Whether a character is white space.
pub fn space(c: char) -> (r: bool)
    ensures
        r == is_space(c),
{
    (c >= '\u{9}' && c <= '\u{d}') || c == ' ' || c == '\u{85}' || c == '\u{a0}' || c == '\u{1680}' || (c
        >= '\u{2000}' && c <= '\u{200a}') || c == '\u{2028}' || c == '\u{2029}' || c == '\u{202f}' || c == '\u{205f}'
        || c == '\u{3000}'
}

/// How many white-space characters stand at the front.
pub open spec fn leading_spaces(s: Seq<char>) -> int
    decreases s.len(),
{
    if s.len() > 0 && is_space(s[0]) {
        1 + leading_spaces(s.skip(1))
    } else {
        0
    }
}

/// `s` without white space at its front.
pub open spec fn trim_start(s: Seq<char>) -> Seq<char> {
    s.skip(leading_spaces(s))
}

/// `s` without white space at its end.
pub open spec fn trim_end(s: Seq<char>) -> Seq<char>
    decreases s.len(),
{
    if s.len() > 0 && is_space(s.last()) {
        trim_end(s.drop_last())
    } else {
        s
    }
}

/// `s` without white space at either end.
pub open spec fn trim(s: Seq<char>) -> Seq<char> {
    trim_end(trim_start(s))
}

/// The first position in `from..to` that is no white space.
pub fn skip_spaces(cs: &[char], from: usize, to: usize) -> (r: usize)
    requires
        from <= to <= cs@.len(),
    ensures
        from <= r <= to,
        r == from + leading_spaces(cs@.subrange(from as int, to as int)),
        cs@.subrange(r as int, to as int) == trim_start(cs@.subrange(from as int, to as int)),
{
    let ghost all = cs@.subrange(from as int, to as int);
    let mut i: usize = from;
    assert(all.skip(0) =~= all);
    while i < to && space(cs[i])
        invariant
            from <= i <= to <= cs@.len(),
            all == cs@.subrange(from as int, to as int),
            leading_spaces(all) == (i - from) + leading_spaces(all.skip(i - from)),
        decreases to - i,
    {
        assert(all.skip(i - from).skip(1) =~= all.skip(i + 1 - from));
        assert(all.skip(i - from)[0] == cs@[i as int]);
        i += 1;
    }
    if i < to {
        assert(all.skip(i - from)[0] == cs@[i as int]);
    }
    assert(cs@.subrange(i as int, to as int) =~= all.skip(i - from));
    i
}

/// The end of `from..to` without the white space before it.
pub fn drop_spaces(cs: &[char], from: usize, to: usize) -> (r: usize)
    requires
        from <= to <= cs@.len(),
    ensures
        from <= r <= to,
        cs@.subrange(from as int, r as int) == trim_end(cs@.subrange(from as int, to as int)),
{
    let ghost all = cs@.subrange(from as int, to as int);
    let mut i: usize = to;
    while i > from && space(cs[i - 1])
        invariant
            from <= i <= to <= cs@.len(),
            trim_end(all) == trim_end(cs@.subrange(from as int, i as int)),
        decreases i,
    {
        assert(cs@.subrange(from as int, i as int).drop_last() =~= cs@.subrange(from as int, i - 1));
        i -= 1;
    }
    i
}

/// `s` without white space at either end.
pub fn trimmed(s: &str) -> (r: String)
    ensures
        r@ == trim(s@),
{
    let cs = chars_of(s);
    let a = skip_spaces(cs.as_slice(), 0, cs.len());
    assert(cs@.subrange(0, cs@.len() as int) =~= s@);
    let b = drop_spaces(cs.as_slice(), a, cs.len());
    text_range(cs.as_slice(), a, b)
}

/// Bytes of a character in UTF-8.
pub open spec fn utf8_width(c: char) -> int {
    if '\u{80}' > c {
        1
    } else if '\u{800}' > c {
        2
    } else if '\u{10000}' > c {
        3
    } else {
        4
    }
}

/// How many characters of `s` fit into `n` bytes.
pub open spec fn chars_within(s: Seq<char>, n: int) -> int
    decreases s.len(),
{
    if s.len() > 0 && utf8_width(s[0]) <= n {
        1 + chars_within(s.skip(1), n - utf8_width(s[0]))
    } else {
        0
    }
}

/// The beginning of `s` that fits into `n` bytes.
pub open spec fn byte_prefix(s: Seq<char>, n: int) -> Seq<char> {
    s.take(chars_within(s, n))
}

/// The beginning of `s` that fits into `n` bytes, in whole characters.
pub fn prefix_text(s: &str, n: usize) -> (r: String)
    ensures
        r@ == byte_prefix(s@, n as int),
{
    let cs = chars_of(s);
    let mut i: usize = 0;
    let mut left: usize = n;
    let mut more = true;
    assert(cs@.skip(0) =~= s@);
    while more && i < cs.len()
        invariant
            cs@ == s@,
            i <= cs@.len(),
            chars_within(s@, n as int) == i + (if more {
                chars_within(cs@.skip(i as int), left as int)
            } else {
                0
            }),
        decreases cs@.len() - i + (if more { 1int } else { 0int }),
    {
        let c = cs[i];
        let w: usize = if '\u{80}' > c {
            1
        } else if '\u{800}' > c {
            2
        } else if '\u{10000}' > c {
            3
        } else {
            4
        };
        assert(cs@.skip(i as int)[0] == c);
        if w <= left {
            assert(cs@.skip(i as int).skip(1) =~= cs@.skip(i + 1));
            left -= w;
            i += 1;
        } else {
            more = false;
        }
    }
    let r = text_range(cs.as_slice(), 0, i);
    assert(cs@.subrange(0, i as int) =~= s@.take(i as int));
    r
}

/// The decimal digit of `d`.
pub open spec fn digit(d: nat) -> char {
    (48 + d) as char
}

/// The hexadecimal digit of `d`, in capitals.
pub open spec fn hex_digit(d: nat) -> char {
    if d < 10 {
        (48 + d) as char
    } else {
        (55 + d) as char
    }
}

/// The decimal notation of `n`, without leading zeros.
pub open spec fn decimal(n: nat) -> Seq<char>
    decreases n,
{
    if n < 10 {
        seq![digit(n)]
    } else {
        decimal(n / 10).push(digit(n % 10))
    }
}

/// The decimal notation of `n`.
pub fn decimal_text(n: u64) -> (r: String)
    ensures
        r@ == decimal(n as nat),
    decreases n,
{
    let d = (48u8 + (n % 10) as u8) as char;
    let mut out = if n < 10 {
        String::new()
    } else {
        decimal_text(n / 10)
    };
    out.push(d);
    assert(n < 10 ==> out@ =~= seq![digit(n as nat)]);
    out
}

// ---------------------------------------------------------------------------
// Case and lines
// ---------------------------------------------------------------------------

/// A character with an upper-case ASCII letter turned into its lower-case one.
pub open spec fn lower_char(c: char) -> char {
    if 'A' <= c <= 'Z' {
        (c as u8 + 32) as char
    } else {
        c
    }
}

/// A text with upper-case ASCII letters turned into lower-case ones.
pub open spec fn lower(s: Seq<char>) -> Seq<char> {
    s.map_values(|c: char| lower_char(c))
}

/// A character with an upper-case ASCII letter turned into its lower-case one.
pub fn lowered_char(c: char) -> (r: char)
    ensures
        r == lower_char(c),
{
    if c >= 'A' && c <= 'Z' {
        (c as u8 + 32) as char
    } else {
        c
    }
}

/// Characters with upper-case ASCII letters turned into lower-case ones.
pub fn lowered(cs: &[char]) -> (r: Vec<char>)
    ensures
        r@ == lower(cs@),
{
    let mut out: Vec<char> = Vec::new();
    let mut i: usize = 0;
    while i < cs.len()
        invariant
            i <= cs@.len(),
            out@ == lower(cs@.take(i as int)),
        decreases cs@.len() - i,
    {
        out.push(lowered_char(cs[i]));
        i += 1;
        assert(lower(cs@.take(i as int)) =~= lower(cs@.take(i - 1)).push(lower_char(cs@[i - 1])));
    }
    assert(cs@.take(cs@.len() as int) =~= cs@);
    out
}

/// Whether two character lists are the same.
pub fn chars_eq(a: &[char], b: &[char]) -> (r: bool)
    ensures
        r == (a@ == b@),
{
    let r = a.len() == b.len() && chars_at(a, b, 0);
    proof {
        if r {
            assert(a@.subrange(0, b@.len() as int) =~= a@);
        } else if a@ == b@ {
            assert(a@.subrange(0, b@.len() as int) =~= b@);
        }
    }
    r
}

// ---------------------------------------------------------------------------
// Reading numbers
// ---------------------------------------------------------------------------

/// The value of a digit, decimal or hexadecimal.
pub open spec fn digit_value(c: char, hex: bool) -> Option<nat> {
    if '0' <= c <= '9' {
        Some((c as int - 48) as nat)
    } else if hex && 'a' <= c <= 'f' {
        Some((c as int - 87) as nat)
    } else if hex && 'A' <= c <= 'F' {
        Some((c as int - 55) as nat)
    } else {
        None
    }
}

/// A number with one more digit behind it.
pub open spec fn with_digit(v: nat, d: nat, hex: bool) -> nat {
    if hex {
        v * 16 + d
    } else {
        v * 10 + d
    }
}

/// The value of a row of digits.
pub open spec fn digits_value(s: Seq<char>, hex: bool) -> Option<nat>
    decreases s.len(),
{
    if s.len() == 0 {
        Some(0)
    } else {
        match (digits_value(s.drop_last(), hex), digit_value(s.last(), hex)) {
            (Some(v), Some(d)) => Some(with_digit(v, d, hex)),
            _ => None,
        }
    }
}

/// The number that a text stands for: digits, at least one, with an optional plus sign
/// before them, and a value within the limit.
pub open spec fn number(s: Seq<char>, hex: bool, max: nat) -> Option<nat> {
    let t = if s.len() > 0 && s[0] == '+' {
        s.skip(1)
    } else {
        s
    };
    if t.len() == 0 {
        None
    } else {
        match digits_value(t, hex) {
            Some(v) => if v <= max {
                Some(v)
            } else {
                None
            },
            None => None,
        }
    }
}

/// A longer row of digits has no smaller value.
proof fn lemma_digits_grow(s: Seq<char>, n: int, hex: bool)
    requires
        0 <= n <= s.len(),
    ensures
        digits_value(s, hex) matches Some(v) ==> (digits_value(s.take(n), hex) matches Some(w) && w <= v),
    decreases s.len(),
{
    if n == s.len() {
        assert(s.take(n) =~= s);
    } else {
        lemma_digits_grow(s.drop_last(), n, hex);
        assert(s.drop_last().take(n) =~= s.take(n));
    }
}

/// Read a number from `cs[from..to]`.
pub fn read_number(cs: &[char], from: usize, to: usize, hex: bool, max: u64) -> (r: Option<u64>)
    requires
        from <= to <= cs@.len(),
        max <= u64::MAX,
    ensures
        match r {
            Some(v) => number(cs@.subrange(from as int, to as int), hex, max as nat) == Some(v as nat),
            None => number(cs@.subrange(from as int, to as int), hex, max as nat) is None,
        },
{
    let ghost all = cs@.subrange(from as int, to as int);
    let start = if from < to && cs[from] == '+' {
        from + 1
    } else {
        from
    };
    let ghost t = cs@.subrange(start as int, to as int);
    proof {
        if from < to {
            assert(all[0] == cs@[from as int]);
        }
        if start > from {
            assert(all.skip(1) =~= t);
        } else {
            assert(all =~= t);
        }
    }
    if start == to {
        return None;
    }
    let mut v: u64 = 0;
    let mut i: usize = start;
    assert(t.take(0) =~= Seq::empty());
    while i < to
        invariant
            start <= i <= to <= cs@.len(),
            from <= start,
            all == cs@.subrange(from as int, to as int),
            t == cs@.subrange(start as int, to as int),
            t.len() > 0,
            number(all, hex, max as nat) == match digits_value(t, hex) {
                Some(x) => if x <= max {
                    Some(x)
                } else {
                    None
                },
                None => None::<nat>,
            },
            v <= max,
            digits_value(t.take(i - start), hex) == Some(v as nat),
        decreases to - i,
    {
        let c = cs[i];
        assert(t.take(i + 1 - start).drop_last() =~= t.take(i - start));
        assert(t.take(i + 1 - start).last() == c);
        proof {
            lemma_digits_grow(t, i + 1 - start, hex);
        }
        let d: u64 = if c >= '0' && c <= '9' {
            (c as u8 - 48) as u64
        } else if hex && c >= 'a' && c <= 'f' {
            (c as u8 - 87) as u64
        } else if hex && c >= 'A' && c <= 'F' {
            (c as u8 - 55) as u64
        } else {
            return None;
        };
        let next: u128 = if hex {
            v as u128 * 16 + d as u128
        } else {
            v as u128 * 10 + d as u128
        };
        if next > max as u128 {
            return None;
        }
        v = next as u64;
        i += 1;
    }
    assert(t.take(t.len() as int) =~= t);
    Some(v)
}

// ---------------------------------------------------------------------------
// Splitting and joining
// ---------------------------------------------------------------------------

/// The last position of a character in the first `n` characters.
pub open spec fn last_index(s: Seq<char>, c: char, n: int) -> Option<int>
    decreases n,
{
    if n <= 0 {
        None
    } else if s[n - 1] == c {
        Some(n - 1)
    } else {
        last_index(s, c, n - 1)
    }
}

/// The last position of a character in `cs[from..to]`, counted from `from`.
pub fn find_last(cs: &[char], from: usize, to: usize, c: char) -> (r: Option<usize>)
    requires
        from <= to <= cs@.len(),
    ensures
        match r {
            Some(i) => last_index(cs@.subrange(from as int, to as int), c, to - from) == Some(i as int) && i < to - from,
            None => last_index(cs@.subrange(from as int, to as int), c, to - from) is None,
        },
{
    let ghost s = cs@.subrange(from as int, to as int);
    let mut i: usize = to - from;
    while i > 0
        invariant
            from <= to <= cs@.len(),
            i <= to - from,
            s == cs@.subrange(from as int, to as int),
            last_index(s, c, to - from) == last_index(s, c, i as int),
        decreases i,
    {
        assert(s[i - 1] == cs@[from + i - 1]);
        if cs[from + (i - 1)] == c {
            return Some(i - 1);
        }
        i -= 1;
    }
    None
}

/// The first position of a character.
pub open spec fn index_of(s: Seq<char>, c: char) -> Option<int> {
    find(s, seq![c])
}

/// The parts of a text between the occurrences of a separator.
pub open spec fn split_on(s: Seq<char>, c: char) -> Seq<Seq<char>>
    decreases s.len(),
{
    match index_of(s, c) {
        Some(i) => if 0 <= i < s.len() {
            seq![s.take(i)] + split_on(s.skip(i + 1), c)
        } else {
            seq![s]
        },
        None => seq![s],
    }
}

/// The first position of a character in `cs[from..]`, counted from `from`.
pub fn find_char(cs: &[char], from: usize, c: char) -> (r: Option<usize>)
    requires
        from <= cs@.len(),
    ensures
        match r {
            Some(i) => index_of(cs@.skip(from as int), c) == Some(i as int) && from + i < cs@.len() && cs@[from + i] == c,
            None => index_of(cs@.skip(from as int), c) is None,
        },
{
    let n = cs.len();
    let part = vstd::slice::slice_subrange(cs, from, n);
    assert(part@ =~= cs@.skip(from as int));
    let one: [char; 1] = [c];
    assert(one@ =~= seq![c]);
    let r = find_chars(part, &one, 0);
    proof {
        lemma_find_from(part@, seq![c], 0);
        if r is Some {
            let i = r->0 as int;
            assert(part@.subrange(i, i + 1)[0] == c);
        }
    }
    r
}

/// The parts of a text between the occurrences of a separator.
pub fn split(cs: &[char], c: char) -> (r: Vec<Vec<char>>)
    ensures
        crate::views::views(r@) == split_on(cs@, c),
{
    let mut out: Vec<Vec<char>> = Vec::new();
    let n = cs.len();
    let mut from: usize = 0;
    assert(cs@.skip(0) =~= cs@);
    assert(crate::views::views(out@) + split_on(cs@, c) =~= split_on(cs@, c));
    loop
        invariant
            n == cs@.len(),
            from <= n,
            crate::views::views(out@) + split_on(cs@.skip(from as int), c) == split_on(cs@, c),
        decreases n - from,
    {
        broadcast use crate::views::group_views;

        let ghost rest = cs@.skip(from as int);
        let ghost before = crate::views::views(out@);
        match find_char(cs, from, c) {
            Some(i) => {
                let part = vstd::slice::slice_to_vec(vstd::slice::slice_subrange(cs, from, from + i));
                assert(part@ =~= rest.take(i as int));
                out.push(part);
                assert(rest.skip(i + 1) =~= cs@.skip(from + i + 1));
                from = from + i + 1;
                assert(before + (seq![part@] + split_on(cs@.skip(from as int), c)) =~= before.push(part@) + split_on(
                    cs@.skip(from as int),
                    c,
                ));
            },
            None => {
                let part = vstd::slice::slice_to_vec(vstd::slice::slice_subrange(cs, from, n));
                assert(part@ =~= rest);
                out.push(part);
                assert(before + seq![part@] =~= before.push(part@));
                return out;
            },
        }
    }
}

/// The text of characters.
pub fn to_text(cs: &[char]) -> (r: String)
    ensures
        r@ == cs@,
{
    let r = text_range(cs, 0, cs.len());
    assert(cs@.subrange(0, cs@.len() as int) =~= cs@);
    r
}

/// Characters without white space at either end.
pub fn trimmed_chars(cs: &[char]) -> (r: Vec<char>)
    ensures
        r@ == trim(cs@),
{
    let n = cs.len();
    let a = skip_spaces(cs, 0, n);
    assert(cs@.subrange(0, n as int) =~= cs@);
    let b = drop_spaces(cs, a, n);
    vstd::slice::slice_to_vec(vstd::slice::slice_subrange(cs, a, b))
}

} // verus!
