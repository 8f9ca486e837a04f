//! What holds of searching, trimming, splitting and numbers, for every text.

use vstd::prelude::*;
use vstd::utf8::*;

use crate::text::{
    byte_prefix, chars_within, contains, decimal, digit, digit_value, digits_value, find, first_chars, index_of, is_space, leading_spaces,
    lemma_find_from, lower, number, occurs_at, split_on, starts_with, trim, trim_end, trim_start, utf8_width,
};

verus! {

// ---------------------------------------------------------------------------
// White space
// ---------------------------------------------------------------------------

/// A text of white space alone.
pub open spec fn blank(s: Seq<char>) -> bool {
    forall|i: int| 0 <= i < s.len() ==> is_space(#[trigger] s[i])
}

/// A text that neither begins nor ends with white space.
pub open spec fn tight(s: Seq<char>) -> bool {
    s.len() > 0 ==> !is_space(s[0]) && !is_space(s.last())
}

/// Spaces, tabs and line ends are white space; a visible ASCII character is not.
pub proof fn law_white_space(c: char)
    ensures
        c == ' ' || c == '\t' || c == '\n' || c == '\r' ==> is_space(c),
        '!' <= c <= '~' ==> !is_space(c),
{
}

/// White space at the front is skipped.
pub proof fn lemma_trim_start_blank(a: Seq<char>, m: Seq<char>)
    requires
        blank(a),
        m.len() > 0 ==> !is_space(m[0]),
    ensures
        leading_spaces(a + m) == a.len(),
        trim_start(a + m) == m,
    decreases a.len(),
{
    let s = a + m;
    if a.len() == 0 {
        assert(s =~= m);
        assert(s.skip(0) =~= m);
    } else {
        assert(s[0] == a[0]);
        assert(s.skip(1) =~= a.skip(1) + m);
        assert forall|i: int| 0 <= i < a.skip(1).len() implies is_space(#[trigger] a.skip(1)[i]) by {
            assert(a.skip(1)[i] == a[i + 1]);
        }
        lemma_trim_start_blank(a.skip(1), m);
        assert(s.skip(a.len() as int) =~= m);
    }
}

/// White space at the end is dropped.
pub proof fn lemma_trim_end_blank(m: Seq<char>, b: Seq<char>)
    requires
        blank(b),
        m.len() > 0 ==> !is_space(m.last()),
    ensures
        trim_end(m + b) == m,
    decreases b.len(),
{
    let s = m + b;
    if b.len() == 0 {
        assert(s =~= m);
    } else {
        assert(s.last() == b.last());
        assert(is_space(b[b.len() - 1]));
        assert(s.drop_last() =~= m + b.drop_last());
        assert forall|i: int| 0 <= i < b.drop_last().len() implies is_space(#[trigger] b.drop_last()[i]) by {
            assert(b.drop_last()[i] == b[i]);
        }
        lemma_trim_end_blank(m, b.drop_last());
    }
}

/// Trimming takes the white space at both ends of a text away and nothing else.
pub proof fn law_trim(a: Seq<char>, m: Seq<char>, b: Seq<char>)
    requires
        blank(a),
        blank(b),
        tight(m),
    ensures
        trim(a + m + b) == m,
{
    if m.len() == 0 {
        let s = a + m + b;
        assert forall|i: int| 0 <= i < s.len() implies is_space(#[trigger] s[i]) by {
            if i < a.len() {
                assert(s[i] == a[i]);
            } else {
                assert(s[i] == b[i - a.len()]);
            }
        }
        lemma_trim_start_blank(s, m);
        assert(s + m =~= s);
        assert(m =~= Seq::empty());
    } else {
        assert(a + m + b =~= a + (m + b));
        assert((m + b)[0] == m[0]);
        lemma_trim_start_blank(a, m + b);
        lemma_trim_end_blank(m, b);
    }
}

/// A text that neither begins nor ends with white space stays as it is.
pub proof fn law_tight_stays(m: Seq<char>)
    requires
        tight(m),
    ensures
        trim(m) == m,
{
    let e = Seq::<char>::empty();
    law_trim(e, m, e);
    assert(e + m + e =~= m);
}

/// Every text is what trimming leaves of it, with white space around.
pub proof fn law_trim_parts(s: Seq<char>) -> (parts: (Seq<char>, Seq<char>))
    ensures
        blank(parts.0),
        blank(parts.1),
        tight(trim(s)),
        s == parts.0 + trim(s) + parts.1,
{
    let n = lemma_leading(s);
    let t = trim_start(s);
    let k = lemma_trailing(t);
    let parts = (s.take(n), t.skip(k));
    assert forall|i: int| 0 <= i < parts.1.len() implies is_space(#[trigger] parts.1[i]) by {
        assert(parts.1[i] == t[k + i]);
    }
    assert(trim(s) == t.take(k));
    if k > 0 {
        assert(trim(s)[0] == t[0]);
        assert(trim(s).last() == t[k - 1]);
    }
    assert(s =~= parts.0 + trim(s) + parts.1);
    parts
}

proof fn lemma_leading(s: Seq<char>) -> (n: int)
    ensures
        n == leading_spaces(s),
        0 <= n <= s.len(),
        blank(s.take(n)),
        trim_start(s) == s.skip(n),
        n < s.len() ==> !is_space(s[n]),
    decreases s.len(),
{
    if s.len() > 0 && is_space(s[0]) {
        let m = lemma_leading(s.skip(1));
        assert forall|i: int| 0 <= i < m + 1 implies is_space(#[trigger] s.take(m + 1)[i]) by {
            if i > 0 {
                assert(s.skip(1).take(m)[i - 1] == s[i]);
            }
        }
        m + 1
    } else {
        0
    }
}

proof fn lemma_trailing(s: Seq<char>) -> (k: int)
    ensures
        0 <= k <= s.len(),
        trim_end(s) == s.take(k),
        k > 0 ==> !is_space(s[k - 1]),
        forall|i: int| k <= i < s.len() ==> is_space(#[trigger] s[i]),
    decreases s.len(),
{
    if s.len() > 0 && is_space(s.last()) {
        let k = lemma_trailing(s.drop_last());
        assert(s.drop_last().take(k) =~= s.take(k));
        assert forall|i: int| k <= i < s.len() implies is_space(#[trigger] s[i]) by {
            if i < s.len() - 1 {
                assert(s.drop_last()[i] == s[i]);
            }
        }
        k
    } else {
        assert(s.take(s.len() as int) =~= s);
        s.len() as int
    }
}

// ---------------------------------------------------------------------------
// Searching
// ---------------------------------------------------------------------------

/// A text that was put between two others is found, no later than there.
pub proof fn law_inserted_is_found<T>(a: Seq<T>, pat: Seq<T>, b: Seq<T>)
    ensures
        contains(a + pat + b, pat),
        0 <= find(a + pat + b, pat)->0 <= a.len(),
{
    let s = a + pat + b;
    lemma_find_from(s, pat, 0);
    assert(s.subrange(a.len() as int, (a.len() + pat.len()) as int) =~= pat);
    assert(occurs_at(s, pat, a.len() as int));
}

/// What is found stands there: the text is what stands before it, the pattern, and what
/// follows; and no place before is one.
pub proof fn law_found_divides<T>(s: Seq<T>, pat: Seq<T>)
    requires
        contains(s, pat),
    ensures
        ({
            let i = find(s, pat)->0;
            &&& 0 <= i <= s.len() - pat.len()
            &&& s == s.take(i) + pat + s.skip(i + pat.len())
            &&& forall|a: Seq<T>, b: Seq<T>| s == #[trigger] (a + pat + b) ==> a.len() >= i
        }),
{
    lemma_find_from(s, pat, 0);
    let i = find(s, pat)->0;
    assert(s =~= s.take(i) + pat + s.skip(i + pat.len())) by {
        let h = s.subrange(i, i + pat.len());
        assert(h == pat);
        assert forall|k: int| i <= k < i + pat.len() implies s[k] == pat[k - i] by {
            assert(h[k - i] == s[k]);
        }
    }
    assert forall|a: Seq<T>, b: Seq<T>| s == #[trigger] (a + pat + b) implies a.len() >= i by {
        law_inserted_is_found(a, pat, b);
    }
}

/// What a part of a text holds, the text holds.
pub proof fn law_part_is_found<T>(x: Seq<T>, part: Seq<T>, y: Seq<T>, pat: Seq<T>)
    requires
        contains(part, pat),
    ensures
        contains(x + part + y, pat),
{
    law_found_divides(part, pat);
    let i = find(part, pat)->0;
    let a = part.take(i);
    let b = part.skip(i + pat.len());
    assert(x + part + y =~= (x + a) + pat + (b + y));
    law_inserted_is_found(x + a, pat, b + y);
}

/// A text begins with what it was put together from.
pub proof fn law_prefix<T>(pat: Seq<T>, b: Seq<T>)
    ensures
        starts_with(pat + b, pat),
        (pat + b).skip(pat.len() as int) == b,
{
    assert((pat + b).subrange(0, pat.len() as int) =~= pat);
    assert((pat + b).skip(pat.len() as int) =~= b);
}

/// Only what begins with a pattern does.
pub proof fn law_prefix_is_there<T>(s: Seq<T>, pat: Seq<T>)
    requires
        starts_with(s, pat),
    ensures
        s == pat + s.skip(pat.len() as int),
{
    let h = s.subrange(0, pat.len() as int);
    assert forall|k: int| 0 <= k < pat.len() implies s[k] == pat[k] by {
        assert(h[k] == s[k]);
    }
    assert(s =~= pat + s.skip(pat.len() as int));
}

proof fn lemma_char_at(s: Seq<char>, c: char, i: int)
    requires
        0 <= i < s.len(),
    ensures
        occurs_at(s, seq![c], i) <==> s[i] == c,
{
    assert(s.subrange(i, i + 1) =~= seq![s[i]]);
    if seq![s[i]] == seq![c] {
        assert(seq![s[i]][0] == seq![c][0]);
    }
}

/// The first position of a character is behind everything that does not hold it.
pub proof fn law_first_position(a: Seq<char>, c: char, b: Seq<char>)
    requires
        !a.contains(c),
    ensures
        index_of(a.push(c) + b, c) == Some(a.len() as int),
        (a.push(c) + b).take(a.len() as int) == a,
        (a.push(c) + b).skip(a.len() as int + 1) == b,
{
    let s = a.push(c) + b;
    let n = a.len() as int;
    lemma_find_from(s, seq![c], 0);
    lemma_char_at(s, c, n);
    match index_of(s, c) {
        Some(p) => {
            lemma_char_at(s, c, p);
            if p < n {
                assert(a[p] == c);
            }
        },
        None => {},
    }
    assert(s.take(n) =~= a);
    assert(s.skip(n + 1) =~= b);
}

/// A character is found exactly where there is one.
pub proof fn law_no_position(s: Seq<char>, c: char)
    ensures
        index_of(s, c) is None <==> !s.contains(c),
{
    lemma_find_from(s, seq![c], 0);
    match index_of(s, c) {
        Some(p) => {
            lemma_char_at(s, c, p);
            assert(s.contains(c));
        },
        None => {
            if s.contains(c) {
                let k = choose|k: int| 0 <= k < s.len() && s[k] == c;
                lemma_char_at(s, c, k);
            }
        },
    }
}

/// The beginning of a text of so many characters is a beginning, of that length where the
/// text is longer.
pub proof fn law_first_chars(s: Seq<char>, n: nat)
    ensures
        starts_with(s, first_chars(s, n as int)),
        first_chars(s, n as int).len() == if s.len() < n {
            s.len()
        } else {
            n
        },
{
    let t = first_chars(s, n as int);
    assert(s.subrange(0, t.len() as int) =~= t);
}

// ---------------------------------------------------------------------------
// Numbers
// ---------------------------------------------------------------------------

/// A decimal notation is made of the digits from zero to nine, and only zero begins with
/// a zero.
pub proof fn law_decimal_digits(n: nat)
    ensures
        decimal(n).len() > 0,
        forall|i: int| 0 <= i < decimal(n).len() ==> '0' <= #[trigger] decimal(n)[i] <= '9',
        n > 0 ==> decimal(n)[0] != '0',
        n == 0 ==> decimal(n) == seq!['0'],
    decreases n,
{
    let s = decimal(n);
    assert('0' <= digit(n % 10) <= '9');
    if n >= 10 {
        law_decimal_digits(n / 10);
        assert forall|i: int| 0 <= i < s.len() implies '0' <= #[trigger] s[i] <= '9' by {
            if i < s.len() - 1 {
                assert(s[i] == decimal(n / 10)[i]);
            }
        }
        assert(s[0] == decimal(n / 10)[0]);
    }
}

proof fn lemma_decimal_value(n: nat)
    ensures
        digits_value(decimal(n), false) == Some(n),
    decreases n,
{
    let s = decimal(n);
    assert(digit_value(digit(n % 10), false) == Some(n % 10));
    if n < 10 {
        assert(s.drop_last() =~= Seq::empty());
        reveal_with_fuel(digits_value, 2);
    } else {
        lemma_decimal_value(n / 10);
        assert(s.drop_last() =~= decimal(n / 10));
    }
}

/// A number's decimal notation is read as that number, where it is within the limit.
pub proof fn law_decimal_is_read(n: nat, max: nat)
    ensures
        number(decimal(n), false, max) == if n <= max {
            Some(n)
        } else {
            None
        },
{
    lemma_decimal_value(n);
    law_decimal_digits(n);
    assert('0' <= decimal(n)[0] <= '9');
}

/// Different numbers have different notations.
pub proof fn law_decimal_differs(a: nat, b: nat)
    requires
        decimal(a) == decimal(b),
    ensures
        a == b,
{
    lemma_decimal_value(a);
    lemma_decimal_value(b);
}

/// What is read as a decimal number is digits behind an optional plus sign.
pub proof fn law_number_is_digits(s: Seq<char>, max: nat)
    requires
        number(s, false, max) is Some,
    ensures
        s.len() > 0,
        number(s, false, max)->0 <= max,
        forall|i: int| 0 <= i < s.len() ==> '0' <= #[trigger] s[i] <= '9' || (i == 0 && s[i] == '+'),
{
    let t = if s.len() > 0 && s[0] == '+' {
        s.skip(1)
    } else {
        s
    };
    lemma_all_decimal(t);
    assert forall|i: int| 0 <= i < s.len() implies '0' <= #[trigger] s[i] <= '9' || (i == 0 && s[i] == '+') by {
        if s[0] == '+' {
            if i > 0 {
                assert(t[i - 1] == s[i]);
            }
        } else {
            assert(t[i] == s[i]);
        }
    }
}

proof fn lemma_all_decimal(s: Seq<char>)
    requires
        digits_value(s, false) is Some,
    ensures
        forall|i: int| 0 <= i < s.len() ==> '0' <= #[trigger] s[i] <= '9',
    decreases s.len(),
{
    if s.len() > 0 {
        lemma_all_decimal(s.drop_last());
        assert forall|i: int| 0 <= i < s.len() implies '0' <= #[trigger] s[i] <= '9' by {
            if i < s.len() - 1 {
                assert(s.drop_last()[i] == s[i]);
            }
        }
    }
}

// ---------------------------------------------------------------------------
// Case and parts
// ---------------------------------------------------------------------------

/// Lowering keeps the length and every character but capital ASCII letters, and leaves
/// none of these; a letter and its capital are lowered alike.
pub proof fn law_lower(s: Seq<char>, i: int)
    requires
        0 <= i < s.len(),
    ensures
        lower(s).len() == s.len(),
        !('A' <= lower(s)[i] <= 'Z'),
        !('A' <= s[i] <= 'Z') ==> lower(s)[i] == s[i],
        'A' <= s[i] <= 'Z' ==> lower(s)[i] as int - 'a' as int == s[i] as int - 'A' as int,
        lower(lower(s)) == lower(s),
{
    assert(lower(lower(s)) =~= lower(s));
}

/// Parts with a separator between them.
pub open spec fn parts_joined(parts: Seq<Seq<char>>, c: char) -> Seq<char>
    decreases parts.len(),
{
    if parts.len() == 0 {
        Seq::empty()
    } else if parts.len() == 1 {
        parts[0]
    } else {
        parts[0].push(c) + parts_joined(parts.skip(1), c)
    }
}

/// Splitting a text gives parts without the separator that, joined by it, are the text.
pub proof fn law_split_parts(s: Seq<char>, c: char)
    ensures
        split_on(s, c).len() > 0,
        parts_joined(split_on(s, c), c) == s,
        forall|i: int| 0 <= i < split_on(s, c).len() ==> !(#[trigger] split_on(s, c)[i]).contains(c),
    decreases s.len(),
{
    law_no_position(s, c);
    match index_of(s, c) {
        None => {},
        Some(p) => {
            lemma_find_from(s, seq![c], 0);
            lemma_char_at(s, c, p);
            let rest = split_on(s.skip(p + 1), c);
            let all = split_on(s, c);
            law_split_parts(s.skip(p + 1), c);
            assert(all.skip(1) =~= rest);
            assert(all[0].push(c) + s.skip(p + 1) =~= s);
            assert forall|i: int| 0 <= i < all.len() implies !(#[trigger] all[i]).contains(c) by {
                if i > 0 {
                    assert(all[i] == rest[i - 1]);
                } else {
                    if all[0].contains(c) {
                        let k = choose|k: int| 0 <= k < all[0].len() && all[0][k] == c;
                        lemma_char_at(s, c, k);
                    }
                }
            }
        },
    }
}

/// The bytes of a character are as many as its width says.
proof fn lemma_width(c: char)
    ensures
        encode_scalar(c as u32).len() == utf8_width(c),
{
    char_is_scalar(c);
}

/// The beginning of a text that fits into so many bytes is one that does, and as long as
/// possible: with one more character it would not fit.
pub proof fn law_byte_prefix(s: Seq<char>, n: nat)
    ensures
        0 <= chars_within(s, n as int) <= s.len(),
        byte_prefix(s, n as int) == s.take(byte_prefix(s, n as int).len() as int),
        encode_utf8(byte_prefix(s, n as int)).len() <= n,
        byte_prefix(s, n as int).len() < s.len() ==> encode_utf8(
            s.take(byte_prefix(s, n as int).len() as int + 1),
        ).len() > n,
    decreases s.len(),
{
    let k = chars_within(s, n as int);
    if s.len() > 0 {
        let w = utf8_width(s[0]);
        let rest = s.skip(1);
        lemma_width(s[0]);
        if w <= n {
            law_byte_prefix(rest, (n - w) as nat);
            let j = k - 1;
            assert(rest.take(j) == byte_prefix(rest, n - w));
            assert(s.take(k).drop_first() =~= rest.take(j));
            assert(s.take(k)[0] == s[0]);
            if k < s.len() {
                assert(s.take(k + 1).drop_first() =~= rest.take(j + 1));
                assert(s.take(k + 1)[0] == s[0]);
            }
        } else {
            assert(s.take(0) =~= Seq::empty());
            assert(s.take(1)[0] == s[0]);
            assert(s.take(1).drop_first() =~= Seq::empty());
            assert(encode_utf8(s.take(1)).len() == w + encode_utf8(Seq::<char>::empty()).len());
        }
    }
    assert(s.take(k).len() == k);
}

} // verus!
