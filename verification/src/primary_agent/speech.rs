//! What holds of the text that is left of an answer, and of the conversation that the
//! model is told of.

use vstd::prelude::*;

use crate::primary_agent::agent::{history_lines, history_text, recent, remembered, MAX_ANSWER, MAX_HISTORY};
use crate::primary_agent::planner::{
    calls_in, law_lists_are_taken, law_simple_tags_are_taken, lemma_strip_shortens, stripped, take_creates, take_lists,
    take_simple, SimpleTag, ToolView,
};
use crate::text::{
    find, first_chars, index_of, is_space, leading_spaces, lemma_find_from, occurs_at, trim, trim_end, trim_start,
};

verus! {

/// No closing bracket follows the prefix, wherever it stands in the text.
pub open spec fn never_closed(s: Seq<char>, prefix: Seq<char>) -> bool {
    forall|i: int, j: int|
        #[trigger] occurs_at(s, prefix, i) && i + prefix.len() <= j < s.len() ==> #[trigger] s[j] != ']'
}

proof fn lemma_leading_spaces(s: Seq<char>)
    ensures
        0 <= leading_spaces(s) <= s.len(),
        leading_spaces(s) < s.len() ==> !is_space(s[leading_spaces(s)]),
    decreases s.len(),
{
    if s.len() > 0 && is_space(s[0]) {
        lemma_leading_spaces(s.skip(1));
    }
}

/// What is left of a text without white space at its end.
proof fn lemma_trim_end(s: Seq<char>)
    ensures
        trim_end(s).len() <= s.len(),
        trim_end(s) == s.take(trim_end(s).len() as int),
        trim_end(s).len() > 0 ==> !is_space(trim_end(s).last()),
    decreases s.len(),
{
    if s.len() > 0 && is_space(s.last()) {
        lemma_trim_end(s.drop_last());
        assert(s.drop_last().take(trim_end(s).len() as int) =~= s.take(trim_end(s).len() as int));
    } else {
        assert(s.take(s.len() as int) =~= s);
    }
}

/// A trimmed text is a part of the text, and trimming it again changes nothing.
proof fn lemma_trim(s: Seq<char>)
    ensures
        leading_spaces(s) + trim(s).len() <= s.len(),
        0 <= leading_spaces(s),
        trim(s) == s.subrange(leading_spaces(s), leading_spaces(s) + trim(s).len()),
        trim(trim(s)) == trim(s),
{
    lemma_leading_spaces(s);
    let t = trim_start(s);
    lemma_trim_end(t);
    let r = trim(s);
    assert(r =~= s.subrange(leading_spaces(s), leading_spaces(s) + r.len()));
    if r.len() > 0 {
        assert(r[0] == t[0]);
        assert(t[0] == s[leading_spaces(s)]);
        assert(r.skip(0) =~= r);
        assert(trim_start(r) == r);
    } else {
        assert(trim_start(r) =~= r);
    }
}

/// An occurrence in one text is one in another that holds the same characters there.
proof fn lemma_occurs_moved(t: Seq<char>, s: Seq<char>, pat: Seq<char>, i: int, d: int)
    requires
        occurs_at(t, pat, i),
        0 <= i + d,
        i + d + pat.len() <= s.len(),
        forall|x: int| i <= x < i + pat.len() ==> #[trigger] t[x] == s[x + d],
    ensures
        occurs_at(s, pat, i + d),
{
    assert forall|m: int| 0 <= m < pat.len() implies #[trigger] s.subrange(i + d, i + d + pat.len())[m] == pat[m] by {
        assert(t.subrange(i, i + pat.len())[m] == t[i + m]);
        assert(t[i + m] == s[i + m + d]);
    }
    assert(s.subrange(i + d, i + d + pat.len()) =~= pat);
}

/// A part of a text has no closed tag that the text has not.
proof fn lemma_part_never_closed(s: Seq<char>, a: int, b: int, prefix: Seq<char>)
    requires
        never_closed(s, prefix),
        0 <= a <= b <= s.len(),
    ensures
        never_closed(s.subrange(a, b), prefix),
{
    let t = s.subrange(a, b);
    assert forall|i: int, j: int|
        #[trigger] occurs_at(t, prefix, i) && i + prefix.len() <= j < t.len() implies #[trigger] t[j] != ']' by {
        lemma_occurs_moved(t, s, prefix, i, a);
        assert(t[j] == s[j + a]);
    }
}

/// Taking a span out of a text closes no tag: a tag's prefix, which holds no line end,
/// stands on one side of the span, where it stood before.
proof fn lemma_strip_never_closed(s: Seq<char>, a: int, b: int, prefix: Seq<char>)
    requires
        never_closed(s, prefix),
        0 <= a <= b <= s.len(),
        prefix.len() > 0,
        forall|m: int| 0 <= m < prefix.len() ==> #[trigger] prefix[m] != '\n',
    ensures
        never_closed(stripped(s, a, b), prefix),
{
    let t = stripped(s, a, b);
    let n = prefix.len() as int;
    lemma_trim_end(s.take(a));
    lemma_leading_spaces(s.skip(b));
    let before = trim_end(s.take(a));
    let after = trim_start(s.skip(b));
    let k = before.len() as int;
    let from = b + leading_spaces(s.skip(b));
    let sep: int = if before.len() > 0 && after.len() > 0 {
        1
    } else {
        0
    };
    let d = from - k - sep;
    assert(t.len() == k + sep + after.len());
    assert forall|x: int| 0 <= x < k implies #[trigger] t[x] == s[x] by {
        assert(t[x] == before[x]);
        assert(before[x] == s.take(a)[x]);
    }
    assert forall|x: int| k + sep <= x < t.len() implies #[trigger] t[x] == s[x + d] by {
        assert(t[x] == after[x - k - sep]);
        assert(after[x - k - sep] == s.skip(b)[x - k - sep + leading_spaces(s.skip(b))]);
    }
    assert forall|i: int, j: int|
        #[trigger] occurs_at(t, prefix, i) && i + n <= j < t.len() implies #[trigger] t[j] != ']' by {
        if i + n <= k {
            assert forall|x: int| i <= x < i + n implies #[trigger] t[x] == s[x + 0] by {}
            lemma_occurs_moved(t, s, prefix, i, 0);
            if j < k {
                assert(s[j] != ']');
            } else if j >= k + sep {
                assert(s[j + d] != ']');
            }
        } else if i >= k + sep {
            lemma_occurs_moved(t, s, prefix, i, d);
            assert(s[j + d] != ']');
        } else {
            assert(sep == 1);
            assert(t.subrange(i, i + n)[k - i] == t[k]);
            assert(prefix[k - i] == '\n');
        }
    }
}

/// The prefixes of tags hold no line end.
proof fn lemma_prefix(tag: SimpleTag)
    ensures
        tag.prefix().len() >= 2,
        forall|m: int| 0 <= m < tag.prefix().len() ==> #[trigger] tag.prefix()[m] != '\n',
{
    reveal_strlit("[READ_FILE:");
    reveal_strlit("[DELETE_FILE:");
    reveal_strlit("[SEARCH_FILES:");
}

/// Taking out the tags of one kind closes no tag of another.
proof fn lemma_simple_never_closed(s: Seq<char>, tag: SimpleTag, tools: Seq<ToolView>, other: SimpleTag)
    requires
        never_closed(s, other.prefix()),
    ensures
        never_closed(take_simple(s, tag, tools).1, other.prefix()),
    decreases s.len(),
{
    lemma_prefix(tag);
    lemma_prefix(other);
    lemma_find_from(s, tag.prefix(), 0);
    match find(s, tag.prefix()) {
        Some(start) => {
            let k = tag.prefix().len() as int;
            let after = s.skip(start + k);
            lemma_find_from(after, seq![']'], 0);
            match index_of(after, ']') {
                Some(end) => {
                    lemma_strip_shortens(s, start, start + k + end + 1);
                    lemma_strip_never_closed(s, start, start + k + end + 1, other.prefix());
                    let argument = trim(after.take(end));
                    lemma_simple_never_closed(
                        stripped(s, start, start + k + end + 1),
                        tag,
                        if argument.len() > 0 {
                            tools.push(tag.call(argument))
                        } else {
                            tools
                        },
                        other,
                    );
                },
                None => {},
            }
        },
        None => {},
    }
}

/// Taking out the tags that list files closes no tag.
proof fn lemma_lists_never_closed(s: Seq<char>, tools: Seq<ToolView>, other: SimpleTag)
    requires
        never_closed(s, other.prefix()),
    ensures
        never_closed(take_lists(s, tools).1, other.prefix()),
    decreases s.len(),
{
    lemma_prefix(other);
    reveal_strlit("[LIST_FILES]");
    lemma_find_from(s, "[LIST_FILES]"@, 0);
    match find(s, "[LIST_FILES]"@) {
        Some(start) => {
            lemma_strip_shortens(s, start, start + 12);
            lemma_strip_never_closed(s, start, start + 12, other.prefix());
            lemma_lists_never_closed(stripped(s, start, start + 12), tools.push(ToolView::ListFiles), other);
        },
        None => {},
    }
}

/// A pass leaves no closed tag of its kind.
proof fn lemma_simple_taken(s: Seq<char>, tag: SimpleTag, tools: Seq<ToolView>)
    ensures
        never_closed(take_simple(s, tag, tools).1, tag.prefix()),
{
    let left = take_simple(s, tag, tools).1;
    let n = tag.prefix().len() as int;
    law_simple_tags_are_taken(s, tag, tools);
    lemma_find_from(left, tag.prefix(), 0);
    assert forall|i: int, j: int|
        #[trigger] occurs_at(left, tag.prefix(), i) && i + n <= j < left.len() implies #[trigger] left[j] != ']' by {
        let p = find(left, tag.prefix())->0;
        assert(p <= i);
        let after = left.skip(p + n);
        lemma_find_from(after, seq![']'], 0);
        let q = j - p - n;
        assert(!occurs_at(after, seq![']'], q));
        if left[j] == ']' {
            assert(after.subrange(q, q + 1) =~= seq![']']);
        }
    }
}

/// What is left of an answer to be said, whatever the answer: it has no white space at
/// its ends, no tag that lists files, and no closed tag that reads, deletes or searches
/// files. Taking one tag out never makes another one.
pub proof fn law_speech_holds_no_tag(response: Seq<char>)
    ensures
        trim(calls_in(response).1) == calls_in(response).1,
        find(calls_in(response).1, "[LIST_FILES]"@) is None,
        never_closed(calls_in(response).1, "[READ_FILE:"@),
        never_closed(calls_in(response).1, "[DELETE_FILE:"@),
        never_closed(calls_in(response).1, "[SEARCH_FILES:"@),
{
    let a = take_creates(response, 0, Seq::empty());
    let b = take_simple(a.1, SimpleTag::Read, a.0);
    let c = take_simple(b.1, SimpleTag::Delete, b.0);
    let d = take_simple(c.1, SimpleTag::Search, c.0);
    let e = take_lists(d.1, d.0);
    lemma_simple_taken(a.1, SimpleTag::Read, a.0);
    lemma_simple_never_closed(b.1, SimpleTag::Delete, b.0, SimpleTag::Read);
    lemma_simple_never_closed(c.1, SimpleTag::Search, c.0, SimpleTag::Read);
    lemma_lists_never_closed(d.1, d.0, SimpleTag::Read);
    lemma_simple_taken(b.1, SimpleTag::Delete, b.0);
    lemma_simple_never_closed(c.1, SimpleTag::Search, c.0, SimpleTag::Delete);
    lemma_lists_never_closed(d.1, d.0, SimpleTag::Delete);
    lemma_simple_taken(c.1, SimpleTag::Search, c.0);
    lemma_lists_never_closed(d.1, d.0, SimpleTag::Search);
    law_lists_are_taken(d.1, d.0);
    lemma_trim(e.1);
    let from = leading_spaces(e.1);
    let to = from + trim(e.1).len();
    lemma_part_never_closed(e.1, from, to, "[READ_FILE:"@);
    lemma_part_never_closed(e.1, from, to, "[DELETE_FILE:"@);
    lemma_part_never_closed(e.1, from, to, "[SEARCH_FILES:"@);
    let speech = trim(e.1);
    let mark = "[LIST_FILES]"@;
    lemma_find_from(speech, mark, 0);
    lemma_find_from(e.1, mark, 0);
    if find(speech, mark) is Some {
        lemma_occurs_moved(speech, e.1, mark, find(speech, mark)->0, from);
    }
}

// ---------------------------------------------------------------------------
// The conversation
// ---------------------------------------------------------------------------

/// The memory of an agent after these turns, from its making on.
pub open spec fn history_after(turns: Seq<(Seq<char>, Seq<char>)>) -> Seq<(Seq<char>, Seq<char>)>
    decreases turns.len(),
{
    if turns.len() == 0 {
        Seq::empty()
    } else {
        recent(history_after(turns.drop_last()).push(remembered(turns.last())))
    }
}

/// The lines that tell the model of turns, oldest first.
pub open spec fn told(turns: Seq<(Seq<char>, Seq<char>)>) -> Seq<char>
    decreases turns.len(),
{
    if turns.len() == 0 {
        Seq::empty()
    } else {
        told(turns.drop_last()) + ("User: "@ + turns.last().0 + "\nAssistant: "@ + first_chars(
            turns.last().1,
            MAX_ANSWER as int,
        ) + "\n"@)
    }
}

/// The memory holds the last six turns.
proof fn lemma_history_after(turns: Seq<(Seq<char>, Seq<char>)>)
    ensures
        history_after(turns) == recent(turns).map_values(|t: (Seq<char>, Seq<char>)| remembered(t)),
    decreases turns.len(),
{
    let all = recent(turns).map_values(|t: (Seq<char>, Seq<char>)| remembered(t));
    if turns.len() == 0 {
        assert(all =~= Seq::empty());
    } else {
        let rest = turns.drop_last();
        lemma_history_after(rest);
        assert(recent(history_after(rest).push(remembered(turns.last()))) =~= all);
    }
}

proof fn lemma_told(h: Seq<(Seq<char>, Seq<char>)>, turns: Seq<(Seq<char>, Seq<char>)>, n: int)
    requires
        h == turns.map_values(|t: (Seq<char>, Seq<char>)| remembered(t)),
        0 <= n <= turns.len(),
    ensures
        history_lines(h, n) == told(turns.take(n)),
    decreases n,
{
    if n > 0 {
        lemma_told(h, turns, n - 1);
        assert(turns.take(n).drop_last() =~= turns.take(n - 1));
        assert(turns.take(n).last() == turns[n - 1]);
    }
}

/// What the model is told after any number of turns: nothing before the first; then the
/// last six, oldest first, each with the user's words and the first three hundred
/// characters of the answer.
pub proof fn law_history_text(turns: Seq<(Seq<char>, Seq<char>)>)
    ensures
        turns.len() == 0 ==> history_text(history_after(turns)) == Seq::<char>::empty(),
        turns.len() > 0 ==> history_text(history_after(turns)) == "\nCONVERSATION HISTORY:\n"@ + told(recent(turns)),
        recent(turns).len() <= MAX_HISTORY,
{
    lemma_history_after(turns);
    let last = recent(turns);
    let h = history_after(turns);
    lemma_told(h, last, last.len() as int);
    assert(last.take(last.len() as int) =~= last);
}

} // verus!
