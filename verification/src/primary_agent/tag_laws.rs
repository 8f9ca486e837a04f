//! What holds of an answer with tool tags: which calls it makes, with which arguments, and
//! what is left to be said.

use vstd::prelude::*;

use crate::primary_agent::planner::{
    calls_in, create_call, create_end, lemma_strip_shortens, next_tag, part_after, part_before, stripped, take_creates,
    take_lists, take_simple, with_call, SimpleTag, ToolView,
};
use crate::text::{
    contains, find, index_of, is_space, last_index, lemma_find_from, occurs_at, trim, trim_end, trim_start,
};
use crate::text_laws::{
    blank, law_first_position, law_inserted_is_found, law_no_position, law_tight_stays, law_trim, law_trim_parts,
    lemma_trim_end_blank, lemma_trim_start_blank, tight,
};

verus! {

/// A text without brackets.
pub open spec fn no_brackets(s: Seq<char>) -> bool {
    !s.contains('[') && !s.contains(']')
}

/// A text that holds the beginning of no tag.
pub open spec fn tagless(s: Seq<char>) -> bool {
    &&& !contains(s, "[CREATE_FILE:"@)
    &&& !contains(s, "[READ_FILE:"@)
    &&& !contains(s, "[DELETE_FILE:"@)
    &&& !contains(s, "[SEARCH_FILES:"@)
    &&& !contains(s, "[LIST_FILES]"@)
}

/// What is said of the text before and behind a tag: both, without white space around
/// them, on lines of their own.
pub open spec fn said(pre: Seq<char>, post: Seq<char>) -> Seq<char> {
    let p = trim(pre);
    let q = trim(post);
    if p.len() > 0 && q.len() > 0 {
        p.push('\n') + q
    } else {
        p + q
    }
}

/// A mark that begins with a bracket does not stand in a text without one.
proof fn lemma_mark_absent(s: Seq<char>, mark: Seq<char>)
    requires
        !s.contains('['),
        mark.len() > 0,
        mark[0] == '[',
    ensures
        find(s, mark) is None,
{
    lemma_find_from(s, mark, 0);
    if find(s, mark) is Some {
        let i = find(s, mark)->0;
        assert(s.subrange(i, i + mark.len())[0] == s[i]);
    }
}

/// A text without brackets holds no tag.
proof fn lemma_no_tags(s: Seq<char>)
    requires
        !s.contains('['),
    ensures
        tagless(s),
{
    reveal_strlit("[CREATE_FILE:");
    reveal_strlit("[READ_FILE:");
    reveal_strlit("[DELETE_FILE:");
    reveal_strlit("[SEARCH_FILES:");
    reveal_strlit("[LIST_FILES]");
    lemma_mark_absent(s, "[CREATE_FILE:"@);
    lemma_mark_absent(s, "[READ_FILE:"@);
    lemma_mark_absent(s, "[DELETE_FILE:"@);
    lemma_mark_absent(s, "[SEARCH_FILES:"@);
    lemma_mark_absent(s, "[LIST_FILES]"@);
}

/// A mark is found behind a text without brackets.
proof fn lemma_mark_found(pre: Seq<char>, mark: Seq<char>, rest: Seq<char>)
    requires
        !pre.contains('['),
        mark.len() > 0,
        mark[0] == '[',
    ensures
        find(pre + mark + rest, mark) == Some(pre.len() as int),
{
    let s = pre + mark + rest;
    law_inserted_is_found(pre, mark, rest);
    lemma_find_from(s, mark, 0);
    let i = find(s, mark)->0;
    lemma_first_of(s, mark, i);
    if i < pre.len() {
        assert(s[i] == pre[i]);
        assert(pre.contains('['));
    }
}

/// Where a mark stands, its first character stands.
proof fn lemma_first_of(s: Seq<char>, mark: Seq<char>, i: int)
    requires
        mark.len() > 0,
        occurs_at(s, mark, i),
    ensures
        s[i] == mark[0],
{
    let here = s.subrange(i, i + mark.len());
    assert(here[0] == s[i]);
}

/// Where the only bracket begins one mark, no mark with another second character stands.
proof fn lemma_other_mark(pre: Seq<char>, mark: Seq<char>, rest: Seq<char>, other: Seq<char>)
    requires
        !pre.contains('['),
        !rest.contains('['),
        mark.len() > 1,
        other.len() > 1,
        mark[0] == '[',
        other[0] == '[',
        mark[1] != other[1],
        forall|i: int| 0 < i < mark.len() ==> #[trigger] mark[i] != '[',
    ensures
        find(pre + mark + rest, other) is None,
{
    let s = pre + mark + rest;
    lemma_find_from(s, other, 0);
    if find(s, other) is Some {
        let i = find(s, other)->0;
        let here = s.subrange(i, i + other.len());
        assert(here[0] == s[i] && here[1] == s[i + 1]);
        let n = pre.len() as int;
        if i < n {
            assert(pre[i] == '[');
        } else if i >= n + mark.len() {
            assert(rest[i - n - mark.len()] == '[');
        } else if i > n {
            assert(mark[i - n] == '[');
        } else {
            assert(s[i + 1] == mark[1]);
        }
    }
}

/// Taking a tag out leaves what stands around it, and nothing in brackets.
proof fn lemma_around(pre: Seq<char>, tag: Seq<char>, post: Seq<char>)
    requires
        !pre.contains('['),
        !post.contains('['),
    ensures
        ({
            let left = stripped(pre + tag + post, pre.len() as int, (pre.len() + tag.len()) as int);
            !left.contains('[') && trim(left) == said(pre, post)
        }),
{
    let s = pre + tag + post;
    let a = pre.len() as int;
    let b = (pre.len() + tag.len()) as int;
    let left = stripped(s, a, b);
    assert(s.take(a) =~= pre);
    assert(s.skip(b) =~= post);
    let (w1, w2) = law_trim_parts(pre);
    let (w3, w4) = law_trim_parts(post);
    let p = trim(pre);
    let q = trim(post);
    let e = Seq::<char>::empty();
    let before = if p.len() > 0 {
        assert((w1 + p).last() == p.last());
        lemma_trim_end_blank(w1 + p, w2);
        w1 + p
    } else {
        assert(pre =~= e + (w1 + w2));
        lemma_blank_join(w1, w2);
        lemma_trim_end_blank(e, w1 + w2);
        e
    };
    assert(trim_end(pre) == before);
    let after = if q.len() > 0 {
        assert((q + w4)[0] == q[0]);
        assert(post =~= w3 + (q + w4));
        lemma_trim_start_blank(w3, q + w4);
        q + w4
    } else {
        assert(post =~= (w3 + w4) + e);
        lemma_blank_join(w3, w4);
        lemma_trim_start_blank(w3 + w4, e);
        e
    };
    assert(trim_start(post) == after);
    if p.len() > 0 && q.len() > 0 {
        let m = p.push('\n') + q;
        assert(left =~= w1 + m + w4);
        assert(m[0] == p[0] && m.last() == q.last());
        law_trim(w1, m, w4);
    } else if p.len() > 0 {
        assert(left =~= w1 + p + e);
        law_trim(w1, p, e);
        assert(said(pre, post) =~= p);
    } else if q.len() > 0 {
        assert(left =~= e + q + w4);
        law_trim(e, q, w4);
        assert(said(pre, post) =~= q);
    } else {
        assert(left =~= e);
        law_tight_stays(e);
        assert(said(pre, post) =~= e);
    }
    assert(!left.contains('[')) by {
        if left.contains('[') {
            let k = choose|k: int| 0 <= k < left.len() && left[k] == '[';
            if k < before.len() {
                assert(before[k] == '[');
                assert(pre[k] == '[');
            } else if after.len() > 0 && k >= left.len() - after.len() {
                let j = k - (left.len() - after.len());
                assert(after[j] == '[');
                assert(post[w3.len() + j] == '[');
            }
        }
    }
}

proof fn lemma_blank_join(a: Seq<char>, b: Seq<char>)
    requires
        blank(a),
        blank(b),
    ensures
        blank(a + b),
{
    assert forall|i: int| 0 <= i < (a + b).len() implies is_space(#[trigger] (a + b)[i]) by {
        if i < a.len() {
            assert((a + b)[i] == a[i]);
        } else {
            assert((a + b)[i] == b[i - a.len()]);
        }
    }
}

/// The passes over a text without brackets change nothing.
proof fn lemma_nothing_to_take(s: Seq<char>, tools: Seq<ToolView>)
    requires
        !s.contains('['),
    ensures
        take_creates(s, 0, tools) == (tools, s),
        take_simple(s, SimpleTag::Read, tools) == (tools, s),
        take_simple(s, SimpleTag::Delete, tools) == (tools, s),
        take_simple(s, SimpleTag::Search, tools) == (tools, s),
        take_lists(s, tools) == (tools, s),
{
    lemma_no_tags(s);
}

// ---------------------------------------------------------------------------
// Writing files
// ---------------------------------------------------------------------------

proof fn lemma_last_bracket(a: Seq<char>, b: Seq<char>, n: int)
    requires
        a.len() < n <= a.len() + 1 + b.len(),
        !b.contains(']'),
    ensures
        last_index(a.push(']') + b, ']', n) == Some(a.len() as int),
    decreases n,
{
    let s = a.push(']') + b;
    if n - 1 > a.len() {
        assert(s[n - 1] == b[n - 2 - a.len()]);
        lemma_last_bracket(a, b, n - 1);
    }
}

/// A tag that writes a file makes the call that its inside says, and the text around it is
/// what is said.
proof fn lemma_create(pre: Seq<char>, inner: Seq<char>, post: Seq<char>)
    requires
        no_brackets(pre),
        no_brackets(post),
        tagless(inner.push(']') + post),
    ensures
        calls_in(pre + "[CREATE_FILE:"@ + inner + "]"@ + post) == (
            with_call(Seq::empty(), create_call(inner)),
            said(pre, post),
        ),
{
    reveal_strlit("[CREATE_FILE:");
    reveal_strlit("]");
    let mark = "[CREATE_FILE:"@;
    let after = inner.push(']') + post;
    let tag = mark + inner.push(']');
    let s = pre + mark + inner + "]"@ + post;
    let n = pre.len() as int;
    assert(s =~= pre + mark + after);
    assert(s =~= pre + tag + post);
    lemma_mark_found(pre, mark, after);
    assert(s.skip(n + 13) =~= after);
    assert(next_tag(after) is None);
    let len = after.len() as int;
    assert(after.take(len) =~= after);
    lemma_last_bracket(inner, post, len);
    let end = inner.len() as int;
    assert(create_end(after) == Some(end));
    assert(after.take(end) =~= inner);
    let next = stripped(s, n, n + 13 + end + 1);
    assert(n + 13 + end + 1 == n + tag.len());
    lemma_strip_shortens(s, n, n + 13 + end + 1);
    lemma_around(pre, tag, post);
    let tools = with_call(Seq::empty(), create_call(inner));
    lemma_nothing_to_take(next, tools);
    assert(take_creates(s, 0, Seq::empty()) == take_creates(next, 0, tools));
}

/// A tag that writes a file makes one call, with the name, the tags and the description
/// between the bars, and with all of the content, colons and brackets included; white space
/// around each of them does not count. The text around the tag is what is said.
pub proof fn law_create_tag(
    pre: Seq<char>,
    name: Seq<char>,
    tags: Seq<char>,
    description: Seq<char>,
    content: Seq<char>,
    post: Seq<char>,
)
    requires
        no_brackets(pre),
        no_brackets(post),
        tagless(name + "|"@ + tags + "|"@ + description + ":"@ + content + "]"@ + post),
        !name.contains(':') && !name.contains('|'),
        !tags.contains(':') && !tags.contains('|'),
        !description.contains(':') && !description.contains('|'),
        trim(name).len() > 0,
        trim(content).len() > 0,
    ensures
        calls_in(
            pre + "[CREATE_FILE:"@ + (name + "|"@ + tags + "|"@ + description + ":"@ + content) + "]"@ + post,
        ) == (
            seq![
                ToolView::CreateFile {
                    name: trim(name),
                    tags: trim(tags),
                    description: trim(description),
                    content: trim(content),
                },
            ],
            said(pre, post),
        ),
{
    reveal_strlit("|");
    reveal_strlit(":");
    reveal_strlit("]");
    let inner = name + "|"@ + tags + "|"@ + description + ":"@ + content;
    assert(inner.push(']') + post =~= inner + "]"@ + post);
    lemma_create(pre, inner, post);
    let meta = name.push('|') + (tags.push('|') + description);
    assert(inner =~= meta.push(':') + content);
    lemma_meta_has_no_colon(name, tags, description);
    law_first_position(meta, ':', content);
    lemma_meta(name, tags, description);
    let m = trim(meta);
    assert(with_call(Seq::empty(), create_call(inner)) =~= seq![
        ToolView::CreateFile {
            name: trim(name),
            tags: trim(tags),
            description: trim(description),
            content: trim(content),
        },
    ]);
}

proof fn lemma_meta_has_no_colon(name: Seq<char>, tags: Seq<char>, description: Seq<char>)
    requires
        !name.contains(':'),
        !tags.contains(':'),
        !description.contains(':'),
    ensures
        !(name.push('|') + (tags.push('|') + description)).contains(':'),
{
    let meta = name.push('|') + (tags.push('|') + description);
    if meta.contains(':') {
        let k = choose|k: int| 0 <= k < meta.len() && meta[k] == ':';
        if k < name.len() {
            assert(name[k] == ':');
        } else if k > name.len() && k < name.len() + 1 + tags.len() {
            assert(tags[k - name.len() - 1] == ':');
        } else if k > name.len() + 1 + tags.len() {
            assert(description[k - name.len() - tags.len() - 2] == ':');
        }
    }
}

/// The parts between the bars, once the whole was trimmed.
proof fn lemma_meta(name: Seq<char>, tags: Seq<char>, description: Seq<char>)
    requires
        !name.contains('|'),
        !tags.contains('|'),
        trim(name).len() > 0,
    ensures
        ({
            let m = trim(name.push('|') + (tags.push('|') + description));
            let rest = part_after(m, '|');
            &&& m.len() > 0
            &&& trim(part_before(m, '|')) == trim(name)
            &&& trim(part_before(rest, '|')) == trim(tags)
            &&& trim(part_after(rest, '|')) == trim(description)
        }),
{
    let meta = name.push('|') + (tags.push('|') + description);
    let (a, b) = law_trim_parts(name);
    let (c, f) = law_trim_parts(description);
    let n = trim(name);
    let d = trim(description);
    let e = Seq::<char>::empty();
    let nb = n + b;
    let kept = if d.len() > 0 {
        c + d
    } else {
        e
    };
    let cut = if d.len() > 0 {
        f
    } else {
        lemma_blank_join(c, f);
        c + f
    };
    let m = nb.push('|') + (tags.push('|') + kept);
    assert(description =~= kept + cut);
    assert(meta =~= a + m + cut);
    assert(m[0] == n[0]);
    if d.len() > 0 {
        assert(m.last() == d.last());
    } else {
        assert(m.last() == '|');
    }
    law_trim(a, m, cut);
    assert(!nb.contains('|')) by {
        if nb.contains('|') {
            let k = choose|k: int| 0 <= k < nb.len() && nb[k] == '|';
            assert(name[a.len() + k] == '|');
        }
    }
    law_first_position(nb, '|', tags.push('|') + kept);
    law_first_position(tags, '|', kept);
    law_trim(e, n, b);
    assert(e + n + b =~= nb);
    if d.len() > 0 {
        law_trim(c, d, e);
        assert(c + d + e =~= kept);
    } else {
        law_tight_stays(e);
        assert(d =~= e);
    }
}

/// A tag that writes a file and lacks a colon, or has nothing behind it, makes no call.
pub proof fn law_incomplete_create_tag(pre: Seq<char>, meta: Seq<char>, content: Seq<char>, post: Seq<char>)
    requires
        no_brackets(pre),
        no_brackets(post),
        !meta.contains(':'),
        blank(content),
        tagless(meta + "]"@ + post),
        tagless(meta + ":"@ + content + "]"@ + post),
    ensures
        calls_in(pre + "[CREATE_FILE:"@ + meta + "]"@ + post) == (Seq::<ToolView>::empty(), said(pre, post)),
        calls_in(pre + "[CREATE_FILE:"@ + (meta + ":"@ + content) + "]"@ + post) == (
            Seq::<ToolView>::empty(),
            said(pre, post),
        ),
{
    reveal_strlit(":");
    reveal_strlit("]");
    let e = Seq::<char>::empty();
    law_no_position(meta, ':');
    assert(meta.push(']') + post =~= meta + "]"@ + post);
    lemma_create(pre, meta, post);
    let inner = meta + ":"@ + content;
    assert(inner =~= meta.push(':') + content);
    law_first_position(meta, ':', content);
    law_trim(content, e, e);
    assert(content + e + e =~= content);
    assert(inner.push(']') + post =~= inner + "]"@ + post);
    lemma_create(pre, inner, post);
}

// ---------------------------------------------------------------------------
// The other tags
// ---------------------------------------------------------------------------

/// A tag with one argument is taken out by the pass over its kind.
proof fn lemma_simple(pre: Seq<char>, tag: SimpleTag, argument: Seq<char>, post: Seq<char>, tools: Seq<ToolView>)
    requires
        no_brackets(pre),
        no_brackets(argument),
        no_brackets(post),
        trim(argument).len() > 0,
    ensures
        ({
            let s = pre + tag.prefix() + argument + "]"@ + post;
            let r = take_simple(s, tag, tools);
            &&& r.0 == tools.push(tag.call(trim(argument)))
            &&& !r.1.contains('[')
            &&& trim(r.1) == said(pre, post)
        }),
{
    reveal_strlit("]");
    reveal_strlit("[READ_FILE:");
    reveal_strlit("[DELETE_FILE:");
    reveal_strlit("[SEARCH_FILES:");
    let mark = tag.prefix();
    let after = argument.push(']') + post;
    let whole = mark + argument.push(']');
    let s = pre + mark + argument + "]"@ + post;
    let n = pre.len() as int;
    let k = mark.len() as int;
    assert(s =~= pre + mark + after);
    assert(s =~= pre + whole + post);
    lemma_mark_found(pre, mark, after);
    assert(s.skip(n + k) =~= after);
    law_first_position(argument, ']', post);
    let end = argument.len() as int;
    let next = stripped(s, n, n + k + end + 1);
    assert(n + k + end + 1 == n + whole.len());
    lemma_strip_shortens(s, n, n + k + end + 1);
    lemma_around(pre, whole, post);
    let more = tools.push(tag.call(trim(argument)));
    lemma_nothing_to_take(next, more);
    assert(take_simple(s, tag, tools) == take_simple(next, tag, more));
}

/// No other kind of tag stands in a text with one tag.
#[verifier::rlimit(40)]
proof fn lemma_only_tag(pre: Seq<char>, tag: SimpleTag, argument: Seq<char>, post: Seq<char>)
    requires
        no_brackets(pre),
        no_brackets(argument),
        no_brackets(post),
    ensures
        ({
            let s = pre + tag.prefix() + argument + "]"@ + post;
            &&& find(s, "[CREATE_FILE:"@) is None
            &&& find(s, "[LIST_FILES]"@) is None
            &&& tag != SimpleTag::Read ==> find(s, "[READ_FILE:"@) is None
            &&& tag != SimpleTag::Delete ==> find(s, "[DELETE_FILE:"@) is None
            &&& tag != SimpleTag::Search ==> find(s, "[SEARCH_FILES:"@) is None
        }),
{
    reveal_strlit("]");
    reveal_strlit("[CREATE_FILE:");
    reveal_strlit("[READ_FILE:");
    reveal_strlit("[DELETE_FILE:");
    reveal_strlit("[SEARCH_FILES:");
    reveal_strlit("[LIST_FILES]");
    let mark = tag.prefix();
    let rest = argument + "]"@ + post;
    let s = pre + mark + argument + "]"@ + post;
    assert(s =~= pre + mark + rest);
    assert(!rest.contains('[')) by {
        if rest.contains('[') {
            let k = choose|k: int| 0 <= k < rest.len() && rest[k] == '[';
            if k < argument.len() {
                assert(argument[k] == '[');
            } else if k > argument.len() {
                assert(post[k - argument.len() - 1] == '[');
            }
        }
    }
    lemma_other_mark(pre, mark, rest, "[CREATE_FILE:"@);
    lemma_other_mark(pre, mark, rest, "[LIST_FILES]"@);
    if tag != SimpleTag::Read {
        lemma_other_mark(pre, mark, rest, "[READ_FILE:"@);
    }
    if tag != SimpleTag::Delete {
        lemma_other_mark(pre, mark, rest, "[DELETE_FILE:"@);
    }
    if tag != SimpleTag::Search {
        lemma_other_mark(pre, mark, rest, "[SEARCH_FILES:"@);
    }
}

/// A tag that reads a file makes one call, for the file that it names, and the text around
/// it is what is said.
pub proof fn law_read_tag(pre: Seq<char>, name: Seq<char>, post: Seq<char>)
    requires
        no_brackets(pre),
        no_brackets(name),
        no_brackets(post),
        trim(name).len() > 0,
    ensures
        calls_in(pre + "[READ_FILE:"@ + name + "]"@ + post) == (
            seq![ToolView::ReadFile { name: trim(name) }],
            said(pre, post),
        ),
{
    lemma_only_tag(pre, SimpleTag::Read, name, post);
    lemma_simple(pre, SimpleTag::Read, name, post, Seq::empty());
    let s = pre + "[READ_FILE:"@ + name + "]"@ + post;
    let r = take_simple(s, SimpleTag::Read, Seq::empty());
    lemma_nothing_to_take(r.1, r.0);
    assert(r.0 =~= seq![ToolView::ReadFile { name: trim(name) }]);
}

/// A tag that deletes a file makes one call, for the file that it names, and the text
/// around it is what is said.
pub proof fn law_delete_tag(pre: Seq<char>, name: Seq<char>, post: Seq<char>)
    requires
        no_brackets(pre),
        no_brackets(name),
        no_brackets(post),
        trim(name).len() > 0,
    ensures
        calls_in(pre + "[DELETE_FILE:"@ + name + "]"@ + post) == (
            seq![ToolView::DeleteFile { name: trim(name) }],
            said(pre, post),
        ),
{
    lemma_only_tag(pre, SimpleTag::Delete, name, post);
    lemma_simple(pre, SimpleTag::Delete, name, post, Seq::empty());
    let s = pre + "[DELETE_FILE:"@ + name + "]"@ + post;
    let r = take_simple(s, SimpleTag::Delete, Seq::empty());
    lemma_nothing_to_take(r.1, r.0);
    assert(r.0 =~= seq![ToolView::DeleteFile { name: trim(name) }]);
}

/// A tag that searches files makes one call, with all of its words, and the text around it
/// is what is said.
pub proof fn law_search_tag(pre: Seq<char>, query: Seq<char>, post: Seq<char>)
    requires
        no_brackets(pre),
        no_brackets(query),
        no_brackets(post),
        trim(query).len() > 0,
    ensures
        calls_in(pre + "[SEARCH_FILES:"@ + query + "]"@ + post) == (
            seq![ToolView::SearchFiles { query: trim(query) }],
            said(pre, post),
        ),
{
    lemma_only_tag(pre, SimpleTag::Search, query, post);
    lemma_simple(pre, SimpleTag::Search, query, post, Seq::empty());
    let s = pre + "[SEARCH_FILES:"@ + query + "]"@ + post;
    let r = take_simple(s, SimpleTag::Search, Seq::empty());
    lemma_nothing_to_take(r.1, r.0);
    assert(r.0 =~= seq![ToolView::SearchFiles { query: trim(query) }]);
}

/// A tag that lists files makes one call, and the text around it is what is said.
pub proof fn law_list_tag(pre: Seq<char>, post: Seq<char>)
    requires
        no_brackets(pre),
        no_brackets(post),
    ensures
        calls_in(pre + "[LIST_FILES]"@ + post) == (seq![ToolView::ListFiles], said(pre, post)),
{
    reveal_strlit("[CREATE_FILE:");
    reveal_strlit("[READ_FILE:");
    reveal_strlit("[DELETE_FILE:");
    reveal_strlit("[SEARCH_FILES:");
    reveal_strlit("[LIST_FILES]");
    let mark = "[LIST_FILES]"@;
    let s = pre + mark + post;
    let n = pre.len() as int;
    lemma_other_mark(pre, mark, post, "[CREATE_FILE:"@);
    lemma_other_mark(pre, mark, post, "[READ_FILE:"@);
    lemma_other_mark(pre, mark, post, "[DELETE_FILE:"@);
    lemma_other_mark(pre, mark, post, "[SEARCH_FILES:"@);
    lemma_mark_found(pre, mark, post);
    let next = stripped(s, n, n + 12);
    lemma_strip_shortens(s, n, n + 12);
    lemma_around(pre, mark, post);
    let tools = Seq::<ToolView>::empty().push(ToolView::ListFiles);
    lemma_nothing_to_take(next, tools);
    assert(take_lists(s, Seq::empty()) == take_lists(next, tools));
    assert(tools =~= seq![ToolView::ListFiles]);
}

/// Tags of one kind, one behind the other.
pub open spec fn tags_in_row(tag: SimpleTag, arguments: Seq<Seq<char>>) -> Seq<char>
    decreases arguments.len(),
{
    if arguments.len() == 0 {
        Seq::empty()
    } else {
        tag.prefix() + arguments[0] + "]"@ + tags_in_row(tag, arguments.skip(1))
    }
}

/// Several tags of one kind make their calls in the order in which they stand, and leave
/// nothing to be said.
pub proof fn law_calls_keep_their_order(tag: SimpleTag, arguments: Seq<Seq<char>>, tools: Seq<ToolView>)
    requires
        forall|i: int|
            0 <= i < arguments.len() ==> no_brackets(#[trigger] arguments[i]) && trim(arguments[i]).len() > 0,
    ensures
        take_simple(tags_in_row(tag, arguments), tag, tools) == (
            tools + arguments.map_values(|a: Seq<char>| tag.call(trim(a))),
            Seq::<char>::empty(),
        ),
    decreases arguments.len(),
{
    reveal_strlit("]");
    reveal_strlit("[READ_FILE:");
    reveal_strlit("[DELETE_FILE:");
    reveal_strlit("[SEARCH_FILES:");
    let s = tags_in_row(tag, arguments);
    let calls = arguments.map_values(|a: Seq<char>| tag.call(trim(a)));
    let e = Seq::<char>::empty();
    if arguments.len() == 0 {
        lemma_nothing_to_take(s, tools);
        assert(tools + calls =~= tools);
    } else {
        let rest = arguments.skip(1);
        let row = tags_in_row(tag, rest);
        let first = arguments[0];
        assert(no_brackets(first));
        let mark = tag.prefix();
        let k = mark.len() as int;
        let after = first.push(']') + row;
        assert(s =~= e + mark + after);
        lemma_mark_found(e, mark, after);
        assert(s.skip(k) =~= after);
        law_first_position(first, ']', row);
        let end = first.len() as int;
        let next = stripped(s, 0, k + end + 1);
        assert(s.take(0) =~= e);
        assert(s.skip(k + end + 1) =~= row);
        law_tight_stays(e);
        lemma_trim_end_blank(e, e);
        assert(e + e =~= e);
        if rest.len() > 0 {
            assert(row[0] == '[');
        }
        lemma_trim_start_blank(e, row);
        assert(e + row =~= row);
        assert(next =~= row);
        lemma_strip_shortens(s, 0, k + end + 1);
        let more = tools.push(tag.call(trim(first)));
        assert forall|i: int| 0 <= i < rest.len() implies no_brackets(#[trigger] rest[i]) && trim(rest[i]).len() > 0 by {
            assert(rest[i] == arguments[i + 1]);
        }
        law_calls_keep_their_order(tag, rest, more);
        assert(more + rest.map_values(|a: Seq<char>| tag.call(trim(a))) =~= tools + calls);
    }
}

} // verus!
