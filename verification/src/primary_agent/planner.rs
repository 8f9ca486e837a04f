//! Planning: tool calls in a model's answer, commands that need no model, and the
//! request for everything else.

use vstd::prelude::*;
use vstd::utf8::*;

use crate::inference::backend::{InferenceRequest, RequestView};
use crate::text::{
    chars_eq, chars_of, contains, decimal, decimal_text, drop_spaces, find, find_char, find_chars, find_from,
    find_last, index_of, last_index, leading_spaces, lemma_find_from, lower, lowered, skip_spaces, text, text_eq,
    to_text, trim, trim_end, trim_start, trimmed, trimmed_chars,
};
use crate::views::{group_views, views};

verus! {

// ---------------------------------------------------------------------------
// Tool calls
// ---------------------------------------------------------------------------

/// A tool call that the model decided to make.
#[derive(Debug)]
pub enum ToolCall {
    /// Write a file with its metadata.
    CreateFile {
        name: String,
        /// Comma-separated.
        tags: String,
        /// Short summary.
        description: String,
        content: String,
    },
    /// Read a file by name.
    ReadFile { name: String },
    /// List all files.
    ListFiles,
    /// Search names, tags, descriptions and contents.
    SearchFiles { query: String },
    /// Delete a file by name.
    DeleteFile { name: String },
}

/// What a tool call holds.
#[verifier::ext_equal]
pub enum ToolView {
    CreateFile { name: Seq<char>, tags: Seq<char>, description: Seq<char>, content: Seq<char> },
    ReadFile { name: Seq<char> },
    ListFiles,
    SearchFiles { query: Seq<char> },
    DeleteFile { name: Seq<char> },
}

impl View for ToolCall {
    type V = ToolView;

    open spec fn view(&self) -> ToolView {
        match self {
            ToolCall::CreateFile { name, tags, description, content } => ToolView::CreateFile {
                name: name@,
                tags: tags@,
                description: description@,
                content: content@,
            },
            ToolCall::ReadFile { name } => ToolView::ReadFile { name: name@ },
            ToolCall::ListFiles => ToolView::ListFiles,
            ToolCall::SearchFiles { query } => ToolView::SearchFiles { query: query@ },
            ToolCall::DeleteFile { name } => ToolView::DeleteFile { name: name@ },
        }
    }
}

/// The tags that take one argument.
#[derive(Debug, Clone, Copy, PartialEq, Eq, Structural)]
pub enum SimpleTag {
    Read,
    Delete,
    Search,
}

impl SimpleTag {
    /// How the tag begins.
    pub open spec fn prefix(self) -> Seq<char> {
        match self {
            SimpleTag::Read => "[READ_FILE:"@,
            SimpleTag::Delete => "[DELETE_FILE:"@,
            SimpleTag::Search => "[SEARCH_FILES:"@,
        }
    }

    /// The call that the tag stands for.
    pub open spec fn call(self, argument: Seq<char>) -> ToolView {
        match self {
            SimpleTag::Read => ToolView::ReadFile { name: argument },
            SimpleTag::Delete => ToolView::DeleteFile { name: argument },
            SimpleTag::Search => ToolView::SearchFiles { query: argument },
        }
    }
}

/// The text without the span from `a` to `b`: white space next to the span goes too, and
/// one line end stands in its place, unless nothing stands on one of its sides.
pub open spec fn stripped(s: Seq<char>, a: int, b: int) -> Seq<char> {
    let before = trim_end(s.take(a));
    let after = trim_start(s.skip(b));
    if before.len() > 0 && after.len() > 0 {
        before.push('\n') + after
    } else {
        before + after
    }
}

/// The smaller of two positions, where there are any.
pub open spec fn earlier(a: Option<int>, b: Option<int>) -> Option<int> {
    match (a, b) {
        (Some(x), Some(y)) => if x < y {
            Some(x)
        } else {
            Some(y)
        },
        (Some(x), None) => Some(x),
        (None, y) => y,
    }
}

/// Where the next tag begins, of whatever kind.
pub open spec fn next_tag(s: Seq<char>) -> Option<int> {
    earlier(
        earlier(
            earlier(
                earlier(find(s, "[CREATE_FILE:"@), find(s, "[READ_FILE:"@)),
                find(s, "[DELETE_FILE:"@),
            ),
            find(s, "[LIST_FILES]"@),
        ),
        find(s, "[SEARCH_FILES:"@),
    )
}

/// The part before the first separator, or all of it.
pub open spec fn part_before(s: Seq<char>, c: char) -> Seq<char> {
    match index_of(s, c) {
        Some(i) => s.take(i),
        None => s,
    }
}

/// The part behind the first separator, or nothing.
pub open spec fn part_after(s: Seq<char>, c: char) -> Seq<char> {
    match index_of(s, c) {
        Some(i) => s.skip(i + 1),
        None => Seq::empty(),
    }
}

/// The call in a tag that writes a file: a name, tags and a description between bars,
/// a colon, and the content. None where name or content is missing.
pub open spec fn create_call(inner: Seq<char>) -> Option<ToolView> {
    match index_of(inner, ':') {
        None => None,
        Some(colon) => {
            let meta = trim(inner.take(colon));
            let content = trim(inner.skip(colon + 1));
            let name = trim(part_before(meta, '|'));
            let rest = part_after(meta, '|');
            if meta.len() > 0 && content.len() > 0 && name.len() > 0 {
                Some(
                    ToolView::CreateFile {
                        name,
                        tags: trim(part_before(rest, '|')),
                        description: trim(part_after(rest, '|')),
                        content,
                    },
                )
            } else {
                None
            }
        },
    }
}

/// A list of calls with one more, where there is one.
pub open spec fn with_call(tools: Seq<ToolView>, call: Option<ToolView>) -> Seq<ToolView> {
    match call {
        Some(t) => tools.push(t),
        None => tools,
    }
}

/// The end of a tag that writes a file, counted from behind its beginning: the last
/// closing bracket before the next tag, so that content may hold brackets.
pub open spec fn create_end(after: Seq<char>) -> Option<int> {
    let bound = match next_tag(after) {
        Some(p) => p,
        None => after.len() as int,
    };
    last_index(after.take(bound), ']', bound)
}

/// The calls and the remaining text after all tags that write files were taken out, from
/// a position on. A tag that is not closed stays.
pub open spec fn take_creates(s: Seq<char>, from: int, tools: Seq<ToolView>) -> (Seq<ToolView>, Seq<char>)
    decreases s.len() - from,
{
    match find_from(s, "[CREATE_FILE:"@, from) {
        None => (tools, s),
        Some(off) => {
            let after = s.skip(off + 13);
            match create_end(after) {
                Some(end) => {
                    let next = stripped(s, off, off + 13 + end + 1);
                    if next.len() < s.len() && from <= next.len() {
                        take_creates(next, from, with_call(tools, create_call(after.take(end))))
                    } else {
                        (tools, s)
                    }
                },
                None => if from < off + 13 <= s.len() {
                    take_creates(s, off + 13, tools)
                } else {
                    (tools, s)
                },
            }
        },
    }
}

/// The calls and the remaining text after all tags of one kind were taken out. A tag
/// that is not closed ends the search.
pub open spec fn take_simple(s: Seq<char>, tag: SimpleTag, tools: Seq<ToolView>) -> (Seq<ToolView>, Seq<char>)
    decreases s.len(),
{
    match find(s, tag.prefix()) {
        None => (tools, s),
        Some(start) => {
            let after = s.skip(start + tag.prefix().len());
            match index_of(after, ']') {
                None => (tools, s),
                Some(end) => {
                    let argument = trim(after.take(end));
                    let next = stripped(s, start, start + tag.prefix().len() + end + 1);
                    if next.len() < s.len() {
                        take_simple(
                            next,
                            tag,
                            if argument.len() > 0 {
                                tools.push(tag.call(argument))
                            } else {
                                tools
                            },
                        )
                    } else {
                        (tools, s)
                    }
                },
            }
        },
    }
}

/// The calls and the remaining text after all tags that list files were taken out.
pub open spec fn take_lists(s: Seq<char>, tools: Seq<ToolView>) -> (Seq<ToolView>, Seq<char>)
    decreases s.len(),
{
    match find(s, "[LIST_FILES]"@) {
        None => (tools, s),
        Some(start) => {
            let next = stripped(s, start, start + 12);
            if next.len() < s.len() {
                take_lists(next, tools.push(ToolView::ListFiles))
            } else {
                (tools, s)
            }
        },
    }
}

/// The calls in a model's answer, by kind of tag, and what remains to be said.
pub open spec fn calls_in(response: Seq<char>) -> (Seq<ToolView>, Seq<char>) {
    let a = take_creates(response, 0, Seq::empty());
    let b = take_simple(a.1, SimpleTag::Read, a.0);
    let c = take_simple(b.1, SimpleTag::Delete, b.0);
    let d = take_simple(c.1, SimpleTag::Search, c.0);
    let e = take_lists(d.1, d.0);
    (e.0, trim(e.1))
}

proof fn lemma_trim_end_len(s: Seq<char>)
    ensures
        trim_end(s).len() <= s.len(),
    decreases s.len(),
{
    if s.len() > 0 {
        lemma_trim_end_len(s.drop_last());
    }
}

proof fn lemma_leading(s: Seq<char>)
    ensures
        0 <= leading_spaces(s) <= s.len(),
    decreases s.len(),
{
    if s.len() > 0 {
        lemma_leading(s.skip(1));
    }
}

/// Taking out two characters or more makes a text shorter.
pub proof fn lemma_strip_shortens(s: Seq<char>, a: int, b: int)
    requires
        0 <= a,
        a + 2 <= b <= s.len(),
    ensures
        stripped(s, a, b).len() < s.len(),
{
    lemma_trim_end_len(s.take(a));
    lemma_leading(s.skip(b));
}

/// White space at the end of a text does not reach into what stands before a colon.
proof fn lemma_trim_end_keeps(s: Seq<char>, n: int)
    requires
        0 < n <= s.len(),
        s[n - 1] == ':',
    ensures
        trim_end(s).len() >= n,
        trim_end(s)[n - 1] == ':',
    decreases s.len(),
{
    if s.len() > n {
        if crate::text::is_space(s.last()) {
            lemma_trim_end_keeps(s.drop_last(), n);
        }
    } else {
        assert(s.last() == ':');
    }
}

/// Remove a span from a text.
fn strip_tag_inplace(cs: &[char], tag_start: usize, tag_end: usize) -> (r: Vec<char>)
    requires
        tag_start <= tag_end <= cs@.len(),
    ensures
        r@ == stripped(cs@, tag_start as int, tag_end as int),
{
    let n = cs.len();
    let end = drop_spaces(cs, 0, tag_start);
    let start = skip_spaces(cs, tag_end, n);
    let mut out = vstd::slice::slice_to_vec(vstd::slice::slice_subrange(cs, 0, end));
    assert(cs@.subrange(0, tag_start as int) =~= cs@.take(tag_start as int));
    assert(cs@.subrange(tag_end as int, n as int) =~= cs@.skip(tag_end as int));
    let mut tail = vstd::slice::slice_to_vec(vstd::slice::slice_subrange(cs, start, n));
    if out.len() > 0 && tail.len() > 0 {
        out.push('\n');
    }
    out.append(&mut tail);
    out
}

/// The smaller of two positions, where there are any.
fn sooner(a: Option<usize>, b: Option<usize>) -> (r: Option<usize>)
    ensures
        opt_int(r) == earlier(opt_int(a), opt_int(b)),
        r is Some ==> (r == a || r == b),
{
    match (a, b) {
        (Some(x), Some(y)) => if x < y {
            Some(x)
        } else {
            Some(y)
        },
        (Some(x), None) => Some(x),
        (None, y) => y,
    }
}

/// A position as an integer.
pub open spec fn opt_int(p: Option<usize>) -> Option<int> {
    match p {
        Some(x) => Some(x as int),
        None => None,
    }
}

/// Where a text stands in the characters.
fn position(cs: &[char], pat: &str) -> (r: Option<usize>)
    ensures
        opt_int(r) == find(cs@, pat@),
        r matches Some(p) ==> p + pat@.len() <= cs@.len(),
{
    let cp = chars_of(pat);
    proof {
        lemma_find_from(cs@, pat@, 0);
    }
    find_chars(cs, cp.as_slice(), 0)
}

/// Where the next tag begins.
fn find_next_tag_start(cs: &[char]) -> (r: Option<usize>)
    ensures
        opt_int(r) == next_tag(cs@),
        r matches Some(p) ==> p <= cs@.len(),
{
    let a = sooner(position(cs, "[CREATE_FILE:"), position(cs, "[READ_FILE:"));
    let b = sooner(a, position(cs, "[DELETE_FILE:"));
    let c = sooner(b, position(cs, "[LIST_FILES]"));
    sooner(c, position(cs, "[SEARCH_FILES:"))
}

/// The part before the first separator, and the part behind it.
fn cut(cs: &[char], c: char) -> (r: (Vec<char>, Vec<char>))
    ensures
        r.0@ == part_before(cs@, c),
        r.1@ == part_after(cs@, c),
{
    let n = cs.len();
    assert(cs@.skip(0) =~= cs@);
    match find_char(cs, 0, c) {
        Some(i) => {
            let a = vstd::slice::slice_to_vec(vstd::slice::slice_subrange(cs, 0, i));
            let b = vstd::slice::slice_to_vec(vstd::slice::slice_subrange(cs, i + 1, n));
            assert(a@ =~= cs@.take(i as int));
            assert(b@ =~= cs@.skip(i + 1));
            (a, b)
        },
        None => {
            let a = vstd::slice::slice_to_vec(cs);
            (a, Vec::new())
        },
    }
}

/// The call in a tag that writes a file.
fn parse_create(inner: &[char]) -> (r: Option<ToolCall>)
    ensures
        match r {
            Some(t) => create_call(inner@) == Some(t@),
            None => create_call(inner@) is None,
        },
{
    let n = inner.len();
    assert(inner@.skip(0) =~= inner@);
    let colon = match find_char(inner, 0, ':') {
        Some(i) => i,
        None => {
            return None;
        },
    };
    let head = vstd::slice::slice_subrange(inner, 0, colon);
    let tail = vstd::slice::slice_subrange(inner, colon + 1, n);
    assert(head@ =~= inner@.take(colon as int));
    assert(tail@ =~= inner@.skip(colon + 1));
    let meta = trimmed_chars(head);
    let content = trimmed_chars(tail);
    let (first, rest) = cut(meta.as_slice(), '|');
    let (second, third) = cut(rest.as_slice(), '|');
    let name = trimmed_chars(first.as_slice());
    if meta.len() == 0 || content.len() == 0 || name.len() == 0 {
        return None;
    }
    let tags = trimmed_chars(second.as_slice());
    let description = trimmed_chars(third.as_slice());
    Some(
        ToolCall::CreateFile {
            name: to_text(name.as_slice()),
            tags: to_text(tags.as_slice()),
            description: to_text(description.as_slice()),
            content: to_text(content.as_slice()),
        },
    )
}

/// Take out all tags that write files.
fn parse_creates(response: Vec<char>, tools: &mut Vec<ToolCall>) -> (r: Vec<char>)
    ensures
        (views(final(tools)@), r@) == take_creates(response@, 0, views(old(tools)@)),
{
    broadcast use group_views;

    let mark = chars_of("[CREATE_FILE:");
    proof {
        reveal_strlit("[CREATE_FILE:");
    }
    let ghost whole = take_creates(response@, 0, views(tools@));
    let mut speech = response;
    let mut from: usize = 0;
    loop
        invariant
            mark@ == "[CREATE_FILE:"@,
            mark@.len() == 13,
            mark@[12] == ':',
            from <= speech@.len(),
            from > 0 ==> speech@[from - 1] == ':',
            take_creates(speech@, from as int, views(tools@)) == whole,
            whole == take_creates(response@, 0, views(old(tools)@)),
        decreases speech@.len() - from,
    {
        broadcast use group_views;

        let n = speech.len();
        proof {
            lemma_find_from(speech@, mark@, from as int);
        }
        let off = match find_chars(speech.as_slice(), mark.as_slice(), from) {
            Some(p) => p,
            None => {
                return speech;
            },
        };
        assert(speech@.subrange(off as int, off + 13)[12] == ':');
        let after = vstd::slice::slice_subrange(speech.as_slice(), off + 13, n);
        assert(after@ =~= speech@.skip(off + 13));
        let bound = match find_next_tag_start(after) {
            Some(p) => p,
            None => after.len(),
        };
        assert(after@.subrange(0, bound as int) =~= after@.take(bound as int));
        match find_last(after, 0, bound, ']') {
            Some(end) => {
                let inner = vstd::slice::slice_subrange(after, 0, end);
                assert(inner@ =~= after@.take(end as int));
                let next = strip_tag_inplace(speech.as_slice(), off, off + 13 + end + 1);
                proof {
                    lemma_strip_shortens(speech@, off as int, off + 13 + end + 1);
                    if from > 0 {
                        assert(speech@.take(off as int)[from - 1] == ':');
                        lemma_trim_end_keeps(speech@.take(off as int), from as int);
                        assert(next@[from - 1] == ':');
                    }
                }
                match parse_create(inner) {
                    Some(t) => tools.push(t),
                    None => {},
                }
                speech = next;
            },
            None => {
                from = off + 13;
            },
        }
    }
}

/// Take out all tags of one kind.
fn parse_simple_tags(response: Vec<char>, tag: SimpleTag, tools: &mut Vec<ToolCall>) -> (r: Vec<char>)
    ensures
        (views(final(tools)@), r@) == take_simple(response@, tag, views(old(tools)@)),
{
    broadcast use group_views;

    let mark = match tag {
        SimpleTag::Read => chars_of("[READ_FILE:"),
        SimpleTag::Delete => chars_of("[DELETE_FILE:"),
        SimpleTag::Search => chars_of("[SEARCH_FILES:"),
    };
    proof {
        reveal_strlit("[READ_FILE:");
        reveal_strlit("[DELETE_FILE:");
        reveal_strlit("[SEARCH_FILES:");
    }
    let ghost whole = take_simple(response@, tag, views(tools@));
    let mut speech = response;
    loop
        invariant
            mark@ == tag.prefix(),
            mark@.len() >= 2,
            take_simple(speech@, tag, views(tools@)) == whole,
            whole == take_simple(response@, tag, views(old(tools)@)),
        decreases speech@.len(),
    {
        broadcast use group_views;

        proof {
            lemma_find_from(speech@, mark@, 0);
        }
        let start = match find_chars(speech.as_slice(), mark.as_slice(), 0) {
            Some(p) => p,
            None => {
                return speech;
            },
        };
        let total = speech.len();
        assert(start + mark@.len() <= total);
        let behind = start + mark.len();
        let end = match find_char(speech.as_slice(), behind, ']') {
            Some(e) => e,
            None => {
                return speech;
            },
        };
        let inner = vstd::slice::slice_subrange(speech.as_slice(), behind, behind + end);
        assert(inner@ =~= speech@.skip(behind as int).take(end as int));
        let argument = trimmed_chars(inner);
        let next = strip_tag_inplace(speech.as_slice(), start, behind + end + 1);
        proof {
            lemma_strip_shortens(speech@, start as int, behind + end + 1);
        }
        if argument.len() > 0 {
            let s = to_text(argument.as_slice());
            tools.push(
                match tag {
                    SimpleTag::Read => ToolCall::ReadFile { name: s },
                    SimpleTag::Delete => ToolCall::DeleteFile { name: s },
                    SimpleTag::Search => ToolCall::SearchFiles { query: s },
                },
            );
        }
        speech = next;
    }
}

/// Take out all tags that list files.
fn parse_lists(response: Vec<char>, tools: &mut Vec<ToolCall>) -> (r: Vec<char>)
    ensures
        (views(final(tools)@), r@) == take_lists(response@, views(old(tools)@)),
{
    broadcast use group_views;

    let mark = chars_of("[LIST_FILES]");
    proof {
        reveal_strlit("[LIST_FILES]");
    }
    let ghost whole = take_lists(response@, views(tools@));
    let mut speech = response;
    loop
        invariant
            mark@ == "[LIST_FILES]"@,
            mark@.len() == 12,
            take_lists(speech@, views(tools@)) == whole,
            whole == take_lists(response@, views(old(tools)@)),
        decreases speech@.len(),
    {
        broadcast use group_views;

        proof {
            lemma_find_from(speech@, mark@, 0);
        }
        let start = match find_chars(speech.as_slice(), mark.as_slice(), 0) {
            Some(p) => p,
            None => {
                return speech;
            },
        };
        let total = speech.len();
        assert(start + 12 <= total);
        let next = strip_tag_inplace(speech.as_slice(), start, start + 12);
        proof {
            lemma_strip_shortens(speech@, start as int, start + 12);
        }
        tools.push(ToolCall::ListFiles);
        speech = next;
    }
}

/// Parse all tool calls in a model's answer. Returns them and the text around them.
pub fn parse_tool_calls(response: &str) -> (r: (Vec<ToolCall>, String))
    ensures
        (views(r.0@), r.1@) == calls_in(response@),
{
    broadcast use group_views;

    let mut tools: Vec<ToolCall> = Vec::new();
    let a = parse_creates(chars_of(response), &mut tools);
    let b = parse_simple_tags(a, SimpleTag::Read, &mut tools);
    let c = parse_simple_tags(b, SimpleTag::Delete, &mut tools);
    let d = parse_simple_tags(c, SimpleTag::Search, &mut tools);
    let e = parse_lists(d, &mut tools);
    let speech = trimmed_chars(e.as_slice());
    (tools, to_text(speech.as_slice()))
}

/// An answer without any tag is all speech.
pub proof fn law_plain_answer(response: Seq<char>)
    requires
        find(response, "[CREATE_FILE:"@) is None,
        find(response, "[READ_FILE:"@) is None,
        find(response, "[DELETE_FILE:"@) is None,
        find(response, "[SEARCH_FILES:"@) is None,
        find(response, "[LIST_FILES]"@) is None,
    ensures
        calls_in(response) == (Seq::<ToolView>::empty(), trim(response)),
{
}

/// What a pass leaves holds no closed tag of its kind: where the tag still begins
/// somewhere, its first beginning is never closed.
pub proof fn law_simple_tags_are_taken(s: Seq<char>, tag: SimpleTag, tools: Seq<ToolView>)
    ensures
        ({
            let left = take_simple(s, tag, tools).1;
            match find(left, tag.prefix()) {
                None => true,
                Some(p) => index_of(left.skip(p + tag.prefix().len()), ']') is None,
            }
        }),
    decreases s.len(),
{
    reveal_strlit("[READ_FILE:");
    reveal_strlit("[DELETE_FILE:");
    reveal_strlit("[SEARCH_FILES:");
    lemma_find_from(s, tag.prefix(), 0);
    match find(s, tag.prefix()) {
        Some(start) => {
            let k = tag.prefix().len() as int;
            let after = s.skip(start + k);
            lemma_find_from(after, seq![']'], 0);
            match index_of(after, ']') {
                Some(end) => {
                    lemma_strip_shortens(s, start, start + k + end + 1);
                    let argument = trim(after.take(end));
                    law_simple_tags_are_taken(
                        stripped(s, start, start + k + end + 1),
                        tag,
                        if argument.len() > 0 {
                            tools.push(tag.call(argument))
                        } else {
                            tools
                        },
                    );
                },
                None => {},
            }
        },
        None => {},
    }
}

/// What is left after the pass over them holds no tag that lists files.
pub proof fn law_lists_are_taken(s: Seq<char>, tools: Seq<ToolView>)
    ensures
        find(take_lists(s, tools).1, "[LIST_FILES]"@) is None,
    decreases s.len(),
{
    reveal_strlit("[LIST_FILES]");
    lemma_find_from(s, "[LIST_FILES]"@, 0);
    match find(s, "[LIST_FILES]"@) {
        Some(start) => {
            lemma_strip_shortens(s, start, start + 12);
            law_lists_are_taken(stripped(s, start, start + 12), tools.push(ToolView::ListFiles));
        },
        None => {},
    }
}

// ---------------------------------------------------------------------------
// Commands
// ---------------------------------------------------------------------------

/// One step of a plan: an intent to send.
pub struct WorkflowStep {
    pub intent_type: String,
    pub payload: Vec<u8>,
}

impl View for WorkflowStep {
    type V = (Seq<char>, Seq<u8>);

    open spec fn view(&self) -> (Seq<char>, Seq<u8>) {
        (self.intent_type@, self.payload@)
    }
}

/// Steps that answer a user's input.
pub struct WorkflowPlan {
    pub steps: Vec<WorkflowStep>,
}

impl View for WorkflowPlan {
    type V = Seq<(Seq<char>, Seq<u8>)>;

    open spec fn view(&self) -> Seq<(Seq<char>, Seq<u8>)> {
        views(self.steps@)
    }
}

impl WorkflowPlan {
    /// A plan with a single step.
    pub fn single(intent_type: &str, payload: &[u8]) -> (r: Self)
        ensures
            r@ == seq![(intent_type@, payload@)],
    {
        let mut steps: Vec<WorkflowStep> = Vec::new();
        steps.push(WorkflowStep { intent_type: text(intent_type), payload: vstd::slice::slice_to_vec(payload) });
        let r = WorkflowPlan { steps };
        assert(r@ =~= seq![(intent_type@, payload@)]);
        r
    }
}

/// The text of the help command.
pub open spec fn help_text() -> Seq<char> {
    "Squirrel AIOS \u{2014} Commands:\n  settings    \u{2014} configure AI backend\n  help        \u{2014} show this help\n  clear       \u{2014} clear the screen\n  status      \u{2014} show system status\n  Or just talk naturally \u{2014} ask me to create, read, or list files.\n"@
}

/// Two texts are the same but for the case of ASCII letters.
pub open spec fn same_word(a: Seq<char>, b: Seq<char>) -> bool {
    lower(a) == lower(b)
}

/// A text holds another one, but for the case of ASCII letters.
pub open spec fn holds_word(s: Seq<char>, word: Seq<char>) -> bool {
    contains(lower(s), lower(word))
}

/// The input asks for the settings.
pub open spec fn asks_settings(s: Seq<char>) -> bool {
    ||| same_word(s, "settings"@)
    ||| holds_word(s, "configure"@)
    ||| holds_word(s, "change model"@)
    ||| holds_word(s, "api key"@)
    ||| holds_word(s, "switch to openai"@)
    ||| holds_word(s, "switch to anthropic"@)
    ||| holds_word(s, "switch to gemini"@)
    ||| holds_word(s, "use local model"@)
}

/// The plan for an input that needs no model.
pub open spec fn plan_for(input: Seq<char>) -> Option<Seq<(Seq<char>, Seq<u8>)>> {
    let s = trim(input);
    if asks_settings(s) {
        Some(seq![("settings.open"@, encode_utf8("{}"@))])
    } else if same_word(s, "help"@) || s == "?"@ {
        Some(seq![("display.print"@, encode_utf8(help_text()))])
    } else if same_word(s, "clear"@) || same_word(s, "cls"@) {
        Some(seq![("display.clear"@, encode_utf8(""@))])
    } else if same_word(s, "status"@) || same_word(s, "ps"@) || same_word(s, "agents"@) {
        Some(seq![("system.status"@, encode_utf8(""@))])
    } else {
        None
    }
}

/// Whether two texts are the same but for the case of ASCII letters.
pub fn eq_ignore_case(a: &str, b: &str) -> (r: bool)
    ensures
        r == same_word(a@, b@),
{
    let la = lowered(chars_of(a).as_slice());
    let lb = lowered(chars_of(b).as_slice());
    chars_eq(la.as_slice(), lb.as_slice())
}

/// Whether a text holds another one, but for the case of ASCII letters.
pub fn contains_ignore_case(haystack: &str, needle: &str) -> (r: bool)
    ensures
        r == holds_word(haystack@, needle@),
{
    let h = lowered(chars_of(haystack).as_slice());
    let n = lowered(chars_of(needle).as_slice());
    find_chars(h.as_slice(), n.as_slice(), 0).is_some()
}

/// The plan for an input that needs no model; none where the model has to answer.
pub fn try_pattern_match(input: &str) -> (r: Option<WorkflowPlan>)
    ensures
        match r {
            Some(p) => plan_for(input@) == Some(p@),
            None => plan_for(input@) is None,
        },
{
    let line = trimmed(input);
    let s = line.as_str();
    if eq_ignore_case(s, "settings") || contains_ignore_case(s, "configure") || contains_ignore_case(s, "change model")
        || contains_ignore_case(s, "api key") || contains_ignore_case(s, "switch to openai") || contains_ignore_case(
        s,
        "switch to anthropic",
    ) || contains_ignore_case(s, "switch to gemini") || contains_ignore_case(s, "use local model") {
        return Some(WorkflowPlan::single("settings.open", "{}".as_bytes()));
    }
    if eq_ignore_case(s, "help") || text_eq(s, "?") {
        let help = "Squirrel AIOS \u{2014} Commands:\n  settings    \u{2014} configure AI backend\n  help        \u{2014} show this help\n  clear       \u{2014} clear the screen\n  status      \u{2014} show system status\n  Or just talk naturally \u{2014} ask me to create, read, or list files.\n";
        return Some(WorkflowPlan::single("display.print", help.as_bytes()));
    }
    if eq_ignore_case(s, "clear") || eq_ignore_case(s, "cls") {
        return Some(WorkflowPlan::single("display.clear", "".as_bytes()));
    }
    if eq_ignore_case(s, "status") || eq_ignore_case(s, "ps") || eq_ignore_case(s, "agents") {
        return Some(WorkflowPlan::single("system.status", "".as_bytes()));
    }
    None
}

/// Commands are recognized whatever the case of their letters and the white space around
/// them: inputs that are the same but for these get the same plan, save for the question
/// mark, which has no case.
pub proof fn law_case_does_not_matter(a: Seq<char>, b: Seq<char>)
    requires
        lower(trim(a)) == lower(trim(b)),
        trim(a) == "?"@ <==> trim(b) == "?"@,
    ensures
        plan_for(a) == plan_for(b),
{
}

// ---------------------------------------------------------------------------
// Requests to the model
// ---------------------------------------------------------------------------

/// A file in the store, as far as the agent shows it.
pub struct StoredFile {
    pub name: String,
    pub size: u64,
    /// The stored tags; none where the file cannot be found by its name.
    pub tags: Option<String>,
    /// The content, where it can be read.
    pub content: Option<Vec<u8>>,
}

/// What a file holds.
#[verifier::ext_equal]
pub struct FileView {
    pub name: Seq<char>,
    pub size: u64,
    pub tags: Option<Seq<char>>,
    pub content: Option<Seq<u8>>,
}

impl View for StoredFile {
    type V = FileView;

    open spec fn view(&self) -> FileView {
        FileView {
            name: self.name@,
            size: self.size,
            tags: match self.tags {
                Some(t) => Some(t@),
                None => None,
            },
            content: match self.content {
                Some(c) => Some(c@),
                None => None,
            },
        }
    }
}

/// The name that a file is shown by.
pub open spec fn shown_name(name: Seq<char>) -> Seq<char> {
    if name.len() == 0 {
        "<unnamed>"@
    } else {
        name
    }
}

/// The name that a file is shown by.
pub fn display_name(name: &str) -> (r: String)
    ensures
        r@ == shown_name(name@),
{
    if name.is_empty() {
        text("<unnamed>")
    } else {
        text(name)
    }
}

/// The line of a file in the model's context.
pub open spec fn context_line(f: FileView) -> Seq<char> {
    match f.tags {
        Some(t) => "  "@ + shown_name(f.name) + " ("@ + decimal(f.size as nat) + " bytes) ["@ + t + "]\n"@,
        None => "  "@ + shown_name(f.name) + " ("@ + decimal(f.size as nat) + " bytes)\n"@,
    }
}

/// The lines of the first `n` files.
pub open spec fn context_lines(files: Seq<FileView>, n: int) -> Seq<char>
    decreases n,
{
    if n <= 0 {
        Seq::empty()
    } else {
        context_lines(files, n - 1) + context_line(files[n - 1])
    }
}

/// The listing of the store for the model: none where there is no store.
pub open spec fn files_context(files: Option<Seq<FileView>>) -> Seq<char> {
    match files {
        None => "\nFILES IN SVFS: (not initialized)"@,
        Some(fs) => if fs.len() == 0 {
            "\nFILES IN SVFS: (empty)"@
        } else {
            "\nFILES IN SVFS (use exact names in tool tags):\n"@ + context_lines(fs, fs.len() as int)
        },
    }
}

/// Files of the store, where there is one.
pub open spec fn opt_files(files: Option<&Vec<StoredFile>>) -> Option<Seq<FileView>> {
    match files {
        Some(fs) => Some(views(fs@)),
        None => None,
    }
}

/// The listing of the store for the model.
pub fn build_files_context(files: Option<&Vec<StoredFile>>) -> (r: String)
    ensures
        r@ == files_context(opt_files(files)),
{
    let fs = match files {
        Some(fs) => fs,
        None => {
            return text("\nFILES IN SVFS: (not initialized)");
        },
    };
    if fs.len() == 0 {
        return text("\nFILES IN SVFS: (empty)");
    }
    let mut out = text("\nFILES IN SVFS (use exact names in tool tags):\n");
    let ghost head = out@;
    let mut i: usize = 0;
    assert(out@ =~= head + context_lines(views(fs@), 0));
    while i < fs.len()
        invariant
            i <= fs@.len(),
            out@ == head + context_lines(views(fs@), i as int),
        decreases fs@.len() - i,
    {
        let mut line = text("  ");
        line.push_str(display_name(fs[i].name.as_str()).as_str());
        line.push_str(" (");
        line.push_str(decimal_text(fs[i].size).as_str());
        match &fs[i].tags {
            Some(t) => {
                line.push_str(" bytes) [");
                line.push_str(t.as_str());
                line.push_str("]\n");
            },
            None => {
                line.push_str(" bytes)\n");
            },
        }
        out.push_str(line.as_str());
        i += 1;
        assert(out@ =~= head + context_lines(views(fs@), i as int));
    }
    out
}

/// Tokens that an answer may take.
pub const ANSWER_TOKENS: usize = 400;

/// Bits of the single-precision number nearest to 0.7.
pub const ANSWER_TEMPERATURE: u32 = 0x3f33_3333;

/// The prompt for a user's input.
pub open spec fn prompt_for(
    system: Seq<char>,
    files: Option<Seq<FileView>>,
    history: Seq<char>,
    input: Seq<char>,
) -> Seq<char> {
    system + "\n"@ + files_context(files) + history + "\nUser: "@ + input + "\nAssistant:"@
}

/// The request for a user's input.
pub open spec fn request_for(
    system: Seq<char>,
    files: Option<Seq<FileView>>,
    history: Seq<char>,
    input: Seq<char>,
) -> RequestView {
    RequestView {
        prompt: prompt_for(system, files, history, input),
        max_tokens: ANSWER_TOKENS,
        temperature: ANSWER_TEMPERATURE,
        stop_sequences: seq!["User:"@, "\n\nUser"@],
    }
}

/// The request for a user's input: the system prompt, the files that exist, what was said
/// before, and the input.
pub fn build_inference_request(
    user_input: &str,
    history: &str,
    files: Option<&Vec<StoredFile>>,
) -> (r: InferenceRequest)
    ensures
        r@ == request_for(SYSTEM_PROMPT@, opt_files(files), history@, user_input@),
{
    let mut prompt = text(SYSTEM_PROMPT);
    prompt.push_str("\n");
    prompt.push_str(build_files_context(files).as_str());
    prompt.push_str(history);
    prompt.push_str("\nUser: ");
    prompt.push_str(user_input);
    prompt.push_str("\nAssistant:");
    let mut stops: Vec<String> = Vec::new();
    stops.push(text("User:"));
    stops.push(text("\n\nUser"));
    assert(views(stops@) =~= seq!["User:"@, "\n\nUser"@]);
    InferenceRequest {
        prompt,
        max_tokens: ANSWER_TOKENS,
        temperature: ANSWER_TEMPERATURE,
        stop_sequences: stops,
    }
}

/// What the model is told of the system and its tools.
pub const SYSTEM_PROMPT: &'static str = "You are Squirrel, AI brain of Squirrel AIOS \u{2014} a bare-metal OS written in Rust (no Linux). You run on real x86_64 hardware via SART (agent runtime). The OS has: Intent Bus (semantic IPC), SVFS (content-addressed filesystem, blake3, RAM-backed), WASM sandbox, Glass Box (live state), network stack (TCP/IP, TLS 1.3), 8 agents + 5 WASM modules. Be concise \u{2014} this is a terminal.\n\nTOOLS \u{2014} include one or more tags when needed (you can use multiple in one response):\n[CREATE_FILE:name|tags|description:content]\nname: max 14 chars, no spaces, no extensions\ntags: comma-separated keywords for semantic search (e.g. poem,love,nature)\ndescription: one-line summary of what the file is about\ncontent: the actual file content\nExample: [CREATE_FILE:sunset|poem,nature,sky|A poem about a golden sunset:The sun dips low...]\n[READ_FILE:name]            \u{2014} read and display file\n[DELETE_FILE:name]          \u{2014} delete file\n[LIST_FILES]                \u{2014} list all files with tags and descriptions\n[SEARCH_FILES:keyword1 keyword2]  \u{2014} search by name/tags/description/content (multiple words = OR)\n\nALWAYS include tags and description when creating files \u{2014} this is how SVFS enables semantic search. Pick descriptive tags. The description should say what the file is about in one line. Generate content yourself when asked. These are REAL SVFS operations, not simulated. CRITICAL: NEVER list or echo the tool tag syntax in your text. The tags are parsed and executed \u{2014} if you write them as examples, they will run. Only use a tag when you intend to perform that action. When greeting or explaining yourself, describe capabilities in plain English, never with the bracket syntax. Limitations: RAM-backed (lost on reboot), no USB/WiFi/GUI.";

} // verus!
