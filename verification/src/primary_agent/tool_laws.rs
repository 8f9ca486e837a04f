//! What holds of tool calls on the file store: what is asked, what is found, and what the
//! user is told.

use vstd::prelude::*;
use vstd::utf8::*;

use crate::glass_box::display::pad_right;
use crate::primary_agent::planner::{shown_name, FileView, ToolView};
use crate::primary_agent::tools::{
    any_match, any_word, file_description, file_tags, found_lines, given_tags, list_line, list_lines, list_message, match_lines, match_of,
    metadata_match, query_words, read_message, request_of, search_message, stored_message, tag_list, text_or,
    tool_message, word_list, StoreReplyView, StoreRequestView,
};
use crate::text::{contains, decimal, lower, split_on, starts_with, trim};
use crate::text_laws::{law_inserted_is_found, law_part_is_found, law_prefix};

verus! {

// ---------------------------------------------------------------------------
// Requests
// ---------------------------------------------------------------------------

/// A call asks the store for what it says: a file is stored under its name with its
/// content, and the file that is named is read or deleted. Contents are asked for where
/// they are searched.
pub proof fn law_call_reaches_the_store(
    name: Seq<char>,
    tags: Seq<char>,
    description: Seq<char>,
    content: Seq<char>,
    query: Seq<char>,
)
    ensures
        request_of(ToolView::CreateFile { name, tags, description, content }) matches StoreRequestView::Replace {
            name: n,
            tags: _,
            content: c,
        } && n == name && c == content,
        request_of(ToolView::ReadFile { name }) == (StoreRequestView::Read { name }),
        request_of(ToolView::DeleteFile { name }) == (StoreRequestView::Delete { name }),
        request_of(ToolView::ListFiles) is List,
        request_of(ToolView::SearchFiles { query }) == (StoreRequestView::List { contents: true }),
{
}

/// Every tag that is given is stored, without the white space around it, and so is the
/// description; nothing else is but the mark of files that the user made.
pub proof fn law_tags_are_stored(tags: Seq<char>, description: Seq<char>, content: Seq<char>, name: Seq<char>)
    ensures
        request_of(ToolView::CreateFile { name, tags, description, content }) matches StoreRequestView::Replace {
            name: _,
            tags: stored,
            content: _,
        } && {
            &&& stored.contains("user-created"@)
            &&& description.len() > 0 ==> stored.contains("desc:"@ + description)
            &&& forall|i: int|
                0 <= i < split_on(tags, ',').len() && trim(#[trigger] split_on(tags, ',')[i]).len() > 0
                    ==> stored.contains(trim(split_on(tags, ',')[i]))
            &&& forall|j: int|
                0 <= j < stored.len() ==> {
                    ||| #[trigger] stored[j] == "user-created"@
                    ||| (description.len() > 0 && stored[j] == "desc:"@ + description)
                    ||| exists|i: int|
                        0 <= i < split_on(tags, ',').len() && #[trigger] trim(split_on(tags, ',')[i]) == stored[j]
                }
        },
{
    let parts = split_on(tags, ',');
    let n = parts.len() as int;
    let given = given_tags(parts, n);
    let stored = tag_list(tags, description);
    lemma_given(parts, n);
    assert(stored[0] == "user-created"@);
    if description.len() > 0 {
        assert(stored[stored.len() - 1] == "desc:"@ + description);
    }
    assert forall|i: int| 0 <= i < n && trim(#[trigger] parts[i]).len() > 0 implies stored.contains(trim(parts[i])) by {
        let k = choose|k: int| 0 <= k < given.len() && given[k] == trim(parts[i]);
        assert(stored[k + 1] == given[k]);
    }
    assert forall|j: int| 0 <= j < stored.len() implies {
        ||| #[trigger] stored[j] == "user-created"@
        ||| (description.len() > 0 && stored[j] == "desc:"@ + description)
        ||| exists|i: int| 0 <= i < n && #[trigger] trim(parts[i]) == stored[j]
    } by {
        if 1 <= j <= given.len() {
            assert(stored[j] == given[j - 1]);
        }
    }
}

proof fn lemma_given(parts: Seq<Seq<char>>, n: int)
    requires
        0 <= n <= parts.len(),
    ensures
        forall|i: int|
            0 <= i < n && trim(#[trigger] parts[i]).len() > 0 ==> given_tags(parts, n).contains(trim(parts[i])),
        forall|k: int|
            0 <= k < given_tags(parts, n).len() ==> exists|i: int|
                0 <= i < n && #[trigger] trim(parts[i]) == #[trigger] given_tags(parts, n)[k],
    decreases n,
{
    if n > 0 {
        lemma_given(parts, n - 1);
        let before = given_tags(parts, n - 1);
        let all = given_tags(parts, n);
        assert forall|i: int| 0 <= i < n && trim(#[trigger] parts[i]).len() > 0 implies all.contains(trim(parts[i])) by {
            if i < n - 1 {
                let k = choose|k: int| 0 <= k < before.len() && before[k] == trim(parts[i]);
                assert(all[k] == before[k]);
            } else {
                assert(all[all.len() - 1] == trim(parts[i]));
            }
        }
        assert forall|k: int| 0 <= k < all.len() implies exists|i: int|
            0 <= i < n && #[trigger] trim(parts[i]) == #[trigger] all[k] by {
            if k < before.len() {
                assert(all[k] == before[k]);
                let i = choose|i: int| 0 <= i < n - 1 && #[trigger] trim(parts[i]) == before[k];
                assert(trim(parts[i]) == all[k]);
            } else {
                assert(trim(parts[n - 1]) == all[k]);
            }
        }
    }
}

// ---------------------------------------------------------------------------
// Searching
// ---------------------------------------------------------------------------

/// The words of a query are those of its parts, wherever it is divided at a space or a
/// comma; a part that is not divided is one word in lower-case letters, if anything.
pub proof fn law_query_words(a: Seq<char>, separator: char, b: Seq<char>)
    requires
        separator == ' ' || separator == ',',
    ensures
        query_words(a.push(separator) + b, 0, Seq::empty()) == query_words(a, 0, Seq::empty()) + query_words(
            b,
            0,
            Seq::empty(),
        ),
        !a.contains(' ') && !a.contains(',') && trim(a).len() > 0 ==> query_words(a, 0, Seq::empty()) == seq![
            lower(trim(a)),
        ],
        trim(a).len() == 0 && !a.contains(' ') && !a.contains(',') ==> query_words(a, 0, Seq::empty()) == Seq::<
            Seq<char>,
        >::empty(),
{
    lemma_words_divide(a, separator, b, 0, Seq::empty());
    lemma_one_word(a, 0, Seq::empty());
    assert(Seq::<char>::empty() + a.skip(0) =~= a);
}

proof fn lemma_words_divide(a: Seq<char>, c: char, b: Seq<char>, i: int, word: Seq<char>)
    requires
        c == ' ' || c == ',',
        0 <= i <= a.len(),
    ensures
        query_words(a.push(c) + b, i, word) == query_words(a, i, word) + query_words(b, 0, Seq::empty()),
    decreases a.len() - i,
{
    let s = a.push(c) + b;
    let tail = query_words(b, 0, Seq::empty());
    if i == a.len() {
        lemma_words_shift(a.push(c), b, 0, Seq::empty());
        assert(s[i] == c);
    } else {
        assert(s[i] == a[i]);
        if a[i] == ' ' || a[i] == ',' {
            lemma_words_divide(a, c, b, i + 1, Seq::empty());
            assert(word_list(word) + (query_words(a, i + 1, Seq::empty()) + tail) =~= (word_list(word) + query_words(
                a,
                i + 1,
                Seq::empty(),
            )) + tail);
        } else {
            lemma_words_divide(a, c, b, i + 1, word.push(a[i]));
        }
    }
}

proof fn lemma_words_shift(x: Seq<char>, b: Seq<char>, i: int, word: Seq<char>)
    requires
        0 <= i <= b.len(),
    ensures
        query_words(x + b, x.len() + i, word) == query_words(b, i, word),
    decreases b.len() - i,
{
    if i < b.len() {
        assert((x + b)[x.len() + i] == b[i]);
        if b[i] == ' ' || b[i] == ',' {
            lemma_words_shift(x, b, i + 1, Seq::empty());
        } else {
            lemma_words_shift(x, b, i + 1, word.push(b[i]));
        }
    }
}

proof fn lemma_one_word(a: Seq<char>, i: int, word: Seq<char>)
    requires
        0 <= i <= a.len(),
    ensures
        !a.contains(' ') && !a.contains(',') ==> query_words(a, i, word) == word_list(word + a.skip(i)),
    decreases a.len() - i,
{
    if i < a.len() {
        if !a.contains(' ') && !a.contains(',') {
            assert(a.contains(a[i]));
            lemma_one_word(a, i + 1, word.push(a[i]));
            assert(word.push(a[i]) + a.skip(i + 1) =~= word + a.skip(i));
        }
    } else {
        assert(word + a.skip(i) =~= word);
    }
}

/// A word stands in what a file shows: its name, its tags or its description.
pub open spec fn in_metadata(f: FileView, word: Seq<char>) -> bool {
    contains(lower(f.name), word) || contains(lower(file_tags(f)), word) || contains(lower(file_description(f)), word)
}

/// A word stands in a file's content, where it is text and the file can be found.
pub open spec fn in_content(f: FileView, word: Seq<char>) -> bool {
    f.tags is Some && f.content is Some && contains(lower(text_or(f.content->0, Seq::empty())), word)
}

/// A search finds a file exactly when one of its words stands in the file's name, tags,
/// description or content, whatever the case of the letters.
pub proof fn law_search_finds(f: FileView, words: Seq<Seq<char>>)
    ensures
        match_of(f, words) is Some <==> exists|i: int|
            0 <= i < words.len() && (in_metadata(f, #[trigger] words[i]) || in_content(f, words[i])),
{
    lemma_metadata(f, words, 0);
    if match_of(f, words) is Some {
        if metadata_match(f, words, 0) is Some {
            let i = choose|i: int| 0 <= i < words.len() && in_metadata(f, #[trigger] words[i]);
            assert(in_metadata(f, words[i]));
        } else {
            let s = lower(text_or(f.content->0, Seq::empty()));
            let i = choose|i: int| 0 <= i < words.len() && contains(s, #[trigger] words[i]);
            assert(in_content(f, words[i]));
        }
    } else {
        assert forall|i: int| 0 <= i < words.len() implies !in_metadata(f, #[trigger] words[i]) && !in_content(
            f,
            words[i],
        ) by {}
    }
}

proof fn lemma_metadata(f: FileView, words: Seq<Seq<char>>, i: int)
    requires
        0 <= i <= words.len(),
    ensures
        metadata_match(f, words, i) is Some <==> exists|j: int| i <= j < words.len() && in_metadata(f, #[trigger] words[j]),
    decreases words.len() - i,
{
    if i < words.len() {
        lemma_metadata(f, words, i + 1);
        if in_metadata(f, words[i]) {
        } else if metadata_match(f, words, i) is Some {
            let j = choose|j: int| i + 1 <= j < words.len() && in_metadata(f, #[trigger] words[j]);
            assert(in_metadata(f, words[j]));
        }
    }
}

proof fn lemma_found(files: Seq<FileView>, words: Seq<Seq<char>>, n: int, i: int)
    requires
        0 <= i < n <= files.len(),
        match_of(files[i], words) is Some,
    ensures
        any_match(files, words, n),
        contains(found_lines(files, words, n), match_lines(files[i], match_of(files[i], words)->0)),
    decreases n,
{
    let line = match_lines(files[i], match_of(files[i], words)->0);
    let e = Seq::<char>::empty();
    if i == n - 1 {
        let before = found_lines(files, words, n - 1);
        assert(found_lines(files, words, n) =~= before + line + e);
        law_inserted_is_found(before, line, e);
    } else {
        lemma_found(files, words, n - 1, i);
        let before = found_lines(files, words, n - 1);
        match match_of(files[n - 1], words) {
            Some(m) => {
                let last = match_lines(files[n - 1], m);
                assert(found_lines(files, words, n) =~= e + before + last);
                law_part_is_found(e, before, last, line);
            },
            None => {},
        }
    }
}

/// The result of a search names every file that is found, with its size.
pub proof fn law_found_files_are_shown(query: Seq<char>, files: Seq<FileView>, i: int)
    requires
        0 <= i < files.len(),
        match_of(files[i], query_words(query, 0, Seq::empty())) is Some,
    ensures
        contains(
            search_message(query, files),
            "  "@ + pad_right(shown_name(files[i].name), 14) + "  "@ + decimal(files[i].size as nat) + " bytes"@,
        ),
{
    let words = query_words(query, 0, Seq::empty());
    let n = files.len() as int;
    let f = files[i];
    let m = match_of(f, words)->0;
    lemma_found(files, words, n, i);
    let line = match_lines(f, m);
    let head = "  "@ + pad_right(shown_name(f.name), 14) + "  "@ + decimal(f.size as nat) + " bytes"@;
    reveal_strlit(" bytes  (matched: ");
    reveal_strlit(" bytes");
    let e = Seq::<char>::empty();
    assert(line =~= e + head + line.skip(head.len() as int));
    law_inserted_is_found(e, head, line.skip(head.len() as int));
    let lines = found_lines(files, words, n);
    lemma_part_of_part(lines, line, head);
    let start = "Search results for '"@ + query + "':\n"@;
    assert(search_message(query, files) =~= start + lines + e);
    law_part_is_found(start, lines, e, head);
}

/// What a part of a part holds, the whole holds.
proof fn lemma_part_of_part(whole: Seq<char>, part: Seq<char>, pat: Seq<char>)
    requires
        contains(whole, part),
        contains(part, pat),
    ensures
        contains(whole, pat),
{
    crate::text_laws::law_found_divides(whole, part);
    let i = crate::text::find(whole, part)->0;
    law_part_is_found(whole.take(i), part, whole.skip(i + part.len()), pat);
}

/// A file that is not found does not show: the result is the same as without it.
pub proof fn law_other_files_are_not_shown(query: Seq<char>, files: Seq<FileView>, f: FileView)
    requires
        files.len() > 0,
        match_of(f, query_words(query, 0, Seq::empty())) is None,
    ensures
        search_message(query, files.push(f)) == search_message(query, files),
{
    let words = query_words(query, 0, Seq::empty());
    lemma_same_files(files.push(f), files, words, files.len() as int);
}

proof fn lemma_same_files(a: Seq<FileView>, b: Seq<FileView>, words: Seq<Seq<char>>, n: int)
    requires
        n <= a.len(),
        n <= b.len(),
        forall|i: int| 0 <= i < n ==> #[trigger] a[i] == b[i],
    ensures
        found_lines(a, words, n) == found_lines(b, words, n),
        any_match(a, words, n) == any_match(b, words, n),
    decreases n,
{
    if n > 0 {
        lemma_same_files(a, b, words, n - 1);
        assert(a[n - 1] == b[n - 1]);
    }
}

// ---------------------------------------------------------------------------
// What the user is told
// ---------------------------------------------------------------------------

/// A file that was read is shown: its name, its size and its whole text.
pub proof fn law_read_file_is_shown(name: Seq<char>, tags: Seq<char>, content: Seq<char>)
    ensures
        ({
            let said = tool_message(
                ToolView::ReadFile { name },
                StoreReplyView::Found { tags, content: Some(encode_utf8(content)) },
            );
            &&& starts_with(said, "--- "@ + name + " ("@ + decimal(encode_utf8(content).len()) + " bytes)"@)
            &&& contains(said, "---\n"@ + content + "\n---\n"@)
        }),
{
    encode_utf8_valid_utf8(content);
    encode_utf8_decode_utf8(content);
    let data = encode_utf8(content);
    let said = read_message(name, tags, Some(data));
    let tail = "---\n"@ + content + "\n---\n"@;
    let front = said.take(said.len() - tail.len());
    let e = Seq::<char>::empty();
    assert(said =~= front + tail + e);
    law_inserted_is_found(front, tail, e);
    reveal_strlit(" bytes) ---\n");
    reveal_strlit(" bytes)");
    let head = "--- "@ + name + " ("@ + decimal(data.len()) + " bytes)"@;
    assert(said =~= head + said.skip(head.len() as int));
    law_prefix(head, said.skip(head.len() as int));
}

/// A file that was stored is told with its size; one that was not, that was deleted, or
/// that is not there, is told as such.
pub proof fn law_outcome_is_told(name: Seq<char>, tags: Seq<char>, description: Seq<char>, content: Seq<char>)
    ensures
        starts_with(
            tool_message(ToolView::CreateFile { name, tags, description, content }, StoreReplyView::Stored(true)),
            "[SVFS] Stored '"@ + name + "' ("@ + decimal(encode_utf8(content).len()) + " bytes)"@,
        ),
        tool_message(ToolView::CreateFile { name, tags, description, content }, StoreReplyView::Stored(false))
            == "[SVFS Error: failed to store '"@ + name + "']\n"@,
        tool_message(ToolView::DeleteFile { name }, StoreReplyView::Deleted(Some(true))) == "[SVFS] Deleted '"@ + name
            + "'\n"@,
        tool_message(ToolView::DeleteFile { name }, StoreReplyView::Deleted(Some(false))) == "[SVFS] File '"@ + name
            + "' not found.\n"@,
        tool_message(ToolView::ReadFile { name }, StoreReplyView::Missing) == "[SVFS] File '"@ + name
            + "' not found.\n"@,
{
    let head = "[SVFS] Stored '"@ + name + "' ("@ + decimal(encode_utf8(content).len()) + " bytes)"@;
    let said = stored_message(name, tags, content, true);
    let rest = said.skip(head.len() as int);
    assert(said =~= head + rest);
    law_prefix(head, rest);
}

proof fn lemma_listed(files: Seq<FileView>, n: int, i: int)
    requires
        0 <= i < n <= files.len(),
    ensures
        contains(list_lines(files, n), list_line(files[i])),
    decreases n,
{
    let before = list_lines(files, n - 1);
    let last = list_line(files[n - 1]);
    let e = Seq::<char>::empty();
    if i == n - 1 {
        assert(list_lines(files, n) =~= before + last + e);
        law_inserted_is_found(before, last, e);
    } else {
        lemma_listed(files, n - 1, i);
        assert(list_lines(files, n) =~= e + before + last);
        law_part_is_found(e, before, last, list_line(files[i]));
    }
}

/// A listing says how many files there are and shows every one, with its name and size.
pub proof fn law_every_file_is_listed(files: Seq<FileView>, i: int)
    requires
        0 <= i < files.len(),
    ensures
        starts_with(list_message(files), "Files ("@ + decimal(files.len()) + "):\n"@),
        contains(
            list_message(files),
            "  "@ + pad_right(shown_name(files[i].name), 14) + "  "@ + decimal(files[i].size as nat) + " bytes"@,
        ),
{
    let start = "Files ("@ + decimal(files.len()) + "):\n"@;
    let lines = list_lines(files, files.len() as int);
    let f = files[i];
    let line = list_line(f);
    let head = "  "@ + pad_right(shown_name(f.name), 14) + "  "@ + decimal(f.size as nat) + " bytes"@;
    let e = Seq::<char>::empty();
    law_prefix(start, lines);
    lemma_listed(files, files.len() as int, i);
    assert(line =~= e + head + line.skip(head.len() as int));
    law_inserted_is_found(e, head, line.skip(head.len() as int));
    lemma_part_of_part(lines, line, head);
    assert(list_message(files) =~= start + lines + e);
    law_part_is_found(start, lines, e, head);
}

} // verus!
