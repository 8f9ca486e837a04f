//! Tool calls on the file store: what is asked of the store, and what is said about its
//! reply.

use vstd::prelude::*;
use vstd::utf8::*;

use crate::glass_box::display::{pad_right, padded_right};
use crate::primary_agent::planner::{display_name, shown_name, FileView, StoredFile, ToolCall, ToolView};
use crate::text::{
    chars_eq, chars_of, contains, decimal, decimal_text, find_chars, lower, lowered, split, split_on, starts_with, text,
    to_text, trim, trimmed_chars, utf8_text,
};
use crate::views::{group_views, views};

verus! {

// ---------------------------------------------------------------------------
// Stored tags
// ---------------------------------------------------------------------------

/// The tags among the first `n` parts of a stored list: neither empty ones, nor the
/// description, nor the internal mark.
pub open spec fn tags_among(parts: Seq<Seq<char>>, n: int) -> Seq<Seq<char>>
    decreases n,
{
    if n <= 0 {
        Seq::empty()
    } else {
        let p = trim(parts[n - 1]);
        let rest = tags_among(parts, n - 1);
        if p.len() == 0 || starts_with(p, "desc:"@) || p == "user-created"@ {
            rest
        } else {
            rest.push(p)
        }
    }
}

/// The description among the first `n` parts: the last one counts.
pub open spec fn description_among(parts: Seq<Seq<char>>, n: int) -> Seq<char>
    decreases n,
{
    if n <= 0 {
        Seq::empty()
    } else {
        let p = trim(parts[n - 1]);
        if p.len() > 0 && starts_with(p, "desc:"@) {
            trim(p.skip(5))
        } else {
            description_among(parts, n - 1)
        }
    }
}

/// Texts with commas between them.
pub open spec fn joined(parts: Seq<Seq<char>>) -> Seq<char>
    decreases parts.len(),
{
    if parts.len() == 0 {
        Seq::empty()
    } else if parts.len() == 1 {
        parts[0]
    } else {
        joined(parts.drop_last()).push(',') + parts.last()
    }
}

/// The tags of a stored list, as one text.
pub open spec fn stored_tags(raw: Seq<char>) -> Seq<char> {
    let parts = split_on(raw, ',');
    joined(tags_among(parts, parts.len() as int))
}

/// The description of a stored list.
pub open spec fn stored_description(raw: Seq<char>) -> Seq<char> {
    let parts = split_on(raw, ',');
    description_among(parts, parts.len() as int)
}

/// Separate a stored list into tags and description.
pub fn parse_stored_tags(raw: &str) -> (r: (String, String))
    ensures
        r.0@ == stored_tags(raw@),
        r.1@ == stored_description(raw@),
{
    proof {
        reveal_strlit("desc:");
    }
    let cs = chars_of(raw);
    let parts = split(cs.as_slice(), ',');
    let mark = chars_of("desc:");
    let internal = chars_of("user-created");
    let ghost all = split_on(raw@, ',');
    let mut tags = String::new();
    let mut count: usize = 0;
    let mut description = String::new();
    let mut i: usize = 0;
    while i < parts.len()
        invariant
            views(parts@) == all,
            mark@ == "desc:"@,
            mark@.len() == 5,
            internal@ == "user-created"@,
            i <= parts@.len(),
            count == tags_among(all, i as int).len(),
            count <= i,
            tags@ == joined(tags_among(all, i as int)),
            description@ == description_among(all, i as int),
        decreases parts@.len() - i,
    {
        let p = trimmed_chars(parts[i].as_slice());
        assert(p@ == trim(all[i as int]));
        let ghost before = tags_among(all, i as int);
        if p.len() > 0 {
            if crate::text::chars_at(p.as_slice(), mark.as_slice(), 0) {
                let rest = vstd::slice::slice_subrange(p.as_slice(), 5, p.len());
                assert(rest@ =~= p@.skip(5));
                description = to_text(trimmed_chars(rest).as_slice());
            } else if !chars_eq(p.as_slice(), internal.as_slice()) {
                if count > 0 {
                    tags.push(',');
                }
                tags.push_str(to_text(p.as_slice()).as_str());
                count += 1;
                proof {
                    let after = before.push(p@);
                    assert(after.drop_last() =~= before);
                    if before.len() == 0 {
                        assert(tags@ =~= p@);
                    }
                }
            }
        }
        i += 1;
    }
    (tags, description)
}

// ---------------------------------------------------------------------------
// What is asked of the store
// ---------------------------------------------------------------------------

/// What a tool call asks of the store.
pub enum StoreRequest {
    /// Store a file in place of one with the same name.
    Replace { name: String, tags: Vec<String>, content: String },
    Read { name: String },
    Delete { name: String },
    /// All files; with their contents where they are searched.
    List { contents: bool },
}

/// What a request to the store holds.
pub enum StoreRequestView {
    Replace { name: Seq<char>, tags: Seq<Seq<char>>, content: Seq<char> },
    Read { name: Seq<char> },
    Delete { name: Seq<char> },
    List { contents: bool },
}

impl View for StoreRequest {
    type V = StoreRequestView;

    open spec fn view(&self) -> StoreRequestView {
        match self {
            StoreRequest::Replace { name, tags, content } => StoreRequestView::Replace {
                name: name@,
                tags: views(tags@),
                content: content@,
            },
            StoreRequest::Read { name } => StoreRequestView::Read { name: name@ },
            StoreRequest::Delete { name } => StoreRequestView::Delete { name: name@ },
            StoreRequest::List { contents } => StoreRequestView::List { contents: *contents },
        }
    }
}

/// The nonempty parts among the first `n`, without white space around them.
pub open spec fn given_tags(parts: Seq<Seq<char>>, n: int) -> Seq<Seq<char>>
    decreases n,
{
    if n <= 0 {
        Seq::empty()
    } else if trim(parts[n - 1]).len() > 0 {
        given_tags(parts, n - 1).push(trim(parts[n - 1]))
    } else {
        given_tags(parts, n - 1)
    }
}

/// The tags that a file is stored with: the internal mark, the tags that were given, and
/// the description behind "desc:", where there is one.
pub open spec fn tag_list(tags: Seq<char>, description: Seq<char>) -> Seq<Seq<char>> {
    let parts = split_on(tags, ',');
    let given = seq!["user-created"@] + given_tags(parts, parts.len() as int);
    if description.len() > 0 {
        given.push("desc:"@ + description)
    } else {
        given
    }
}

/// What a tool call asks of the store.
pub open spec fn request_of(tool: ToolView) -> StoreRequestView {
    match tool {
        ToolView::CreateFile { name, tags, description, content } => StoreRequestView::Replace {
            name,
            tags: tag_list(tags, description),
            content,
        },
        ToolView::ReadFile { name } => StoreRequestView::Read { name },
        ToolView::DeleteFile { name } => StoreRequestView::Delete { name },
        ToolView::ListFiles => StoreRequestView::List { contents: false },
        ToolView::SearchFiles { query } => StoreRequestView::List { contents: true },
    }
}

/// The tags that a file is stored with.
fn make_tag_list(tags: &str, description: &str) -> (r: Vec<String>)
    ensures
        views(r@) == tag_list(tags@, description@),
{
    broadcast use group_views;

    let parts = split(chars_of(tags).as_slice(), ',');
    let ghost all = split_on(tags@, ',');
    let mut out: Vec<String> = Vec::new();
    out.push(text("user-created"));
    let ghost head = seq!["user-created"@];
    assert(views(out@) =~= head + given_tags(all, 0));
    let mut i: usize = 0;
    while i < parts.len()
        invariant
            views(parts@) == all,
            i <= parts@.len(),
            views(out@) == head + given_tags(all, i as int),
        decreases parts@.len() - i,
    {
        broadcast use group_views;

        let p = trimmed_chars(parts[i].as_slice());
        assert(p@ == trim(all[i as int]));
        let ghost before = given_tags(all, i as int);
        if p.len() > 0 {
            out.push(to_text(p.as_slice()));
            assert((head + before).push(p@) =~= head + before.push(p@));
        }
        i += 1;
    }
    if !description.is_empty() {
        let mut d = text("desc:");
        d.push_str(description);
        out.push(d);
    }
    out
}

/// What a tool call asks of the store.
pub fn tool_request(tool: &ToolCall) -> (r: StoreRequest)
    ensures
        r@ == request_of(tool@),
{
    match tool {
        ToolCall::CreateFile { name, tags, description, content } => StoreRequest::Replace {
            name: name.clone(),
            tags: make_tag_list(tags.as_str(), description.as_str()),
            content: content.clone(),
        },
        ToolCall::ReadFile { name } => StoreRequest::Read { name: name.clone() },
        ToolCall::DeleteFile { name } => StoreRequest::Delete { name: name.clone() },
        ToolCall::ListFiles => StoreRequest::List { contents: false },
        ToolCall::SearchFiles { query } => StoreRequest::List { contents: true },
    }
}

// ---------------------------------------------------------------------------
// What is said about the reply
// ---------------------------------------------------------------------------

/// What became of a request to the store.
pub enum StoreReply {
    /// There is no store.
    Unavailable,
    /// Whether the file was stored.
    Stored(bool),
    /// No file of that name.
    Missing,
    /// The file was found: its stored tags, and its content where it can be read.
    Found { tags: String, content: Option<Vec<u8>> },
    /// Whether there was a file to delete; none where deleting failed.
    Deleted(Option<bool>),
    Files(Vec<StoredFile>),
}

/// What a reply holds.
pub enum StoreReplyView {
    Unavailable,
    Stored(bool),
    Missing,
    Found { tags: Seq<char>, content: Option<Seq<u8>> },
    Deleted(Option<bool>),
    Files(Seq<FileView>),
}

impl View for StoreReply {
    type V = StoreReplyView;

    open spec fn view(&self) -> StoreReplyView {
        match self {
            StoreReply::Unavailable => StoreReplyView::Unavailable,
            StoreReply::Stored(ok) => StoreReplyView::Stored(*ok),
            StoreReply::Missing => StoreReplyView::Missing,
            StoreReply::Found { tags, content } => StoreReplyView::Found {
                tags: tags@,
                content: match content {
                    Some(c) => Some(c@),
                    None => None,
                },
            },
            StoreReply::Deleted(d) => StoreReplyView::Deleted(*d),
            StoreReply::Files(f) => StoreReplyView::Files(views(f@)),
        }
    }
}

/// The reply is one that the tool call can get.
pub open spec fn reply_fits(tool: ToolView, reply: StoreReplyView) -> bool {
    match tool {
        ToolView::CreateFile { .. } => reply is Unavailable || reply is Stored,
        ToolView::ReadFile { .. } => reply is Unavailable || reply is Missing || reply is Found,
        ToolView::DeleteFile { .. } => reply is Unavailable || reply is Deleted,
        ToolView::ListFiles => reply is Unavailable || reply is Files,
        ToolView::SearchFiles { .. } => reply is Unavailable || reply is Files,
    }
}

/// The state that a tool call is published under.
pub open spec fn tool_state(tool: ToolView) -> Seq<char> {
    match tool {
        ToolView::CreateFile { .. } => "svfs-write"@,
        ToolView::ReadFile { .. } => "svfs-read"@,
        ToolView::DeleteFile { .. } => "svfs-delete"@,
        ToolView::ListFiles => "svfs-list"@,
        ToolView::SearchFiles { .. } => "svfs-search"@,
    }
}

/// What is said about a file that was stored, or not.
pub open spec fn stored_message(name: Seq<char>, tags: Seq<char>, content: Seq<char>, ok: bool) -> Seq<char> {
    if ok {
        let said = "[SVFS] Stored '"@ + name + "' ("@ + decimal(encode_utf8(content).len()) + " bytes)"@;
        if tags.len() > 0 {
            said + " ["@ + tags + "]"@ + "\n"@
        } else {
            said + "\n"@
        }
    } else {
        "[SVFS Error: failed to store '"@ + name + "']\n"@
    }
}

/// The text of bytes, or a stand-in.
pub open spec fn text_or(bytes: Seq<u8>, other: Seq<char>) -> Seq<char> {
    if valid_utf8(bytes) {
        decode_utf8(bytes)
    } else {
        other
    }
}

/// What is said about a file that was found.
pub open spec fn read_message(name: Seq<char>, tags: Seq<char>, content: Option<Seq<u8>>) -> Seq<char> {
    match content {
        Some(data) => {
            let head = "--- "@ + name + " ("@ + decimal(data.len()) + " bytes) ---\n"@;
            let described = if stored_description(tags).len() > 0 {
                head + "  "@ + stored_description(tags) + "\n"@
            } else {
                head
            };
            let tagged = if stored_tags(tags).len() > 0 {
                described + "  tags: "@ + stored_tags(tags) + "\n"@
            } else {
                described
            };
            tagged + "---\n"@ + text_or(data, "<binary data>"@) + "\n---\n"@
        },
        None => "[SVFS Error: could not read '"@ + name + "']\n"@,
    }
}

/// What is said about a file that was deleted, or not.
pub open spec fn deleted_message(name: Seq<char>, d: Option<bool>) -> Seq<char> {
    match d {
        Some(true) => "[SVFS] Deleted '"@ + name + "'\n"@,
        Some(false) => "[SVFS] File '"@ + name + "' not found.\n"@,
        None => "[SVFS Error: failed to delete '"@ + name + "']\n"@,
    }
}

/// The tags of a file, for showing.
pub open spec fn file_tags(f: FileView) -> Seq<char> {
    match f.tags {
        Some(t) => stored_tags(t),
        None => Seq::empty(),
    }
}

/// The description of a file, for showing.
pub open spec fn file_description(f: FileView) -> Seq<char> {
    match f.tags {
        Some(t) => stored_description(t),
        None => Seq::empty(),
    }
}

/// The line of a file in a listing.
pub open spec fn list_line(f: FileView) -> Seq<char> {
    let head = "  "@ + pad_right(shown_name(f.name), 14) + "  "@ + decimal(f.size as nat) + " bytes"@;
    let described = if file_description(f).len() > 0 {
        head + "  -- "@ + file_description(f)
    } else {
        head
    };
    let tagged = if file_tags(f).len() > 0 {
        described + "  ["@ + file_tags(f) + "]"@
    } else {
        described
    };
    tagged + "\n"@
}

/// The lines of the first `n` files.
pub open spec fn list_lines(files: Seq<FileView>, n: int) -> Seq<char>
    decreases n,
{
    if n <= 0 {
        Seq::empty()
    } else {
        list_lines(files, n - 1) + list_line(files[n - 1])
    }
}

/// What is said about all files.
pub open spec fn list_message(files: Seq<FileView>) -> Seq<char> {
    if files.len() == 0 {
        "[SVFS] No files stored.\n"@
    } else {
        "Files ("@ + decimal(files.len()) + "):\n"@ + list_lines(files, files.len() as int)
    }
}

/// The words of a query from its `i`-th character on, with `word` read so far: words are
/// separated by spaces and commas, and their letters are lower-case.
pub open spec fn query_words(query: Seq<char>, i: int, word: Seq<char>) -> Seq<Seq<char>>
    decreases query.len() - i,
{
    if i < 0 || i >= query.len() {
        word_list(word)
    } else if query[i] == ' ' || query[i] == ',' {
        word_list(word) + query_words(query, i + 1, Seq::empty())
    } else {
        query_words(query, i + 1, word.push(query[i]))
    }
}

/// A word as a list: trimmed, lower-case, and no word where nothing is left.
pub open spec fn word_list(word: Seq<char>) -> Seq<Seq<char>> {
    if trim(word).len() > 0 {
        seq![lower(trim(word))]
    } else {
        Seq::empty()
    }
}

/// Where a file's metadata match the words from the `i`-th on: a word is looked for in
/// the name, the tags and the description, before the next word is.
pub open spec fn metadata_match(f: FileView, words: Seq<Seq<char>>, i: int) -> Option<Seq<char>>
    decreases words.len() - i,
{
    if i < 0 || i >= words.len() {
        None
    } else if contains(lower(f.name), words[i]) {
        Some("name"@)
    } else if contains(lower(file_tags(f)), words[i]) {
        Some("tags"@)
    } else if contains(lower(file_description(f)), words[i]) {
        Some("description"@)
    } else {
        metadata_match(f, words, i + 1)
    }
}

/// One of the words is in a text.
pub open spec fn any_word(s: Seq<char>, words: Seq<Seq<char>>) -> bool {
    exists|i: int| 0 <= i < words.len() && contains(s, #[trigger] words[i])
}

/// Where a file matches the words: in its metadata, else in its content.
pub open spec fn match_of(f: FileView, words: Seq<Seq<char>>) -> Option<Seq<char>> {
    match metadata_match(f, words, 0) {
        Some(m) => Some(m),
        None => match (f.tags, f.content) {
            (Some(_), Some(data)) => if any_word(lower(text_or(data, Seq::empty())), words) {
                Some("content"@)
            } else {
                None
            },
            _ => None,
        },
    }
}

/// The lines of a file that matches.
pub open spec fn match_lines(f: FileView, m: Seq<char>) -> Seq<char> {
    let head = "  "@ + pad_right(shown_name(f.name), 14) + "  "@ + decimal(f.size as nat) + " bytes  (matched: "@ + m
        + ")"@;
    let described = if file_description(f).len() > 0 {
        head + "\n    "@ + file_description(f)
    } else {
        head
    };
    let tagged = if file_tags(f).len() > 0 {
        described + "\n    tags: "@ + file_tags(f)
    } else {
        described
    };
    tagged + "\n"@
}

/// The lines of those of the first `n` files that match.
pub open spec fn found_lines(files: Seq<FileView>, words: Seq<Seq<char>>, n: int) -> Seq<char>
    decreases n,
{
    if n <= 0 {
        Seq::empty()
    } else {
        match match_of(files[n - 1], words) {
            Some(m) => found_lines(files, words, n - 1) + match_lines(files[n - 1], m),
            None => found_lines(files, words, n - 1),
        }
    }
}

/// One of the first `n` files matches.
pub open spec fn any_match(files: Seq<FileView>, words: Seq<Seq<char>>, n: int) -> bool
    decreases n,
{
    n > 0 && (match_of(files[n - 1], words) is Some || any_match(files, words, n - 1))
}

/// What is said about a search.
pub open spec fn search_message(query: Seq<char>, files: Seq<FileView>) -> Seq<char> {
    let words = query_words(query, 0, Seq::empty());
    if files.len() == 0 {
        "[SVFS] No files stored.\n"@
    } else if any_match(files, words, files.len() as int) {
        "Search results for '"@ + query + "':\n"@ + found_lines(files, words, files.len() as int)
    } else {
        "[SVFS] No files matching '"@ + query + "' found.\n"@
    }
}

/// What is said about a tool call.
pub open spec fn tool_message(tool: ToolView, reply: StoreReplyView) -> Seq<char> {
    match reply {
        StoreReplyView::Unavailable => "[Error: SVFS not initialized]\n"@,
        _ => match tool {
            ToolView::CreateFile { name, tags, description, content } => stored_message(
                name,
                tags,
                content,
                reply == StoreReplyView::Stored(true),
            ),
            ToolView::ReadFile { name } => match reply {
                StoreReplyView::Found { tags, content } => read_message(name, tags, content),
                _ => "[SVFS] File '"@ + name + "' not found.\n"@,
            },
            ToolView::DeleteFile { name } => deleted_message(
                name,
                match reply {
                    StoreReplyView::Deleted(d) => d,
                    _ => None,
                },
            ),
            ToolView::ListFiles => list_message(
                match reply {
                    StoreReplyView::Files(f) => f,
                    _ => Seq::empty(),
                },
            ),
            ToolView::SearchFiles { query } => search_message(
                query,
                match reply {
                    StoreReplyView::Files(f) => f,
                    _ => Seq::empty(),
                },
            ),
        },
    }
}

fn say_stored(name: &str, tags: &str, content: &str, ok: bool) -> (r: String)
    ensures
        r@ == stored_message(name@, tags@, content@, ok),
{
    if ok {
        let mut s = text("[SVFS] Stored '");
        s.push_str(name);
        s.push_str("' (");
        s.push_str(decimal_text(content.as_bytes().len() as u64).as_str());
        s.push_str(" bytes)");
        if !tags.is_empty() {
            s.push_str(" [");
            s.push_str(tags);
            s.push_str("]");
        }
        s.push_str("\n");
        s
    } else {
        let mut s = text("[SVFS Error: failed to store '");
        s.push_str(name);
        s.push_str("']\n");
        s
    }
}

fn say_missing(name: &str) -> (r: String)
    ensures
        r@ == "[SVFS] File '"@ + name@ + "' not found.\n"@,
{
    let mut s = text("[SVFS] File '");
    s.push_str(name);
    s.push_str("' not found.\n");
    s
}

fn say_read(name: &str, tags: &str, content: &Option<Vec<u8>>) -> (r: String)
    ensures
        r@ == read_message(
            name@,
            tags@,
            match *content {
                Some(c) => Some(c@),
                None => None,
            },
        ),
{
    match content {
        Some(data) => {
            let (tags_text, description) = parse_stored_tags(tags);
            let shown = match utf8_text(data.as_slice()) {
                Some(s) => s,
                None => text("<binary data>"),
            };
            let mut s = text("--- ");
            s.push_str(name);
            s.push_str(" (");
            s.push_str(decimal_text(data.len() as u64).as_str());
            s.push_str(" bytes) ---\n");
            if !description.as_str().is_empty() {
                s.push_str("  ");
                s.push_str(description.as_str());
                s.push_str("\n");
            }
            if !tags_text.as_str().is_empty() {
                s.push_str("  tags: ");
                s.push_str(tags_text.as_str());
                s.push_str("\n");
            }
            s.push_str("---\n");
            s.push_str(shown.as_str());
            s.push_str("\n---\n");
            s
        },
        None => {
            let mut s = text("[SVFS Error: could not read '");
            s.push_str(name);
            s.push_str("']\n");
            s
        },
    }
}

fn say_deleted(name: &str, d: Option<bool>) -> (r: String)
    ensures
        r@ == deleted_message(name@, d),
{
    match d {
        Some(was) => if was {
            let mut s = text("[SVFS] Deleted '");
            s.push_str(name);
            s.push_str("'\n");
            s
        } else {
            say_missing(name)
        },
        None => {
            let mut s = text("[SVFS Error: failed to delete '");
            s.push_str(name);
            s.push_str("']\n");
            s
        },
    }
}

/// The tags and the description of a file, for showing.
fn shown_metadata(f: &StoredFile) -> (r: (String, String))
    ensures
        r.0@ == file_tags(f@),
        r.1@ == file_description(f@),
{
    match &f.tags {
        Some(t) => parse_stored_tags(t.as_str()),
        None => (String::new(), String::new()),
    }
}

fn say_line(f: &StoredFile) -> (r: String)
    ensures
        r@ == list_line(f@),
{
    let (tags, description) = shown_metadata(f);
    let mut s = text("  ");
    s.push_str(padded_right(display_name(f.name.as_str()).as_str(), 14).as_str());
    s.push_str("  ");
    s.push_str(decimal_text(f.size).as_str());
    s.push_str(" bytes");
    if !description.as_str().is_empty() {
        s.push_str("  -- ");
        s.push_str(description.as_str());
    }
    if !tags.as_str().is_empty() {
        s.push_str("  [");
        s.push_str(tags.as_str());
        s.push_str("]");
    }
    s.push_str("\n");
    s
}

fn say_list(files: &Vec<StoredFile>) -> (r: String)
    ensures
        r@ == list_message(views(files@)),
{
    if files.len() == 0 {
        return text("[SVFS] No files stored.\n");
    }
    let mut s = text("Files (");
    s.push_str(decimal_text(files.len() as u64).as_str());
    s.push_str("):\n");
    let ghost head = s@;
    let mut i: usize = 0;
    assert(s@ =~= head + list_lines(views(files@), 0));
    while i < files.len()
        invariant
            i <= files@.len(),
            s@ == head + list_lines(views(files@), i as int),
        decreases files@.len() - i,
    {
        s.push_str(say_line(&files[i]).as_str());
        i += 1;
        assert(s@ =~= head + list_lines(views(files@), i as int));
    }
    s
}

/// The words of a query.
fn words_of(query: &str) -> (r: Vec<Vec<char>>)
    ensures
        views(r@) == query_words(query@, 0, Seq::empty()),
{
    broadcast use group_views;

    let cs = chars_of(query);
    let mut out: Vec<Vec<char>> = Vec::new();
    let mut word: Vec<char> = Vec::new();
    let mut i: usize = 0;
    let ghost all = query_words(query@, 0, Seq::empty());
    assert(views(out@) + all =~= all);
    while i < cs.len()
        invariant
            cs@ == query@,
            i <= cs@.len(),
            all == query_words(query@, 0, Seq::empty()),
            views(out@) + query_words(query@, i as int, word@) == all,
        decreases cs@.len() - i,
    {
        broadcast use group_views;

        let c = cs[i];
        let ghost before = views(out@);
        if c == ' ' || c == ',' {
            let t = trimmed_chars(word.as_slice());
            let ghost rest = query_words(query@, i + 1, Seq::empty());
            if t.len() > 0 {
                let l = lowered(t.as_slice());
                out.push(l);
                assert(before + (seq![l@] + rest) =~= before.push(l@) + rest);
            } else {
                assert(before + (Seq::<Seq<char>>::empty() + rest) =~= before + rest);
            }
            word = Vec::new();
        } else {
            word.push(c);
        }
        i += 1;
    }
    let ghost before = views(out@);
    let t = trimmed_chars(word.as_slice());
    if t.len() > 0 {
        let l = lowered(t.as_slice());
        out.push(l);
        assert(before + seq![l@] =~= before.push(l@));
    } else {
        assert(before + Seq::<Seq<char>>::empty() =~= before);
    }
    out
}

/// Whether characters hold a word.
fn holds_chars(cs: &[char], word: &Vec<char>) -> (r: bool)
    ensures
        r == contains(cs@, word@),
{
    find_chars(cs, word.as_slice(), 0).is_some()
}

/// Where a file's metadata match the words.
fn find_metadata(f: &StoredFile, words: &Vec<Vec<char>>) -> (r: Option<&'static str>)
    ensures
        match r {
            Some(m) => metadata_match(f@, views(words@), 0) == Some(m@),
            None => metadata_match(f@, views(words@), 0) is None,
        },
{
    let (tags, description) = shown_metadata(f);
    let name = lowered(chars_of(f.name.as_str()).as_slice());
    let tags = lowered(chars_of(tags.as_str()).as_slice());
    let description = lowered(chars_of(description.as_str()).as_slice());
    let mut i: usize = 0;
    while i < words.len()
        invariant
            i <= words@.len(),
            name@ == lower(f@.name),
            tags@ == lower(file_tags(f@)),
            description@ == lower(file_description(f@)),
            metadata_match(f@, views(words@), 0) == metadata_match(f@, views(words@), i as int),
        decreases words@.len() - i,
    {
        assert(views(words@)[i as int] == words@[i as int]@);
        if holds_chars(name.as_slice(), &words[i]) {
            return Some("name");
        }
        if holds_chars(tags.as_slice(), &words[i]) {
            return Some("tags");
        }
        if holds_chars(description.as_slice(), &words[i]) {
            return Some("description");
        }
        i += 1;
    }
    None
}

/// Whether one of the words is in a text.
fn holds_any(cs: &[char], words: &Vec<Vec<char>>) -> (r: bool)
    ensures
        r == any_word(cs@, views(words@)),
{
    let mut i: usize = 0;
    while i < words.len()
        invariant
            i <= words@.len(),
            forall|j: int| 0 <= j < i ==> !contains(cs@, #[trigger] views(words@)[j]),
        decreases words@.len() - i,
    {
        if holds_chars(cs, &words[i]) {
            assert(contains(cs@, views(words@)[i as int]));
            return true;
        }
        i += 1;
    }
    false
}

/// Where a file matches the words.
fn find_match(f: &StoredFile, words: &Vec<Vec<char>>) -> (r: Option<&'static str>)
    ensures
        match r {
            Some(m) => match_of(f@, views(words@)) == Some(m@),
            None => match_of(f@, views(words@)) is None,
        },
{
    match find_metadata(f, words) {
        Some(m) => Some(m),
        None => match (&f.tags, &f.content) {
            (Some(_), Some(data)) => {
                let shown = match utf8_text(data.as_slice()) {
                    Some(s) => s,
                    None => String::new(),
                };
                let low = lowered(chars_of(shown.as_str()).as_slice());
                if holds_any(low.as_slice(), words) {
                    Some("content")
                } else {
                    None
                }
            },
            _ => None,
        },
    }
}

fn say_match(f: &StoredFile, m: &str) -> (r: String)
    ensures
        r@ == match_lines(f@, m@),
{
    let (tags, description) = shown_metadata(f);
    let mut s = text("  ");
    s.push_str(padded_right(display_name(f.name.as_str()).as_str(), 14).as_str());
    s.push_str("  ");
    s.push_str(decimal_text(f.size).as_str());
    s.push_str(" bytes  (matched: ");
    s.push_str(m);
    s.push_str(")");
    if !description.as_str().is_empty() {
        s.push_str("\n    ");
        s.push_str(description.as_str());
    }
    if !tags.as_str().is_empty() {
        s.push_str("\n    tags: ");
        s.push_str(tags.as_str());
    }
    s.push_str("\n");
    s
}

fn say_search(query: &str, files: &Vec<StoredFile>) -> (r: String)
    ensures
        r@ == search_message(query@, views(files@)),
{
    if files.len() == 0 {
        return text("[SVFS] No files stored.\n");
    }
    let words = words_of(query);
    let ghost ws = views(words@);
    let mut out = text("Search results for '");
    out.push_str(query);
    out.push_str("':\n");
    let ghost head = out@;
    let mut found = false;
    let mut i: usize = 0;
    assert(out@ =~= head + found_lines(views(files@), ws, 0));
    while i < files.len()
        invariant
            i <= files@.len(),
            ws == views(words@),
            out@ == head + found_lines(views(files@), ws, i as int),
            found == any_match(views(files@), ws, i as int),
        decreases files@.len() - i,
    {
        match find_match(&files[i], &words) {
            Some(m) => {
                out.push_str(say_match(&files[i], m).as_str());
                found = true;
            },
            None => {},
        }
        i += 1;
        assert(out@ =~= head + found_lines(views(files@), ws, i as int));
    }
    if found {
        out
    } else {
        let mut s = text("[SVFS] No files matching '");
        s.push_str(query);
        s.push_str("' found.\n");
        s
    }
}

/// What is said about a tool call, given what the store replied.
pub fn tool_reply_text(tool: &ToolCall, reply: &StoreReply) -> (r: String)
    requires
        reply_fits(tool@, reply@),
    ensures
        r@ == tool_message(tool@, reply@),
{
    match reply {
        StoreReply::Unavailable => text("[Error: SVFS not initialized]\n"),
        StoreReply::Stored(ok) => match tool {
            ToolCall::CreateFile { name, tags, description, content } => say_stored(
                name.as_str(),
                tags.as_str(),
                content.as_str(),
                *ok,
            ),
            _ => String::new(),
        },
        StoreReply::Missing => match tool {
            ToolCall::ReadFile { name } => say_missing(name.as_str()),
            _ => String::new(),
        },
        StoreReply::Found { tags, content } => match tool {
            ToolCall::ReadFile { name } => say_read(name.as_str(), tags.as_str(), content),
            _ => String::new(),
        },
        StoreReply::Deleted(d) => match tool {
            ToolCall::DeleteFile { name } => say_deleted(name.as_str(), *d),
            _ => String::new(),
        },
        StoreReply::Files(files) => match tool {
            ToolCall::ListFiles => say_list(files),
            ToolCall::SearchFiles { query } => say_search(query.as_str(), files),
            _ => String::new(),
        },
    }
}

/// The state that a tool call is published under.
pub fn tool_state_text(tool: &ToolCall) -> (r: &'static str)
    ensures
        r@ == tool_state(tool@),
{
    match tool {
        ToolCall::CreateFile { .. } => "svfs-write",
        ToolCall::ReadFile { .. } => "svfs-read",
        ToolCall::DeleteFile { .. } => "svfs-delete",
        ToolCall::ListFiles => "svfs-list",
        ToolCall::SearchFiles { .. } => "svfs-search",
    }
}

} // verus!
