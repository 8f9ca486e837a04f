//! What holds of an exchange as a whole: how the end of a response is told, that a request
//! is written in order, and that a response is what came.

use vstd::prelude::*;

use crate::network::http::blank_line;
use crate::network::https::{PostAction, PostError, PostPhase, PostView};
use crate::network::laws::{in_chunks, law_chunks_are_complete, Chunk};
use crate::network::tls::{
    body_complete, framing_of, head_has, head_text, is_length_line, length_in, line_end, line_has, ExchangeView, Framing, Phase,
    PoolAction, PoolError,
};
use crate::text::{contains, decimal, find, is_space, lemma_find_from, lower, lower_char, occurs_at, trim};
use crate::text_laws::{law_decimal_digits, law_decimal_is_read, law_trim, law_trim_parts, tight};

verus! {

// ---------------------------------------------------------------------------
// Heads
// ---------------------------------------------------------------------------

/// What stands before a line: nothing, or lines with their ends.
pub open spec fn whole_lines(s: Seq<char>) -> bool {
    s.len() > 0 ==> s.len() >= 2 && s[s.len() - 2] == '\r' && s.last() == '\n'
}

/// What stands behind a line: nothing, or its end and more.
pub open spec fn follows_line(s: Seq<char>) -> bool {
    s.len() > 0 ==> s.len() >= 2 && s[0] == '\r' && s[1] == '\n'
}

/// Spaces between the name of a header and its value.
pub open spec fn spaces(s: Seq<char>) -> bool {
    forall|i: int| 0 <= i < s.len() ==> #[trigger] s[i] == ' '
}

proof fn lemma_end_at(s: Seq<char>, i: int)
    requires
        0 <= i,
        i + 2 <= s.len(),
    ensures
        occurs_at(s, line_end(), i) <==> s[i] == '\r' && s[i + 1] == '\n',
{
    let h = s.subrange(i, i + 2);
    assert(h.len() == 2);
    if s[i] == '\r' && s[i + 1] == '\n' {
        assert(h =~= line_end());
    }
    if h == line_end() {
        assert(h[0] == '\r' && h[1] == '\n');
    }
}

/// A line without a carriage return ends where its end stands.
proof fn lemma_first_line(line: Seq<char>, after: Seq<char>)
    requires
        !line.contains('\r'),
        follows_line(after),
    ensures
        after.len() == 0 ==> find(line + after, line_end()) is None && line + after == line,
        after.len() > 0 ==> find(line + after, line_end()) == Some(line.len() as int) && (line + after).take(
            line.len() as int,
        ) == line,
{
    let s = line + after;
    lemma_find_from(s, line_end(), 0);
    let n = line.len() as int;
    if after.len() > 0 {
        lemma_end_at(s, n);
        assert(s.take(n) =~= line);
    } else {
        assert(s =~= line);
    }
    match find(s, line_end()) {
        Some(p) => {
            lemma_end_at(s, p);
            if p < n {
                assert(line[p] == '\r');
            }
        },
        None => {},
    }
}

/// The first of several lines ends within them, and behind it stand whole lines again.
proof fn lemma_next_line(before: Seq<char>, rest: Seq<char>) -> (i: int)
    requires
        before.len() > 0,
        whole_lines(before),
    ensures
        find(before + rest, line_end()) == Some(i),
        0 <= i,
        i + 2 <= before.len(),
        (before + rest).take(i) == before.take(i),
        (before + rest).skip(i + 2) == before.skip(i + 2) + rest,
        whole_lines(before.skip(i + 2)),
{
    let s = before + rest;
    let n = before.len() as int;
    lemma_find_from(s, line_end(), 0);
    assert(s[n - 2] == '\r' && s[n - 1] == '\n');
    lemma_end_at(s, n - 2);
    let i = find(s, line_end())->0;
    lemma_end_at(s, i);
    assert(s.take(i) =~= before.take(i));
    assert(s.skip(i + 2) =~= before.skip(i + 2) + rest);
    let more = before.skip(i + 2);
    if more.len() > 0 {
        if more.len() == 1 {
            assert(s[i + 1] == before[n - 2]);
        }
        assert(more.last() == before.last());
        assert(more[more.len() - 2] == before[n - 2]);
    }
    i
}

/// What a text does not hold in any case, none of its parts holds.
proof fn lemma_part_lacks(s: Seq<char>, from: int, to: int, pat: Seq<char>)
    requires
        !contains(lower(s), pat),
        0 <= from <= to <= s.len(),
    ensures
        !contains(lower(s.subrange(from, to)), pat),
{
    let part = s.subrange(from, to);
    if contains(lower(part), pat) {
        let i = find(lower(part), pat)->0;
        let k = pat.len() as int;
        lemma_find_from(lower(part), pat, 0);
        lemma_find_from(lower(s), pat, 0);
        assert(lower(s).subrange(from + i, from + i + k) =~= lower(part).subrange(i, i + k));
        assert(occurs_at(lower(s), pat, from + i));
    }
}

/// A line that does not speak of a length in any case gives none.
proof fn lemma_no_length_line(line: Seq<char>)
    requires
        !contains(lower(line), "content-length:"@),
    ensures
        !is_length_line(line),
{
    reveal_strlit("content-length:");
    if is_length_line(line) {
        let l = lower(line);
        assert(lower("content-length:"@) =~= "content-length:"@);
        assert(l.subrange(0, 15) =~= lower(line.take(15)));
        lemma_find_from(l, "content-length:"@, 0);
        assert(occurs_at(l, "content-length:"@, 0));
    }
}

/// The value behind a name, spaces and the value.
proof fn lemma_spaced(w: Seq<char>, v: Seq<char>)
    requires
        spaces(w),
        tight(v),
    ensures
        trim(w + v) == v,
{
    let e = Seq::<char>::empty();
    assert forall|i: int| 0 <= i < w.len() implies is_space(#[trigger] w[i]) by {}
    law_trim(w, v, e);
    assert(w + v + e =~= w + v);
}

/// The decimal notation of a number neither begins nor ends with white space.
proof fn lemma_decimal_is_tight(n: nat)
    ensures
        tight(decimal(n)),
        !decimal(n).contains('\r'),
{
    law_decimal_digits(n);
    let d = decimal(n);
    assert('0' <= d[0] <= '9');
    assert('0' <= d[d.len() - 1] <= '9');
    if d.contains('\r') {
        let k = choose|k: int| 0 <= k < d.len() && d[k] == '\r';
        assert('0' <= d[k] <= '9');
    }
}

/// The length that a head announces is read, whatever the case of the header's name, and
/// whatever lines stand around.
pub proof fn law_length_is_read(before: Seq<char>, name: Seq<char>, w: Seq<char>, n: nat, after: Seq<char>)
    requires
        whole_lines(before),
        !contains(lower(before), "content-length:"@),
        lower(name) == "content-length:"@,
        spaces(w),
        n <= usize::MAX,
        follows_line(after),
    ensures
        length_in(before + (name + w + decimal(n) + after)) == Some(n),
    decreases before.len(),
{
    reveal_strlit("content-length:");
    let line = name + w + decimal(n);
    let rest = line + after;
    let s = before + rest;
    if before.len() == 0 {
        assert(s =~= line + after);
        law_decimal_digits(n);
        lemma_decimal_is_tight(n);
        assert(name.len() == 15) by {
            assert(lower(name).len() == name.len());
        }
        assert(!line.contains('\r')) by {
            if line.contains('\r') {
                let k = choose|k: int| 0 <= k < line.len() && line[k] == '\r';
                if k < 15 {
                    assert(lower(name)[k] == lower_char(name[k]));
                    assert(lower(name)[k] == '\r');
                } else if k < 15 + w.len() {
                    assert(w[k - 15] == '\r');
                } else {
                    assert(decimal(n)[k - 15 - w.len()] == '\r');
                }
            }
        }
        assert(lower("content-length:"@) =~= "content-length:"@);
        assert(line.take(15) =~= name);
        assert(line.skip(15) =~= w + decimal(n));
        lemma_spaced(w, decimal(n));
        law_decimal_is_read(n, usize::MAX as nat);
        lemma_first_line(line, after);
    } else {
        let i = lemma_next_line(before, rest);
        assert(before.take(i) =~= before.subrange(0, i));
        lemma_part_lacks(before, 0, i, "content-length:"@);
        lemma_no_length_line(before.take(i));
        assert(before.skip(i + 2) =~= before.subrange(i + 2, before.len() as int));
        lemma_part_lacks(before, i + 2, before.len() as int, "content-length:"@);
        law_length_is_read(before.skip(i + 2), name, w, n, after);
    }
}

/// A head that nowhere speaks of a length gives none.
pub proof fn law_no_length_is_read(head: Seq<char>)
    requires
        !contains(lower(head), "content-length:"@),
    ensures
        length_in(head) is None,
    decreases head.len(),
{
    lemma_find_from(head, line_end(), 0);
    match find(head, line_end()) {
        Some(i) => {
            assert(head.take(i) =~= head.subrange(0, i));
            lemma_part_lacks(head, 0, i, "content-length:"@);
            lemma_no_length_line(head.take(i));
            assert(head.skip(i + 2) =~= head.subrange(i + 2, head.len() as int));
            lemma_part_lacks(head, i + 2, head.len() as int, "content-length:"@);
            law_no_length_is_read(head.skip(i + 2));
        },
        None => {
            lemma_no_length_line(head);
        },
    }
}

/// A header with a value is found in a head, whatever the case of both, and whatever lines
/// stand around.
pub proof fn law_header_is_found(
    before: Seq<char>,
    name: Seq<char>,
    w: Seq<char>,
    value: Seq<char>,
    after: Seq<char>,
    wanted_name: Seq<char>,
    wanted_value: Seq<char>,
)
    requires
        whole_lines(before),
        lower(name) == lower(wanted_name),
        lower(value) == lower(wanted_value),
        !name.contains('\r'),
        !value.contains('\r'),
        tight(value),
        value.len() > 0,
        spaces(w),
        follows_line(after),
    ensures
        head_has(before + (name + seq![':'] + w + value + after), wanted_name, wanted_value),
    decreases before.len(),
{
    let line = name + seq![':'] + w + value;
    let rest = line + after;
    let s = before + rest;
    let k = name.len() as int;
    assert(k == wanted_name.len()) by {
        assert(lower(name).len() == name.len());
        assert(lower(wanted_name).len() == wanted_name.len());
    }
    if before.len() == 0 {
        assert(s =~= line + after);
        assert(!line.contains('\r')) by {
            if line.contains('\r') {
                let j = choose|j: int| 0 <= j < line.len() && line[j] == '\r';
                if j < k {
                    assert(name[j] == '\r');
                } else if j > k && j < k + 1 + w.len() {
                    assert(w[j - k - 1] == '\r');
                } else if j > k {
                    assert(value[j - k - 1 - w.len()] == '\r');
                }
            }
        }
        assert(line.take(k) =~= name);
        assert(line.skip(k + 1) =~= w + value);
        lemma_spaced(w, value);
        lemma_first_line(line, after);
    } else {
        let i = lemma_next_line(before, rest);
        law_header_is_found(before.skip(i + 2), name, w, value, after, wanted_name, wanted_value);
    }
}

/// A value that stands nowhere in a head, in no case, is the value of no header.
pub proof fn law_header_is_missing(head: Seq<char>, name: Seq<char>, value: Seq<char>)
    requires
        !contains(lower(head), lower(value)),
    ensures
        !head_has(head, name, value),
    decreases head.len(),
{
    lemma_find_from(head, line_end(), 0);
    match find(head, line_end()) {
        Some(i) => {
            assert(head.take(i) =~= head.subrange(0, i));
            lemma_part_lacks(head, 0, i, lower(value));
            lemma_no_header_line(head.take(i), name, value);
            assert(head.skip(i + 2) =~= head.subrange(i + 2, head.len() as int));
            lemma_part_lacks(head, i + 2, head.len() as int, lower(value));
            law_header_is_missing(head.skip(i + 2), name, value);
        },
        None => {
            lemma_no_header_line(head, name, value);
        },
    }
}

proof fn lemma_no_header_line(line: Seq<char>, name: Seq<char>, value: Seq<char>)
    requires
        !contains(lower(line), lower(value)),
    ensures
        !line_has(line, name, value),
{
    if line_has(line, name, value) {
        let rest = line.skip(name.len() as int + 1);
        let parts = law_trim_parts(rest);
        let t = trim(rest);
        let from = name.len() as int + 1 + parts.0.len() as int;
        let whole = parts.0 + t + parts.1;
        assert(rest.len() == whole.len());
        let u = line.subrange(from, from + t.len());
        assert forall|k: int| 0 <= k < t.len() implies #[trigger] u[k] == t[k] by {
            assert(rest[parts.0.len() + k] == whole[parts.0.len() + k]);
            assert(rest[parts.0.len() + k] == line[from + k]);
        }
        assert(u =~= t);
        lemma_part_lacks(line, from, from + t.len(), lower(value));
        lemma_find_from(lower(t), lower(value), 0);
        assert(lower(t).subrange(0, lower(value).len() as int) =~= lower(value));
        assert(occurs_at(lower(t), lower(value), 0));
    }
}

/// A head that announces a length is followed by so many bytes; one that announces chunks
/// and no length, by chunks; after any other, three seconds of silence end the response.
pub proof fn law_response_is_framed(
    before: Seq<char>,
    name: Seq<char>,
    w: Seq<char>,
    n: usize,
    value: Seq<char>,
    after: Seq<char>,
    now_ms: u64,
)
    requires
        whole_lines(before),
        spaces(w),
        follows_line(after),
        now_ms + 3000 <= u64::MAX,
    ensures
        lower(name) == "content-length:"@ && !contains(lower(before), "content-length:"@) ==> framing_of(
            before + (name + w + decimal(n as nat) + after),
            now_ms,
        ) == Framing::Length(n),
        lower(name) == "transfer-encoding"@ && lower(value) == "chunked"@ && !contains(
            lower(before + (name + seq![':'] + w + value + after)),
            "content-length:"@,
        ) ==> framing_of(before + (name + seq![':'] + w + value + after), now_ms) == Framing::Chunks,
        !contains(lower(before), "content-length:"@) && !contains(lower(before), "chunked"@) ==> framing_of(
            before,
            now_ms,
        ) == Framing::Silence((now_ms + 3000) as u64),
{
    reveal_strlit("transfer-encoding");
    reveal_strlit("chunked");
    assert(lower("transfer-encoding"@) =~= "transfer-encoding"@);
    assert(lower("chunked"@) =~= "chunked"@);
    if lower(name) == "content-length:"@ && !contains(lower(before), "content-length:"@) {
        law_length_is_read(before, name, w, n as nat, after);
    }
    let head = before + (name + seq![':'] + w + value + after);
    if lower(name) == "transfer-encoding"@ && lower(value) == "chunked"@ && !contains(
        lower(head),
        "content-length:"@,
    ) {
        law_no_length_is_read(head);
        lemma_word(name, "transfer-encoding"@);
        lemma_word(value, "chunked"@);
        law_header_is_found(before, name, w, value, after, "transfer-encoding"@, "chunked"@);
    }
    if !contains(lower(before), "content-length:"@) && !contains(lower(before), "chunked"@) {
        law_no_length_is_read(before);
        law_header_is_missing(before, "transfer-encoding"@, "chunked"@);
    }
}

/// A word whose lower-case letters are visible characters.
proof fn lemma_word(s: Seq<char>, l: Seq<char>)
    requires
        lower(s) == l,
        l.len() > 0,
        forall|i: int| 0 <= i < l.len() ==> '!' <= #[trigger] l[i] <= '~',
    ensures
        s.len() == l.len(),
        tight(s),
        !s.contains('\r'),
{
    assert(lower(s).len() == s.len());
    assert forall|i: int| 0 <= i < s.len() implies '!' <= #[trigger] s[i] <= '~' by {
        assert(l[i] == lower_char(s[i]));
    }
    if s.contains('\r') {
        let k = choose|k: int| 0 <= k < s.len() && s[k] == '\r';
        assert('!' <= s[k]);
    }
}

// ---------------------------------------------------------------------------
// Writing
// ---------------------------------------------------------------------------

/// The sum of what writes took.
pub open spec fn taken(writes: Seq<usize>) -> nat
    decreases writes.len(),
{
    if writes.len() == 0 {
        0
    } else {
        taken(writes.drop_last()) + writes.last() as nat
    }
}

/// An exchange after writes that took so many bytes each.
pub open spec fn after_writes(x: ExchangeView, writes: Seq<usize>) -> (ExchangeView, PoolAction)
    decreases writes.len(),
{
    if writes.len() == 0 {
        (x, PoolAction::Write(x.offset))
    } else {
        after_writes(x, writes.drop_last()).0.wrote(Some(writes.last()))
    }
}

/// Every write goes on where the last one stopped, and the request is flushed exactly when
/// all of it is written.
pub proof fn law_request_is_written(x: ExchangeView, writes: Seq<usize>)
    requires
        x.offset == 0,
        x.phase == Phase::Sending,
        x.request_len > 0,
        forall|i: int| 0 <= i < writes.len() ==> #[trigger] writes[i] > 0,
        taken(writes) <= x.request_len,
        writes.len() > 0 ==> taken(writes.drop_last()) < x.request_len,
    ensures
        after_writes(x, writes).0.data == x.data,
        after_writes(x, writes).0.offset == taken(writes),
        after_writes(x, writes).0.request_len == x.request_len,
        after_writes(x, writes).1 == if taken(writes) < x.request_len {
            PoolAction::Write(taken(writes) as usize)
        } else {
            PoolAction::Flush
        },
        after_writes(x, writes).0.phase == if taken(writes) < x.request_len {
            Phase::Sending
        } else {
            Phase::Flushing
        },
    decreases writes.len(),
{
    if writes.len() > 0 {
        let before = writes.drop_last();
        assert forall|i: int| 0 <= i < before.len() implies #[trigger] before[i] > 0 by {
            assert(writes[i] > 0);
        }
        if before.len() > 0 {
            assert(before.last() > 0);
        }
        law_request_is_written(x, before);
        assert(writes[writes.len() - 1] > 0);
    }
}

/// A write that fails, or that takes nothing, breaks the exchange, and so does a flush
/// that fails. After a flush the response may take thirty seconds.
pub proof fn law_writing_can_fail(x: ExchangeView, now_ms: u64)
    requires
        now_ms + 30_000 <= u64::MAX,
    ensures
        x.wrote(None).1 == PoolAction::Fail(PoolError::WriteFailed),
        x.wrote(Some(0)).1 == PoolAction::Fail(PoolError::ClosedDuringWrite),
        x.flushed(false, now_ms).1 == PoolAction::Fail(PoolError::FlushFailed),
        x.wrote(None).0.phase == Phase::Broken,
        x.wrote(Some(0)).0.phase == Phase::Broken,
        x.flushed(false, now_ms).0.phase == Phase::Broken,
        x.flushed(true, now_ms).1 == PoolAction::Read,
        x.flushed(true, now_ms).0.phase == Phase::Head,
        x.flushed(true, now_ms).0.data == x.data,
        x.flushed(true, now_ms).0.deadline == now_ms + 30_000,
{
}

// ---------------------------------------------------------------------------
// Reading
// ---------------------------------------------------------------------------

/// Pieces one after another.
pub open spec fn all_of(pieces: Seq<Seq<u8>>) -> Seq<u8>
    decreases pieces.len(),
{
    if pieces.len() == 0 {
        Seq::empty()
    } else {
        all_of(pieces.drop_last()) + pieces.last()
    }
}

/// An exchange after pieces of a response have come.
pub open spec fn after_reads(x: ExchangeView, pieces: Seq<Seq<u8>>, now_ms: u64) -> (ExchangeView, PoolAction)
    decreases pieces.len(),
{
    if pieces.len() == 0 {
        (x, PoolAction::Read)
    } else {
        after_reads(x, pieces.drop_last(), now_ms).0.read(Some(pieces.last()), now_ms)
    }
}

/// In a part of a response the end of its head is found once it has come.
proof fn lemma_head_in_part(r: Seq<u8>, p: int, k: int)
    requires
        find(r, blank_line()) == Some(p),
        0 <= k <= r.len(),
    ensures
        0 <= p,
        p + 4 <= r.len(),
        k >= p + 4 ==> find(r.take(k), blank_line()) == Some(p),
        k < p + 4 ==> find(r.take(k), blank_line()) is None,
{
    lemma_find_from(r, blank_line(), 0);
    let t = r.take(k);
    lemma_find_from(t, blank_line(), 0);
    if k >= p + 4 {
        assert(t.subrange(p, p + 4) =~= r.subrange(p, p + 4));
        assert(occurs_at(t, blank_line(), p));
    }
    match find(t, blank_line()) {
        Some(q) => {
            assert(t.subrange(q, q + 4) =~= r.subrange(q, q + 4));
            assert(occurs_at(r, blank_line(), q));
        },
        None => {},
    }
}

/// A response is read to its last byte, however it comes in pieces: as long as some of it
/// is missing more is read, with the last of it the exchange is complete, and what was
/// read is the response.
pub proof fn law_response_is_read_in_pieces(
    x: ExchangeView,
    response: Seq<u8>,
    p: int,
    framing: Framing,
    pieces: Seq<Seq<u8>>,
    now_ms: u64,
)
    requires
        x.phase == Phase::Head,
        x.data.len() == 0,
        now_ms <= x.deadline,
        response.len() <= usize::MAX,
        find(response, blank_line()) == Some(p),
        framing == framing_of(head_text(response.take(p)), now_ms),
        !(framing is Silence),
        forall|j: int|
            0 <= j <= response.len() - p - 4 ==> (#[trigger] body_complete(response.skip(p + 4).take(j), framing)
                <==> j == response.len() - p - 4),
        forall|i: int| 0 <= i < pieces.len() ==> (#[trigger] pieces[i]).len() > 0,
        all_of(pieces).len() <= response.len(),
        all_of(pieces) == response.take(all_of(pieces).len() as int),
        pieces.len() > 0 ==> all_of(pieces.drop_last()).len() < response.len(),
    ensures
        after_reads(x, pieces, now_ms).0.data == all_of(pieces),
        after_reads(x, pieces, now_ms).0.deadline == x.deadline,
        all_of(pieces).len() < response.len() ==> {
            &&& after_reads(x, pieces, now_ms).1 == PoolAction::Read
            &&& after_reads(x, pieces, now_ms).0.phase == if all_of(pieces).len() < p + 4 {
                Phase::Head
            } else {
                Phase::Body((p + 4) as usize, framing)
            }
        },
        all_of(pieces).len() == response.len() ==> after_reads(x, pieces, now_ms).1 == PoolAction::Finish,
    decreases pieces.len(),
{
    lemma_head_in_part(response, p, 0);
    if pieces.len() == 0 {
        assert(x.data =~= all_of(pieces));
    } else {
        let before = pieces.drop_last();
        let last = pieces.last();
        let had = all_of(before);
        let now = all_of(pieces);
        let k = now.len() as int;
        assert(last == pieces[pieces.len() - 1]);
        assert(had =~= response.take(had.len() as int)) by {
            assert forall|i: int| 0 <= i < had.len() implies had[i] == response[i] by {
                assert(now[i] == had[i]);
                assert(response.take(k)[i] == response[i]);
            }
        }
        assert forall|i: int| 0 <= i < before.len() implies (#[trigger] before[i]).len() > 0 by {
            assert(pieces[i].len() > 0);
        }
        if before.len() > 0 {
            let l = before.last();
            assert(l == before[before.len() - 1]);
            assert(had == all_of(before.drop_last()) + l);
        }
        law_response_is_read_in_pieces(x, response, p, framing, before, now_ms);
        let y = after_reads(x, before, now_ms).0;
        assert(y.data + last == now);
        lemma_head_in_part(response, p, k);
        if k >= p + 4 {
            assert(now.take(p) =~= response.take(p));
            let j = k - p - 4;
            assert(now.skip(p + 4) =~= response.skip(p + 4).take(j));
            assert(body_complete(response.skip(p + 4).take(j), framing) <==> j == response.len() - p - 4);
        }
    }
}

/// A body of an announced length is complete with its last byte, and a body in chunks with
/// the last byte of its last chunk.
pub proof fn law_bodies_end(body: Seq<u8>, chunks: Seq<Chunk>, j: int)
    requires
        body.len() <= usize::MAX,
        forall|i: int| 0 <= i < chunks.len() ==> (#[trigger] chunks[i]).wf(),
    ensures
        0 <= j <= body.len() ==> (body_complete(body.take(j), Framing::Length(body.len() as usize)) <==> j
            == body.len()),
        0 <= j <= in_chunks(chunks).len() ==> (body_complete(in_chunks(chunks).take(j), Framing::Chunks) <==> j
            == in_chunks(chunks).len()),
{
    if 0 <= j <= in_chunks(chunks).len() {
        law_chunks_are_complete(chunks, j);
    }
}

/// Before the head is there, a failure, a closed connection and the end of the time break
/// the exchange; in the body they end the response with what has come.
pub proof fn law_response_can_be_cut(x: ExchangeView, b: Seq<u8>, now_ms: u64)
    requires
        b.len() > 0,
        now_ms > x.deadline,
    ensures
        x.phase == Phase::Head ==> {
            &&& x.read(None, now_ms).1 == PoolAction::Fail(PoolError::ReadFailed)
            &&& x.read(Some(Seq::empty()), now_ms).1 == PoolAction::Fail(PoolError::ClosedBeforeHeaders)
            &&& !contains(x.data + b, seq![13u8, 10u8, 13u8, 10u8]) ==> x.read(Some(b), now_ms).1
                == PoolAction::Fail(PoolError::HeaderTimeout)
        },
        x.phase matches Phase::Body(_, framing) ==> {
            &&& x.read(None, now_ms).1 == PoolAction::Finish
            &&& x.read(Some(Seq::empty()), now_ms).1 == PoolAction::Finish
            &&& !(framing is Silence) ==> x.read(Some(b), now_ms).1 == PoolAction::Finish
            &&& framing matches Framing::Silence(t) ==> (x.read(Some(b), now_ms).1 == PoolAction::Finish <==> now_ms
                > t)
        },
{
    assert(blank_line() =~= seq![13u8, 10u8, 13u8, 10u8]);
}

// ---------------------------------------------------------------------------
// A connection of its own
// ---------------------------------------------------------------------------

/// A request after writes that took so many bytes each.
pub open spec fn post_writes(x: PostView, writes: Seq<usize>) -> (PostView, PostAction)
    decreases writes.len(),
{
    if writes.len() == 0 {
        x.opened(true)
    } else {
        post_writes(x, writes.drop_last()).0.wrote(Some(writes.last()))
    }
}

/// After the handshake every write goes on where the last one stopped, and the request is
/// flushed exactly when all of it is written.
pub proof fn law_post_is_written(x: PostView, writes: Seq<usize>)
    requires
        forall|i: int| 0 <= i < writes.len() ==> #[trigger] writes[i] > 0,
        taken(writes) <= x.request_len,
    ensures
        post_writes(x, writes).0.data == x.data,
        post_writes(x, writes).0.offset == taken(writes),
        post_writes(x, writes).0.request_len == x.request_len,
        post_writes(x, writes).1 == if taken(writes) < x.request_len {
            PostAction::Write(taken(writes) as usize)
        } else {
            PostAction::Flush
        },
    decreases writes.len(),
{
    if writes.len() > 0 {
        let before = writes.drop_last();
        assert forall|i: int| 0 <= i < before.len() implies #[trigger] before[i] > 0 by {
            assert(writes[i] > 0);
        }
        law_post_is_written(x, before);
        assert(writes[writes.len() - 1] > 0);
    }
}

/// A request after pieces of a response have come.
pub open spec fn post_reads(x: PostView, pieces: Seq<Seq<u8>>, now_ms: u64) -> (PostView, PostAction)
    decreases pieces.len(),
{
    if pieces.len() == 0 {
        (x, PostAction::Read)
    } else {
        post_reads(x, pieces.drop_last(), now_ms).0.read(Some(pieces.last()), now_ms)
    }
}

/// What has come when the peer closes the connection is the response, however it came in
/// pieces; so it is where the connection breaks behind some of it.
pub proof fn law_post_is_answered_by_what_came(x: PostView, pieces: Seq<Seq<u8>>, now_ms: u64)
    requires
        x.data.len() == 0,
        now_ms <= x.deadline,
        forall|i: int| 0 <= i < pieces.len() ==> (#[trigger] pieces[i]).len() > 0,
    ensures
        post_reads(x, pieces, now_ms).0.data == all_of(pieces),
        post_reads(x, pieces, now_ms).0.deadline == x.deadline,
        post_reads(x, pieces, now_ms).1 == PostAction::Read,
        ({
            let closed = post_reads(x, pieces, now_ms).0.read(Some(Seq::empty()), now_ms);
            &&& closed.1 == PostAction::Finish
            &&& closed.0.data == all_of(pieces)
        }),
        ({
            let broken = post_reads(x, pieces, now_ms).0.read(None, now_ms);
            &&& broken.0.data == all_of(pieces)
            &&& broken.1 == if pieces.len() == 0 {
                PostAction::Fail(PostError::ReadFailed)
            } else {
                PostAction::Finish
            }
        }),
    decreases pieces.len(),
{
    if pieces.len() == 0 {
        assert(x.data =~= all_of(pieces));
    } else {
        let before = pieces.drop_last();
        assert forall|i: int| 0 <= i < before.len() implies (#[trigger] before[i]).len() > 0 by {
            assert(pieces[i].len() > 0);
        }
        law_post_is_answered_by_what_came(x, before, now_ms);
        assert(pieces[pieces.len() - 1].len() > 0);
    }
}

/// A handshake, a write or a flush that fails breaks the request. After a flush the
/// response may take thirty seconds; what has come by then is the response.
pub proof fn law_post_can_fail(x: PostView, b: Seq<u8>, now_ms: u64)
    requires
        now_ms + 30_000 <= u64::MAX,
        b.len() > 0,
    ensures
        x.opened(false).1 == PostAction::Fail(PostError::HandshakeFailed),
        x.wrote(None).1 == PostAction::Fail(PostError::WriteFailed),
        x.wrote(Some(0)).1 == PostAction::Fail(PostError::ClosedDuringWrite),
        x.flushed(false, now_ms).1 == PostAction::Fail(PostError::FlushFailed),
        x.flushed(true, now_ms).1 == PostAction::Read,
        x.flushed(true, now_ms).0.phase == PostPhase::Reading,
        x.flushed(true, now_ms).0.data == x.data,
        x.flushed(true, now_ms).0.deadline == now_ms + 30_000,
        now_ms > x.deadline ==> x.read(Some(b), now_ms).1 == PostAction::Finish && x.read(Some(b), now_ms).0.data
            == x.data + b,
{
}

} // verus!
