//! The exchange of a request and its response over a kept connection, and which
//! connection is kept.
//!
//! The peer does not close a kept connection, so the response's own framing says where
//! it ends: a length, a last chunk, or, where it has neither, a short silence.

use vstd::prelude::*;
use vstd::utf8::*;

use crate::network::http::{blank_line, chunk_size, crlf, last_chunk, read_chunk_size};
use crate::text::{
    chars_eq, chars_of, drop_spaces, find, find_bytes, find_chars, lemma_find_from, lower, lowered, number,
    read_number, skip_spaces, text, text_eq, trim, utf8_text,
};

verus! {

/// Milliseconds that a response may take.
pub const RESPONSE_TIMEOUT_MS: u64 = 30_000;

/// Milliseconds after which a response without framing counts as complete.
pub const SILENCE_MS: u64 = 3_000;

/// The text that bytes encode; no text where they are not well-formed.
pub open spec fn head_text(bytes: Seq<u8>) -> Seq<char> {
    if valid_utf8(bytes) {
        decode_utf8(bytes)
    } else {
        Seq::empty()
    }
}

/// Two texts are the same but for the case of ASCII letters.
pub open spec fn same_letters(a: Seq<char>, b: Seq<char>) -> bool {
    lower(a) == lower(b)
}

/// The line end between headers.
pub open spec fn line_end() -> Seq<char> {
    seq!['\r', '\n']
}

/// A line gives a content length.
pub open spec fn is_length_line(line: Seq<char>) -> bool {
    line.len() > 15 && same_letters(line.take(15), "content-length:"@)
}

/// The content length in a head: the first line that gives one decides.
pub open spec fn length_in(head: Seq<char>) -> Option<nat>
    decreases head.len(),
{
    match find(head, line_end()) {
        Some(i) => if is_length_line(head.take(i)) {
            number(trim(head.take(i).skip(15)), false, usize::MAX as nat)
        } else if 0 <= i && i + 2 <= head.len() {
            length_in(head.skip(i + 2))
        } else {
            None
        },
        None => if is_length_line(head) {
            number(trim(head.skip(15)), false, usize::MAX as nat)
        } else {
            None
        },
    }
}

/// A line gives the header a value.
pub open spec fn line_has(line: Seq<char>, name: Seq<char>, value: Seq<char>) -> bool {
    &&& line.len() > name.len() + 1
    &&& same_letters(line.take(name.len() as int), name)
    &&& line[name.len() as int] == ':'
    &&& same_letters(trim(line.skip(name.len() as int + 1)), value)
}

/// A head gives the header a value.
pub open spec fn head_has(head: Seq<char>, name: Seq<char>, value: Seq<char>) -> bool
    decreases head.len(),
{
    match find(head, line_end()) {
        Some(i) => line_has(head.take(i), name, value) || (0 <= i && i + 2 <= head.len() && head_has(
            head.skip(i + 2),
            name,
            value,
        )),
        None => line_has(head, name, value),
    }
}

/// A body in chunks has come to its end: behind its chunks stands one without data, and
/// an empty line behind that. Where what follows a chunk is no size line, the bytes of a
/// last chunk tell the end, wherever they stand.
pub open spec fn chunks_complete(b: Seq<u8>) -> bool
    decreases b.len(),
{
    match find(b, crlf()) {
        None => false,
        Some(p) => match chunk_size(b.take(p)) {
            None => find(b, last_chunk()) is Some,
            Some(n) => if n == 0 || p < 0 {
                find(b.skip(p), blank_line()) is Some
            } else {
                p + 2 + n + 2 <= b.len() && chunks_complete(b.skip(p + 2 + n + 2))
            },
        },
    }
}

/// Where the head of a response ends.
pub fn find_header_end(data: &[u8]) -> (r: Option<usize>)
    ensures
        match r {
            Some(p) => find(data@, blank_line()) == Some(p as int) && p + 4 <= data@.len(),
            None => find(data@, blank_line()) is None,
        },
{
    let mark: [u8; 4] = [13u8, 10u8, 13u8, 10u8];
    assert(mark@ =~= blank_line());
    proof {
        lemma_find_from(data@, blank_line(), 0);
    }
    find_bytes(data, &mark, 0)
}

/// Whether the bytes of a last chunk stand somewhere in a body.
pub fn pool_has_final_chunk(body: &[u8]) -> (r: bool)
    ensures
        r == (find(body@, last_chunk()) is Some),
{
    let mark: [u8; 5] = [48u8, 13u8, 10u8, 13u8, 10u8];
    assert(mark@ =~= last_chunk());
    find_bytes(body, &mark, 0).is_some()
}

/// Whether a body in chunks has come to its end.
pub fn pool_body_complete(body: &[u8]) -> (r: bool)
    ensures
        r == chunks_complete(body@),
{
    let n = body.len();
    let mark: [u8; 2] = [13u8, 10u8];
    assert(mark@ =~= crlf());
    let mut from: usize = 0;
    assert(body@.skip(0) =~= body@);
    loop
        invariant
            n == body@.len(),
            from <= n,
            mark@ == crlf(),
            chunks_complete(body@) == chunks_complete(body@.skip(from as int)),
        decreases n - from,
    {
        let ghost rest = body@.skip(from as int);
        let part = vstd::slice::slice_subrange(body, from, n);
        assert(part@ =~= rest);
        let len = part.len();
        proof {
            lemma_find_from(rest, crlf(), 0);
        }
        let p = match find_bytes(part, &mark, 0) {
            Some(p) => p,
            None => {
                return false;
            },
        };
        let line = vstd::slice::slice_subrange(part, 0, p);
        assert(line@ =~= rest.take(p as int));
        let size = match read_chunk_size(line) {
            Some(s) => s,
            None => {
                return pool_has_final_chunk(part);
            },
        };
        if size == 0 {
            let end = vstd::slice::slice_subrange(part, p, len);
            assert(end@ =~= rest.skip(p as int));
            return find_header_end(end).is_some();
        }
        if len - p < 4 || size > len - p - 4 {
            return false;
        }
        assert(rest.skip(p + 2 + size + 2) =~= body@.skip(from + p + 2 + size + 2));
        from = from + p + 2 + size + 2;
    }
}

/// Whether two texts are the same but for the case of ASCII letters.
fn same_but_case(a: &[char], b: &[char]) -> (r: bool)
    ensures
        r == same_letters(a@, b@),
{
    let la = lowered(a);
    let lb = lowered(b);
    chars_eq(la.as_slice(), lb.as_slice())
}

/// The length that a line gives, where it is a line that gives one.
fn length_of_line(line: &[char]) -> (r: Option<Option<usize>>)
    ensures
        match r {
            Some(v) => is_length_line(line@) && (match v {
                Some(n) => number(trim(line@.skip(15)), false, usize::MAX as nat) == Some(n as nat),
                None => number(trim(line@.skip(15)), false, usize::MAX as nat) is None,
            }),
            None => !is_length_line(line@),
        },
{
    let n = line.len();
    if n <= 15 {
        return None;
    }
    let want = chars_of("content-length:");
    let front = vstd::slice::slice_subrange(line, 0, 15);
    assert(front@ =~= line@.take(15));
    if !same_but_case(front, want.as_slice()) {
        return None;
    }
    let a = skip_spaces(line, 15, n);
    let b = drop_spaces(line, a, n);
    assert(line@.subrange(15, n as int) =~= line@.skip(15));
    match read_number(line, a, b, false, usize::MAX as u64) {
        Some(v) => Some(Some(v as usize)),
        None => Some(None),
    }
}

/// The content length in a head.
pub fn pool_parse_content_length(headers: &str) -> (r: Option<usize>)
    ensures
        match r {
            Some(n) => length_in(headers@) == Some(n as nat),
            None => length_in(headers@) is None,
        },
{
    let head = chars_of(headers);
    let n = head.len();
    let mark: [char; 2] = ['\r', '\n'];
    assert(mark@ =~= line_end());
    let mut from: usize = 0;
    assert(head@.skip(0) =~= head@);
    while from <= n
        invariant
            n == head@.len(),
            head@ == headers@,
            from <= n,
            mark@ == line_end(),
            length_in(headers@) == length_in(head@.skip(from as int)),
        decreases n - from,
    {
        let ghost rest = head@.skip(from as int);
        let part = vstd::slice::slice_subrange(head.as_slice(), from, n);
        assert(part@ =~= rest);
        proof {
            lemma_find_from(rest, line_end(), 0);
        }
        match find_chars(part, &mark, 0) {
            Some(i) => {
                let line = vstd::slice::slice_subrange(part, 0, i);
                assert(line@ =~= rest.take(i as int));
                match length_of_line(line) {
                    Some(v) => {
                        return v;
                    },
                    None => {},
                }
                assert(rest.skip(i + 2) =~= head@.skip(from + i + 2));
                from = from + i + 2;
            },
            None => {
                return match length_of_line(part) {
                    Some(v) => v,
                    None => None,
                };
            },
        }
    }
    None
}

/// Whether a line gives the header a value.
fn line_gives(line: &[char], name: &[char], value: &[char]) -> (r: bool)
    ensures
        r == line_has(line@, name@, value@),
{
    let n = line.len();
    let k = name.len();
    if n < 2 || k > n - 2 {
        return false;
    }
    let front = vstd::slice::slice_subrange(line, 0, k);
    assert(front@ =~= line@.take(k as int));
    if !same_but_case(front, name) || line[k] != ':' {
        return false;
    }
    let a = skip_spaces(line, k + 1, n);
    let b = drop_spaces(line, a, n);
    assert(line@.subrange(k + 1, n as int) =~= line@.skip(k + 1));
    let rest = vstd::slice::slice_subrange(line, a, b);
    same_but_case(rest, value)
}

/// Whether a head gives the header a value.
pub fn pool_header_has(headers: &str, name: &str, value: &str) -> (r: bool)
    ensures
        r == head_has(headers@, name@, value@),
{
    let head = chars_of(headers);
    let cn = chars_of(name);
    let cv = chars_of(value);
    let n = head.len();
    let mark: [char; 2] = ['\r', '\n'];
    assert(mark@ =~= line_end());
    let mut from: usize = 0;
    assert(head@.skip(0) =~= head@);
    while from <= n
        invariant
            n == head@.len(),
            head@ == headers@,
            cn@ == name@,
            cv@ == value@,
            from <= n,
            mark@ == line_end(),
            head_has(headers@, name@, value@) == head_has(head@.skip(from as int), name@, value@),
        decreases n - from,
    {
        let ghost rest = head@.skip(from as int);
        let part = vstd::slice::slice_subrange(head.as_slice(), from, n);
        assert(part@ =~= rest);
        proof {
            lemma_find_from(rest, line_end(), 0);
        }
        match find_chars(part, &mark, 0) {
            Some(i) => {
                let line = vstd::slice::slice_subrange(part, 0, i);
                assert(line@ =~= rest.take(i as int));
                if line_gives(line, cn.as_slice(), cv.as_slice()) {
                    return true;
                }
                assert(rest.skip(i + 2) =~= head@.skip(from + i + 2));
                from = from + i + 2;
            },
            None => {
                return line_gives(part, cn.as_slice(), cv.as_slice());
            },
        }
    }
    false
}

// ---------------------------------------------------------------------------
// The exchange
// ---------------------------------------------------------------------------

/// How the end of a response is told.
#[derive(Debug, Clone, Copy, PartialEq, Eq, Structural)]
pub enum Framing {
    /// By the length of its body.
    Length(usize),
    /// By its last chunk.
    Chunks,
    /// By silence until a time.
    Silence(u64),
}

/// Where an exchange stands.
#[derive(Debug, Clone, Copy, PartialEq, Eq, Structural)]
pub enum Phase {
    /// The request is being written.
    Sending,
    /// The request is written and has to be flushed.
    Flushing,
    /// The head of the response is being read.
    Head,
    /// The body of the response is being read; it begins at the given position.
    Body(usize, Framing),
    /// The response is complete.
    Complete,
    /// The exchange failed.
    Broken,
}

/// What an exchange wants done next.
#[derive(Debug, Clone, Copy, PartialEq, Eq, Structural)]
pub enum PoolAction {
    /// Write the request from the given position on.
    Write(usize),
    Flush,
    Read,
    /// The response is complete.
    Finish,
    /// The exchange failed, and the connection is dead.
    Fail(PoolError),
}

/// Why an exchange failed.
#[derive(Debug, Clone, Copy, PartialEq, Eq, Structural)]
pub enum PoolError {
    WriteFailed,
    ClosedDuringWrite,
    FlushFailed,
    ClosedBeforeHeaders,
    ReadFailed,
    HeaderTimeout,
}

impl PoolError {
    pub open spec fn text(self) -> Seq<char> {
        match self {
            PoolError::WriteFailed => "TLS write failed"@,
            PoolError::ClosedDuringWrite => "TLS: closed during write"@,
            PoolError::FlushFailed => "TLS flush failed"@,
            PoolError::ClosedBeforeHeaders => "connection closed before headers"@,
            PoolError::ReadFailed => "TLS read error"@,
            PoolError::HeaderTimeout => "timeout reading headers"@,
        }
    }

    pub fn message(self) -> (r: &'static str)
        ensures
            r@ == self.text(),
    {
        match self {
            PoolError::WriteFailed => "TLS write failed",
            PoolError::ClosedDuringWrite => "TLS: closed during write",
            PoolError::FlushFailed => "TLS flush failed",
            PoolError::ClosedBeforeHeaders => "connection closed before headers",
            PoolError::ReadFailed => "TLS read error",
            PoolError::HeaderTimeout => "timeout reading headers",
        }
    }
}

/// An exchange of a request and a response.
pub struct PoolExchange {
    request_len: usize,
    offset: usize,
    data: Vec<u8>,
    deadline: u64,
    phase: Phase,
}

/// What an exchange holds.
pub struct ExchangeView {
    pub request_len: usize,
    pub offset: usize,
    pub data: Seq<u8>,
    pub deadline: u64,
    pub phase: Phase,
}

impl View for PoolExchange {
    type V = ExchangeView;

    closed spec fn view(&self) -> ExchangeView {
        ExchangeView {
            request_len: self.request_len,
            offset: self.offset,
            data: self.data@,
            deadline: self.deadline,
            phase: self.phase,
        }
    }
}

/// How the end of a response is told by its head.
pub open spec fn framing_of(head: Seq<char>, now_ms: u64) -> Framing {
    match length_in(head) {
        Some(n) => Framing::Length(n as usize),
        None => if head_has(head, "transfer-encoding"@, "chunked"@) {
            Framing::Chunks
        } else {
            Framing::Silence((now_ms + SILENCE_MS) as u64)
        },
    }
}

/// The body that came so far is all of it.
pub open spec fn body_complete(body: Seq<u8>, framing: Framing) -> bool {
    match framing {
        Framing::Length(n) => body.len() >= n,
        Framing::Chunks => chunks_complete(body),
        Framing::Silence(_) => false,
    }
}

impl ExchangeView {
    pub open spec fn wf(self) -> bool {
        &&& self.offset <= self.request_len
        &&& self.phase matches Phase::Body(start, _) ==> start <= self.data.len()
    }

    pub open spec fn broken(self, e: PoolError) -> (ExchangeView, PoolAction) {
        (ExchangeView { phase: Phase::Broken, ..self }, PoolAction::Fail(e))
    }

    /// The exchange after an attempt to write: none where it failed.
    pub open spec fn wrote(self, written: Option<usize>) -> (ExchangeView, PoolAction) {
        match written {
            None => self.broken(PoolError::WriteFailed),
            Some(n) => if n == 0 {
                self.broken(PoolError::ClosedDuringWrite)
            } else {
                let offset = (self.offset + n) as usize;
                if offset < self.request_len {
                    (ExchangeView { offset, ..self }, PoolAction::Write(offset))
                } else {
                    (ExchangeView { offset, phase: Phase::Flushing, ..self }, PoolAction::Flush)
                }
            },
        }
    }

    /// The exchange after the request was flushed; the time for the response begins.
    pub open spec fn flushed(self, ok: bool, now_ms: u64) -> (ExchangeView, PoolAction) {
        if ok {
            (
                ExchangeView { deadline: (now_ms + RESPONSE_TIMEOUT_MS) as u64, phase: Phase::Head, ..self },
                PoolAction::Read,
            )
        } else {
            self.broken(PoolError::FlushFailed)
        }
    }

    pub open spec fn complete(self) -> (ExchangeView, PoolAction) {
        (ExchangeView { phase: Phase::Complete, ..self }, PoolAction::Finish)
    }

    /// The exchange with a body under way: it may be complete already.
    pub open spec fn in_body(self, start: usize, framing: Framing) -> (ExchangeView, PoolAction) {
        if body_complete(self.data.skip(start as int), framing) {
            self.complete()
        } else {
            (ExchangeView { phase: Phase::Body(start, framing), ..self }, PoolAction::Read)
        }
    }

    /// The exchange after a read: none where it failed, no bytes where the peer closed
    /// the connection. Before the head is complete both break it, and so does the
    /// deadline; in the body all three end the response with what has come.
    pub open spec fn read(self, bytes: Option<Seq<u8>>, now_ms: u64) -> (ExchangeView, PoolAction) {
        match self.phase {
            Phase::Body(start, framing) => match bytes {
                None => self.complete(),
                Some(b) => if b.len() == 0 {
                    self.complete()
                } else {
                    let more = ExchangeView { data: self.data + b, ..self };
                    let limit = match framing {
                        Framing::Silence(t) => t,
                        _ => self.deadline,
                    };
                    if now_ms > limit {
                        more.complete()
                    } else {
                        more.in_body(start, framing)
                    }
                },
            },
            _ => match bytes {
                None => self.broken(PoolError::ReadFailed),
                Some(b) => if b.len() == 0 {
                    self.broken(PoolError::ClosedBeforeHeaders)
                } else {
                    let more = ExchangeView { data: self.data + b, ..self };
                    match find(more.data, blank_line()) {
                        Some(p) => more.in_body(
                            (p + 4) as usize,
                            framing_of(head_text(more.data.take(p)), now_ms),
                        ),
                        None => if now_ms > self.deadline {
                            more.broken(PoolError::HeaderTimeout)
                        } else {
                            (more, PoolAction::Read)
                        },
                    }
                },
            },
        }
    }
}

impl PoolExchange {
    /// Begin an exchange for a request of so many bytes.
    pub fn start(request_len: usize) -> (r: (Self, PoolAction))
        ensures
            r.0@ == (ExchangeView {
                request_len,
                offset: 0,
                data: Seq::empty(),
                deadline: 0,
                phase: if request_len > 0 {
                    Phase::Sending
                } else {
                    Phase::Flushing
                },
            }),
            r.1 == if request_len > 0 {
                PoolAction::Write(0)
            } else {
                PoolAction::Flush
            },
            r.0@.wf(),
    {
        if request_len > 0 {
            (
                PoolExchange { request_len, offset: 0, data: Vec::new(), deadline: 0, phase: Phase::Sending },
                PoolAction::Write(0),
            )
        } else {
            (
                PoolExchange { request_len, offset: 0, data: Vec::new(), deadline: 0, phase: Phase::Flushing },
                PoolAction::Flush,
            )
        }
    }

    /// An attempt to write was made: how many bytes were taken, or none where it failed.
    pub fn wrote(&mut self, written: Option<usize>) -> (r: PoolAction)
        requires
            old(self)@.wf(),
            old(self)@.phase == Phase::Sending,
            written matches Some(n) ==> n <= old(self)@.request_len - old(self)@.offset,
        ensures
            (final(self)@, r) == old(self)@.wrote(written),
            final(self)@.wf(),
    {
        match written {
            None => {
                self.phase = Phase::Broken;
                PoolAction::Fail(PoolError::WriteFailed)
            },
            Some(n) => {
                if n == 0 {
                    self.phase = Phase::Broken;
                    return PoolAction::Fail(PoolError::ClosedDuringWrite);
                }
                self.offset = self.offset + n;
                if self.offset < self.request_len {
                    PoolAction::Write(self.offset)
                } else {
                    self.phase = Phase::Flushing;
                    PoolAction::Flush
                }
            },
        }
    }

    /// The request was flushed, or could not be.
    pub fn flushed(&mut self, ok: bool, now_ms: u64) -> (r: PoolAction)
        requires
            old(self)@.wf(),
            old(self)@.phase == Phase::Flushing,
            now_ms + RESPONSE_TIMEOUT_MS <= u64::MAX,
        ensures
            (final(self)@, r) == old(self)@.flushed(ok, now_ms),
            final(self)@.wf(),
    {
        if ok {
            self.deadline = now_ms + RESPONSE_TIMEOUT_MS;
            self.phase = Phase::Head;
            PoolAction::Read
        } else {
            self.phase = Phase::Broken;
            PoolAction::Fail(PoolError::FlushFailed)
        }
    }

    /// A read was made: the bytes that came, or none where it failed.
    pub fn read(&mut self, bytes: Option<&[u8]>, now_ms: u64) -> (r: PoolAction)
        requires
            old(self)@.wf(),
            old(self)@.phase == Phase::Head || old(self)@.phase is Body,
            now_ms + SILENCE_MS <= u64::MAX,
        ensures
            (final(self)@, r) == old(self)@.read(
                match bytes {
                    Some(b) => Some(b@),
                    None => None,
                },
                now_ms,
            ),
            final(self)@.wf(),
    {
        let b = match bytes {
            Some(b) => b,
            None => {
                return self.cut(PoolError::ReadFailed);
            },
        };
        if b.len() == 0 {
            return self.cut(PoolError::ClosedBeforeHeaders);
        }
        let mut more = vstd::slice::slice_to_vec(b);
        self.data.append(&mut more);
        match self.phase {
            Phase::Body(start, framing) => {
                let limit = match framing {
                    Framing::Silence(t) => t,
                    _ => self.deadline,
                };
                if now_ms > limit {
                    self.phase = Phase::Complete;
                    PoolAction::Finish
                } else {
                    self.enter_body(start, framing)
                }
            },
            _ => {
                match find_header_end(self.data.as_slice()) {
                    Some(p) => {
                        let framing = self.framing(p, now_ms);
                        let total = self.data.len();
                        assert(p + 4 <= total);
                        self.enter_body(p + 4, framing)
                    },
                    None => {
                        if now_ms > self.deadline {
                            self.phase = Phase::Broken;
                            PoolAction::Fail(PoolError::HeaderTimeout)
                        } else {
                            PoolAction::Read
                        }
                    },
                }
            },
        }
    }

    /// No more bytes come: in the body that completes the response, else it breaks the
    /// exchange.
    fn cut(&mut self, e: PoolError) -> (r: PoolAction)
        ensures
            (final(self)@, r) == (if old(self)@.phase is Body {
                old(self)@.complete()
            } else {
                old(self)@.broken(e)
            }),
            final(self)@.offset == old(self)@.offset,
            final(self)@.request_len == old(self)@.request_len,
    {
        match self.phase {
            Phase::Body(_, _) => {
                self.phase = Phase::Complete;
                PoolAction::Finish
            },
            _ => {
                self.phase = Phase::Broken;
                PoolAction::Fail(e)
            },
        }
    }

    /// How the end of the response is told by its head, which ends at `p`.
    fn framing(&self, p: usize, now_ms: u64) -> (r: Framing)
        requires
            p <= self@.data.len(),
            now_ms + SILENCE_MS <= u64::MAX,
        ensures
            r == framing_of(head_text(self@.data.take(p as int)), now_ms),
    {
        let front = vstd::slice::slice_subrange(self.data.as_slice(), 0, p);
        assert(front@ =~= self@.data.take(p as int));
        let head = match utf8_text(front) {
            Some(s) => s,
            None => String::new(),
        };
        match pool_parse_content_length(head.as_str()) {
            Some(n) => Framing::Length(n),
            None => if pool_header_has(head.as_str(), "transfer-encoding", "chunked") {
                Framing::Chunks
            } else {
                Framing::Silence(now_ms + SILENCE_MS)
            },
        }
    }

    /// Go on with a body that begins at `start`.
    fn enter_body(&mut self, start: usize, framing: Framing) -> (r: PoolAction)
        requires
            old(self)@.wf(),
            start <= old(self)@.data.len(),
        ensures
            (final(self)@, r) == old(self)@.in_body(start, framing),
            final(self)@.wf(),
    {
        let n = self.data.len();
        let done = match framing {
            Framing::Length(k) => n - start >= k,
            Framing::Chunks => {
                let body = vstd::slice::slice_subrange(self.data.as_slice(), start, n);
                assert(body@ =~= self@.data.skip(start as int));
                pool_body_complete(body)
            },
            Framing::Silence(_) => false,
        };
        if done {
            self.phase = Phase::Complete;
            PoolAction::Finish
        } else {
            self.phase = Phase::Body(start, framing);
            PoolAction::Read
        }
    }

    /// The bytes of the response.
    pub fn data(&self) -> (r: &Vec<u8>)
        ensures
            r@ == self@.data,
    {
        &self.data
    }
}

/// A response whose head gives a length is complete exactly when so many bytes of body
/// have come, unless time or the connection runs out before.
pub proof fn law_length_ends_response(x: ExchangeView, b: Seq<u8>, start: usize, n: usize, now_ms: u64)
    requires
        x.phase == Phase::Body(start, Framing::Length(n)),
        b.len() > 0,
        now_ms <= x.deadline,
        start <= x.data.len(),
    ensures
        x.read(Some(b), now_ms).1 == PoolAction::Finish <==> x.data.len() + b.len() - start >= n,
        x.read(Some(b), now_ms).1 == PoolAction::Read <==> x.data.len() + b.len() - start < n,
{
    assert((x.data + b).skip(start as int).len() == x.data.len() + b.len() - start);
}

/// No byte that came is lost: a read only adds to what came before.
pub proof fn law_read_keeps_data(x: ExchangeView, b: Seq<u8>, now_ms: u64)
    ensures
        x.read(Some(b), now_ms).0.data == x.data + b,
        x.read(None, now_ms).0.data == x.data,
{
    if b.len() == 0 {
        assert(x.data + b =~= x.data);
    }
}

// ---------------------------------------------------------------------------
// The kept connection
// ---------------------------------------------------------------------------

/// Which host the kept connection belongs to.
pub struct PoolCache {
    alive: bool,
    hostname: String,
}

/// What the cache holds.
pub struct CacheView {
    pub alive: bool,
    pub hostname: Seq<char>,
}

impl View for PoolCache {
    type V = CacheView;

    closed spec fn view(&self) -> CacheView {
        CacheView { alive: self.alive, hostname: self.hostname@ }
    }
}

impl CacheView {
    /// No connection can serve anything.
    pub open spec fn empty(self) -> bool {
        !self.alive || self.hostname.len() == 0
    }

    /// The kept connection can serve a host.
    pub open spec fn serves(self, hostname: Seq<char>) -> bool {
        !self.empty() && self.hostname == hostname
    }

    /// The cache when the connection of a host is kept.
    pub open spec fn of(hostname: Seq<char>) -> CacheView {
        CacheView { alive: true, hostname }
    }
}

impl PoolCache {
    /// No connection is kept.
    pub fn new() -> (r: Self)
        ensures
            r@ == (CacheView { alive: false, hostname: Seq::empty() }),
    {
        PoolCache { alive: false, hostname: String::new() }
    }

    /// Whether the kept connection can serve a host.
    pub fn check(&self, hostname: &str) -> (r: Result<(), &'static str>)
        ensures
            match r {
                Ok(_) => self@.serves(hostname@),
                Err(e) => !self@.serves(hostname@) && e@ == if self@.empty() {
                    "no cached connection"@
                } else {
                    "hostname mismatch"@
                },
            },
    {
        if !self.alive || self.hostname.as_str().is_empty() {
            Err("no cached connection")
        } else if text_eq(self.hostname.as_str(), hostname) {
            Ok(())
        } else {
            Err("hostname mismatch")
        }
    }

    /// Keep the connection of a host.
    pub fn keep(&mut self, hostname: &str)
        ensures
            final(self)@ == CacheView::of(hostname@),
    {
        self.hostname = text(hostname);
        self.alive = true;
    }

    /// Drop the kept connection.
    pub fn forget(&mut self)
        ensures
            final(self)@ == (CacheView { alive: false, hostname: Seq::empty() }),
    {
        self.hostname = String::new();
        self.alive = false;
    }
}

/// The connection that was kept for a host serves that host, and no other.
pub proof fn law_kept_host_matches(hostname: Seq<char>, other: Seq<char>)
    requires
        hostname.len() > 0,
    ensures
        CacheView::of(hostname).serves(other) <==> other == hostname,
{
}

} // verus!
