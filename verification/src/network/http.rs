//! HTTP: addresses, requests, responses and the loops that move their bytes.

use vstd::prelude::*;
use vstd::utf8::*;

use crate::text::{
    chars_of, contains, decimal, decimal_text, find, find_bytes, find_chars, is_space, lemma_find_from, lower, lowered,
    number, read_number, skip_spaces, space, starts_with, text, text_range, trim, trim_start, utf8_text,
};
use crate::views::views;

verus! {

// ---------------------------------------------------------------------------
// Addresses
// ---------------------------------------------------------------------------

/// The parts of an address.
pub struct Url {
    pub hostname: String,
    pub port: u16,
    pub path: String,
    pub is_https: bool,
}

/// What an address holds.
pub struct UrlView {
    pub hostname: Seq<char>,
    pub port: u16,
    pub path: Seq<char>,
    pub is_https: bool,
}

impl View for Url {
    type V = UrlView;

    open spec fn view(&self) -> UrlView {
        UrlView { hostname: self.hostname@, port: self.port, path: self.path@, is_https: self.is_https }
    }
}

/// The parts of what follows the scheme: the host up to the first slash, with a port
/// behind a colon, and the path from the slash on.
pub open spec fn url_rest(rest: Seq<char>, default_port: u16, is_https: bool) -> Result<UrlView, Seq<char>> {
    let (host_and_port, path) = match find(rest, seq!['/']) {
        Some(i) => (rest.take(i), rest.skip(i)),
        None => (rest, "/"@),
    };
    match find(host_and_port, seq![':']) {
        Some(i) => match number(host_and_port.skip(i + 1), false, 65535) {
            Some(port) => Ok(UrlView { hostname: host_and_port.take(i), port: port as u16, path, is_https }),
            None => Err("Invalid port in URL"@),
        },
        None => Ok(UrlView { hostname: host_and_port, port: default_port, path, is_https }),
    }
}

/// The parts of an address.
pub open spec fn url_parts(url: Seq<char>) -> Result<UrlView, Seq<char>> {
    if starts_with(url, "https://"@) {
        url_rest(url.skip(8), 443, true)
    } else if starts_with(url, "http://"@) {
        url_rest(url.skip(7), 80, false)
    } else {
        Err("URL must start with http:// or https://"@)
    }
}

/// Split an address into its parts.
pub fn parse_url(url: &str) -> (r: Result<Url, &'static str>)
    ensures
        match r {
            Ok(u) => url_parts(url@) == Ok::<UrlView, Seq<char>>(u@),
            Err(e) => url_parts(url@) == Err::<UrlView, Seq<char>>(e@),
        },
{
    proof {
        reveal_strlit("https://");
        reveal_strlit("http://");
    }
    let cs = chars_of(url);
    let secure = chars_of("https://");
    let plain = chars_of("http://");
    if crate::text::chars_at(cs.as_slice(), secure.as_slice(), 0) {
        parse_rest(cs.as_slice(), 8, 443, true)
    } else if crate::text::chars_at(cs.as_slice(), plain.as_slice(), 0) {
        parse_rest(cs.as_slice(), 7, 80, false)
    } else {
        Err("URL must start with http:// or https://")
    }
}

fn parse_rest(cs: &[char], from: usize, default_port: u16, is_https: bool) -> (r: Result<Url, &'static str>)
    requires
        from <= cs@.len(),
    ensures
        match r {
            Ok(u) => url_rest(cs@.skip(from as int), default_port, is_https) == Ok::<UrlView, Seq<char>>(u@),
            Err(e) => url_rest(cs@.skip(from as int), default_port, is_https) == Err::<UrlView, Seq<char>>(e@),
        },
{
    let ghost rest = cs@.skip(from as int);
    let n = cs.len();
    let slash: [char; 1] = ['/'];
    let colon: [char; 1] = [':'];
    assert(slash@ =~= seq!['/']);
    assert(colon@ =~= seq![':']);
    let part = vstd::slice::slice_subrange(cs, from, n);
    assert(part@ =~= rest);
    let found = find_chars(part, &slash, 0);
    proof {
        lemma_find_from(rest, seq!['/'], 0);
    }
    let (len, path) = match found {
        Some(i) => {
            let p = text_range(part, i, part.len());
            assert(part@.subrange(i as int, part@.len() as int) =~= rest.skip(i as int));
            (i, p)
        },
        None => (part.len(), text("/")),
    };
    let ghost hp = match find(rest, seq!['/']) {
        Some(i) => rest.take(i),
        None => rest,
    };
    let host = vstd::slice::slice_subrange(part, 0, len);
    assert(host@ =~= hp);
    proof {
        lemma_find_from(hp, seq![':'], 0);
    }
    match find_chars(host, &colon, 0) {
        Some(i) => {
            let hlen = host.len();
            match read_number(host, i + 1, hlen, false, 65535) {
                Some(port) => {
                    let hostname = text_range(host, 0, i);
                    assert(host@.subrange(0, i as int) =~= hp.take(i as int));
                    assert(host@.subrange(i + 1, host@.len() as int) =~= hp.skip(i + 1));
                    Ok(Url { hostname, port: port as u16, path, is_https })
                },
                None => {
                    assert(host@.subrange(i + 1, host@.len() as int) =~= hp.skip(i + 1));
                    Err("Invalid port in URL")
                },
            }
        },
        None => {
            let hostname = text_range(host, 0, host.len());
            assert(host@.subrange(0, host@.len() as int) =~= hp);
            Ok(Url { hostname, port: default_port, path, is_https })
        },
    }
}

// ---------------------------------------------------------------------------
// Requests
// ---------------------------------------------------------------------------

/// The lines of additional headers.
pub open spec fn header_lines(headers: Seq<(Seq<char>, Seq<char>)>, n: int) -> Seq<char>
    decreases n,
{
    if n <= 0 {
        Seq::empty()
    } else {
        header_lines(headers, n - 1) + (headers[n - 1].0 + ": "@ + headers[n - 1].1 + "\r\n"@)
    }
}

/// The head of a request. A secure connection is kept for the next request.
pub open spec fn request_head(u: UrlView, headers: Seq<(Seq<char>, Seq<char>)>, body_len: nat) -> Seq<char> {
    "POST "@ + u.path + " HTTP/1.1\r\nHost: "@ + u.hostname
        + "\r\nContent-Type: application/json\r\nContent-Length: "@ + decimal(body_len) + "\r\n"@ + header_lines(
        headers,
        headers.len() as int,
    ) + if u.is_https {
        "Connection: keep-alive\r\n\r\n"@
    } else {
        "Connection: close\r\n\r\n"@
    }
}

/// What is to be sent, and where.
pub struct PostPlan {
    pub url: Url,
    pub request: Vec<u8>,
}

/// HTTP client.
pub struct HttpClient;

impl HttpClient {
    pub fn new() -> (r: Self) {
        HttpClient
    }

    /// A POST request with a JSON body: where it goes, and its bytes.
    pub fn post_json(&self, url: &str, headers: &[(String, String)], body: &[u8]) -> (r: Result<PostPlan, &'static str>)
        ensures
            match r {
                Ok(p) => {
                    &&& url_parts(url@) == Ok::<UrlView, Seq<char>>(p.url@)
                    &&& p.request@ == encode_utf8(request_head(p.url@, views(headers@), body@.len())) + body@
                },
                Err(e) => url_parts(url@) == Err::<UrlView, Seq<char>>(e@),
            },
    {
        let parts = match parse_url(url) {
            Ok(u) => u,
            Err(e) => {
                return Err(e);
            },
        };
        let mut head = text("POST ");
        head.push_str(parts.path.as_str());
        head.push_str(" HTTP/1.1\r\nHost: ");
        head.push_str(parts.hostname.as_str());
        head.push_str("\r\nContent-Type: application/json\r\nContent-Length: ");
        head.push_str(decimal_text(body.len() as u64).as_str());
        head.push_str("\r\n");
        let lines = Self::headers_text(headers);
        head.push_str(lines.as_str());
        head.push_str(
            if parts.is_https {
                "Connection: keep-alive\r\n\r\n"
            } else {
                "Connection: close\r\n\r\n"
            },
        );
        let mut request = vstd::slice::slice_to_vec(head.as_str().as_bytes());
        let mut tail = vstd::slice::slice_to_vec(body);
        request.append(&mut tail);
        Ok(PostPlan { url: parts, request })
    }

    fn headers_text(headers: &[(String, String)]) -> (r: String)
        ensures
            r@ == header_lines(views(headers@), headers@.len() as int),
    {
        let mut out = String::new();
        let mut i: usize = 0;
        while i < headers.len()
            invariant
                i <= headers@.len(),
                out@ == header_lines(views(headers@), i as int),
            decreases headers@.len() - i,
        {
            let mut line = text(headers[i].0.as_str());
            line.push_str(": ");
            line.push_str(headers[i].1.as_str());
            line.push_str("\r\n");
            out.push_str(line.as_str());
            i += 1;
        }
        out
    }
}

// ---------------------------------------------------------------------------
// Responses
// ---------------------------------------------------------------------------

/// A parsed response.
pub struct HttpResponse {
    pub status_code: u16,
    pub body: Vec<u8>,
}

/// The bytes that end a line.
pub open spec fn crlf() -> Seq<u8> {
    seq![13u8, 10u8]
}

/// The bytes that end a head.
pub open spec fn blank_line() -> Seq<u8> {
    seq![13u8, 10u8, 13u8, 10u8]
}

/// The bytes of the last chunk.
pub open spec fn last_chunk() -> Seq<u8> {
    seq![48u8, 13u8, 10u8, 13u8, 10u8]
}

/// A line without a carriage return at its end.
pub open spec fn strip_cr(s: Seq<char>) -> Seq<char> {
    if s.len() > 0 && s.last() == '\r' {
        s.drop_last()
    } else {
        s
    }
}

/// The first line, where there is one.
pub open spec fn first_line(s: Seq<char>) -> Option<Seq<char>> {
    match find(s, seq!['\n']) {
        Some(i) => Some(strip_cr(s.take(i))),
        None => if s.len() > 0 {
            Some(s)
        } else {
            None
        },
    }
}

/// How many characters stand before the first white space.
pub open spec fn word_len(s: Seq<char>) -> int
    decreases s.len(),
{
    if s.len() > 0 && !is_space(s[0]) {
        1 + word_len(s.skip(1))
    } else {
        0
    }
}

/// The second word of a line.
pub open spec fn second_word(s: Seq<char>) -> Seq<char> {
    let a = trim_start(s);
    let b = trim_start(a.skip(word_len(a)));
    b.take(word_len(b))
}

/// A line says that the body comes in chunks.
pub open spec fn says_chunked(line: Seq<char>) -> bool {
    contains(lower(line), "transfer-encoding"@) && contains(lower(line), "chunked"@)
}

/// One of the lines says that the body comes in chunks.
pub open spec fn chunked_head(s: Seq<char>) -> bool
    decreases s.len(),
{
    match find(s, seq!['\n']) {
        Some(i) => says_chunked(strip_cr(s.take(i))) || (0 <= i < s.len() && chunked_head(s.skip(i + 1))),
        None => s.len() > 0 && says_chunked(s),
    }
}

/// The size that a chunk's size line gives: a hexadecimal number, before an extension.
pub open spec fn chunk_size(line: Seq<u8>) -> Option<nat> {
    if !valid_utf8(line) {
        None
    } else {
        let s = trim(decode_utf8(line));
        let size = match find(s, seq![';']) {
            Some(i) => s.take(i),
            None => s,
        };
        number(trim(size), true, usize::MAX as nat)
    }
}

/// A body put together from its chunks. A chunk that is cut off counts as far as it
/// goes; reading stops at the last chunk, or at what is no size.
pub open spec fn unchunked(b: Seq<u8>) -> Seq<u8>
    decreases b.len(),
{
    match find(b, crlf()) {
        None => Seq::empty(),
        Some(p) => match chunk_size(b.take(p)) {
            None => Seq::empty(),
            Some(n) => if n == 0 || p < 0 {
                Seq::empty()
            } else if p + 2 + n > b.len() {
                b.skip(p + 2)
            } else if p + 2 + n + 2 <= b.len() {
                b.subrange(p + 2, p + 2 + n) + unchunked(b.skip(p + 2 + n + 2))
            } else {
                b.subrange(p + 2, p + 2 + n)
            },
        },
    }
}

/// The status that a head gives: the second word of its first line.
pub open spec fn status_in(head: Seq<char>) -> Result<u16, Seq<char>> {
    match first_line(head) {
        None => Err("Empty HTTP response"@),
        Some(line) => match number(second_word(line), false, 65535) {
            None => Err("Invalid HTTP status code"@),
            Some(status) => Ok(status as u16),
        },
    }
}

/// The body that follows a head, put together where it comes in chunks.
pub open spec fn body_after(head: Seq<char>, rest: Seq<u8>) -> Seq<u8> {
    if chunked_head(head) {
        unchunked(rest)
    } else {
        rest
    }
}

/// A response's status and body. Head and body have to be text, the body once it is put
/// together: a chunk may end within a character.
pub open spec fn response_of(b: Seq<u8>) -> Result<(u16, Seq<u8>), Seq<char>> {
    match find(b, blank_line()) {
        None => if valid_utf8(b) {
            Err("Malformed HTTP response: no header/body boundary"@)
        } else {
            Err("Response is not valid UTF-8"@)
        },
        Some(p) => {
            let head = decode_utf8(b.take(p));
            let body = body_after(head, b.skip(p + 4));
            if !valid_utf8(b.take(p)) || !valid_utf8(body) {
                Err("Response is not valid UTF-8"@)
            } else {
                match status_in(head) {
                    Ok(status) => Ok((status, body)),
                    Err(e) => Err(e),
                }
            }
        },
    }
}

/// Parse a response. A body in chunks is put together.
pub fn parse_http_response(bytes: &[u8]) -> (r: Result<HttpResponse, &'static str>)
    ensures
        match r {
            Ok(resp) => response_of(bytes@) == Ok::<(u16, Seq<u8>), Seq<char>>((resp.status_code, resp.body@)),
            Err(e) => response_of(bytes@) == Err::<(u16, Seq<u8>), Seq<char>>(e@),
        },
{
    let n = bytes.len();
    let mark: [u8; 4] = [13u8, 10u8, 13u8, 10u8];
    assert(mark@ =~= blank_line());
    let p = match find_bytes(bytes, &mark, 0) {
        Some(p) => p,
        None => {
            return if utf8_text(bytes).is_some() {
                Err("Malformed HTTP response: no header/body boundary")
            } else {
                Err("Response is not valid UTF-8")
            };
        },
    };
    proof {
        lemma_find_from(bytes@, blank_line(), 0);
    }
    let head_bytes = vstd::slice::slice_subrange(bytes, 0, p);
    assert(head_bytes@ =~= bytes@.take(p as int));
    let head = match utf8_text(head_bytes) {
        Some(s) => chars_of(s.as_str()),
        None => {
            return Err("Response is not valid UTF-8");
        },
    };
    let rest = vstd::slice::slice_subrange(bytes, p + 4, n);
    assert(rest@ =~= bytes@.skip(p + 4));
    let body = if is_chunked_head(head.as_slice()) {
        decode_chunked(rest)
    } else {
        vstd::slice::slice_to_vec(rest)
    };
    if utf8_text(body.as_slice()).is_none() {
        return Err("Response is not valid UTF-8");
    }
    match status_of(head.as_slice()) {
        Ok(status_code) => Ok(HttpResponse { status_code, body }),
        Err(e) => Err(e),
    }
}

/// The status in a head.
fn status_of(head: &[char]) -> (r: Result<u16, &'static str>)
    ensures
        match r {
            Ok(s) => status_in(head@) == Ok::<u16, Seq<char>>(s),
            Err(e) => status_in(head@) == Err::<u16, Seq<char>>(e@),
        },
{
    let n = head.len();
    let newline: [char; 1] = ['\n'];
    assert(newline@ =~= seq!['\n']);
    proof {
        lemma_find_from(head@, seq!['\n'], 0);
    }
    let end = match find_chars(head, &newline, 0) {
        Some(i) => if i > 0 && head[i - 1] == '\r' {
            assert(head@.take(i as int).last() == '\r');
            assert(head@.take(i as int).drop_last() =~= head@.take(i - 1));
            i - 1
        } else {
            if i > 0 {
                assert(head@.take(i as int).last() == head@[i - 1]);
            }
            i
        },
        None => {
            if n == 0 {
                return Err("Empty HTTP response");
            }
            assert(head@.take(n as int) =~= head@);
            n
        },
    };
    let ghost line = head@.take(end as int);
    assert(first_line(head@) == Some(line));
    assert(head@.subrange(0, end as int) =~= line);
    let a = skip_spaces(head, 0, end);
    let w = skip_word(head, a, end);
    let ghost ra = head@.subrange(a as int, end as int);
    assert(head@.subrange(w as int, end as int) =~= ra.skip(word_len(ra)));
    let b = skip_spaces(head, w, end);
    let c = skip_word(head, b, end);
    let ghost rb = head@.subrange(b as int, end as int);
    assert(head@.subrange(b as int, c as int) =~= rb.take(word_len(rb)));
    match read_number(head, b, c, false, 65535) {
        Some(v) => Ok(v as u16),
        None => Err("Invalid HTTP status code"),
    }
}

/// The end of the word that begins at `from`.
fn skip_word(cs: &[char], from: usize, to: usize) -> (r: usize)
    requires
        from <= to <= cs@.len(),
    ensures
        from <= r <= to,
        r == from + word_len(cs@.subrange(from as int, to as int)),
{
    let ghost all = cs@.subrange(from as int, to as int);
    let mut i: usize = from;
    assert(all.skip(0) =~= all);
    while i < to && !space(cs[i])
        invariant
            from <= i <= to <= cs@.len(),
            all == cs@.subrange(from as int, to as int),
            word_len(all) == (i - from) + word_len(all.skip(i - from)),
        decreases to - i,
    {
        assert(all.skip(i - from).skip(1) =~= all.skip(i + 1 - from));
        assert(all.skip(i - from)[0] == cs@[i as int]);
        i += 1;
    }
    if i < to {
        assert(all.skip(i - from)[0] == cs@[i as int]);
    }
    i
}

/// Whether a line says that the body comes in chunks.
fn line_says_chunked(line: &[char]) -> (r: bool)
    ensures
        r == says_chunked(line@),
{
    let low = lowered(line);
    let name = chars_of("transfer-encoding");
    let value = chars_of("chunked");
    find_chars(low.as_slice(), name.as_slice(), 0).is_some() && find_chars(
        low.as_slice(),
        value.as_slice(),
        0,
    ).is_some()
}

/// Whether a head says that the body comes in chunks.
fn is_chunked_head(head: &[char]) -> (r: bool)
    ensures
        r == chunked_head(head@),
{
    let n = head.len();
    let newline: [char; 1] = ['\n'];
    assert(newline@ =~= seq!['\n']);
    let mut from: usize = 0;
    assert(head@.skip(0) =~= head@);
    while from <= n
        invariant
            n == head@.len(),
            from <= n,
            newline@ == seq!['\n'],
            chunked_head(head@) == chunked_head(head@.skip(from as int)),
        decreases n - from,
    {
        let ghost rest = head@.skip(from as int);
        let part = vstd::slice::slice_subrange(head, from, n);
        assert(part@ =~= rest);
        proof {
            lemma_find_from(rest, seq!['\n'], 0);
        }
        match find_chars(part, &newline, 0) {
            Some(i) => {
                let end = if i > 0 && part[i - 1] == '\r' {
                    assert(rest.take(i as int).last() == '\r');
                    assert(rest.take(i as int).drop_last() =~= rest.take(i - 1));
                    i - 1
                } else {
                    if i > 0 {
                        assert(rest.take(i as int).last() == rest[i - 1]);
                    }
                    i
                };
                let line = vstd::slice::slice_subrange(part, 0, end);
                assert(line@ =~= strip_cr(rest.take(i as int)));
                if line_says_chunked(line) {
                    return true;
                }
                assert(rest.skip(i + 1) =~= head@.skip(from + i + 1));
                from = from + i + 1;
            },
            None => {
                return part.len() > 0 && line_says_chunked(part);
            },
        }
    }
    false
}

/// The size that a chunk's size line gives.
pub fn read_chunk_size(line: &[u8]) -> (r: Option<usize>)
    ensures
        match r {
            Some(n) => chunk_size(line@) == Some(n as nat),
            None => chunk_size(line@) is None,
        },
{
    let cs = match utf8_text(line) {
        Some(s) => chars_of(crate::text::trimmed(s.as_str()).as_str()),
        None => {
            return None;
        },
    };
    let mark: [char; 1] = [';'];
    assert(mark@ =~= seq![';']);
    proof {
        lemma_find_from(cs@, seq![';'], 0);
    }
    let end = match find_chars(cs.as_slice(), &mark, 0) {
        Some(i) => i,
        None => cs.len(),
    };
    let a = skip_spaces(cs.as_slice(), 0, end);
    let b = crate::text::drop_spaces(cs.as_slice(), a, end);
    proof {
        let size = match find(cs@, seq![';']) {
            Some(i) => cs@.take(i),
            None => cs@,
        };
        assert(cs@.subrange(0, end as int) =~= size);
    }
    match read_number(cs.as_slice(), a, b, true, usize::MAX as u64) {
        Some(v) => Some(v as usize),
        None => None,
    }
}

/// Put a body together from its chunks.
pub fn decode_chunked(body: &[u8]) -> (r: Vec<u8>)
    ensures
        r@ == unchunked(body@),
{
    let n = body.len();
    let mark: [u8; 2] = [13u8, 10u8];
    assert(mark@ =~= crlf());
    let mut out: Vec<u8> = Vec::new();
    let mut from: usize = 0;
    assert(body@.skip(0) =~= body@);
    assert(out@ + unchunked(body@) =~= unchunked(body@));
    while from <= n
        invariant
            n == body@.len(),
            from <= n,
            mark@ == crlf(),
            out@ + unchunked(body@.skip(from as int)) == unchunked(body@),
        decreases n - from,
    {
        let ghost rest = body@.skip(from as int);
        let part = vstd::slice::slice_subrange(body, from, n);
        assert(part@ =~= rest);
        let len = part.len();
        proof {
            lemma_find_from(rest, crlf(), 0);
        }
        let p = match find_bytes(part, &mark, 0) {
            Some(p) => p,
            None => {
                assert(out@ + Seq::<u8>::empty() =~= out@);
                return out;
            },
        };
        let line = vstd::slice::slice_subrange(part, 0, p);
        assert(line@ =~= rest.take(p as int));
        let size = match read_chunk_size(line) {
            Some(s) => s,
            None => {
                assert(out@ + Seq::<u8>::empty() =~= out@);
                return out;
            },
        };
        if size == 0 {
            assert(out@ + Seq::<u8>::empty() =~= out@);
            return out;
        }
        let start = p + 2;
        if size > len - start {
            let mut tail = vstd::slice::slice_to_vec(vstd::slice::slice_subrange(part, start, len));
            assert(tail@ =~= rest.skip(p + 2));
            out.append(&mut tail);
            return out;
        }
        let end = start + size;
        let mut chunk = vstd::slice::slice_to_vec(vstd::slice::slice_subrange(part, start, end));
        let ghost before = out@;
        let ghost piece = chunk@;
        out.append(&mut chunk);
        if len - end < 2 {
            return out;
        }
        from = from + end + 2;
        proof {
            assert(body@.skip(from as int) =~= rest.skip(end + 2));
            assert(out@ + unchunked(rest.skip(end + 2)) =~= before + (piece + unchunked(rest.skip(end + 2))));
        }
    }
    out
}

// ---------------------------------------------------------------------------
// Moving bytes
// ---------------------------------------------------------------------------

/// Milliseconds that sending may take.
pub const SEND_TIMEOUT_MS: u64 = 10_000;

/// Milliseconds that receiving may take.
pub const RECV_TIMEOUT_MS: u64 = 30_000;

/// What one attempt to send gave.
#[derive(Debug, Clone, Copy, PartialEq, Eq, Structural)]
pub enum SendOutcome {
    /// The socket takes nothing now.
    Busy,
    /// So many bytes were taken.
    Sent(usize),
    Failed,
}

/// What a loop does next.
#[derive(Debug, Clone, Copy, PartialEq, Eq, Structural)]
pub enum LoopStep {
    /// Wait, then try again.
    Again,
    /// It is complete.
    Done,
    /// It failed for one of two reasons.
    Failed,
    TimedOut,
}

/// Sends all bytes over a socket.
pub struct TcpSendAll {
    pub total: usize,
    pub sent: usize,
    pub deadline: u64,
}

impl TcpSendAll {
    /// Begin to send so many bytes.
    pub fn new(total: usize, now_ms: u64) -> (r: Self)
        requires
            now_ms + SEND_TIMEOUT_MS <= u64::MAX,
        ensures
            r == (TcpSendAll { total, sent: 0, deadline: (now_ms + SEND_TIMEOUT_MS) as u64 }),
    {
        TcpSendAll { total, sent: 0, deadline: now_ms + SEND_TIMEOUT_MS }
    }

    /// The loop after an attempt. Bytes taken count; a failure ends it, and so does the
    /// deadline.
    pub open spec fn after(self, outcome: SendOutcome, now_ms: u64) -> (TcpSendAll, LoopStep) {
        match outcome {
            SendOutcome::Failed => (self, LoopStep::Failed),
            _ => {
                let n = match outcome {
                    SendOutcome::Sent(n) => n as int,
                    _ => 0,
                };
                let next = TcpSendAll { sent: (self.sent + n) as usize, ..self };
                if now_ms > self.deadline {
                    (next, LoopStep::TimedOut)
                } else if next.sent < self.total {
                    (next, LoopStep::Again)
                } else {
                    (next, LoopStep::Done)
                }
            },
        }
    }

    /// Take in the outcome of an attempt to send the bytes from `sent` on.
    pub fn step(&mut self, outcome: SendOutcome, now_ms: u64) -> (r: LoopStep)
        requires
            old(self).sent <= old(self).total,
            outcome matches SendOutcome::Sent(n) ==> n <= old(self).total - old(self).sent,
        ensures
            (*final(self), r) == old(self).after(outcome, now_ms),
            final(self).sent <= final(self).total,
    {
        match outcome {
            SendOutcome::Failed => {
                return LoopStep::Failed;
            },
            SendOutcome::Sent(n) => {
                self.sent = self.sent + n;
            },
            SendOutcome::Busy => {},
        }
        if now_ms > self.deadline {
            LoopStep::TimedOut
        } else if self.sent < self.total {
            LoopStep::Again
        } else {
            LoopStep::Done
        }
    }
}

/// The state of a socket, as far as reading to the end depends on it.
#[derive(Debug, Clone, Copy, PartialEq, Eq, Structural)]
pub enum PeerState {
    /// The peer may still send.
    Sending,
    /// The peer has closed its side.
    HalfClosed,
    /// The connection is gone.
    Closed,
}

/// Reads from a socket until the peer closes it.
pub struct TcpReadToEnd {
    pub result: Vec<u8>,
    pub deadline: u64,
}

impl TcpReadToEnd {
    pub fn new(now_ms: u64) -> (r: Self)
        requires
            now_ms + RECV_TIMEOUT_MS <= u64::MAX,
        ensures
            r.result@ == Seq::<u8>::empty(),
            r.deadline == now_ms + RECV_TIMEOUT_MS,
    {
        TcpReadToEnd { result: Vec::new(), deadline: now_ms + RECV_TIMEOUT_MS }
    }

    /// Take in what one look at the socket gave: the bytes that were there, and the
    /// state of the peer. Reading ends when the connection is gone, or when the peer
    /// has closed its side and something has come, or at the deadline, which fails
    /// where nothing has come.
    pub fn step(&mut self, received: &[u8], peer: PeerState, now_ms: u64) -> (r: LoopStep)
        ensures
            final(self).deadline == old(self).deadline,
            final(self).result@ == old(self).result@ + received@,
            r == ({
                let some = final(self).result@.len() > 0;
                if peer == PeerState::Closed || (some && peer == PeerState::HalfClosed) {
                    LoopStep::Done
                } else if now_ms > old(self).deadline {
                    if some {
                        LoopStep::Done
                    } else {
                        LoopStep::TimedOut
                    }
                } else {
                    LoopStep::Again
                }
            }),
    {
        let mut more = vstd::slice::slice_to_vec(received);
        self.result.append(&mut more);
        let some = self.result.len() > 0;
        match peer {
            PeerState::Closed => {
                return LoopStep::Done;
            },
            PeerState::HalfClosed => {
                if some {
                    return LoopStep::Done;
                }
            },
            PeerState::Sending => {},
        }
        if now_ms > self.deadline {
            if some {
                LoopStep::Done
            } else {
                LoopStep::TimedOut
            }
        } else {
            LoopStep::Again
        }
    }
}

} // verus!
