//! What holds of addresses, requests and responses as a whole.

use vstd::prelude::*;
use vstd::utf8::*;

use crate::inference::api::{ApiProvider, ApiView};
use crate::network::http::{
    blank_line, chunked_head, first_line, header_lines, request_head, response_of, says_chunked, second_word, status_in,
    strip_cr, url_parts, url_rest, word_len, LoopStep, SendOutcome, TcpSendAll, UrlView,
};
use crate::text::{
    contains, decimal, find, index_of, is_space, lemma_find_from, lower, number, occurs_at, starts_with, trim_start,
};
use crate::text_laws::{
    law_decimal_digits, law_decimal_is_read, law_first_position, law_found_divides, law_inserted_is_found,
    law_no_position, law_prefix, law_tight_stays,
};

verus! {

// ---------------------------------------------------------------------------
// Addresses
// ---------------------------------------------------------------------------

/// The beginning of an address.
pub open spec fn scheme(secure: bool) -> Seq<char> {
    if secure {
        "https://"@
    } else {
        "http://"@
    }
}

/// A path: nothing, or what begins with a slash.
pub open spec fn is_path(path: Seq<char>) -> bool {
    path.len() > 0 ==> path[0] == '/'
}

proof fn lemma_rest(host: Seq<char>, path: Seq<char>, port: u16, secure: bool)
    requires
        !host.contains('/'),
        is_path(path),
    ensures
        url_rest(host + path, port, secure) == ({
            let p = if path.len() == 0 {
                "/"@
            } else {
                path
            };
            match find(host, seq![':']) {
                Some(i) => match number(host.skip(i + 1), false, 65535) {
                    Some(port) => Ok::<UrlView, Seq<char>>(
                        UrlView { hostname: host.take(i), port: port as u16, path: p, is_https: secure },
                    ),
                    None => Err("Invalid port in URL"@),
                },
                None => Ok(UrlView { hostname: host, port, path: p, is_https: secure }),
            }
        }),
{
    let rest = host + path;
    if path.len() == 0 {
        assert(rest =~= host);
        law_no_position(rest, '/');
    } else {
        let tail = path.skip(1);
        law_first_position(host, '/', tail);
        assert(host.push('/') + tail =~= rest);
        assert(rest.skip(host.len() as int) =~= path);
    }
}

proof fn lemma_scheme(rest: Seq<char>, secure: bool)
    ensures
        url_parts(scheme(secure) + rest) == url_rest(
            rest,
            if secure {
                443
            } else {
                80
            },
            secure,
        ),
{
    reveal_strlit("https://");
    reveal_strlit("http://");
    let url = scheme(secure) + rest;
    law_prefix(scheme(secure), rest);
    if !secure && starts_with(url, "https://"@) {
        assert(url.subrange(0, 8)[4] == "https://"@[4]);
        assert(url[4] == "http://"@[4]);
    }
}

/// An address is split into the host, the port and the path that it was put together from,
/// and told secure exactly when it begins with "https".
pub proof fn law_address_with_port(secure: bool, host: Seq<char>, port: u16, path: Seq<char>)
    requires
        !host.contains('/'),
        !host.contains(':'),
        is_path(path),
    ensures
        url_parts(scheme(secure) + host + ":"@ + decimal(port as nat) + path) == Ok::<UrlView, Seq<char>>(
            UrlView {
                hostname: host,
                port,
                path: if path.len() == 0 {
                    "/"@
                } else {
                    path
                },
                is_https: secure,
            },
        ),
{
    reveal_strlit(":");
    let n = decimal(port as nat);
    let hp = host.push(':') + n;
    assert(scheme(secure) + host + ":"@ + n + path =~= scheme(secure) + (hp + path));
    lemma_scheme(hp + path, secure);
    law_decimal_digits(port as nat);
    if hp.contains('/') {
        let k = choose|k: int| 0 <= k < hp.len() && hp[k] == '/';
        if k < host.len() {
            assert(host[k] == '/');
        } else if k > host.len() {
            assert(hp[k] == n[k - host.len() - 1]);
        }
    }
    lemma_rest(
        hp,
        path,
        if secure {
            443
        } else {
            80
        },
        secure,
    );
    law_first_position(host, ':', n);
    law_decimal_is_read(port as nat, 65535);
}

/// An address without a port goes to port 443 where it is secure, else to port 80.
pub proof fn law_address_without_port(secure: bool, host: Seq<char>, path: Seq<char>)
    requires
        !host.contains('/'),
        !host.contains(':'),
        is_path(path),
    ensures
        url_parts(scheme(secure) + host + path) == Ok::<UrlView, Seq<char>>(
            UrlView {
                hostname: host,
                port: if secure {
                    443
                } else {
                    80
                },
                path: if path.len() == 0 {
                    "/"@
                } else {
                    path
                },
                is_https: secure,
            },
        ),
{
    assert(scheme(secure) + host + path =~= scheme(secure) + (host + path));
    lemma_scheme(host + path, secure);
    lemma_rest(
        host,
        path,
        if secure {
            443
        } else {
            80
        },
        secure,
    );
    law_no_position(host, ':');
}

/// Only addresses with one of the two schemes are taken.
pub proof fn law_other_schemes_are_refused(url: Seq<char>)
    requires
        url_parts(url) is Ok,
    ensures
        starts_with(url, "https://"@) || starts_with(url, "http://"@),
        url_parts(url)->Ok_0.is_https <==> starts_with(url, "https://"@),
{
}

/// The services are reached at their hosts, and at the paths of their interfaces.
#[verifier::rlimit(40)]
pub proof fn law_services_are_reached(v: ApiView)
    requires
        v.provider == ApiProvider::OpenAi || v.provider == ApiProvider::Anthropic,
    ensures
        url_parts(v.url()) is Ok,
        v.provider == ApiProvider::OpenAi ==> url_parts(v.url())->Ok_0.hostname == "api.openai.com"@ && url_parts(
            v.url(),
        )->Ok_0.path == "/v1/chat/completions"@,
        v.provider == ApiProvider::Anthropic ==> url_parts(v.url())->Ok_0.hostname == "api.anthropic.com"@ && url_parts(
            v.url(),
        )->Ok_0.path == "/v1/messages"@,
{
    reveal_strlit("http://");
    if v.provider == ApiProvider::OpenAi {
        reveal_strlit("http://api.openai.com/v1/chat/completions");
        reveal_strlit("api.openai.com");
        reveal_strlit("/v1/chat/completions");
        law_address_without_port(false, "api.openai.com"@, "/v1/chat/completions"@);
        assert(v.url() =~= "http://"@ + "api.openai.com"@ + "/v1/chat/completions"@);
    } else {
        reveal_strlit("http://api.anthropic.com/v1/messages");
        reveal_strlit("api.anthropic.com");
        reveal_strlit("/v1/messages");
        law_address_without_port(false, "api.anthropic.com"@, "/v1/messages"@);
        assert(v.url() =~= "http://"@ + "api.anthropic.com"@ + "/v1/messages"@);
    }
}

// ---------------------------------------------------------------------------
// Requests
// ---------------------------------------------------------------------------

/// A text that ends no line.
pub open spec fn one_line(s: Seq<char>) -> bool {
    !s.contains('\r') && !s.contains('\n')
}

/// Lines, none of them empty: behind a line end never comes another one.
spec fn full_lines(s: Seq<char>) -> bool {
    &&& s.len() > 0
    &&& s[0] != '\r'
    &&& s.last() == '\n'
    &&& forall|i: int| 0 <= i < s.len() - 1 && #[trigger] s[i] == '\n' ==> s[i + 1] != '\r'
}

proof fn lemma_lines_join(a: Seq<char>, b: Seq<char>)
    requires
        full_lines(a),
        full_lines(b),
    ensures
        full_lines(a + b),
{
    let s = a + b;
    assert forall|i: int| 0 <= i < s.len() - 1 && #[trigger] s[i] == '\n' implies s[i + 1] != '\r' by {
        if i < a.len() - 1 {
            assert(a[i] == '\n');
        } else if i >= a.len() {
            assert(b[i - a.len()] == '\n');
        }
    }
}

proof fn lemma_line(s: Seq<char>)
    requires
        one_line(s),
        s.len() > 0,
    ensures
        full_lines(s + "\r\n"@),
{
    reveal_strlit("\r\n");
    let t = s + "\r\n"@;
    assert(t[0] == s[0] && s.contains(s[0]));
    assert forall|i: int| 0 <= i < t.len() - 1 && #[trigger] t[i] == '\n' implies t[i + 1] != '\r' by {
        if i < s.len() {
            assert(s.contains(s[i]));
        }
    }
}

/// The first blank line of a head is its end.
proof fn lemma_blank_ends(s: Seq<char>)
    requires
        full_lines(s),
        s.len() >= 2,
        s[s.len() - 2] == '\r',
    ensures
        find(s + "\r\n"@, "\r\n\r\n"@) == Some(s.len() - 2),
{
    reveal_strlit("\r\n");
    reveal_strlit("\r\n\r\n");
    let t = s + "\r\n"@;
    let mark = "\r\n\r\n"@;
    let n = s.len() - 2;
    lemma_find_from(t, mark, 0);
    assert(t.subrange(n, n + 4) =~= mark);
    assert(occurs_at(t, mark, n));
    let i = find(t, mark)->0;
    if i < n {
        let here = t.subrange(i, i + 4);
        assert(here[1] == '\n' && here[2] == '\r');
        assert(here[1] == s[i + 1] && here[2] == s[i + 2]);
    }
}

/// Headers whose names and values end no line.
pub open spec fn plain_headers(headers: Seq<(Seq<char>, Seq<char>)>) -> bool {
    forall|i: int| 0 <= i < headers.len() ==> one_line((#[trigger] headers[i]).0) && one_line(headers[i].1)
}

proof fn lemma_one_line_join(a: Seq<char>, b: Seq<char>)
    requires
        one_line(a),
        one_line(b),
    ensures
        one_line(a + b),
{
    let s = a + b;
    assert forall|c: char| (c == '\r' || c == '\n') implies !s.contains(c) by {
        if s.contains(c) {
            let k = choose|k: int| 0 <= k < s.len() && s[k] == c;
            if k < a.len() {
                assert(a[k] == c);
            } else {
                assert(b[k - a.len()] == c);
            }
        }
    }
}

proof fn lemma_headers_are_lines(headers: Seq<(Seq<char>, Seq<char>)>, n: int)
    requires
        plain_headers(headers),
        0 < n <= headers.len(),
    ensures
        full_lines(header_lines(headers, n)),
    decreases n,
{
    reveal_strlit(": ");
    let h = headers[n - 1];
    lemma_one_line_join(h.0, ": "@);
    lemma_one_line_join(h.0 + ": "@, h.1);
    lemma_line(h.0 + ": "@ + h.1);
    if n > 1 {
        lemma_headers_are_lines(headers, n - 1);
        lemma_lines_join(header_lines(headers, n - 1), h.0 + ": "@ + h.1 + "\r\n"@);
    } else {
        assert(header_lines(headers, 0) =~= Seq::empty());
        assert(header_lines(headers, 1) =~= h.0 + ": "@ + h.1 + "\r\n"@);
    }
}

/// The lines of a head: those of the request itself, the additional headers, and the one
/// that says what becomes of the connection.
#[verifier::rlimit(40)]
proof fn lemma_head_parts(u: UrlView, headers: Seq<(Seq<char>, Seq<char>)>, n: nat)
    ensures
        request_head(u, headers, n) == ("POST "@ + u.path + " HTTP/1.1"@ + "\r\n"@) + ("Host: "@ + u.hostname + "\r\n"@) + (
        "Content-Type: application/json"@ + "\r\n"@) + ("Content-Length: "@ + decimal(n) + "\r\n"@) + header_lines(
            headers,
            headers.len() as int,
        ) + ((if u.is_https {
            "Connection: keep-alive"@
        } else {
            "Connection: close"@
        }) + "\r\n"@) + "\r\n"@,
{
    reveal_strlit(" HTTP/1.1\r\nHost: ");
    reveal_strlit(" HTTP/1.1");
    reveal_strlit("\r\n");
    reveal_strlit("Host: ");
    reveal_strlit("\r\nContent-Type: application/json\r\nContent-Length: ");
    reveal_strlit("Content-Type: application/json");
    reveal_strlit("Content-Length: ");
    reveal_strlit("Connection: keep-alive\r\n\r\n");
    reveal_strlit("Connection: keep-alive");
    reveal_strlit("Connection: close\r\n\r\n");
    reveal_strlit("Connection: close");
    let last = if u.is_https {
        "Connection: keep-alive"@
    } else {
        "Connection: close"@
    };
    assert(" HTTP/1.1\r\nHost: "@ =~= " HTTP/1.1"@ + "\r\n"@ + "Host: "@);
    assert("\r\nContent-Type: application/json\r\nContent-Length: "@ =~= "\r\n"@ + ("Content-Type: application/json"@
        + "\r\n"@) + "Content-Length: "@);
    assert("Connection: keep-alive\r\n\r\n"@ =~= "Connection: keep-alive"@ + "\r\n"@ + "\r\n"@);
    assert("Connection: close\r\n\r\n"@ =~= "Connection: close"@ + "\r\n"@ + "\r\n"@);
    lemma_head_joined(
        "POST "@ + u.path,
        " HTTP/1.1"@,
        "Host: "@,
        u.hostname,
        "Content-Type: application/json"@,
        "Content-Length: "@,
        decimal(n),
        header_lines(headers, headers.len() as int),
        last,
        "\r\n"@,
    );
}

proof fn lemma_head_joined(
    a: Seq<char>,
    b: Seq<char>,
    c: Seq<char>,
    d: Seq<char>,
    e: Seq<char>,
    f: Seq<char>,
    g: Seq<char>,
    h: Seq<char>,
    l: Seq<char>,
    x: Seq<char>,
)
    ensures
        a + (b + x + c) + d + (x + (e + x) + f) + g + x + h + (l + x + x) == (a + b + x) + (c + d + x) + (e + x) + (f + g
            + x) + h + (l + x) + x,
{
    assert(a + (b + x + c) + d + (x + (e + x) + f) + g + x + h + (l + x + x) =~= (a + b + x) + (c + d + x) + (e + x) + (f
        + g + x) + h + (l + x) + x);
}

/// The head of a request ends with its first blank line: where path, host and headers end
/// no line, the body begins right behind it.
#[verifier::rlimit(40)]
pub proof fn law_request_is_framed(u: UrlView, headers: Seq<(Seq<char>, Seq<char>)>, body_len: nat)
    requires
        one_line(u.path),
        one_line(u.hostname),
        plain_headers(headers),
    ensures
        find(request_head(u, headers, body_len), "\r\n\r\n"@) == Some(request_head(u, headers, body_len).len() - 4),
{
    reveal_strlit("POST ");
    reveal_strlit(" HTTP/1.1");
    reveal_strlit("Host: ");
    reveal_strlit("Content-Type: application/json");
    reveal_strlit("Content-Length: ");
    reveal_strlit("Connection: keep-alive");
    reveal_strlit("Connection: close");
    reveal_strlit("\r\n");
    let n = decimal(body_len);
    law_decimal_digits(body_len);
    assert(one_line(n)) by {
        assert forall|c: char| (c == '\r' || c == '\n') implies !n.contains(c) by {}
    }
    let a = "POST "@ + u.path + " HTTP/1.1"@;
    let b = "Host: "@ + u.hostname;
    let c = "Content-Type: application/json"@;
    let d = "Content-Length: "@ + n;
    let l = if u.is_https {
        "Connection: keep-alive"@
    } else {
        "Connection: close"@
    };
    lemma_one_line_join("POST "@, u.path);
    lemma_one_line_join("POST "@ + u.path, " HTTP/1.1"@);
    lemma_one_line_join("Host: "@, u.hostname);
    lemma_one_line_join("Content-Length: "@, n);
    lemma_line(a);
    lemma_line(b);
    lemma_line(c);
    lemma_line(d);
    lemma_line(l);
    lemma_lines_join(a + "\r\n"@, b + "\r\n"@);
    let two = (a + "\r\n"@) + (b + "\r\n"@);
    lemma_lines_join(two, c + "\r\n"@);
    let three = two + (c + "\r\n"@);
    lemma_lines_join(three, d + "\r\n"@);
    let four = three + (d + "\r\n"@);
    let hs = header_lines(headers, headers.len() as int);
    let five = four + hs;
    if headers.len() > 0 {
        lemma_headers_are_lines(headers, headers.len() as int);
        lemma_lines_join(four, hs);
    } else {
        assert(five =~= four);
    }
    lemma_lines_join(five, l + "\r\n"@);
    let six = five + (l + "\r\n"@);
    lemma_head_parts(u, headers, body_len);
    assert(request_head(u, headers, body_len) == six + "\r\n"@);
    lemma_blank_ends(six);
}

/// Parts of a head, divided anew.
proof fn lemma_head_groups(
    a: Seq<char>,
    b: Seq<char>,
    c: Seq<char>,
    d: Seq<char>,
    h: Seq<char>,
    l: Seq<char>,
    x: Seq<char>,
)
    ensures
        (a + x) + (b + x) + (c + x) + (d + x) + h + (l + x) + x == (a + x) + ((b + x) + (c + x) + (d + x) + h + (l + x)
            + x),
        (a + x) + (b + x) + (c + x) + (d + x) + h + (l + x) + x == a + (x + (b + x)) + ((c + x) + (d + x) + h + (l + x)
            + x),
        (a + x) + (b + x) + (c + x) + (d + x) + h + (l + x) + x == (a + x + b) + (x + (c + x)) + ((d + x) + h + (l + x)
            + x),
{
    let r = (a + x) + (b + x) + (c + x) + (d + x) + h + (l + x) + x;
    assert(r =~= (a + x) + ((b + x) + (c + x) + (d + x) + h + (l + x) + x));
    assert(r =~= a + (x + (b + x)) + ((c + x) + (d + x) + h + (l + x) + x));
    assert(r =~= (a + x + b) + (x + (c + x)) + ((d + x) + h + (l + x) + x));
}

proof fn lemma_tail_groups(
    a: Seq<char>,
    c: Seq<char>,
    d: Seq<char>,
    p: Seq<char>,
    line: Seq<char>,
    q: Seq<char>,
    l: Seq<char>,
    x: Seq<char>,
)
    ensures
        a + (c + x) + (d + x) + (p + line + q) + (l + x) + x == (a + c) + (x + (d + x)) + ((p + line + q) + (l + x) + x),
        a + (c + x) + (d + x) + (p + line + q) + (l + x) + x == (a + (c + x) + (d + x) + p) + line + (q + (l + x) + x),
{
    let r = a + (c + x) + (d + x) + (p + line + q) + (l + x) + x;
    assert(r =~= (a + c) + (x + (d + x)) + ((p + line + q) + (l + x) + x));
    assert(r =~= (a + (c + x) + (d + x) + p) + line + (q + (l + x) + x));
}

/// A request asks for its path at its host, says how long its body is, and what becomes
/// of the connection.
pub proof fn law_request_says(u: UrlView, headers: Seq<(Seq<char>, Seq<char>)>, body_len: nat)
    ensures
        starts_with(request_head(u, headers, body_len), "POST "@ + u.path + " HTTP/1.1"@ + "\r\n"@),
        contains(request_head(u, headers, body_len), "\r\n"@ + ("Host: "@ + u.hostname + "\r\n"@)),
        contains(request_head(u, headers, body_len), "\r\n"@ + ("Content-Length: "@ + decimal(body_len) + "\r\n"@)),
        contains(request_head(u, headers, body_len), "\r\n"@ + ("Content-Type: application/json"@ + "\r\n"@)),
        u.is_https ==> contains(request_head(u, headers, body_len), "Connection: keep-alive"@ + "\r\n"@),
        !u.is_https ==> contains(request_head(u, headers, body_len), "Connection: close"@ + "\r\n"@),
{
    let x = "\r\n"@;
    let a = "POST "@ + u.path + " HTTP/1.1"@;
    let b = "Host: "@ + u.hostname;
    let c = "Content-Type: application/json"@;
    let d = "Content-Length: "@ + decimal(body_len);
    let hs = header_lines(headers, headers.len() as int);
    let l = if u.is_https {
        "Connection: keep-alive"@
    } else {
        "Connection: close"@
    };
    lemma_head_parts(u, headers, body_len);
    lemma_head_groups(a, b, c, d, hs, l, x);
    law_prefix(a + x, (b + x) + (c + x) + (d + x) + hs + (l + x) + x);
    law_inserted_is_found(a, x + (b + x), (c + x) + (d + x) + hs + (l + x) + x);
    law_inserted_is_found(a + x + b, x + (c + x), (d + x) + hs + (l + x) + x);
    let e = Seq::<char>::empty();
    assert(e + e + hs =~= hs);
    lemma_tail_groups((a + x) + (b + x), c, d, e, e, hs, l, x);
    law_inserted_is_found((a + x) + (b + x) + c, x + (d + x), hs + (l + x) + x);
    law_inserted_is_found((a + x) + (b + x) + (c + x) + (d + x) + hs, l + x, x);
}

/// A request carries every additional header, in a line of its own.
pub proof fn law_headers_are_sent(u: UrlView, headers: Seq<(Seq<char>, Seq<char>)>, body_len: nat, i: int)
    requires
        0 <= i < headers.len(),
    ensures
        contains(request_head(u, headers, body_len), headers[i].0 + ": "@ + headers[i].1 + "\r\n"@),
{
    let x = "\r\n"@;
    let a = ("POST "@ + u.path + " HTTP/1.1"@ + x) + ("Host: "@ + u.hostname + x);
    let c = "Content-Type: application/json"@;
    let d = "Content-Length: "@ + decimal(body_len);
    let l = if u.is_https {
        "Connection: keep-alive"@
    } else {
        "Connection: close"@
    };
    lemma_head_parts(u, headers, body_len);
    let (p, q) = lemma_header_line(headers, headers.len() as int, i);
    let line = headers[i].0 + ": "@ + headers[i].1 + x;
    lemma_tail_groups(a, c, d, p, line, q, l, x);
    law_inserted_is_found(a + (c + x) + (d + x) + p, line, q + (l + x) + x);
}

proof fn lemma_header_line(headers: Seq<(Seq<char>, Seq<char>)>, n: int, i: int) -> (parts: (Seq<char>, Seq<char>))
    requires
        0 <= i < n <= headers.len(),
    ensures
        header_lines(headers, n) == parts.0 + (headers[i].0 + ": "@ + headers[i].1 + "\r\n"@) + parts.1,
    decreases n,
{
    let line = headers[n - 1].0 + ": "@ + headers[n - 1].1 + "\r\n"@;
    let before = header_lines(headers, n - 1);
    if i == n - 1 {
        let e = Seq::<char>::empty();
        assert(header_lines(headers, n) =~= before + line + e);
        (before, e)
    } else {
        let (p, q) = lemma_header_line(headers, n - 1, i);
        let wanted = headers[i].0 + ": "@ + headers[i].1 + "\r\n"@;
        assert(header_lines(headers, n) =~= p + wanted + (q + line));
        (p, q + line)
    }
}

// ---------------------------------------------------------------------------
// Responses
// ---------------------------------------------------------------------------

/// A word: something, and no white space in it.
pub open spec fn is_word(s: Seq<char>) -> bool {
    s.len() > 0 && forall|i: int| 0 <= i < s.len() ==> !is_space(#[trigger] s[i])
}

proof fn lemma_word_len(w: Seq<char>, r: Seq<char>)
    requires
        forall|i: int| 0 <= i < w.len() ==> !is_space(#[trigger] w[i]),
        r.len() > 0 ==> is_space(r[0]),
    ensures
        word_len(w + r) == w.len(),
    decreases w.len(),
{
    let s = w + r;
    if w.len() == 0 {
        assert(s =~= r);
    } else {
        assert(s[0] == w[0]);
        assert(s.skip(1) =~= w.skip(1) + r);
        assert forall|i: int| 0 <= i < w.skip(1).len() implies !is_space(#[trigger] w.skip(1)[i]) by {
            assert(w.skip(1)[i] == w[i + 1]);
        }
        lemma_word_len(w.skip(1), r);
    }
}

/// The second word of a line, whatever follows it.
proof fn lemma_second_word(v: Seq<char>, w: Seq<char>, r: Seq<char>)
    requires
        is_word(v),
        is_word(w),
        r.len() > 0 ==> is_space(r[0]),
    ensures
        second_word(v + seq![' '] + w + r) == w,
{
    let line = v + seq![' '] + w + r;
    let tail = seq![' '] + (w + r);
    assert(line =~= v + tail);
    assert(line[0] == v[0]);
    assert(line.skip(0) =~= line);
    assert(trim_start(line) == line);
    lemma_word_len(v, tail);
    assert(line.skip(v.len() as int) =~= tail);
    assert(tail[0] == ' ');
    assert(tail.skip(1) =~= w + r);
    assert((w + r)[0] == w[0]);
    assert(trim_start(tail) == w + r) by {
        reveal_with_fuel(crate::text::leading_spaces, 3);
    }
    lemma_word_len(w, r);
    assert((w + r).take(w.len() as int) =~= w);
}

/// The status of a response is the number behind the version in its first line, for every
/// number that fits, whatever follows it.
pub proof fn law_status_is_read(version: Seq<char>, n: nat, rest: Seq<char>)
    requires
        is_word(version),
        n <= 65535,
        rest.len() > 0 ==> is_space(rest[0]),
    ensures
        status_in(version + " "@ + decimal(n) + rest) == Ok::<u16, Seq<char>>(n as u16),
{
    reveal_strlit(" ");
    assert(" "@ =~= seq![' ']);
    let w = decimal(n);
    law_decimal_digits(n);
    assert forall|i: int| 0 <= i < w.len() implies !is_space(#[trigger] w[i]) by {
        assert('0' <= w[i] <= '9');
    }
    let front = version + seq![' '] + w;
    let head = front + rest;
    assert(version + " "@ + w + rest =~= head);
    assert(!front.contains('\n')) by {
        if front.contains('\n') {
            let k = choose|k: int| 0 <= k < front.len() && front[k] == '\n';
            if k < version.len() {
                assert(!is_space(version[k]));
            } else if k > version.len() {
                assert(front[k] == w[k - version.len() - 1]);
            }
        }
    }
    lemma_line_of(front, rest);
    let r = lemma_first_line(front, rest);
    lemma_second_word(version, w, r);
    law_decimal_is_read(n, 65535);
}

proof fn lemma_line_of(front: Seq<char>, rest: Seq<char>)
    ensures
        (front + rest).take(front.len() as int) == front,
{
    assert((front + rest).take(front.len() as int) =~= front);
}

/// The first line of a text whose beginning ends no line is that beginning and a part of
/// what follows.
proof fn lemma_first_line(front: Seq<char>, rest: Seq<char>) -> (r: Seq<char>)
    requires
        front.len() > 0,
        !front.contains('\n'),
        front.last() != '\r',
        rest.len() > 0 ==> is_space(rest[0]),
    ensures
        first_line(front + rest) == Some(front + r),
        r.len() > 0 ==> is_space(r[0]),
{
    let s = front + rest;
    law_no_position(s, '\n');
    lemma_find_from(s, seq!['\n'], 0);
    match find(s, seq!['\n']) {
        Some(i) => {
            assert(s.subrange(i, i + 1)[0] == '\n');
            assert(s[i] == '\n');
            if i < front.len() {
                assert(front[i] == '\n');
            }
            let r = rest.take(i - front.len());
            let line = s.take(i);
            assert(line =~= front + r);
            if line.last() == '\r' {
                assert(r.len() > 0) by {
                    if r.len() == 0 {
                        assert(line.last() == front.last());
                    }
                }
                assert(line.drop_last() =~= front + r.drop_last());
                r.drop_last()
            } else {
                r
            }
        },
        None => rest,
    }
}

/// A response that does not come in chunks has the body that follows its first blank line,
/// and the status of its head.
pub proof fn law_plain_response(head: Seq<char>, body: Seq<u8>)
    requires
        !contains(encode_utf8(head), seq![13u8, 10u8, 13u8, 10u8]),
        encode_utf8(head).len() > 0 ==> encode_utf8(head).last() != 10,
        !chunked_head(head),
        valid_utf8(body),
    ensures
        response_of(encode_utf8(head) + seq![13u8, 10u8, 13u8, 10u8] + body) == match status_in(head) {
            Ok(status) => Ok::<(u16, Seq<u8>), Seq<char>>((status, body)),
            Err(e) => Err(e),
        },
{
    let h = encode_utf8(head);
    let mark = seq![13u8, 10u8, 13u8, 10u8];
    let b = h + mark + body;
    let n = h.len() as int;
    assert(mark =~= blank_line());
    law_inserted_is_found(h, mark, body);
    lemma_find_from(b, mark, 0);
    lemma_find_from(h, mark, 0);
    let i = find(b, mark)->0;
    if i < n {
        let here = b.subrange(i, i + 4);
        assert(here[0] == 13 && here[1] == 10 && here[2] == 13 && here[3] == 10);
        assert(here[0] == b[i] && here[1] == b[i + 1] && here[2] == b[i + 2] && here[3] == b[i + 3]);
        if i + 4 <= n {
            assert(h.subrange(i, i + 4) =~= here);
            assert(occurs_at(h, mark, i));
        } else if i + 3 == n {
            assert(b[i + 3] == mark[0]);
        } else if i + 2 == n {
            assert(b[i + 1] == h.last());
        } else {
            assert(b[i + 1] == mark[0]);
        }
    }
    assert(b.take(n) =~= h);
    assert(b.skip(n + 4) =~= body);
    encode_utf8_valid_utf8(head);
    encode_utf8_decode_utf8(head);
}

/// A response with a status line, headers and a body is read as this status and this
/// body.
pub proof fn law_response_is_read(version: Seq<char>, n: nat, rest: Seq<char>, body: Seq<u8>)
    requires
        is_word(version),
        n <= 65535,
        rest.len() > 0 ==> is_space(rest[0]),
        ({
            let head = version + " "@ + decimal(n) + rest;
            &&& !contains(encode_utf8(head), seq![13u8, 10u8, 13u8, 10u8])
            &&& encode_utf8(head).len() > 0 ==> encode_utf8(head).last() != 10
            &&& !chunked_head(head)
        }),
        valid_utf8(body),
    ensures
        response_of(encode_utf8(version + " "@ + decimal(n) + rest) + seq![13u8, 10u8, 13u8, 10u8] + body) == Ok::<
            (u16, Seq<u8>),
            Seq<char>,
        >((n as u16, body)),
{
    law_plain_response(version + " "@ + decimal(n) + rest, body);
    law_status_is_read(version, n, rest);
}

/// What is no response is refused: without a blank line, or with a first line whose second
/// word is no number.
pub proof fn law_no_response_is_refused(b: Seq<u8>, head: Seq<char>)
    ensures
        !contains(b, seq![13u8, 10u8, 13u8, 10u8]) ==> response_of(b) is Err,
        head.len() == 0 ==> status_in(head) is Err,
        response_of(b) is Ok ==> valid_utf8(response_of(b)->Ok_0.1),
{
    assert(seq![13u8, 10u8, 13u8, 10u8] =~= blank_line());
    lemma_find_from(head, seq!['\n'], 0);
}

// ---------------------------------------------------------------------------
// Bodies in chunks
// ---------------------------------------------------------------------------

proof fn lemma_says_chunked(line: Seq<char>)
    requires
        lower(line) == "transfer-encoding: chunked"@,
    ensures
        says_chunked(line),
{
    reveal_strlit("transfer-encoding: chunked");
    reveal_strlit("transfer-encoding");
    reveal_strlit("chunked");
    reveal_strlit(": ");
    let e = Seq::<char>::empty();
    let l = lower(line);
    assert(l =~= e + "transfer-encoding"@ + (": "@ + "chunked"@));
    law_inserted_is_found(e, "transfer-encoding"@, ": "@ + "chunked"@);
    assert(l =~= ("transfer-encoding"@ + ": "@) + "chunked"@ + e);
    law_inserted_is_found("transfer-encoding"@ + ": "@, "chunked"@, e);
}

/// A head comes with a body in chunks where one of its lines says so, in whatever case.
pub proof fn law_chunks_are_announced(before: Seq<char>, line: Seq<char>, after: Seq<char>)
    requires
        before.len() > 0 ==> before.last() == '\n',
        lower(line) == "transfer-encoding: chunked"@,
        after.len() > 0 ==> after[0] == '\n' || (after.len() > 1 && after[0] == '\r' && after[1] == '\n'),
    ensures
        chunked_head(before + line + after),
    decreases before.len(),
{
    let s = before + line + after;
    lemma_says_chunked(line);
    lemma_find_from(s, seq!['\n'], 0);
    law_no_position(s, '\n');
    if before.len() == 0 {
        assert(s =~= line + after);
        lemma_line_has_no_end(line);
        if after.len() == 0 {
            assert(s =~= line);
            law_no_position(line, '\n');
        } else {
            let cut = if after[0] == '\n' {
                line
            } else {
                line.push('\r')
            };
            let k = cut.len() as int;
            let tail = after.skip(k - line.len() + 1);
            assert(s =~= cut.push('\n') + tail);
            assert(!cut.contains('\n')) by {
                if cut.contains('\n') {
                    let j = choose|j: int| 0 <= j < cut.len() && cut[j] == '\n';
                    assert(line[j] == '\n');
                }
            }
            law_first_position(cut, '\n', tail);
            if after[0] == '\n' {
                assert(strip_cr(cut) == line);
            } else {
                assert(cut.drop_last() =~= line);
            }
        }
    } else {
        let i = find(s, seq!['\n'])->0;
        assert(s.contains('\n')) by {
            assert(s[before.len() - 1] == '\n');
        }
        assert(i < before.len()) by {
            assert(s.subrange(before.len() - 1, before.len() as int) =~= seq!['\n']);
            assert(occurs_at(s, seq!['\n'], before.len() - 1));
        }
        let rest = before.skip(i + 1);
        assert(s.skip(i + 1) =~= rest + line + after);
        if rest.len() > 0 {
            assert(rest.last() == before.last());
        }
        law_chunks_are_announced(rest, line, after);
    }
}

proof fn lemma_line_has_no_end(line: Seq<char>)
    requires
        lower(line) == "transfer-encoding: chunked"@,
    ensures
        !line.contains('\n'),
        line.len() > 0,
        line.last() != '\r',
{
    reveal_strlit("transfer-encoding: chunked");
    let l = lower(line);
    assert(l.len() == line.len());
    if line.contains('\n') {
        let k = choose|k: int| 0 <= k < line.len() && line[k] == '\n';
        assert(l[k] == '\n');
    }
    assert(l[25] == 'd');
    assert(l[25] == crate::text::lower_char(line[25]));
}

/// A head that nowhere speaks of chunks comes with a plain body.
pub proof fn law_plain_body_is_plain(head: Seq<char>)
    requires
        !contains(lower(head), "chunked"@),
    ensures
        !chunked_head(head),
    decreases head.len(),
{
    lemma_find_from(head, seq!['\n'], 0);
    match find(head, seq!['\n']) {
        Some(i) => {
            let line = strip_cr(head.take(i));
            lemma_part_lacks(head, 0, line);
            lemma_part_lacks(head, i + 1, head.skip(i + 1));
            law_plain_body_is_plain(head.skip(i + 1));
        },
        None => {},
    }
}

/// What a text does not hold, none of its parts holds.
proof fn lemma_part_lacks(s: Seq<char>, from: int, part: Seq<char>)
    requires
        !contains(lower(s), "chunked"@),
        0 <= from,
        from + part.len() <= s.len(),
        forall|k: int| 0 <= k < part.len() ==> #[trigger] part[k] == s[from + k],
    ensures
        !contains(lower(part), "chunked"@),
{
    if contains(lower(part), "chunked"@) {
        law_found_divides(lower(part), "chunked"@);
        let i = find(lower(part), "chunked"@)->0;
        let l = lower(s);
        let k = "chunked"@.len() as int;
        lemma_find_from(lower(part), "chunked"@, 0);
        assert(l.subrange(from + i, from + i + k) =~= lower(part).subrange(i, i + k));
        lemma_find_from(l, "chunked"@, 0);
        assert(occurs_at(l, "chunked"@, from + i));
    }
}

// ---------------------------------------------------------------------------
// Sending
// ---------------------------------------------------------------------------

/// Sending counts what was taken, and is done when everything was, unless time has run
/// out; a failure ends it.
pub proof fn law_sending_ends_with_the_last_byte(t: TcpSendAll, n: usize, now_ms: u64)
    requires
        t.sent <= t.total,
        n <= t.total - t.sent,
    ensures
        t.after(SendOutcome::Sent(n), now_ms).0.sent == t.sent + n,
        t.after(SendOutcome::Busy, now_ms).0.sent == t.sent,
        t.after(SendOutcome::Sent(n), now_ms).1 == LoopStep::Done <==> t.sent + n == t.total && now_ms <= t.deadline,
        t.after(SendOutcome::Sent(n), now_ms).1 == LoopStep::Again <==> t.sent + n < t.total && now_ms <= t.deadline,
        t.after(SendOutcome::Sent(n), now_ms).1 == LoopStep::TimedOut <==> now_ms > t.deadline,
        t.after(SendOutcome::Failed, now_ms).1 == LoopStep::Failed,
        t.after(SendOutcome::Sent(n), now_ms).0.deadline == t.deadline,
        t.after(SendOutcome::Sent(n), now_ms).0.total == t.total,
{
}

} // verus!
