//! What holds of the conversation with an inference service as a whole: what it is asked,
//! and what is taken from its reply.

use vstd::prelude::*;
use vstd::utf8::*;

use crate::inference::api::{ApiProvider, ApiView};
use crate::inference::backend::{FinishReason, InferenceErrorView, RequestView, ResponseView};
use crate::inference::json::{escaped, is_readable, law_escape_round_trip, string_after, string_body};
use crate::text::{byte_prefix, contains, decimal, find, is_space, lemma_find_from, occurs_at, starts_with, trim_start};
use crate::text_laws::{blank, law_decimal_digits, law_inserted_is_found, law_prefix};

verus! {

// ---------------------------------------------------------------------------
// Strings behind keys
// ---------------------------------------------------------------------------

/// A key as it stands in a JSON object: it ends with a colon and holds no other one.
pub open spec fn is_key(key: Seq<char>) -> bool {
    &&& key.len() > 0
    &&& key.last() == ':'
    &&& forall|i: int| 0 <= i < key.len() - 1 ==> #[trigger] key[i] != ':'
}

/// A key that does not stand in what comes before it is found where it was put.
proof fn lemma_key_found(p: Seq<char>, key: Seq<char>, q: Seq<char>)
    requires
        is_key(key),
        !contains(p, key),
    ensures
        find(p + key + q, key) == Some(p.len() as int),
{
    let s = p + key + q;
    let n = p.len() as int;
    let k = key.len() as int;
    law_inserted_is_found(p, key, q);
    lemma_find_from(s, key, 0);
    lemma_find_from(p, key, 0);
    let i = find(s, key)->0;
    if i < n {
        let here = s.subrange(i, i + k);
        assert(here == key);
        if i + k <= n {
            assert(p.subrange(i, i + k) =~= here);
            assert(occurs_at(p, key, i));
        } else {
            assert(here[k - 1] == s[i + k - 1]);
            assert(s[i + k - 1] == key[i + k - 1 - n]);
        }
    }
}

proof fn lemma_skip_blank(w: Seq<char>, m: Seq<char>)
    requires
        blank(w),
        m.len() > 0,
        !is_space(m[0]),
    ensures
        trim_start(w + m) == m,
    decreases w.len(),
{
    if w.len() == 0 {
        assert(w + m =~= m);
        assert(m.skip(0) =~= m);
    } else {
        assert((w + m)[0] == w[0]);
        assert((w + m).skip(1) =~= w.skip(1) + m);
        assert forall|i: int| 0 <= i < w.skip(1).len() implies is_space(#[trigger] w.skip(1)[i]) by {
            assert(w.skip(1)[i] == w[i + 1]);
        }
        lemma_skip_blank(w.skip(1), m);
        let n = crate::text::leading_spaces((w + m).skip(1));
        assert((w + m).skip(1).skip(n) =~= (w + m).skip(n + 1)) by {
            lemma_leading_bound((w + m).skip(1));
        }
    }
}

proof fn lemma_leading_bound(s: Seq<char>)
    ensures
        0 <= crate::text::leading_spaces(s) <= s.len(),
    decreases s.len(),
{
    if s.len() > 0 {
        lemma_leading_bound(s.skip(1));
    }
}

/// The string behind the first occurrence of a key is the text that was written there,
/// whatever stands around it.
pub proof fn law_string_behind_key(p: Seq<char>, key: Seq<char>, w: Seq<char>, t: Seq<char>, q: Seq<char>)
    requires
        is_key(key),
        !contains(p, key),
        blank(w),
        forall|i: int| 0 <= i < t.len() ==> is_readable(#[trigger] t[i]),
    ensures
        string_after(p + key + w + seq!['"'] + escaped(t) + seq!['"'] + q, key) == Some(t),
{
    let value = escaped(t) + seq!['"'] + q;
    let quoted = seq!['"'] + value;
    let json = p + key + w + seq!['"'] + escaped(t) + seq!['"'] + q;
    assert(json =~= p + key + (w + quoted));
    lemma_key_found(p, key, w + quoted);
    assert(json.skip((p.len() + key.len()) as int) =~= w + quoted);
    lemma_skip_blank(w, quoted);
    assert(quoted.skip(1) =~= value);
    law_escape_round_trip(t, q);
}

/// A key that stands nowhere has no string, and neither has one with another value behind
/// it.
pub proof fn law_no_string_behind_key(p: Seq<char>, key: Seq<char>, w: Seq<char>, q: Seq<char>)
    requires
        is_key(key),
        !contains(p, key),
        blank(w),
        q.len() > 0,
        !is_space(q[0]),
        q[0] != '"',
    ensures
        string_after(p, key) is None,
        string_after(p + key + w + q, key) is None,
{
    let json = p + key + w + q;
    assert(json =~= p + key + (w + q));
    lemma_key_found(p, key, w + q);
    assert(json.skip((p.len() + key.len()) as int) =~= w + q);
    lemma_skip_blank(w, q);
}

/// A backslash and the character behind it are read as what they stand for in JSON.
pub proof fn law_pairs_are_read(rest: Seq<char>, r: Seq<char>)
    requires
        string_body(rest) == Some(r),
    ensures
        string_body(seq!['\\', 'n'] + rest) == Some(seq!['\n'] + r),
        string_body(seq!['\\', 'r'] + rest) == Some(seq!['\r'] + r),
        string_body(seq!['\\', 't'] + rest) == Some(seq!['\t'] + r),
        string_body(seq!['\\', '"'] + rest) == Some(seq!['"'] + r),
        string_body(seq!['\\', '\\'] + rest) == Some(seq!['\\'] + r),
        string_body(seq!['\\', '/'] + rest) == Some(seq!['/'] + r),
{
    assert((seq!['\\', 'n'] + rest).skip(2) =~= rest);
    assert((seq!['\\', 'r'] + rest).skip(2) =~= rest);
    assert((seq!['\\', 't'] + rest).skip(2) =~= rest);
    assert((seq!['\\', '"'] + rest).skip(2) =~= rest);
    assert((seq!['\\', '\\'] + rest).skip(2) =~= rest);
    assert((seq!['\\', '/'] + rest).skip(2) =~= rest);
}

/// A string that is never closed is none.
pub proof fn law_open_string_is_none(s: Seq<char>)
    requires
        !s.contains('"'),
    ensures
        string_body(s) is None,
    decreases s.len(),
{
    if s.len() > 0 {
        assert(s[0] != '"');
        assert forall|k: int| 1 <= k <= 2 && k <= s.len() implies !(#[trigger] s.skip(k)).contains('"') by {
            if s.skip(k).contains('"') {
                let j = choose|j: int| 0 <= j < s.skip(k).len() && s.skip(k)[j] == '"';
                assert(s[j + k] == '"');
            }
        }
        if s[0] == '\\' {
            if s.len() >= 2 {
                law_open_string_is_none(s.skip(2));
            }
        } else {
            law_open_string_is_none(s.skip(1));
        }
    }
}

// ---------------------------------------------------------------------------
// Replies
// ---------------------------------------------------------------------------

/// A reply with the generated text behind the service's key is answered with that text:
/// the key is "content" for OpenAI and for services like it, "text" for Anthropic and
/// Gemini. It does not matter what else the reply holds, as long as the key does not stand
/// before.
pub proof fn law_generated_text_is_answered(
    v: ApiView,
    p: Seq<char>,
    w: Seq<char>,
    t: Seq<char>,
    q: Seq<char>,
    latency_ms: u64,
)
    requires
        blank(w),
        forall|i: int| 0 <= i < t.len() ==> is_readable(#[trigger] t[i]),
        v.provider == ApiProvider::OpenAi || v.provider == ApiProvider::Custom ==> !contains(p, "\"content\":"@),
        v.provider == ApiProvider::Anthropic || v.provider == ApiProvider::Gemini ==> !contains(p, "\"text\":"@),
    ensures
        ({
            let key = if v.provider == ApiProvider::OpenAi || v.provider == ApiProvider::Custom {
                "\"content\":"@
            } else {
                "\"text\":"@
            };
            let reply = encode_utf8(p + key + w + "\""@ + escaped(t) + "\""@ + q);
            let r = v.answer(Ok((200, reply)), latency_ms);
            &&& r is Ok
            &&& r->Ok_0.text == t
            &&& r->Ok_0.latency_ms == latency_ms
            &&& r->Ok_0.tokens_generated == 0
            &&& r->Ok_0.finish_reason == FinishReason::EndOfSequence
        }),
{
    reveal_strlit("\"content\":");
    reveal_strlit("\"text\":");
    reveal_strlit("\"");
    let key = if v.provider == ApiProvider::OpenAi || v.provider == ApiProvider::Custom {
        "\"content\":"@
    } else {
        "\"text\":"@
    };
    let json = p + key + w + "\""@ + escaped(t) + "\""@ + q;
    assert("\""@ =~= seq!['"']);
    law_string_behind_key(p, key, w, t, q);
    encode_utf8_valid_utf8(json);
    encode_utf8_decode_utf8(json);
}

/// Only a reply with the status 200 is answered with a text: any other status is told, and
/// so is why there was no reply.
pub proof fn law_failures_are_told(v: ApiView, status: u16, body: Seq<u8>, e: Seq<char>, latency_ms: u64)
    ensures
        v.answer(Err(e), latency_ms) == Err::<ResponseView, InferenceErrorView>(
            InferenceErrorView::ApiError("HTTP error: "@ + e),
        ),
        status != 200 ==> (v.answer(Ok((status, body)), latency_ms) matches Err(InferenceErrorView::ApiError(m))
            && starts_with(m, "HTTP "@ + decimal(status as nat))),
        status != 200 && valid_utf8(body) ==> (v.answer(Ok((status, body)), latency_ms) matches Err(
            InferenceErrorView::ApiError(m),
        ) && contains(m, byte_prefix(decode_utf8(body), 200))),
        status == 200 && !valid_utf8(body) ==> v.answer(Ok((status, body)), latency_ms) is Err,
{
    if status != 200 {
        let head = "HTTP "@ + decimal(status as nat);
        let shown = if valid_utf8(body) {
            decode_utf8(body)
        } else {
            "(binary)"@
        };
        let m = head + " \u{2014} "@ + byte_prefix(shown, 200);
        assert(m =~= head + (" \u{2014} "@ + byte_prefix(shown, 200)));
        law_prefix(head, " \u{2014} "@ + byte_prefix(shown, 200));
        let e = Seq::<char>::empty();
        assert(m =~= (head + " \u{2014} "@) + byte_prefix(shown, 200) + e);
        law_inserted_is_found(head + " \u{2014} "@, byte_prefix(shown, 200), e);
    }
}

// ---------------------------------------------------------------------------
// Requests
// ---------------------------------------------------------------------------

/// The key goes with every request, in the way that the service asks for.
pub proof fn law_key_is_sent(v: ApiView)
    ensures
        v.provider == ApiProvider::OpenAi || v.provider == ApiProvider::Custom ==> v.headers().contains(
            ("Authorization"@, "Bearer "@ + v.api_key),
        ),
        v.provider == ApiProvider::Anthropic ==> v.headers().contains(("x-api-key"@, v.api_key)) && v.headers().contains(
            ("anthropic-version"@, "2023-06-01"@),
        ),
        v.provider == ApiProvider::Gemini ==> contains(v.url(), "?key="@ + v.api_key),
{
    match v.provider {
        ApiProvider::Gemini => {
            reveal_strlit(":generateContent?key=");
            reveal_strlit("?key=");
            reveal_strlit(":generateContent");
            let a = "http://generativelanguage.googleapis.com/v1beta/models/"@ + v.model_id + ":generateContent"@;
            let e = Seq::<char>::empty();
            assert(v.url() =~= a + ("?key="@ + v.api_key) + e);
            law_inserted_is_found(a, "?key="@ + v.api_key, e);
        },
        ApiProvider::Anthropic => {
            assert(v.headers()[0] == ("x-api-key"@, v.api_key));
            assert(v.headers()[1] == ("anthropic-version"@, "2023-06-01"@));
        },
        _ => {
            assert(v.headers()[0] == ("Authorization"@, "Bearer "@ + v.api_key));
        },
    }
}

/// What a text that goes before a key must not hold, so that the key is not there.
spec fn no_quoted_content(s: Seq<char>) -> bool {
    !contains(s, "\"content\":"@)
}

proof fn lemma_openai_head(model: Seq<char>)
    requires
        !model.contains('"'),
    ensures
        no_quoted_content("{\"model\":\""@ + model + "\",\"messages\":[{\"role\":\"user\","@),
{
    reveal_strlit("{\"model\":\"");
    reveal_strlit("\",\"messages\":[{\"role\":\"user\",");
    reveal_strlit("\"content\":");
    let a = "{\"model\":\""@;
    let b = "\",\"messages\":[{\"role\":\"user\","@;
    let s = a + model + b;
    let key = "\"content\":"@;
    lemma_find_from(s, key, 0);
    if contains(s, key) {
        let i = find(s, key)->0;
        let here = s.subrange(i, i + 10);
        assert(here[0] == '"' && here[1] == 'c' && here[8] == '"' && here[9] == ':');
        assert(here[0] == s[i] && here[1] == s[i + 1] && here[8] == s[i + 8] && here[9] == s[i + 9]);
        let x = i + 8;
        let n = 10 + model.len();
        if x < 10 {
            assert(s[x] == a[x] && (x < 9 ==> s[x + 1] == a[x + 1]) && s[i] == a[i] && s[i + 1] == a[i + 1]);
        } else if x < n {
            assert(s[x] == model[x - 10]);
        } else {
            assert(s[x] == b[x - n] && s[x + 1] == b[x + 1 - n]);
            assert(x - n == 11 || x - n == 20);
            if x - n == 11 {
                assert(s[i + 1] == b[4]);
            } else {
                assert(s[i] == b[12]);
            }
        }
    }
}

proof fn lemma_anthropic_head(model: Seq<char>, limit: Seq<char>)
    requires
        !model.contains('"'),
        forall|i: int| 0 <= i < limit.len() ==> '0' <= #[trigger] limit[i] <= '9',
    ensures
        no_quoted_content("{\"model\":\""@ + model + "\",\"max_tokens\":"@ + limit + ",\"messages\":[{\"role\":\"user\","@),
{
    reveal_strlit("{\"model\":\"");
    reveal_strlit("\",\"max_tokens\":");
    reveal_strlit(",\"messages\":[{\"role\":\"user\",");
    reveal_strlit("\"content\":");
    let a = "{\"model\":\""@;
    let b = "\",\"max_tokens\":"@;
    let c = ",\"messages\":[{\"role\":\"user\","@;
    let s = a + model + b + limit + c;
    let key = "\"content\":"@;
    lemma_find_from(s, key, 0);
    if contains(s, key) {
        let i = find(s, key)->0;
        let here = s.subrange(i, i + 10);
        assert(here[0] == '"' && here[1] == 'c' && here[8] == '"' && here[9] == ':');
        assert(here[0] == s[i] && here[1] == s[i + 1] && here[8] == s[i + 8] && here[9] == s[i + 9]);
        let x = i + 8;
        let n = 10 + model.len();
        let m = n + 15;
        let k = m + limit.len();
        if x < 10 {
            assert(s[x] == a[x] && (x < 9 ==> s[x + 1] == a[x + 1]) && s[i] == a[i] && s[i + 1] == a[i + 1]);
        } else if x < n {
            assert(s[x] == model[x - 10]);
        } else if x < m {
            assert(s[x] == b[x - n]);
            assert(x - n == 0 || x - n == 2 || x - n == 13);
            if x - n == 13 {
                assert(s[i + 1] == b[6]);
            } else {
                assert(s[x + 1] == b[x + 1 - n]);
            }
        } else if x < k {
            assert(s[x] == limit[x - m]);
        } else {
            assert(s[x] == c[x - k] && s[x + 1] == c[x + 1 - k]);
            assert(x - k == 10 || x - k == 19);
            if x - k == 10 {
                assert(s[i + 1] == c[3]);
            } else {
                assert(s[i] == c[11]);
            }
        }
    }
}

/// What a service reads from the request is what was asked: the prompt behind "content",
/// whatever characters it holds, and the model behind "model".
pub proof fn law_prompt_is_sent(v: ApiView, request: RequestView, temperature: Seq<char>)
    requires
        !v.model_id.contains('"'),
        !v.model_id.contains('\\'),
        forall|i: int| 0 <= i < v.model_id.len() ==> is_readable(#[trigger] v.model_id[i]) && v.model_id[i] != '\n'
            && v.model_id[i] != '\r' && v.model_id[i] != '\t',
        forall|i: int| 0 <= i < request.prompt.len() ==> is_readable(#[trigger] request.prompt[i]),
    ensures
        v.provider != ApiProvider::Gemini ==> {
            &&& string_after(v.body(request, temperature), "\"content\":"@) == Some(request.prompt)
            &&& string_after(v.body(request, temperature), "\"model\":"@) == Some(v.model_id)
        },
        v.provider == ApiProvider::Gemini ==> string_after(v.body(request, temperature), "\"text\":"@) == Some(
            request.prompt,
        ),
{
    lemma_plain_escaped(v.model_id);
    law_decimal_digits(request.max_tokens as nat);
    match v.provider {
        ApiProvider::Gemini => {
            lemma_gemini_prompt(v, request, temperature);
        },
        ApiProvider::Anthropic => {
            lemma_anthropic_prompt(v, request, temperature);
        },
        _ => {
            lemma_openai_prompt(v, request, temperature);
        },
    }
}

/// A literal that ends with a quote is the literal up to it and the quote.
#[verifier::rlimit(40)]
proof fn lemma_literals()
    ensures
        "{\"model\":\""@ == seq!['{'] + "\"model\":"@ + seq!['"'],
        ",\"messages\":[{\"role\":\"user\",\"content\":\""@ == ",\"messages\":[{\"role\":\"user\","@ + "\"content\":"@ + seq!['"'],
        "\",\"messages\":[{\"role\":\"user\",\"content\":\""@ == "\",\"messages\":[{\"role\":\"user\","@ + "\"content\":"@ + seq!['"'],
        "\"}]}"@ == seq!['"'] + "\"}]}"@.skip(1),
        "\"}],\"max_tokens\":"@ == seq!['"'] + "\"}],\"max_tokens\":"@.skip(1),
        "\",\"max_tokens\":"@ == seq!['"'] + "\",\"max_tokens\":"@.skip(1),
        "\",\"messages\":[{\"role\":\"user\","@ == seq!['"'] + "\",\"messages\":[{\"role\":\"user\","@.skip(1),
{
    reveal_strlit("{\"model\":\"");
    reveal_strlit("\"model\":");
    reveal_strlit("\"content\":");
    reveal_strlit("\",\"max_tokens\":");
    reveal_strlit(",\"messages\":[{\"role\":\"user\",\"content\":\"");
    reveal_strlit(",\"messages\":[{\"role\":\"user\",");
    reveal_strlit("\",\"messages\":[{\"role\":\"user\",\"content\":\"");
    reveal_strlit("\",\"messages\":[{\"role\":\"user\",");
    reveal_strlit("\"}]}");
    reveal_strlit("\"}],\"max_tokens\":");
    assert("{\"model\":\""@ =~= seq!['{'] + "\"model\":"@ + seq!['"']);
    assert(",\"messages\":[{\"role\":\"user\",\"content\":\""@ =~= ",\"messages\":[{\"role\":\"user\","@ + "\"content\":"@ + seq!['"']);
    assert("\",\"messages\":[{\"role\":\"user\",\"content\":\""@ =~= "\",\"messages\":[{\"role\":\"user\","@ + "\"content\":"@ + seq!['"']);
    assert("\"}]}"@ =~= seq!['"'] + "\"}]}"@.skip(1));
    assert("\"}],\"max_tokens\":"@ =~= seq!['"'] + "\"}],\"max_tokens\":"@.skip(1));
    assert("\",\"max_tokens\":"@ =~= seq!['"'] + "\",\"max_tokens\":"@.skip(1));
    assert("\",\"messages\":[{\"role\":\"user\","@ =~= seq!['"'] + "\",\"messages\":[{\"role\":\"user\","@.skip(1));
}

/// The model's name is the first string of a request.
proof fn lemma_model_is_first(model: Seq<char>, r: Seq<char>, body: Seq<char>)
    requires
        escaped(model) == model,
        forall|i: int| 0 <= i < model.len() ==> is_readable(#[trigger] model[i]),
        body == (seq!['{'] + "\"model\":"@ + seq!['"']) + model + (seq!['"'] + r),
    ensures
        string_after(body, "\"model\":"@) == Some(model),
{
    let e = Seq::<char>::empty();
    assert(is_key("\"model\":"@)) by {
        reveal_strlit("\"model\":");
    }
    lemma_short_head();
    law_string_behind_key(seq!['{'], "\"model\":"@, e, model, r);
    assert(body =~= seq!['{'] + "\"model\":"@ + e + seq!['"'] + model + seq!['"'] + r);
}

/// What stands between quotes behind "content" is read there.
proof fn lemma_content_is_read(p: Seq<char>, prompt: Seq<char>, q: Seq<char>, body: Seq<char>)
    requires
        no_quoted_content(p),
        forall|i: int| 0 <= i < prompt.len() ==> is_readable(#[trigger] prompt[i]),
        body == p + ("\"content\":"@ + seq!['"']) + escaped(prompt) + (seq!['"'] + q),
    ensures
        string_after(body, "\"content\":"@) == Some(prompt),
{
    let e = Seq::<char>::empty();
    assert(is_key("\"content\":"@)) by {
        reveal_strlit("\"content\":");
    }
    law_string_behind_key(p, "\"content\":"@, e, prompt, q);
    assert(body =~= p + "\"content\":"@ + e + seq!['"'] + escaped(prompt) + seq!['"'] + q);
}

proof fn lemma_gemini_prompt(v: ApiView, request: RequestView, temperature: Seq<char>)
    requires
        v.provider == ApiProvider::Gemini,
        forall|i: int| 0 <= i < request.prompt.len() ==> is_readable(#[trigger] request.prompt[i]),
    ensures
        string_after(v.body(request, temperature), "\"text\":"@) == Some(request.prompt),
{
    reveal_strlit("\"text\":");
    reveal_strlit("{\"contents\":[{\"parts\":[{\"text\":\"");
    reveal_strlit("\"}]}]}");
    let e = Seq::<char>::empty();
    let body = v.body(request, temperature);
    let prompt = escaped(request.prompt);
    let p = "{\"contents\":[{\"parts\":[{\"text\":\""@.take(24);
    let q = "\"}]}]}"@.skip(1);
    assert(p.len() == 24);
    lemma_find_from(p, "\"text\":"@, 0);
    if contains(p, "\"text\":"@) {
        let i = find(p, "\"text\":"@)->0;
        let here = p.subrange(i, i + 7);
        assert(here[1] == 't' && here[6] == ':');
        assert(here[1] == p[i + 1] && here[6] == p[i + 6]);
    }
    law_string_behind_key(p, "\"text\":"@, e, request.prompt, q);
    assert(body =~= p + "\"text\":"@ + e + seq!['"'] + prompt + seq!['"'] + q);
}

/// Six parts, of which one is made of three and the last of two, in another order of
/// brackets.
proof fn lemma_six_parts(
    a: Seq<char>,
    m: Seq<char>,
    b: Seq<char>,
    l: Seq<char>,
    c: Seq<char>,
    k: Seq<char>,
    d: Seq<char>,
    x: Seq<char>,
    y: Seq<char>,
)
    ensures
        a + m + b + l + (c + k + d) + x + y == (a + m + b + l + c) + (k + d) + x + y,
        a + m + (c + k + d) + x + y == (a + m + c) + (k + d) + x + y,
{
    assert(a + m + b + l + (c + k + d) + x + y =~= (a + m + b + l + c) + (k + d) + x + y);
    assert(a + m + (c + k + d) + x + y =~= (a + m + c) + (k + d) + x + y);
}

proof fn lemma_anthropic_prompt(v: ApiView, request: RequestView, temperature: Seq<char>)
    requires
        v.provider == ApiProvider::Anthropic,
        !v.model_id.contains('"'),
        escaped(v.model_id) == v.model_id,
        forall|i: int| 0 <= i < v.model_id.len() ==> is_readable(#[trigger] v.model_id[i]),
        forall|i: int| 0 <= i < request.prompt.len() ==> is_readable(#[trigger] request.prompt[i]),
    ensures
        string_after(v.body(request, temperature), "\"content\":"@) == Some(request.prompt),
        string_after(v.body(request, temperature), "\"model\":"@) == Some(v.model_id),
{
    let body = v.body(request, temperature);
    let limit = decimal(request.max_tokens as nat);
    let prompt = escaped(request.prompt);
    let a = "{\"model\":\""@;
    let b = "\",\"max_tokens\":"@;
    let c = ",\"messages\":[{\"role\":\"user\","@;
    let q = "\"}]}"@.skip(1);
    let k = "\"content\":"@;
    let d = seq!['"'];
    lemma_literals();
    law_decimal_digits(request.max_tokens as nat);
    lemma_anthropic_head(v.model_id, limit);
    lemma_six_parts(a, v.model_id, b, limit, c, k, d, prompt, d + q);
    lemma_content_is_read(a + v.model_id + b + limit + c, request.prompt, q, body);
    let t = b.skip(1);
    let r = t + limit + (c + k + d) + prompt + (d + q);
    lemma_behind_model(a, v.model_id, d, t, limit, c + k + d, prompt, d + q);
    lemma_model_is_first(v.model_id, r, body);
}

/// What stands behind the model's name, taken as one part.
proof fn lemma_behind_model(
    a: Seq<char>,
    m: Seq<char>,
    d: Seq<char>,
    t: Seq<char>,
    l: Seq<char>,
    c: Seq<char>,
    x: Seq<char>,
    y: Seq<char>,
)
    ensures
        a + m + (d + t) + l + c + x + y == a + m + (d + (t + l + c + x + y)),
        a + m + (d + t) + c + x + y == a + m + (d + (t + c + x + y)),
{
    assert(a + m + (d + t) + l + c + x + y =~= a + m + (d + (t + l + c + x + y)));
    assert(a + m + (d + t) + c + x + y =~= a + m + (d + (t + c + x + y)));
}

proof fn lemma_openai_prompt(v: ApiView, request: RequestView, temperature: Seq<char>)
    requires
        v.provider != ApiProvider::Anthropic,
        v.provider != ApiProvider::Gemini,
        !v.model_id.contains('"'),
        escaped(v.model_id) == v.model_id,
        forall|i: int| 0 <= i < v.model_id.len() ==> is_readable(#[trigger] v.model_id[i]),
        forall|i: int| 0 <= i < request.prompt.len() ==> is_readable(#[trigger] request.prompt[i]),
    ensures
        string_after(v.body(request, temperature), "\"content\":"@) == Some(request.prompt),
        string_after(v.body(request, temperature), "\"model\":"@) == Some(v.model_id),
{
    let body = v.body(request, temperature);
    let limit = decimal(request.max_tokens as nat);
    let prompt = escaped(request.prompt);
    let a = "{\"model\":\""@;
    let c = "\",\"messages\":[{\"role\":\"user\","@;
    let k = "\"content\":"@;
    let d = seq!['"'];
    let z = "\"}],\"max_tokens\":"@;
    let w = limit + ",\"temperature\":"@ + temperature + "}"@;
    let q = z.skip(1) + w;
    lemma_literals();
    lemma_openai_head(v.model_id);
    assert(body == a + v.model_id + (c + k + d) + prompt + (d + q)) by {
        lemma_tail(a + v.model_id + (c + k + d) + prompt, d, z.skip(1), limit, ",\"temperature\":"@, temperature, "}"@);
    }
    lemma_six_parts(a, v.model_id, a, a, c, k, d, prompt, d + q);
    lemma_content_is_read(a + v.model_id + c, request.prompt, q, body);
    let t = c.skip(1);
    assert(a + v.model_id + (c + k + d) + prompt + (d + q) == a + v.model_id + (d + (t + (k + d) + prompt + (d + q)))) by {
        lemma_behind_model(a, v.model_id, d, t, a, k + d, prompt, d + q);
    }
    lemma_model_is_first(v.model_id, t + (k + d) + prompt + (d + q), body);
}

/// Parts at the end, taken together.
proof fn lemma_tail(
    h: Seq<char>,
    d: Seq<char>,
    z: Seq<char>,
    l: Seq<char>,
    t: Seq<char>,
    x: Seq<char>,
    y: Seq<char>,
)
    ensures
        h + (d + z) + l + t + x + y == h + (d + (z + (l + t + x + y))),
{
    assert(h + (d + z) + l + t + x + y =~= h + (d + (z + (l + t + x + y))));
}

proof fn lemma_short_head()
    ensures
        !contains(seq!['{'], "\"model\":"@),
{
    reveal_strlit("\"model\":");
    lemma_find_from(seq!['{'], "\"model\":"@, 0);
}

/// A text without quotes, backslashes and control characters is escaped as it is.
proof fn lemma_plain_escaped(s: Seq<char>)
    requires
        !s.contains('"'),
        !s.contains('\\'),
        forall|i: int| 0 <= i < s.len() ==> is_readable(#[trigger] s[i]) && s[i] != '\n' && s[i] != '\r' && s[i] != '\t',
    ensures
        escaped(s) == s,
    decreases s.len(),
{
    if s.len() == 0 {
        assert(s =~= Seq::empty());
    } else {
        let t = s.drop_last();
        assert(s[s.len() - 1] == s.last());
        assert forall|i: int| 0 <= i < t.len() implies is_readable(#[trigger] t[i]) && t[i] != '\n' && t[i] != '\r'
            && t[i] != '\t' by {
            assert(t[i] == s[i]);
        }
        if t.contains('"') {
            let j = choose|j: int| 0 <= j < t.len() && t[j] == '"';
            assert(s[j] == '"');
        }
        if t.contains('\\') {
            let j = choose|j: int| 0 <= j < t.len() && t[j] == '\\';
            assert(s[j] == '\\');
        }
        lemma_plain_escaped(t);
        assert(escaped(s) =~= s);
    }
}

/// The request speaks for the user and limits the answer: its number of tokens goes to
/// every service but Gemini, its temperature to OpenAI and services like it.
pub proof fn law_limits_are_sent(v: ApiView, request: RequestView, temperature: Seq<char>)
    ensures
        v.provider != ApiProvider::Gemini ==> {
            &&& contains(
                v.body(request, temperature),
                "\"max_tokens\":"@ + decimal(request.max_tokens as nat) + ","@,
            )
            &&& contains(v.body(request, temperature), "\"role\":\"user\""@)
        },
        v.provider == ApiProvider::OpenAi || v.provider == ApiProvider::Custom ==> contains(
            v.body(request, temperature),
            ",\"temperature\":"@ + temperature + "}"@,
        ),
{
    let body = v.body(request, temperature);
    let limit = decimal(request.max_tokens as nat);
    let prompt = escaped(request.prompt);
    let tokens = "\"max_tokens\":"@ + limit + ","@;
    let role = "\"role\":\"user\""@;
    let head = "{\"model\":\""@ + v.model_id;
    match v.provider {
        ApiProvider::Gemini => {},
        ApiProvider::Anthropic => {
            lemma_anthropic_parts();
            let a = head + "\","@;
            let c = "\"messages\":[{"@;
            let d = ",\"content\":\""@;
            let tail = prompt + "\"}]}"@;
            assert(body =~= a + tokens + (c + role + d + tail));
            law_inserted_is_found(a, tokens, c + role + d + tail);
            assert(body =~= (a + tokens + c) + role + (d + tail));
            law_inserted_is_found(a + tokens + c, role, d + tail);
        },
        _ => {
            lemma_openai_parts();
            let a = head + "\",\"messages\":[{"@;
            let d = ",\"content\":\""@ + prompt + "\"}],"@;
            let end = "\"temperature\":"@ + temperature + "}"@;
            assert(body =~= a + role + (d + tokens + end));
            law_inserted_is_found(a, role, d + tokens + end);
            assert(body =~= (a + role + d) + tokens + end);
            law_inserted_is_found(a + role + d, tokens, end);
            let h = a + role + d + "\"max_tokens\":"@ + limit;
            let e = Seq::<char>::empty();
            let last = ",\"temperature\":"@ + temperature + "}"@;
            assert(body =~= h + last + e);
            law_inserted_is_found(h, last, e);
        },
    }
}

#[verifier::rlimit(40)]
proof fn lemma_anthropic_parts()
    ensures
        "\",\"max_tokens\":"@ == "\","@ + "\"max_tokens\":"@,
        ",\"messages\":[{\"role\":\"user\",\"content\":\""@ == ","@ + "\"messages\":[{"@ + "\"role\":\"user\""@
            + ",\"content\":\""@,
{
    reveal_strlit("\",\"max_tokens\":");
    reveal_strlit("\",");
    reveal_strlit("\"max_tokens\":");
    reveal_strlit(",\"messages\":[{\"role\":\"user\",\"content\":\"");
    reveal_strlit(",");
    reveal_strlit("\"messages\":[{");
    reveal_strlit("\"role\":\"user\"");
    reveal_strlit(",\"content\":\"");
    assert("\",\"max_tokens\":"@ =~= "\","@ + "\"max_tokens\":"@);
    assert(",\"messages\":[{\"role\":\"user\",\"content\":\""@ =~= ","@ + "\"messages\":[{"@
        + "\"role\":\"user\""@ + ",\"content\":\""@);
}

#[verifier::rlimit(40)]
proof fn lemma_openai_parts()
    ensures
        "\",\"messages\":[{\"role\":\"user\",\"content\":\""@ == "\",\"messages\":[{"@ + "\"role\":\"user\""@
            + ",\"content\":\""@,
        "\"}],\"max_tokens\":"@ == "\"}],"@ + "\"max_tokens\":"@,
        ",\"temperature\":"@ == ","@ + "\"temperature\":"@,
{
    reveal_strlit("\",\"messages\":[{\"role\":\"user\",\"content\":\"");
    reveal_strlit("\",\"messages\":[{");
    reveal_strlit("\"role\":\"user\"");
    reveal_strlit(",\"content\":\"");
    reveal_strlit("\"}],\"max_tokens\":");
    reveal_strlit("\"}],");
    reveal_strlit("\"max_tokens\":");
    reveal_strlit(",\"temperature\":");
    reveal_strlit(",");
    reveal_strlit("\"temperature\":");
    assert("\",\"messages\":[{\"role\":\"user\",\"content\":\""@ =~= "\",\"messages\":[{"@
        + "\"role\":\"user\""@ + ",\"content\":\""@);
    assert("\"}],\"max_tokens\":"@ =~= "\"}],"@ + "\"max_tokens\":"@);
    assert(",\"temperature\":"@ =~= ","@ + "\"temperature\":"@);
}

/// Which service and model answered is told with the answer.
#[verifier::rlimit(40)]
pub proof fn law_answer_names_model(v: ApiView, body: Seq<u8>, latency_ms: u64)
    requires
        v.answer(Ok((200, body)), latency_ms) is Ok,
    ensures
        contains(v.answer(Ok((200, body)), latency_ms)->Ok_0.backend_used, "("@ + v.model_id + ")"@),
        starts_with(
            v.answer(Ok((200, body)), latency_ms)->Ok_0.backend_used,
            match v.provider {
                ApiProvider::OpenAi => "openai "@,
                ApiProvider::Anthropic => "anthropic "@,
                ApiProvider::Gemini => "gemini "@,
                ApiProvider::Custom => "custom "@,
            },
        ),
{
    reveal_strlit("openai");
    reveal_strlit("anthropic");
    reveal_strlit("gemini");
    reveal_strlit("custom");
    reveal_strlit("openai ");
    reveal_strlit("anthropic ");
    reveal_strlit("gemini ");
    reveal_strlit("custom ");
    reveal_strlit(" (");
    reveal_strlit("(");
    reveal_strlit(")");
    let name = match v.provider {
        ApiProvider::OpenAi => "openai "@,
        ApiProvider::Anthropic => "anthropic "@,
        ApiProvider::Gemini => "gemini "@,
        ApiProvider::Custom => "custom "@,
    };
    let used = v.answer(Ok((200, body)), latency_ms)->Ok_0.backend_used;
    let m = "("@ + v.model_id + ")"@;
    let e = Seq::<char>::empty();
    assert(used =~= name + m + e);
    law_inserted_is_found(name, m, e);
    assert(used =~= name + m);
    law_prefix(name, m);
}

} // verus!
