//! Backend for inference services reached over HTTP.
//!
//! The backend says what to send and reads what comes back; sending is done elsewhere.

use vstd::prelude::*;
use vstd::utf8::*;

use crate::inference::backend::{
    FinishReason, InferenceError, InferenceErrorView, InferenceRequest, InferenceResponse, RequestView, ResponseView,
};
use crate::inference::json::{escape, escaped, extract_json_string, string_after};
use crate::text::{byte_prefix, decimal, decimal_text, prefix_text, text, utf8_text};
use crate::views::{group_views, views};

verus! {

/// Which service to use.
#[derive(Debug, Clone, Copy, PartialEq, Eq, Structural)]
pub enum ApiProvider {
    OpenAi,
    Anthropic,
    Gemini,
    /// Any service with the interface of the first.
    Custom,
}

/// Bytes of a reply that an error shows.
pub const PREVIEW_BYTES: usize = 200;

/// A service and the way to reach it. Made fresh for each request, so that changed
/// settings take effect at once.
pub struct ApiInferenceBackend {
    provider: ApiProvider,
    api_key: String,
    model_id: String,
    base_url: String,
}

/// What a backend holds.
pub struct ApiView {
    pub provider: ApiProvider,
    pub api_key: Seq<char>,
    pub model_id: Seq<char>,
    pub base_url: Seq<char>,
}

impl View for ApiInferenceBackend {
    type V = ApiView;

    closed spec fn view(&self) -> ApiView {
        ApiView {
            provider: self.provider,
            api_key: self.api_key@,
            model_id: self.model_id@,
            base_url: self.base_url@,
        }
    }
}

/// A call to a service.
pub struct HttpCall {
    pub url: String,
    pub headers: Vec<(String, String)>,
    pub body: Vec<u8>,
}

/// A service's name.
pub open spec fn provider_text(p: ApiProvider) -> Seq<char> {
    match p {
        ApiProvider::OpenAi => "openai"@,
        ApiProvider::Anthropic => "anthropic"@,
        ApiProvider::Gemini => "gemini"@,
        ApiProvider::Custom => "custom"@,
    }
}

impl ApiView {
    /// Where the request goes.
    pub open spec fn url(self) -> Seq<char> {
        match self.provider {
            ApiProvider::OpenAi => "http://api.openai.com/v1/chat/completions"@,
            ApiProvider::Anthropic => "http://api.anthropic.com/v1/messages"@,
            ApiProvider::Gemini => "http://generativelanguage.googleapis.com/v1beta/models/"@ + self.model_id
                + ":generateContent?key="@ + self.api_key,
            ApiProvider::Custom => self.base_url,
        }
    }

    /// The headers that authenticate.
    pub open spec fn headers(self) -> Seq<(Seq<char>, Seq<char>)> {
        match self.provider {
            ApiProvider::OpenAi | ApiProvider::Custom => seq![("Authorization"@, "Bearer "@ + self.api_key)],
            ApiProvider::Anthropic => seq![
                ("x-api-key"@, self.api_key),
                ("anthropic-version"@, "2023-06-01"@),
            ],
            ApiProvider::Gemini => Seq::empty(),
        }
    }

    /// The body, as JSON. `temperature` is the request's temperature in decimal notation.
    pub open spec fn body(self, request: RequestView, temperature: Seq<char>) -> Seq<char> {
        let prompt = escaped(request.prompt);
        let limit = decimal(request.max_tokens as nat);
        match self.provider {
            ApiProvider::OpenAi | ApiProvider::Custom => "{\"model\":\""@ + self.model_id
                + "\",\"messages\":[{\"role\":\"user\",\"content\":\""@ + prompt + "\"}],\"max_tokens\":"@ + limit
                + ",\"temperature\":"@ + temperature + "}"@,
            ApiProvider::Anthropic => "{\"model\":\""@ + self.model_id + "\",\"max_tokens\":"@ + limit
                + ",\"messages\":[{\"role\":\"user\",\"content\":\""@ + prompt + "\"}]}"@,
            ApiProvider::Gemini => "{\"contents\":[{\"parts\":[{\"text\":\""@ + prompt + "\"}]}]}"@,
        }
    }

    /// The key behind which the service puts the generated text.
    pub open spec fn text_key(self) -> Seq<char> {
        match self.provider {
            ApiProvider::OpenAi | ApiProvider::Custom => "\"content\":"@,
            ApiProvider::Anthropic | ApiProvider::Gemini => "\"text\":"@,
        }
    }

    /// The generated text of a reply.
    pub open spec fn reply_text(self, body: Seq<u8>) -> Result<Seq<char>, InferenceErrorView> {
        if !valid_utf8(body) {
            Err(InferenceErrorView::ApiError("Invalid UTF-8 response"@))
        } else {
            let json = decode_utf8(body);
            match string_after(json, self.text_key()) {
                Some(s) => Ok(s),
                None => Err(
                    InferenceErrorView::ApiError(
                        "Could not parse response: "@ + byte_prefix(json, PREVIEW_BYTES as int),
                    ),
                ),
            }
        }
    }

    /// What a reply is answered with.
    pub open spec fn answer(self, reply: Result<(u16, Seq<u8>), Seq<char>>, latency_ms: u64) -> Result<
        ResponseView,
        InferenceErrorView,
    > {
        match reply {
            Err(e) => Err(InferenceErrorView::ApiError("HTTP error: "@ + e)),
            Ok((status, body)) => if status != 200 {
                let shown = if valid_utf8(body) {
                    decode_utf8(body)
                } else {
                    "(binary)"@
                };
                Err(
                    InferenceErrorView::ApiError(
                        "HTTP "@ + decimal(status as nat) + " \u{2014} "@ + byte_prefix(shown, PREVIEW_BYTES as int),
                    ),
                )
            } else {
                match self.reply_text(body) {
                    Err(e) => Err(e),
                    Ok(text) => Ok(
                        ResponseView {
                            text,
                            tokens_generated: 0,
                            finish_reason: FinishReason::EndOfSequence,
                            backend_used: provider_text(self.provider) + " ("@ + self.model_id + ")"@,
                            latency_ms,
                        },
                    ),
                }
            },
        }
    }
}

/// The key never shows in what a backend answers: backends that differ in nothing but
/// the key answer every reply alike.
pub proof fn law_answer_hides_key(
    a: ApiView,
    b: ApiView,
    reply: Result<(u16, Seq<u8>), Seq<char>>,
    latency_ms: u64,
)
    requires
        a == (ApiView { api_key: a.api_key, ..b }),
    ensures
        a.answer(reply, latency_ms) == b.answer(reply, latency_ms),
{
}

impl ApiInferenceBackend {
    /// A backend with the given configuration.
    pub fn new(provider: ApiProvider, api_key: String, model_id: String, base_url: String) -> (r: Self)
        ensures
            r@ == (ApiView { provider, api_key: api_key@, model_id: model_id@, base_url: base_url@ }),
    {
        ApiInferenceBackend { provider, api_key, model_id, base_url }
    }

    /// The address for this service.
    pub fn build_url(&self) -> (r: String)
        ensures
            r@ == self@.url(),
    {
        match self.provider {
            ApiProvider::OpenAi => text("http://api.openai.com/v1/chat/completions"),
            ApiProvider::Anthropic => text("http://api.anthropic.com/v1/messages"),
            ApiProvider::Gemini => {
                let mut s = text("http://generativelanguage.googleapis.com/v1beta/models/");
                s.push_str(self.model_id.as_str());
                s.push_str(":generateContent?key=");
                s.push_str(self.api_key.as_str());
                s
            },
            ApiProvider::Custom => self.base_url.clone(),
        }
    }

    /// The headers for this service.
    pub fn build_headers(&self) -> (r: Vec<(String, String)>)
        ensures
            views(r@) == self@.headers(),
    {
        broadcast use group_views;

        let mut headers: Vec<(String, String)> = Vec::new();
        match self.provider {
            ApiProvider::OpenAi | ApiProvider::Custom => {
                let mut v = text("Bearer ");
                v.push_str(self.api_key.as_str());
                headers.push((text("Authorization"), v));
            },
            ApiProvider::Anthropic => {
                headers.push((text("x-api-key"), self.api_key.clone()));
                headers.push((text("anthropic-version"), text("2023-06-01")));
            },
            ApiProvider::Gemini => {},
        }
        assert(views(headers@) =~= self@.headers());
        headers
    }

    /// The body for this service. `temperature` is the request's temperature in decimal
    /// notation.
    pub fn build_body(&self, request: &InferenceRequest, temperature: &str) -> (r: Vec<u8>)
        ensures
            r@ == encode_utf8(self@.body(request@, temperature@)),
    {
        let prompt = escape(request.prompt.as_str());
        let limit = decimal_text(request.max_tokens as u64);
        let body = match self.provider {
            ApiProvider::OpenAi | ApiProvider::Custom => {
                let mut s = text("{\"model\":\"");
                s.push_str(self.model_id.as_str());
                s.push_str("\",\"messages\":[{\"role\":\"user\",\"content\":\"");
                s.push_str(prompt.as_str());
                s.push_str("\"}],\"max_tokens\":");
                s.push_str(limit.as_str());
                s.push_str(",\"temperature\":");
                s.push_str(temperature);
                s.push_str("}");
                s
            },
            ApiProvider::Anthropic => {
                let mut s = text("{\"model\":\"");
                s.push_str(self.model_id.as_str());
                s.push_str("\",\"max_tokens\":");
                s.push_str(limit.as_str());
                s.push_str(",\"messages\":[{\"role\":\"user\",\"content\":\"");
                s.push_str(prompt.as_str());
                s.push_str("\"}]}");
                s
            },
            ApiProvider::Gemini => {
                let mut s = text("{\"contents\":[{\"parts\":[{\"text\":\"");
                s.push_str(prompt.as_str());
                s.push_str("\"}]}]}");
                s
            },
        };
        vstd::slice::slice_to_vec(body.as_str().as_bytes())
    }

    /// The generated text of a reply.
    pub fn parse_response_text(&self, body: &[u8]) -> (r: Result<String, InferenceError>)
        ensures
            match r {
                Ok(s) => self@.reply_text(body@) == Ok::<Seq<char>, InferenceErrorView>(s@),
                Err(e) => self@.reply_text(body@) == Err::<Seq<char>, InferenceErrorView>(e@),
            },
    {
        let json = match utf8_text(body) {
            Some(s) => s,
            None => {
                return Err(InferenceError::ApiError(text("Invalid UTF-8 response")));
            },
        };
        let found = match self.provider {
            ApiProvider::OpenAi | ApiProvider::Custom => extract_json_string(json.as_str(), "\"content\":"),
            ApiProvider::Anthropic | ApiProvider::Gemini => extract_json_string(json.as_str(), "\"text\":"),
        };
        match found {
            Some(s) => Ok(s),
            None => {
                let mut e = text("Could not parse response: ");
                e.push_str(prefix_text(json.as_str(), PREVIEW_BYTES).as_str());
                Err(InferenceError::ApiError(e))
            },
        }
    }

    /// The service's name.
    pub fn provider_name(&self) -> (r: &'static str)
        ensures
            r@ == provider_text(self@.provider),
    {
        match self.provider {
            ApiProvider::OpenAi => "openai",
            ApiProvider::Anthropic => "anthropic",
            ApiProvider::Gemini => "gemini",
            ApiProvider::Custom => "custom",
        }
    }

    /// The model in use.
    pub fn name(&self) -> (r: &str)
        ensures
            r@ == self@.model_id,
    {
        self.model_id.as_str()
    }

    /// Whether requests can be handled: the network is up and there is a key.
    pub fn is_available(&self, network_ready: bool) -> (r: bool)
        ensures
            r == (network_ready && self@.api_key.len() > 0),
    {
        network_ready && !self.api_key.as_str().is_empty()
    }

    /// What to send for a request.
    pub fn prepare(&self, request: &InferenceRequest, temperature: &str, network_ready: bool) -> (r: Result<
        HttpCall,
        InferenceError,
    >)
        ensures
            match r {
                Ok(call) => {
                    &&& network_ready
                    &&& call.url@ == self@.url()
                    &&& views(call.headers@) == self@.headers()
                    &&& call.body@ == encode_utf8(self@.body(request@, temperature@))
                },
                Err(e) => !network_ready && e@ == InferenceErrorView::NetworkUnavailable,
            },
    {
        if !network_ready {
            return Err(InferenceError::NetworkUnavailable);
        }
        Ok(
            HttpCall {
                url: self.build_url(),
                headers: self.build_headers(),
                body: self.build_body(request, temperature),
            },
        )
    }

    /// What a reply is answered with: a status and a body, or why there is none.
    pub fn finish(&self, reply: Result<(u16, Vec<u8>), String>, latency_ms: u64) -> (r: Result<
        InferenceResponse,
        InferenceError,
    >)
        ensures
            ({
                let given = match reply {
                    Ok((status, body)) => Ok((status, body@)),
                    Err(e) => Err(e@),
                };
                match r {
                    Ok(resp) => self@.answer(given, latency_ms) == Ok::<ResponseView, InferenceErrorView>(resp@),
                    Err(e) => self@.answer(given, latency_ms) == Err::<ResponseView, InferenceErrorView>(e@),
                }
            }),
    {
        let (status, body) = match reply {
            Ok(sb) => sb,
            Err(e) => {
                let mut s = text("HTTP error: ");
                s.push_str(e.as_str());
                return Err(InferenceError::ApiError(s));
            },
        };
        if status != 200 {
            let shown = match utf8_text(body.as_slice()) {
                Some(s) => s,
                None => text("(binary)"),
            };
            let mut e = text("HTTP ");
            e.push_str(decimal_text(status as u64).as_str());
            e.push_str(" \u{2014} ");
            e.push_str(prefix_text(shown.as_str(), PREVIEW_BYTES).as_str());
            return Err(InferenceError::ApiError(e));
        }
        let reply_text = match self.parse_response_text(body.as_slice()) {
            Ok(s) => s,
            Err(e) => {
                return Err(e);
            },
        };
        let mut used = text(self.provider_name());
        used.push_str(" (");
        used.push_str(self.model_id.as_str());
        used.push_str(")");
        Ok(
            InferenceResponse {
                text: reply_text,
                tokens_generated: 0,
                finish_reason: FinishReason::EndOfSequence,
                backend_used: used,
                latency_ms,
            },
        )
    }
}

} // verus!
