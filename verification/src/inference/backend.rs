//! Requests, responses and errors that all backends share.

use vstd::prelude::*;

use crate::intent_bus::payloads::{
    encode_prompt, encode_reply, parse_prompt, parse_reply, postcard_prompt, postcard_reply, text_fits, text_is_held,
    texts_are_held, texts_fit, wire_prompt, wire_reply, Payload,
};
use crate::text::text;
use crate::views::views;

verus! {

/// A request for text generation, the payload of "inference.generate".
#[derive(Debug)]
pub struct InferenceRequest {
    /// The full prompt.
    pub prompt: String,
    /// Maximum tokens to generate.
    pub max_tokens: usize,
    /// Sampling temperature, by its bits.
    pub temperature: u32,
    /// Generation stops at any of these.
    pub stop_sequences: Vec<String>,
}

/// What a request holds.
#[verifier::ext_equal]
pub struct RequestView {
    pub prompt: Seq<char>,
    pub max_tokens: usize,
    pub temperature: u32,
    pub stop_sequences: Seq<Seq<char>>,
}

impl View for InferenceRequest {
    type V = RequestView;

    open spec fn view(&self) -> RequestView {
        RequestView {
            prompt: self.prompt@,
            max_tokens: self.max_tokens,
            temperature: self.temperature,
            stop_sequences: views(self.stop_sequences@),
        }
    }
}

/// The bytes of a number, lowest first.
pub open spec fn bytes_of(n: u32) -> Seq<u8> {
    seq![
        (n % 0x100) as u8,
        (n / 0x100 % 0x100) as u8,
        (n / 0x1_0000 % 0x100) as u8,
        (n / 0x100_0000) as u8,
    ]
}

/// The number that four bytes stand for, lowest first.
pub open spec fn number_of(b: Seq<u8>) -> u32 {
    (b[0] + b[1] * 0x100 + b[2] * 0x1_0000 + b[3] * 0x100_0000) as u32
}

impl Payload for InferenceRequest {
    open spec fn wire(v: RequestView) -> Seq<u8> {
        wire_prompt(v.prompt, v.max_tokens, bytes_of(v.temperature), v.stop_sequences)
    }

    open spec fn parsed(bytes: Seq<u8>) -> Option<RequestView> {
        match postcard_prompt(bytes) {
            Some(t) => Some(
                RequestView {
                    prompt: t.0,
                    max_tokens: t.1,
                    temperature: number_of(t.2),
                    stop_sequences: t.3,
                },
            ),
            None => None,
        }
    }

    open spec fn sound(v: RequestView) -> bool {
        text_fits(v.prompt) && texts_fit(v.stop_sequences)
    }

    fn encode(&self) -> (r: Vec<u8>) {
        text_is_held(&self.prompt);
        texts_are_held(&self.stop_sequences);
        let t = self.temperature;
        let four: [u8; 4] = [
            (t % 0x100) as u8,
            (t / 0x100 % 0x100) as u8,
            (t / 0x1_0000 % 0x100) as u8,
            (t / 0x100_0000) as u8,
        ];
        assert(four@ =~= bytes_of(t));
        encode_prompt(&self.prompt, self.max_tokens, four, &self.stop_sequences)
    }

    fn parse(bytes: &[u8]) -> (r: Option<Self>) {
        match parse_prompt(bytes) {
            Some((prompt, max_tokens, four, stop_sequences)) => {
                let temperature = four[0] as u32 + four[1] as u32 * 0x100 + four[2] as u32 * 0x1_0000 + four[3] as u32
                    * 0x100_0000;
                let out = InferenceRequest { prompt, max_tokens, temperature, stop_sequences };
                Some(out)
            },
            None => None,
        }
    }
}

/// Why generation stopped.
#[derive(Debug, Clone, Copy, PartialEq, Eq, Structural)]
pub enum FinishReason {
    /// A requested stop sequence was hit.
    StopSequence,
    /// The limit of tokens was reached.
    MaxTokens,
    /// The model ended by itself.
    EndOfSequence,
}

impl FinishReason {
    /// The number that stands for the reason in a message.
    pub open spec fn index(self) -> u32 {
        match self {
            FinishReason::StopSequence => 0,
            FinishReason::MaxTokens => 1,
            FinishReason::EndOfSequence => 2,
        }
    }
}

/// The reason that a number stands for.
pub open spec fn reason_of(index: u32) -> Option<FinishReason> {
    if index == 0 {
        Some(FinishReason::StopSequence)
    } else if index == 1 {
        Some(FinishReason::MaxTokens)
    } else if index == 2 {
        Some(FinishReason::EndOfSequence)
    } else {
        None
    }
}

/// The result of text generation, the payload of "inference.generate.response".
#[derive(Debug)]
pub struct InferenceResponse {
    /// The generated text.
    pub text: String,
    /// Number of tokens generated.
    pub tokens_generated: usize,
    /// Why generation stopped.
    pub finish_reason: FinishReason,
    /// Which backend handled the request.
    pub backend_used: String,
    /// Latency in milliseconds.
    pub latency_ms: u64,
}

/// What a response holds.
#[verifier::ext_equal]
pub struct ResponseView {
    pub text: Seq<char>,
    pub tokens_generated: usize,
    pub finish_reason: FinishReason,
    pub backend_used: Seq<char>,
    pub latency_ms: u64,
}

impl View for InferenceResponse {
    type V = ResponseView;

    open spec fn view(&self) -> ResponseView {
        ResponseView {
            text: self.text@,
            tokens_generated: self.tokens_generated,
            finish_reason: self.finish_reason,
            backend_used: self.backend_used@,
            latency_ms: self.latency_ms,
        }
    }
}

impl Payload for InferenceResponse {
    open spec fn wire(v: ResponseView) -> Seq<u8> {
        wire_reply(v.text, v.tokens_generated, v.finish_reason.index(), v.backend_used, v.latency_ms)
    }

    open spec fn parsed(bytes: Seq<u8>) -> Option<ResponseView> {
        match postcard_reply(bytes) {
            Some(t) => match reason_of(t.2) {
                Some(finish_reason) => Some(
                    ResponseView {
                        text: t.0,
                        tokens_generated: t.1,
                        finish_reason,
                        backend_used: t.3,
                        latency_ms: t.4,
                    },
                ),
                None => None,
            },
            None => None,
        }
    }

    open spec fn sound(v: ResponseView) -> bool {
        text_fits(v.text) && text_fits(v.backend_used)
    }

    fn encode(&self) -> (r: Vec<u8>) {
        text_is_held(&self.text);
        text_is_held(&self.backend_used);
        let index: u32 = match self.finish_reason {
            FinishReason::StopSequence => 0,
            FinishReason::MaxTokens => 1,
            FinishReason::EndOfSequence => 2,
        };
        encode_reply(&self.text, self.tokens_generated, index, &self.backend_used, self.latency_ms)
    }

    fn parse(bytes: &[u8]) -> (r: Option<Self>) {
        match parse_reply(bytes) {
            Some((text, tokens_generated, index, backend_used, latency_ms)) => {
                let finish_reason = if index == 0 {
                    FinishReason::StopSequence
                } else if index == 1 {
                    FinishReason::MaxTokens
                } else if index == 2 {
                    FinishReason::EndOfSequence
                } else {
                    return None;
                };
                Some(InferenceResponse { text, tokens_generated, finish_reason, backend_used, latency_ms })
            },
            None => None,
        }
    }
}

/// Errors of inference.
#[derive(Debug)]
pub enum InferenceError {
    /// No local model file found.
    NoLocalModel,
    /// Network stack not initialized or unreachable.
    NetworkUnavailable,
    /// The service returned an error.
    ApiError(String),
    /// The local model could not be loaded.
    ModelLoadFailed,
    /// The request was malformed.
    InvalidRequest,
    /// Inference took too long.
    Timeout,
}

/// What an error holds.
pub enum InferenceErrorView {
    NoLocalModel,
    NetworkUnavailable,
    ApiError(Seq<char>),
    ModelLoadFailed,
    InvalidRequest,
    Timeout,
}

impl View for InferenceError {
    type V = InferenceErrorView;

    open spec fn view(&self) -> InferenceErrorView {
        match self {
            InferenceError::NoLocalModel => InferenceErrorView::NoLocalModel,
            InferenceError::NetworkUnavailable => InferenceErrorView::NetworkUnavailable,
            InferenceError::ApiError(e) => InferenceErrorView::ApiError(e@),
            InferenceError::ModelLoadFailed => InferenceErrorView::ModelLoadFailed,
            InferenceError::InvalidRequest => InferenceErrorView::InvalidRequest,
            InferenceError::Timeout => InferenceErrorView::Timeout,
        }
    }
}

/// The text that an error is shown as.
pub open spec fn error_text(e: InferenceErrorView) -> Seq<char> {
    match e {
        InferenceErrorView::NoLocalModel => "No local model found. Use 'settings' to configure a cloud API."@,
        InferenceErrorView::NetworkUnavailable => "Network unavailable"@,
        InferenceErrorView::ApiError(e) => "API error: "@ + e,
        InferenceErrorView::ModelLoadFailed => "Model load failed"@,
        InferenceErrorView::InvalidRequest => "Invalid inference request"@,
        InferenceErrorView::Timeout => "Inference timed out"@,
    }
}

impl InferenceError {
    /// The text that the error is shown as.
    pub fn message(&self) -> (r: String)
        ensures
            r@ == error_text(self@),
    {
        match self {
            InferenceError::NoLocalModel => text("No local model found. Use 'settings' to configure a cloud API."),
            InferenceError::NetworkUnavailable => text("Network unavailable"),
            InferenceError::ApiError(e) => {
                let mut s = text("API error: ");
                s.push_str(e.as_str());
                s
            },
            InferenceError::ModelLoadFailed => text("Model load failed"),
            InferenceError::InvalidRequest => text("Invalid inference request"),
            InferenceError::Timeout => text("Inference timed out"),
        }
    }
}

} // verus!
