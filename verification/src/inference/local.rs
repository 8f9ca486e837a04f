//! Backend for a model in memory.

use vstd::prelude::*;

use crate::inference::backend::{
    FinishReason, InferenceError, InferenceErrorView, InferenceRequest, InferenceResponse, ResponseView,
};
use crate::inference::gguf::{parsed_file, GgufFile, GgufView};
use crate::inference::tokenizer::{tokenizer_of, Tokenizer, TokenizerView};
use crate::inference::transformer::{
    counts_model, lacks_heads, model_countable, model_of, model_view, without_heads, GenAction, GenView, Generation,
    ModelConfig, StopCause, TransformerModel,
};
use crate::inference::tensor::Weight;
use crate::text::{contains, holds, text};
use crate::text_map::map_get;

verus! {

/// A model and its tokenizer.
pub struct LocalInferenceBackend {
    pub model: TransformerModel,
    pub tokenizer: Tokenizer,
    /// Model name, from the metadata.
    pub model_name: String,
}

/// The name of a model: from its metadata, else "unknown".
pub open spec fn model_name_of(g: GgufView) -> Seq<char> {
    match map_get(g.metadata, "general.name"@) {
        Some(v) => match v.text_value() {
            Some(s) => s,
            None => "unknown"@,
        },
        None => "unknown"@,
    }
}

/// The bytes are a file from which a model can be made.
pub open spec fn loadable(d: Seq<u8>) -> bool {
    parsed_file(d) matches Ok(g) && tokenizer_of(g) is Ok && model_of(d, g) is Ok
}

/// The tensors that loading looks at can be counted, and the embedding divided among
/// heads, so that loading is well defined.
pub open spec fn measurable(d: Seq<u8>) -> bool {
    parsed_file(d) matches Ok(g) ==> tokenizer_of(g) is Ok ==> !without_heads(g.metadata) && model_countable(d, g)
}

/// Whether loading the bytes is well defined.
pub fn is_measurable(data: &[u8]) -> (r: bool)
    ensures
        r == measurable(data@),
{
    let gguf = match GgufFile::parse(data) {
        Ok(g) => g,
        Err(_) => {
            return true;
        },
    };
    match Tokenizer::from_gguf(&gguf) {
        Ok(_) => !lacks_heads(&gguf) && counts_model(&gguf),
        Err(_) => true,
    }
}

/// The stop tokens of a request: the end of a sequence, and each stop sequence that is
/// a single token.
pub open spec fn stop_ids(t: TokenizerView, stops: Seq<Seq<char>>, n: int) -> Seq<u32>
    decreases n,
{
    if n <= 0 {
        seq![t.eos_id]
    } else if t.encoded(stops[n - 1]).len() == 1 {
        stop_ids(t, stops, n - 1).push(t.encoded(stops[n - 1])[0])
    } else {
        stop_ids(t, stops, n - 1)
    }
}

/// Why a generation finished: the limit, a requested stop sequence, or by itself.
pub open spec fn reason_for(count: int, max_tokens: int, cause: StopCause, eos_id: u32) -> FinishReason {
    if count >= max_tokens {
        FinishReason::MaxTokens
    } else {
        match cause {
            StopCause::Token(t) => if t == eos_id {
                FinishReason::EndOfSequence
            } else {
                FinishReason::StopSequence
            },
            StopCause::Sequence => FinishReason::StopSequence,
            _ => FinishReason::EndOfSequence,
        }
    }
}

/// One of the stop sequences stands in a text. An empty sequence never does.
pub open spec fn stop_appears(s: Seq<char>, stops: Seq<Seq<char>>) -> bool {
    exists|i: int| 0 <= i < stops.len() && (#[trigger] stops[i]).len() > 0 && contains(s, stops[i])
}

/// The loop after a sampled token: it goes on as the loop says, unless the text so far
/// holds a stop sequence.
pub open spec fn continued(g: GenView, t: TokenizerView, stops: Seq<Seq<char>>, token: u32) -> (GenView, GenAction) {
    let (next, action) = g.offered(token);
    if action is Forward && stop_appears(t.decoded(next.output), stops) {
        next.halted()
    } else {
        (next, action)
    }
}

/// No token is run once the output holds a stop sequence.
pub proof fn law_stop_sequence_ends(g: GenView, t: TokenizerView, stops: Seq<Seq<char>>, token: u32, i: int)
    requires
        0 <= i < stops.len(),
        stops[i].len() > 0,
        contains(t.decoded(g.offered(token).0.output), stops[i]),
    ensures
        continued(g, t, stops, token).1 == GenAction::Finish,
{
}

impl LocalInferenceBackend {
    /// Attempt to load a local model. None is embedded, so there is none to load.
    pub fn try_load() -> (r: Result<Self, InferenceError>)
        ensures
            r matches Err(e) && e@ == InferenceErrorView::NoLocalModel,
    {
        Err(InferenceError::NoLocalModel)
    }

    /// Load a model from the bytes of a file.
    pub fn from_gguf_bytes(data: &[u8]) -> (r: Result<Self, InferenceError>)
        requires
            measurable(data@),
        ensures
            match r {
                Ok(b) => {
                    &&& parsed_file(data@) matches Ok(g)
                    &&& tokenizer_of(g) == Ok::<TokenizerView, Seq<char>>(b.tokenizer@)
                    &&& model_of(data@, g) == Ok::<
                        (ModelConfig, Seq<Seq<Weight>>, Option<Seq<Weight>>),
                        Seq<char>,
                    >(model_view(b.model))
                    &&& b.model_name@ == model_name_of(g)
                },
                Err(e) => !loadable(data@) && e@ == InferenceErrorView::ModelLoadFailed,
            },
    {
        let gguf = match GgufFile::parse(data) {
            Ok(g) => g,
            Err(_) => {
                return Err(InferenceError::ModelLoadFailed);
            },
        };
        let model_name = match gguf.meta_str("general.name") {
            Some(s) => text(s),
            None => text("unknown"),
        };
        let tokenizer = match Tokenizer::from_gguf(&gguf) {
            Ok(t) => t,
            Err(_) => {
                return Err(InferenceError::ModelLoadFailed);
            },
        };
        let model = match TransformerModel::from_gguf(&gguf) {
            Ok(m) => m,
            Err(_) => {
                return Err(InferenceError::ModelLoadFailed);
            },
        };
        Ok(LocalInferenceBackend { model, tokenizer, model_name })
    }

    /// The tokens of a request's prompt: the beginning of a sequence, then the prompt.
    pub fn prompt_tokens(&self, request: &InferenceRequest) -> (r: Vec<u32>)
        ensures
            r@ == seq![self.tokenizer@.bos_id] + self.tokenizer@.encoded(request@.prompt),
    {
        let mut tokens: Vec<u32> = Vec::new();
        tokens.push(self.tokenizer.bos());
        let mut more = self.tokenizer.encode(request.prompt.as_str());
        tokens.append(&mut more);
        assert(tokens@ =~= seq![self.tokenizer@.bos_id] + self.tokenizer@.encoded(request@.prompt));
        tokens
    }

    /// The stop tokens of a request.
    pub fn stop_tokens(&self, request: &InferenceRequest) -> (r: Vec<u32>)
        ensures
            r@ == stop_ids(
                self.tokenizer@,
                request@.stop_sequences,
                request@.stop_sequences.len() as int,
            ),
    {
        let mut ids: Vec<u32> = Vec::new();
        ids.push(self.tokenizer.eos());
        assert(ids@ =~= seq![self.tokenizer@.eos_id]);
        let mut i: usize = 0;
        while i < request.stop_sequences.len()
            invariant
                i <= request.stop_sequences@.len(),
                ids@ == stop_ids(self.tokenizer@, request@.stop_sequences, i as int),
            decreases request.stop_sequences@.len() - i,
        {
            let encoded = self.tokenizer.encode(request.stop_sequences[i].as_str());
            if encoded.len() == 1 {
                ids.push(encoded[0]);
            }
            i += 1;
        }
        ids
    }

    /// Whether a stop sequence of a request stands in a text.
    fn has_stop(request: &InferenceRequest, s: &str) -> (r: bool)
        ensures
            r == stop_appears(s@, request@.stop_sequences),
    {
        let ghost stops = request@.stop_sequences;
        let mut i: usize = 0;
        while i < request.stop_sequences.len()
            invariant
                stops == request@.stop_sequences,
                i <= request.stop_sequences@.len(),
                forall|j: int| 0 <= j < i ==> !((#[trigger] stops[j]).len() > 0 && contains(s@, stops[j])),
            decreases request.stop_sequences@.len() - i,
        {
            let stop = request.stop_sequences[i].as_str();
            assert(stop@ == stops[i as int]);
            if !stop.is_empty() && holds(s, stop) {
                return true;
            }
            i += 1;
        }
        false
    }

    /// Take a sampled token into a generation for a request.
    pub fn sampled(&self, request: &InferenceRequest, generation: &mut Generation, token: u32) -> (r: GenAction)
        requires
            old(generation)@.wf(),
        ensures
            (final(generation)@, r) == continued(
                old(generation)@,
                self.tokenizer@,
                request@.stop_sequences,
                token,
            ),
            final(generation)@.wf(),
    {
        let action = generation.sampled(token);
        match action {
            GenAction::Forward(_) => {
                let so_far = self.tokenizer.decode(generation.output().as_slice());
                if Self::has_stop(request, so_far.as_str()) {
                    generation.stopped()
                } else {
                    action
                }
            },
            _ => action,
        }
    }

    /// The response for the generated tokens.
    pub fn finish(
        &self,
        request: &InferenceRequest,
        output: &Vec<u32>,
        cause: StopCause,
        latency_ms: u64,
    ) -> (r: InferenceResponse)
        ensures
            r@ == (ResponseView {
                text: self.tokenizer@.decoded(output@),
                tokens_generated: output.len(),
                finish_reason: reason_for(
                    output@.len() as int,
                    request@.max_tokens as int,
                    cause,
                    self.tokenizer@.eos_id,
                ),
                backend_used: "local ("@ + self.model_name@ + ")"@,
                latency_ms,
            }),
    {
        let decoded = self.tokenizer.decode(output.as_slice());
        let finish_reason = if output.len() >= request.max_tokens {
            FinishReason::MaxTokens
        } else {
            match cause {
                StopCause::Token(t) => if t == self.tokenizer.eos() {
                    FinishReason::EndOfSequence
                } else {
                    FinishReason::StopSequence
                },
                StopCause::Sequence => FinishReason::StopSequence,
                _ => FinishReason::EndOfSequence,
            }
        };
        let mut used = text("local (");
        used.push_str(self.model_name.as_str());
        used.push_str(")");
        InferenceResponse {
            text: decoded,
            tokens_generated: output.len(),
            finish_reason,
            backend_used: used,
            latency_ms,
        }
    }

    /// Model name.
    pub fn name(&self) -> (r: &str)
        ensures
            r@ == self.model_name@,
    {
        self.model_name.as_str()
    }

    /// A loaded model can always be used.
    pub fn is_available(&self) -> (r: bool)
        ensures
            r,
    {
        true
    }
}

} // verus!
