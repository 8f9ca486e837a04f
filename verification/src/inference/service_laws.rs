//! What holds of the way from a request to its answer: which backend takes it, when a
//! generation ends, and who gets the answer.

use vstd::prelude::*;

use crate::inference::api::ApiProvider;
use crate::inference::backend::{
    error_text, FinishReason, InferenceErrorView, InferenceRequest, InferenceResponse, RequestView, ResponseView,
};
use crate::inference::local::{continued, reason_for, stop_ids};
use crate::inference::router::{answered, begun, route_of, taken_from, RouteView, TakenView};
use crate::inference::settings::SettingsView;
use crate::inference::tokenizer::TokenizerView;
use crate::inference::transformer::{GenAction, GenView, StopCause};
use crate::intent_bus::bus::{any_matches, BusState};
use crate::intent_bus::intent::IntentView;
use crate::intent_bus::payloads::Payload;
use crate::text::contains;
use crate::text_laws::law_inserted_is_found;

verus! {

// ---------------------------------------------------------------------------
// Backends
// ---------------------------------------------------------------------------

/// Before anything is configured, and where "local" is, the model in memory takes requests;
/// where there is none, this is told.
pub proof fn law_local_model_is_used(s: SettingsView, loaded: bool, network_ready: bool)
    requires
        s.backend.len() == 0 || s.backend == "local"@,
    ensures
        loaded ==> route_of(s, loaded, network_ready) is Local,
        !loaded ==> route_of(s, loaded, network_ready) == RouteView::Refused(InferenceErrorView::NoLocalModel),
{
    reveal_strlit("local");
}

/// The names of services.
proof fn lemma_service_names()
    ensures
        "openai"@.len() == 6,
        "anthropic"@.len() == 9,
        "gemini"@.len() == 6,
        "custom"@.len() == 6,
        "local"@.len() == 5,
        "openai"@[0] == 'o',
        "gemini"@[0] == 'g',
        "custom"@[0] == 'c',
{
    reveal_strlit("openai");
    reveal_strlit("anthropic");
    reveal_strlit("gemini");
    reveal_strlit("custom");
    reveal_strlit("local");
}

/// A service that is configured by its name takes requests, with the key, the model and
/// the address that are configured; a model that is not configured is the service's usual
/// one.
pub proof fn law_service_is_used(s: SettingsView, loaded: bool)
    requires
        s.backend == "openai"@ || s.backend == "anthropic"@ || s.backend == "gemini"@ || s.backend == "custom"@,
        s.api_key.len() > 0,
    ensures
        route_of(s, loaded, true) matches RouteView::Service(v) && {
            &&& v.api_key == s.api_key
            &&& v.base_url == s.base_url
            &&& s.model_id.len() > 0 ==> v.model_id == s.model_id
            &&& s.backend == "openai"@ ==> v.provider == ApiProvider::OpenAi && (s.model_id.len() == 0 ==> v.model_id
                == "gpt-4o"@)
            &&& s.backend == "anthropic"@ ==> v.provider == ApiProvider::Anthropic && (s.model_id.len() == 0 ==> v.model_id
                == s.anthropic_model)
            &&& s.backend == "gemini"@ ==> v.provider == ApiProvider::Gemini && (s.model_id.len() == 0 ==> v.model_id
                == "gemini-pro"@)
            &&& s.backend == "custom"@ ==> v.provider == ApiProvider::Custom && (s.model_id.len() == 0 ==> v.model_id
                == "default"@)
        },
{
    lemma_service_names();
}

/// Without a network or a key no service is asked, and a name that is none is told.
pub proof fn law_no_service_without_key(s: SettingsView, loaded: bool, network_ready: bool)
    requires
        s.backend.len() > 0,
        s.backend != "local"@,
    ensures
        !network_ready || s.api_key.len() == 0 ==> route_of(s, loaded, network_ready) is Refused,
        s.backend != "openai"@ && s.backend != "anthropic"@ && s.backend != "gemini"@ && s.backend != "custom"@ ==> (
        route_of(s, loaded, network_ready) matches RouteView::Refused(InferenceErrorView::ApiError(e)) && contains(
            e,
            s.backend,
        )),
{
    let a = "Unknown backend: '"@;
    law_inserted_is_found(a, s.backend, "'"@);
}

// ---------------------------------------------------------------------------
// Local generation
// ---------------------------------------------------------------------------

/// A generation stops at the token that ends a sequence and at every stop sequence that is
/// one token, and at no other token.
pub proof fn law_stop_tokens(t: TokenizerView, stops: Seq<Seq<char>>)
    ensures
        stop_ids(t, stops, stops.len() as int).contains(t.eos_id),
        forall|i: int|
            0 <= i < stops.len() && t.encoded(#[trigger] stops[i]).len() == 1 ==> stop_ids(
                t,
                stops,
                stops.len() as int,
            ).contains(t.encoded(stops[i])[0]),
        forall|id: u32| #[trigger]
            stop_ids(t, stops, stops.len() as int).contains(id) ==> id == t.eos_id || exists|i: int|
                0 <= i < stops.len() && t.encoded(#[trigger] stops[i]) == seq![id],
{
    lemma_stop_tokens(t, stops, stops.len() as int);
}

proof fn lemma_stop_tokens(t: TokenizerView, stops: Seq<Seq<char>>, n: int)
    requires
        0 <= n <= stops.len(),
    ensures
        stop_ids(t, stops, n).contains(t.eos_id),
        forall|i: int|
            0 <= i < n && t.encoded(#[trigger] stops[i]).len() == 1 ==> stop_ids(t, stops, n).contains(
                t.encoded(stops[i])[0],
            ),
        forall|id: u32| #[trigger]
            stop_ids(t, stops, n).contains(id) ==> id == t.eos_id || exists|i: int|
                0 <= i < n && t.encoded(#[trigger] stops[i]) == seq![id],
    decreases n,
{
    let all = stop_ids(t, stops, n);
    if n == 0 {
        assert(all[0] == t.eos_id);
    } else {
        lemma_stop_tokens(t, stops, n - 1);
        let before = stop_ids(t, stops, n - 1);
        let e = t.encoded(stops[n - 1]);
        let k = choose|k: int| 0 <= k < before.len() && before[k] == t.eos_id;
        assert(all[k] == t.eos_id);
        assert forall|i: int| 0 <= i < n && t.encoded(#[trigger] stops[i]).len() == 1 implies all.contains(
            t.encoded(stops[i])[0],
        ) by {
            if i < n - 1 {
                let k = choose|k: int| 0 <= k < before.len() && before[k] == t.encoded(stops[i])[0];
                assert(all[k] == before[k]);
            } else {
                assert(all[all.len() - 1] == e[0]);
            }
        }
        assert forall|id: u32| #[trigger] all.contains(id) implies id == t.eos_id || exists|i: int|
            0 <= i < n && t.encoded(#[trigger] stops[i]) == seq![id] by {
            let k = choose|k: int| 0 <= k < all.len() && all[k] == id;
            if k < before.len() {
                assert(before.contains(id)) by {
                    assert(before[k] == id);
                }
                if id != t.eos_id {
                    let i = choose|i: int| 0 <= i < n - 1 && t.encoded(#[trigger] stops[i]) == seq![id];
                    assert(t.encoded(stops[i]) == seq![id]);
                }
            } else {
                assert(t.encoded(stops[n - 1]) =~= seq![id]);
            }
        }
    }
}

/// A token that ends nothing is run next, and a stop sequence in the text ends the
/// generation with that token as the last one.
pub proof fn law_generation_goes_on(g: GenView, t: TokenizerView, stops: Seq<Seq<char>>, token: u32)
    requires
        g.left > 0,
        !g.stop_tokens.contains(token),
        g.runs < g.max_seq_len,
    ensures
        (forall|i: int|
            0 <= i < stops.len() && (#[trigger] stops[i]).len() > 0 ==> !contains(
                t.decoded(g.output.push(token)),
                stops[i],
            )) ==> continued(g, t, stops, token).1 == GenAction::Forward(token),
        (exists|i: int|
            0 <= i < stops.len() && (#[trigger] stops[i]).len() > 0 && contains(
                t.decoded(g.output.push(token)),
                stops[i],
            )) ==> continued(g, t, stops, token).1 == GenAction::Finish && continued(g, t, stops, token).0.cause
            == StopCause::Sequence,
        continued(g, t, stops, token).0.output == g.output.push(token),
{
}

/// Why a generation ended is told: at the wanted number of tokens, at a stop that was asked
/// for, or by itself.
pub proof fn law_reason_is_told(count: int, max_tokens: int, eos_id: u32, token: u32)
    ensures
        count >= max_tokens ==> reason_for(count, max_tokens, StopCause::Token(token), eos_id) == FinishReason::MaxTokens,
        count < max_tokens ==> reason_for(count, max_tokens, StopCause::Token(eos_id), eos_id)
            == FinishReason::EndOfSequence,
        count < max_tokens && token != eos_id ==> reason_for(count, max_tokens, StopCause::Token(token), eos_id)
            == FinishReason::StopSequence,
        count < max_tokens ==> reason_for(count, max_tokens, StopCause::Sequence, eos_id) == FinishReason::StopSequence,
        count < max_tokens ==> reason_for(count, max_tokens, StopCause::Context, eos_id) == FinishReason::EndOfSequence,
{
}

// ---------------------------------------------------------------------------
// Answers
// ---------------------------------------------------------------------------

/// Whoever listens for answers to a request finds the whole response as the newest intent
/// in the inbox; where the request failed, the text of the error.
pub proof fn law_answer_is_delivered(
    bus: BusState,
    name: Seq<char>,
    intent: IntentView,
    result: Result<ResponseView, InferenceErrorView>,
    i: int,
)
    requires
        0 <= i < bus.subscribers.len(),
        any_matches(intent.semantic_type + ".response"@, bus.subscribers[i].subscriptions),
    ensures
        ({
            let after = answered(bus, name, intent, result);
            let got = after.subscribers[i].inbox.last();
            &&& after.subscribers.len() == bus.subscribers.len()
            &&& after.subscribers[i].inbox.len() > 0
            &&& got.reply_to == Some(intent.id)
            &&& got.semantic_type == intent.semantic_type + ".response"@
            &&& result matches Ok(r) ==> got.payload == InferenceResponse::wire(r)
            &&& result matches Err(e) ==> got.payload == String::wire(error_text(e))
        }),
{
}

/// A request that waits is taken as what it says; another intent is not.
pub proof fn law_request_is_taken(bus: BusState, name: Seq<char>, intent: IntentView, request: RequestView)
    requires
        bus.received(name) == Some(intent),
        intent.semantic_type == "inference.generate"@,
        InferenceRequest::parsed(intent.payload) == Some(request),
    ensures
        taken_from(bus, name) == TakenView::Request(intent, request),
        begun(bus, name).subscribers.len() == bus.after_recv(name).subscribers.len(),
{
}

/// Different errors are told in different words, and what a service said is among them.
pub proof fn law_errors_are_told(e: Seq<char>)
    ensures
        contains(error_text(InferenceErrorView::ApiError(e)), e),
        error_text(InferenceErrorView::NoLocalModel) != error_text(InferenceErrorView::NetworkUnavailable),
        error_text(InferenceErrorView::NoLocalModel) != error_text(InferenceErrorView::ModelLoadFailed),
        error_text(InferenceErrorView::NetworkUnavailable) != error_text(InferenceErrorView::ModelLoadFailed),
        error_text(InferenceErrorView::Timeout) != error_text(InferenceErrorView::InvalidRequest),
{
    reveal_strlit("No local model found. Use 'settings' to configure a cloud API.");
    reveal_strlit("Network unavailable");
    reveal_strlit("Model load failed");
    reveal_strlit("Inference timed out");
    reveal_strlit("Invalid inference request");
    let n = Seq::<char>::empty();
    assert("API error: "@ + e =~= "API error: "@ + e + n);
    law_inserted_is_found("API error: "@, e, n);
    assert("No local model found. Use 'settings' to configure a cloud API."@.len() > 30);
    assert("Network unavailable"@.len() == 19);
    assert("Model load failed"@.len() == 17);
    assert("Inference timed out"@.len() == 19);
    assert("Invalid inference request"@.len() == 25);
}

} // verus!
