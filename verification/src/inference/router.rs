//! The inference router: takes requests from the bus, picks the backend, and answers.
//!
//! Running a backend takes the network or floating-point work, so a turn has two halves:
//! `begin` takes a request, and `answer` sends what came of it.

use vstd::prelude::*;

use crate::inference::api::{law_answer_hides_key, ApiInferenceBackend, ApiView};
use crate::inference::backend::{
    error_text, InferenceError, InferenceErrorView, InferenceRequest, InferenceResponse, RequestView, ResponseView,
};
use crate::inference::local::LocalInferenceBackend;
use crate::inference::settings::{
    backend_in_use, get_api_settings, get_current_backend, model_in_use, provider_of, InferenceSettings, SettingsView,
};
use crate::intent_bus::bus::{BusState, IntentBus};
use crate::intent_bus::intent::{answer_to, fresh_intent, type_matches, Intent, IntentView};
use crate::intent_bus::payloads::{GlassBoxUpdate, GlassBoxUpdateView, Payload};
use crate::sart::agent::{AgentContext, CognitivePriority};
use crate::text::{decimal, decimal_text, text, text_eq};

verus! {

/// How a request is handled.
pub enum Route {
    /// By the model in memory.
    Local,
    /// By a service.
    Service(ApiInferenceBackend),
    /// Not at all.
    Refused(InferenceError),
}

/// What a route holds.
pub enum RouteView {
    Local,
    Service(ApiView),
    Refused(InferenceErrorView),
}

impl View for Route {
    type V = RouteView;

    open spec fn view(&self) -> RouteView {
        match self {
            Route::Local => RouteView::Local,
            Route::Service(b) => RouteView::Service(b@),
            Route::Refused(e) => RouteView::Refused(e@),
        }
    }
}

/// The name of a backend that is a service.
pub open spec fn is_service(name: Seq<char>) -> bool {
    name == "openai"@ || name == "anthropic"@ || name == "gemini"@ || name == "custom"@
}

/// The route that the settings give: the local model where it is loaded; a service
/// where the network is up and there is a key; else an error.
pub open spec fn route_of(s: SettingsView, local_loaded: bool, network_ready: bool) -> RouteView {
    let name = backend_in_use(s);
    if name == "local"@ {
        if local_loaded {
            RouteView::Local
        } else {
            RouteView::Refused(InferenceErrorView::NoLocalModel)
        }
    } else if is_service(name) {
        if network_ready && s.api_key.len() > 0 {
            RouteView::Service(
                ApiView {
                    provider: provider_of(name),
                    api_key: s.api_key,
                    model_id: model_in_use(s, provider_of(name)),
                    base_url: s.base_url,
                },
            )
        } else {
            RouteView::Refused(InferenceErrorView::NetworkUnavailable)
        }
    } else {
        RouteView::Refused(InferenceErrorView::ApiError("Unknown backend: '"@ + name + "'"@))
    }
}

/// What the first half of a turn found.
pub enum Taken {
    /// No intent was waiting.
    Nothing,
    /// An intent was waiting that is no request.
    Skipped,
    /// A request was waiting that cannot be read.
    Unreadable,
    /// A request, with the intent that carried it.
    Request(Intent, InferenceRequest),
}

/// What the first half of a turn holds.
pub enum TakenView {
    Nothing,
    Skipped,
    Unreadable,
    Request(IntentView, RequestView),
}

impl View for Taken {
    type V = TakenView;

    open spec fn view(&self) -> TakenView {
        match self {
            Taken::Nothing => TakenView::Nothing,
            Taken::Skipped => TakenView::Skipped,
            Taken::Unreadable => TakenView::Unreadable,
            Taken::Request(i, r) => TakenView::Request(i@, r@),
        }
    }
}

/// What the router finds on the bus.
pub open spec fn taken_from(bus: BusState, name: Seq<char>) -> TakenView {
    match bus.received(name) {
        None => TakenView::Nothing,
        Some(intent) => if !type_matches(intent.semantic_type, "inference.generate"@) {
            TakenView::Skipped
        } else {
            match InferenceRequest::parsed(intent.payload) {
                None => TakenView::Unreadable,
                Some(request) => TakenView::Request(intent, request),
            }
        },
    }
}

/// The intent that publishes one entry of the engine's state.
pub open spec fn state_entry(key: Seq<char>, value: Seq<char>) -> IntentView {
    fresh_intent(
        "glass-box.update"@,
        "inference-engine"@,
        GlassBoxUpdate::wire(GlassBoxUpdateView { module: "inference-engine"@, key, value }),
    )
}

/// The bus after the first half of a turn: the intent has left the inbox, and where it
/// was a request the state says that work goes on.
pub open spec fn begun(bus: BusState, name: Seq<char>) -> BusState {
    let after = bus.after_recv(name);
    if taken_from(bus, name) is Request {
        after.sent_by(name, state_entry("status"@, "generating..."@))
    } else {
        after
    }
}

/// The bus after the second half of a turn: a response is published by its backend and
/// latency, never by its content, and sent to the requester; an error is published and
/// sent as a text.
pub open spec fn answered(
    bus: BusState,
    name: Seq<char>,
    intent: IntentView,
    result: Result<ResponseView, InferenceErrorView>,
) -> BusState {
    match result {
        Ok(r) => bus.sent_by(name, state_entry("last_backend"@, r.backend_used)).sent_by(
            name,
            state_entry("last_latency_ms"@, decimal(r.latency_ms as nat)),
        ).sent_by(name, state_entry("status"@, "idle"@)).sent_by(
            name,
            answer_to(intent, "inference-engine"@, InferenceResponse::wire(r)),
        ),
        Err(e) => bus.sent_by(name, state_entry("status"@, "error: "@ + error_text(e))).sent_by(
            name,
            answer_to(intent, "inference-engine"@, String::wire(error_text(e))),
        ),
    }
}

/// Every request is answered: the last intent that a turn sends is the answer to it, in
/// the audit log under the request's id.
pub proof fn law_request_is_answered(
    bus: BusState,
    name: Seq<char>,
    intent: IntentView,
    result: Result<ResponseView, InferenceErrorView>,
)
    ensures
        answered(bus, name, intent, result).audit.len() > 0,
        answered(bus, name, intent, result).audit.last().reply_to == Some(intent.id),
        answered(bus, name, intent, result).audit.last().semantic_type == intent.semantic_type + ".response"@,
{
}

/// The key never gets onto the bus with an answer: what is sent when a service has replied
/// is the same for services that differ in nothing but the key.
pub proof fn law_key_is_never_published(
    bus: BusState,
    name: Seq<char>,
    intent: IntentView,
    a: ApiView,
    b: ApiView,
    reply: Result<(u16, Seq<u8>), Seq<char>>,
    latency_ms: u64,
)
    requires
        a == (ApiView { api_key: a.api_key, ..b }),
    ensures
        answered(bus, name, intent, a.answer(reply, latency_ms)) == answered(
            bus,
            name,
            intent,
            b.answer(reply, latency_ms),
        ),
{
    law_answer_hides_key(a, b, reply, latency_ms);
}

/// Publish one entry of the engine's state.
fn publish(ctx: &AgentContext, bus: &mut IntentBus, key: &str, value: &str)
    ensures
        final(bus)@ == old(bus)@.sent_by(ctx.bus@, state_entry(key@, value@)),
        old(bus)@.wf() ==> final(bus)@.wf(),
{
    let update = GlassBoxUpdate::new("inference-engine", key, value);
    ctx.bus.send(bus, Intent::request("glass-box.update", "inference-engine", &update));
}

/// The inference router.
pub struct InferenceRouter {
    /// The model in memory, if one is loaded.
    pub local_backend: Option<LocalInferenceBackend>,
}

impl InferenceRouter {
    /// A router with the model that can be loaded, if there is one.
    pub fn new() -> (r: Self)
        ensures
            r.local_backend is None,
    {
        match LocalInferenceBackend::try_load() {
            Ok(backend) => InferenceRouter { local_backend: Some(backend) },
            Err(_) => InferenceRouter { local_backend: None },
        }
    }

    /// Pick the backend for a request from the current settings.
    pub fn handle_generate(&self, settings: &InferenceSettings, network_ready: bool) -> (r: Route)
        ensures
            r@ == route_of(settings@, self.local_backend is Some, network_ready),
    {
        let name = get_current_backend(settings);
        if text_eq(name.as_str(), "local") {
            if self.local_backend.is_some() {
                Route::Local
            } else {
                Route::Refused(InferenceError::NoLocalModel)
            }
        } else if text_eq(name.as_str(), "openai") || text_eq(name.as_str(), "anthropic") || text_eq(
            name.as_str(),
            "gemini",
        ) || text_eq(name.as_str(), "custom") {
            let (api_key, model_id, base_url, provider) = get_api_settings(settings, name.as_str());
            let backend = ApiInferenceBackend::new(provider, api_key, model_id, base_url);
            if backend.is_available(network_ready) {
                Route::Service(backend)
            } else {
                Route::Refused(InferenceError::NetworkUnavailable)
            }
        } else {
            let mut e = text("Unknown backend: '");
            e.push_str(name.as_str());
            e.push_str("'");
            Route::Refused(InferenceError::ApiError(e))
        }
    }

    /// First half of a turn: take an intent from the bus.
    pub fn begin(&self, ctx: &AgentContext, bus: &mut IntentBus) -> (r: Taken)
        ensures
            r@ == taken_from(old(bus)@, ctx.bus@),
            final(bus)@ == begun(old(bus)@, ctx.bus@),
            old(bus)@.wf() ==> final(bus)@.wf(),
    {
        let intent = match ctx.bus.try_recv(bus) {
            Some(i) => i,
            None => {
                return Taken::Nothing;
            },
        };
        if !intent.semantic_type.matches("inference.generate") {
            return Taken::Skipped;
        }
        match intent.decode::<InferenceRequest>() {
            Ok(request) => {
                publish(ctx, bus, "status", "generating...");
                Taken::Request(intent, request)
            },
            Err(_) => Taken::Unreadable,
        }
    }

    /// Second half of a turn: publish what came of a request, and answer it.
    pub fn answer(
        &self,
        ctx: &AgentContext,
        bus: &mut IntentBus,
        intent: &Intent,
        result: &Result<InferenceResponse, InferenceError>,
    )
        ensures
            final(bus)@ == answered(
                old(bus)@,
                ctx.bus@,
                intent@,
                match *result {
                    Ok(r) => Ok(r@),
                    Err(e) => Err(e@),
                },
            ),
            old(bus)@.wf() ==> final(bus)@.wf(),
    {
        match result {
            Ok(response) => {
                publish(ctx, bus, "last_backend", response.backend_used.as_str());
                let latency = decimal_text(response.latency_ms);
                publish(ctx, bus, "last_latency_ms", latency.as_str());
                publish(ctx, bus, "status", "idle");
                ctx.bus.send(bus, Intent::response(intent, "inference-engine", response));
            },
            Err(e) => {
                let shown = e.message();
                let mut status = text("error: ");
                status.push_str(shown.as_str());
                publish(ctx, bus, "status", status.as_str());
                ctx.bus.send(bus, Intent::response(intent, "inference-engine", &shown));
            },
        }
    }

    pub fn name(&self) -> (r: &'static str)
        ensures
            r@ == "inference-engine"@,
    {
        "inference-engine"
    }

    /// Inference goes before all other work.
    pub fn priority(&self) -> (r: CognitivePriority)
        ensures
            r == CognitivePriority::Reasoning,
    {
        CognitivePriority::Reasoning
    }
}

} // verus!
