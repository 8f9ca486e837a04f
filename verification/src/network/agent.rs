//! The network agent: handles HTTP requests that arrive as intents.
//!
//! A turn has two halves, since making a request takes the network: `begin` takes a
//! request from the bus, and `answer` sends what came of it.

use vstd::prelude::*;

use crate::intent_bus::bus::{BusState, IntentBus};
use crate::intent_bus::intent::{answer_to, type_matches, Intent, IntentView};
use crate::intent_bus::payloads::{
    bytes_are_held, encode_post, encode_posted, pairs_are_held, pairs_fit, parse_post, parse_posted, postcard_post,
    postcard_posted, text_fits, text_is_held, wire_post, wire_posted, Payload,
};
use crate::network::http::HttpResponse;
use crate::sart::agent::{AgentContext, CognitivePriority};
use crate::text::text;
use crate::views::views;

verus! {

/// Payload of a "network.http.post" intent.
#[derive(Debug)]
pub struct NetworkRequest {
    pub url: String,
    pub headers: Vec<(String, String)>,
    pub body: Vec<u8>,
}

/// What a request holds.
#[verifier::ext_equal]
pub struct PostView {
    pub url: Seq<char>,
    pub headers: Seq<(Seq<char>, Seq<char>)>,
    pub body: Seq<u8>,
}

impl View for NetworkRequest {
    type V = PostView;

    open spec fn view(&self) -> PostView {
        PostView { url: self.url@, headers: views(self.headers@), body: self.body@ }
    }
}

impl Payload for NetworkRequest {
    open spec fn wire(v: PostView) -> Seq<u8> {
        wire_post(v.url, v.headers, v.body)
    }

    open spec fn parsed(bytes: Seq<u8>) -> Option<PostView> {
        match postcard_post(bytes) {
            Some(t) => Some(PostView { url: t.0, headers: t.1, body: t.2 }),
            None => None,
        }
    }

    open spec fn sound(v: PostView) -> bool {
        text_fits(v.url) && pairs_fit(v.headers) && v.body.len() <= usize::MAX
    }

    fn encode(&self) -> (r: Vec<u8>) {
        text_is_held(&self.url);
        pairs_are_held(&self.headers);
        bytes_are_held(&self.body);
        encode_post(&self.url, &self.headers, &self.body)
    }

    fn parse(bytes: &[u8]) -> (r: Option<Self>) {
        match parse_post(bytes) {
            Some((url, headers, body)) => Some(NetworkRequest { url, headers, body }),
            None => None,
        }
    }
}

/// Payload of a "network.http.post.response" intent.
#[derive(Debug)]
pub struct NetworkResponse {
    /// Status code; 0 if the request failed.
    pub status_code: u16,
    pub body: Vec<u8>,
    /// Why the request failed.
    pub error: Option<String>,
}

/// What a response holds.
#[verifier::ext_equal]
pub struct PostedView {
    pub status_code: u16,
    pub body: Seq<u8>,
    pub error: Option<Seq<char>>,
}

/// The text of an optional string.
pub open spec fn opt_text(s: Option<String>) -> Option<Seq<char>> {
    match s {
        Some(t) => Some(t@),
        None => None,
    }
}

impl View for NetworkResponse {
    type V = PostedView;

    open spec fn view(&self) -> PostedView {
        PostedView { status_code: self.status_code, body: self.body@, error: opt_text(self.error) }
    }
}

impl Payload for NetworkResponse {
    open spec fn wire(v: PostedView) -> Seq<u8> {
        wire_posted(v.status_code, v.body, v.error)
    }

    open spec fn parsed(bytes: Seq<u8>) -> Option<PostedView> {
        match postcard_posted(bytes) {
            Some(t) => Some(PostedView { status_code: t.0, body: t.1, error: t.2 }),
            None => None,
        }
    }

    open spec fn sound(v: PostedView) -> bool {
        v.body.len() <= usize::MAX && (v.error matches Some(e) ==> text_fits(e))
    }

    fn encode(&self) -> (r: Vec<u8>) {
        match &self.error {
            Some(e) => text_is_held(e),
            None => {},
        }
        bytes_are_held(&self.body);
        encode_posted(self.status_code, &self.body, &self.error)
    }

    fn parse(bytes: &[u8]) -> (r: Option<Self>) {
        match parse_posted(bytes) {
            Some((status_code, body, error)) => Some(NetworkResponse { status_code, body, error }),
            None => None,
        }
    }
}

/// The network agent's state.
pub struct NetworkAgent {
    /// Whether the agent has been started.
    pub started: bool,
}

impl NetworkAgent {
    pub fn new() -> (r: Self)
        ensures
            r == (NetworkAgent { started: false }),
    {
        NetworkAgent { started: false }
    }

    pub fn name(&self) -> (r: &'static str)
        ensures
            r@ == "network-agent"@,
    {
        "network-agent"
    }

    /// Requests are to be handled promptly.
    pub fn priority(&self) -> (r: CognitivePriority)
        ensures
            r == CognitivePriority::Active,
    {
        CognitivePriority::Active
    }

    /// The agent has been registered.
    pub fn start(&mut self)
        ensures
            final(self).started,
    {
        self.started = true;
    }
}

/// The request that the agent finds on the bus: none where no intent waits, or where the
/// one that waits is no readable request.
pub open spec fn request_from(bus: BusState, name: Seq<char>) -> Option<(IntentView, PostView)> {
    match bus.received(name) {
        None => None,
        Some(intent) => if !type_matches(intent.semantic_type, "network.http.post"@) {
            None
        } else {
            match NetworkRequest::parsed(intent.payload) {
                None => None,
                Some(req) => Some((intent, req)),
            }
        },
    }
}

/// First half of a turn: take a request from the bus.
pub fn begin(ctx: &AgentContext, bus: &mut IntentBus) -> (r: Option<(Intent, NetworkRequest)>)
    ensures
        match r {
            Some((i, q)) => request_from(old(bus)@, ctx.bus@) == Some((i@, q@)),
            None => request_from(old(bus)@, ctx.bus@) is None,
        },
        final(bus)@ == old(bus)@.after_recv(ctx.bus@),
        old(bus)@.wf() ==> final(bus)@.wf(),
{
    let intent = match ctx.bus.try_recv(bus) {
        Some(i) => i,
        None => {
            return None;
        },
    };
    if !intent.semantic_type.matches("network.http.post") {
        return None;
    }
    match intent.decode::<NetworkRequest>() {
        Ok(req) => Some((intent, req)),
        Err(_) => None,
    }
}

/// What became of a request.
pub enum PostResult {
    Answered(HttpResponse),
    Failed(String),
    /// There is no network stack.
    NoNetwork,
}

/// The response for what became of a request.
pub open spec fn response_for(result: PostResult) -> PostedView {
    match result {
        PostResult::Answered(r) => PostedView { status_code: r.status_code, body: r.body@, error: None },
        PostResult::Failed(e) => PostedView { status_code: 0, body: Seq::empty(), error: Some(e@) },
        PostResult::NoNetwork => PostedView {
            status_code: 0,
            body: Seq::empty(),
            error: Some("Network stack not initialized"@),
        },
    }
}

/// Every request is answered: the newest entry of the audit log is the answer to it,
/// whatever became of the request.
pub proof fn law_post_is_answered(bus: BusState, name: Seq<char>, intent: IntentView, result: PostResult)
    ensures
        ({
            let after = bus.sent_by(
                name,
                answer_to(intent, "network-agent"@, NetworkResponse::wire(response_for(result))),
            );
            &&& after.audit.len() > 0
            &&& after.audit.last().reply_to == Some(intent.id)
            &&& after.audit.last().semantic_type == intent.semantic_type + ".response"@
        }),
{
}

/// Second half of a turn: answer the request.
pub fn answer(ctx: &AgentContext, bus: &mut IntentBus, intent: &Intent, result: PostResult)
    ensures
        final(bus)@ == old(bus)@.sent_by(
            ctx.bus@,
            answer_to(intent@, "network-agent"@, NetworkResponse::wire(response_for(result))),
        ),
        old(bus)@.wf() ==> final(bus)@.wf(),
{
    let response = match result {
        PostResult::Answered(r) => NetworkResponse { status_code: r.status_code, body: r.body, error: None },
        PostResult::Failed(e) => NetworkResponse { status_code: 0, body: Vec::new(), error: Some(e) },
        PostResult::NoNetwork => NetworkResponse {
            status_code: 0,
            body: Vec::new(),
            error: Some(text("Network stack not initialized")),
        },
    };
    assert(response@ =~= response_for(result));
    ctx.bus.send(bus, Intent::response(intent, "network-agent", &response));
}

} // verus!
