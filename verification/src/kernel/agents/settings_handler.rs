//! Settings handler: turns intents of the settings and input modules into changes of
//! the settings store.

use vstd::prelude::*;
use vstd::utf8::*;

use crate::intent_bus::intent::IntentView;
use crate::sart::agent::{Agent, AgentContext, AgentPoll, CognitivePriority};
use crate::system::{SettingsChange, SettingsChangeView, System, SystemView};
use crate::text::{find, find_bytes, text_eq, utf8_text};
use crate::views::group_views;

verus! {

pub struct SettingsHandler;

impl SettingsHandler {
    pub fn new() -> (r: Self) {
        SettingsHandler
    }
}

/// The text that the bytes encode; no text where they are not well-formed.
pub open spec fn text_or_empty(bytes: Seq<u8>) -> Seq<char> {
    if valid_utf8(bytes) {
        decode_utf8(bytes)
    } else {
        Seq::empty()
    }
}

/// The change that an intent asks for. "settings.set" carries a key and a value with
/// a zero byte between them; "input.secret.response" carries the API key.
pub open spec fn change_of(intent: IntentView) -> Option<SettingsChangeView> {
    let p = intent.payload;
    if intent.semantic_type == "settings.set"@ {
        match find(p, seq![0u8]) {
            Some(sep) => Some(
                SettingsChangeView::Value {
                    key: text_or_empty(p.take(sep)),
                    value: text_or_empty(p.skip(sep + 1)),
                },
            ),
            None => None,
        }
    } else if intent.semantic_type == "input.secret.response"@ {
        if text_or_empty(p).len() > 0 {
            Some(SettingsChangeView::ApiKey(text_or_empty(p)))
        } else {
            None
        }
    } else {
        None
    }
}

/// The text that the bytes encode; no text where they are not well-formed.
fn readable(bytes: &[u8]) -> (r: String)
    ensures
        r@ == text_or_empty(bytes@),
{
    match utf8_text(bytes) {
        Some(s) => s,
        None => String::new(),
    }
}

/// The change that an intent asks for.
pub fn requested_change(intent: &crate::intent_bus::intent::Intent) -> (r: Option<SettingsChange>)
    ensures
        match r {
            Some(c) => change_of(intent@) == Some(c@),
            None => change_of(intent@) is None,
        },
{
    let payload = intent.payload.as_slice();
    if text_eq(intent.semantic_type.as_str(), "settings.set") {
        let zero: [u8; 1] = [0u8];
        assert(zero@ =~= seq![0u8]);
        match find_bytes(payload, &zero, 0) {
            Some(sep) => {
                proof {
                    crate::text::lemma_find_from(payload@, seq![0u8], 0);
                }
                let len = payload.len();
                let key = readable(vstd::slice::slice_subrange(payload, 0, sep));
                let value = readable(vstd::slice::slice_subrange(payload, sep + 1, len));
                assert(payload@.subrange(0, sep as int) =~= payload@.take(sep as int));
                assert(payload@.subrange(sep + 1, payload@.len() as int) =~= payload@.skip(sep + 1));
                Some(SettingsChange::Value { key, value })
            },
            None => None,
        }
    } else if text_eq(intent.semantic_type.as_str(), "input.secret.response") {
        let key = readable(payload);
        if key.as_str().is_empty() {
            None
        } else {
            Some(SettingsChange::ApiKey(key))
        }
    } else {
        None
    }
}

impl Agent for SettingsHandler {
    open spec fn agent_name(&self) -> Seq<char> {
        "settings-handler"@
    }

    open spec fn agent_priority(&self) -> CognitivePriority {
        CognitivePriority::Background
    }

    open spec fn ready(&self, tick: u64) -> bool {
        true
    }

    open spec fn started(pre: Self, name: Seq<char>, tick: u64, sys: SystemView, post: Self, after: SystemView) -> bool {
        after == sys
    }

    /// One intent leaves the inbox; the change that it asks for is handed on.
    open spec fn polled(
        pre: Self,
        name: Seq<char>,
        tick: u64,
        sys: SystemView,
        post: Self,
        after: SystemView,
        r: AgentPoll,
    ) -> bool {
        match sys.bus.received(name) {
            Some(intent) => {
                &&& r == AgentPoll::Yield
                &&& after == SystemView {
                    bus: sys.bus.after_recv(name),
                    settings: match change_of(intent) {
                        Some(c) => sys.settings.push(c),
                        None => sys.settings,
                    },
                    ..sys
                }
            },
            None => r == AgentPoll::Pending && after == sys,
        }
    }

    open spec fn stopped(pre: Self, post: Self) -> bool {
        post == pre
    }

    fn name(&self) -> (r: &str) {
        "settings-handler"
    }

    fn priority(&self) -> (r: CognitivePriority) {
        CognitivePriority::Background
    }

    fn on_start(&mut self, ctx: &AgentContext, sys: &mut System) {
    }

    fn poll(&mut self, ctx: &AgentContext, sys: &mut System) -> (r: AgentPoll) {
        broadcast use group_views;

        match ctx.bus.try_recv(&mut sys.bus) {
            Some(intent) => {
                match requested_change(&intent) {
                    Some(c) => sys.settings.push(c),
                    None => {},
                }
                AgentPoll::Yield
            },
            None => AgentPoll::Pending,
        }
    }

    fn on_stop(&mut self) {
    }
}

} // verus!
