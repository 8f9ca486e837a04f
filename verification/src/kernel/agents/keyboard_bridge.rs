//! Keyboard bridge: turns buffered characters into "input.char" intents.
//!
//! The keyboard interrupt handler only fills a buffer. This agent drains it in the
//! scheduling loop, where the bus may be used.

use vstd::prelude::*;

use crate::intent_bus::bus::BusState;
use crate::intent_bus::intent::{fresh_intent, Intent, IntentPriority, IntentView};
use crate::sart::agent::{Agent, AgentContext, AgentPoll, CognitivePriority};
use crate::system::{System, SystemView};

verus! {

/// The keyboard-to-intent bridge agent.
pub struct KeyboardBridgeAgent;

impl KeyboardBridgeAgent {
    pub fn new() -> (r: Self) {
        KeyboardBridgeAgent
    }
}

/// The intent for one typed character: its lowest byte, at high priority.
pub open spec fn key_intent(c: char) -> IntentView {
    IntentView {
        priority: IntentPriority::High,
        ..fresh_intent("input.char"@, "keyboard-bridge"@, seq![#[verifier::truncate] (c as u8)])
    }
}

/// The bus after the characters were sent, in order.
pub open spec fn typed(bus: BusState, name: Seq<char>, keys: Seq<char>) -> BusState
    decreases keys.len(),
{
    if keys.len() == 0 {
        bus
    } else {
        typed(bus.sent_by(name, key_intent(keys[0])), name, keys.skip(1))
    }
}

impl Agent for KeyboardBridgeAgent {
    open spec fn agent_name(&self) -> Seq<char> {
        "keyboard-bridge"@
    }

    open spec fn agent_priority(&self) -> CognitivePriority {
        CognitivePriority::Active
    }

    open spec fn ready(&self, tick: u64) -> bool {
        true
    }

    open spec fn started(pre: Self, name: Seq<char>, tick: u64, sys: SystemView, post: Self, after: SystemView) -> bool {
        after == sys
    }

    /// The buffer is emptied, each character sent as an intent.
    open spec fn polled(
        pre: Self,
        name: Seq<char>,
        tick: u64,
        sys: SystemView,
        post: Self,
        after: SystemView,
        r: AgentPoll,
    ) -> bool {
        &&& after == SystemView { bus: typed(sys.bus, name, sys.keyboard), keyboard: Seq::empty(), ..sys }
        &&& r == if sys.keyboard.len() > 0 {
            AgentPoll::Yield
        } else {
            AgentPoll::Pending
        }
    }

    open spec fn stopped(pre: Self, post: Self) -> bool {
        post == pre
    }

    fn name(&self) -> (r: &str) {
        "keyboard-bridge"
    }

    fn priority(&self) -> (r: CognitivePriority) {
        CognitivePriority::Active
    }

    fn on_start(&mut self, ctx: &AgentContext, sys: &mut System) {
    }

    fn poll(&mut self, ctx: &AgentContext, sys: &mut System) -> (r: AgentPoll) {
        let mut had_input = false;
        let ghost bus0 = sys.bus@;
        let ghost keys0 = sys.keyboard@;
        let mut more = true;
        while more
            invariant
                sys@.wf(),
                sys@ == (SystemView { bus: sys@.bus, keyboard: sys@.keyboard, ..old(sys)@ }),
                typed(sys.bus@, ctx.bus@, sys.keyboard@) == typed(bus0, ctx.bus@, keys0),
                !more ==> sys.keyboard@.len() == 0,
                had_input || sys.keyboard@.len() == keys0.len(),
                had_input ==> keys0.len() > 0,
            decreases sys.keyboard@.len() + (if more { 1int } else { 0int }),
        {
            let ghost keys = sys.keyboard@;
            match sys.keyboard.pop_front() {
                Some(ch) => {
                    had_input = true;
                    let mut payload: Vec<u8> = Vec::new();
                    payload.push(#[verifier::truncate] (ch as u8));
                    assert(payload@ =~= seq![#[verifier::truncate] (ch as u8)]);
                    let intent = Intent::with_bytes("input.char", "keyboard-bridge", payload);
                    ctx.bus.send(&mut sys.bus, intent.with_priority(IntentPriority::High));
                    assert(sys.keyboard@ =~= keys.skip(1));
                },
                None => {
                    more = false;
                },
            }
        }
        assert(sys.keyboard@ =~= Seq::empty());
        if had_input {
            AgentPoll::Yield
        } else {
            AgentPoll::Pending
        }
    }

    fn on_stop(&mut self) {
    }
}

} // verus!
