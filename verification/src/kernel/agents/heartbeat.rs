//! Heartbeat agent: once a second it sends a "system.heartbeat" intent and publishes
//! its count to the Glass Box.

use vstd::prelude::*;

use crate::intent_bus::intent::{fresh_intent, Intent};
use crate::intent_bus::payloads::{GlassBoxUpdate, GlassBoxUpdateView, Heartbeat, Payload};
use crate::sart::agent::{Agent, AgentContext, AgentPoll, CognitivePriority};
use crate::system::{System, SystemView};
use crate::text::{decimal, decimal_text};

verus! {

/// Ticks between two beats (one second at 100 Hz).
pub const BEAT_INTERVAL: u64 = 100;

pub struct HeartbeatAgent {
    pub last_tick: u64,
    pub beat_count: u32,
}

impl HeartbeatAgent {
    pub fn new() -> (r: Self)
        ensures
            r == (HeartbeatAgent { last_tick: 0, beat_count: 0 }),
    {
        HeartbeatAgent { last_tick: 0, beat_count: 0 }
    }
}

impl Agent for HeartbeatAgent {
    open spec fn agent_name(&self) -> Seq<char> {
        "heartbeat"@
    }

    open spec fn agent_priority(&self) -> CognitivePriority {
        CognitivePriority::Background
    }

    open spec fn ready(&self, tick: u64) -> bool {
        self.last_tick <= u64::MAX - BEAT_INTERVAL && self.beat_count < u32::MAX
    }

    open spec fn started(pre: Self, name: Seq<char>, tick: u64, sys: SystemView, post: Self, after: SystemView) -> bool {
        post == pre && after == sys
    }

    /// A beat that is due is counted and sent, first to the subscribers of the
    /// heartbeat, then to the Glass Box.
    open spec fn polled(
        pre: Self,
        name: Seq<char>,
        tick: u64,
        sys: SystemView,
        post: Self,
        after: SystemView,
        r: AgentPoll,
    ) -> bool {
        &&& r == AgentPoll::Pending
        &&& if tick >= pre.last_tick + BEAT_INTERVAL {
            let beat = (pre.beat_count + 1) as u32;
            let heartbeat = fresh_intent(
                "system.heartbeat"@,
                "heartbeat"@,
                Heartbeat::wire(Heartbeat { beat, tick }),
            );
            let update = fresh_intent(
                "glass-box.update"@,
                "heartbeat"@,
                GlassBoxUpdate::wire(
                    GlassBoxUpdateView { module: "heartbeat"@, key: "beat_count"@, value: decimal(beat as nat) },
                ),
            );
            &&& post == HeartbeatAgent { last_tick: tick, beat_count: beat }
            &&& after == SystemView { bus: sys.bus.sent_by(name, heartbeat).sent_by(name, update), ..sys }
        } else {
            post == pre && after == sys
        }
    }

    open spec fn stopped(pre: Self, post: Self) -> bool {
        post == pre
    }

    fn name(&self) -> (r: &str) {
        "heartbeat"
    }

    fn priority(&self) -> (r: CognitivePriority) {
        CognitivePriority::Background
    }

    fn on_start(&mut self, ctx: &AgentContext, sys: &mut System) {
    }

    fn poll(&mut self, ctx: &AgentContext, sys: &mut System) -> (r: AgentPoll) {
        if ctx.tick >= self.last_tick + BEAT_INTERVAL {
            self.beat_count += 1;
            let beat = Heartbeat { beat: self.beat_count, tick: ctx.tick };
            ctx.bus.send(&mut sys.bus, Intent::request("system.heartbeat", "heartbeat", &beat));
            let count = decimal_text(self.beat_count as u64);
            let update = GlassBoxUpdate::new("heartbeat", "beat_count", count.as_str());
            ctx.bus.send(&mut sys.bus, Intent::request("glass-box.update", "heartbeat", &update));
            self.last_tick = ctx.tick;
        }
        AgentPoll::Pending
    }

    fn on_stop(&mut self) {
    }
}

} // verus!
