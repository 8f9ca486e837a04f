//! Echo agent: receives heartbeats, one per poll.

use vstd::prelude::*;

use crate::sart::agent::{Agent, AgentContext, AgentPoll, CognitivePriority};
use crate::system::{System, SystemView};

verus! {

pub struct EchoAgent;

impl Agent for EchoAgent {
    open spec fn agent_name(&self) -> Seq<char> {
        "echo"@
    }

    open spec fn agent_priority(&self) -> CognitivePriority {
        CognitivePriority::Active
    }

    open spec fn ready(&self, tick: u64) -> bool {
        true
    }

    open spec fn started(pre: Self, name: Seq<char>, tick: u64, sys: SystemView, post: Self, after: SystemView) -> bool {
        after == sys
    }

    /// One intent leaves the inbox.
    open spec fn polled(
        pre: Self,
        name: Seq<char>,
        tick: u64,
        sys: SystemView,
        post: Self,
        after: SystemView,
        r: AgentPoll,
    ) -> bool {
        &&& after == SystemView { bus: sys.bus.after_recv(name), ..sys }
        &&& r == if sys.bus.received(name) is Some {
            AgentPoll::Yield
        } else {
            AgentPoll::Pending
        }
    }

    open spec fn stopped(pre: Self, post: Self) -> bool {
        post == pre
    }

    fn name(&self) -> (r: &str) {
        "echo"
    }

    fn priority(&self) -> (r: CognitivePriority) {
        CognitivePriority::Active
    }

    fn on_start(&mut self, ctx: &AgentContext, sys: &mut System) {
    }

    fn poll(&mut self, ctx: &AgentContext, sys: &mut System) -> (r: AgentPoll) {
        match ctx.bus.try_recv(&mut sys.bus) {
            Some(_) => AgentPoll::Yield,
            None => AgentPoll::Pending,
        }
    }

    fn on_stop(&mut self) {
    }
}

} // verus!
