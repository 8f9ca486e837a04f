//! Agent abstraction: the unit of execution.
//!
//! The scheduler polls each agent once per tick, in priority order. An agent must
//! return quickly. Agents talk to each other through the Intent Bus alone.

use vstd::prelude::*;

use crate::intent_bus::bus::BusConnection;
use crate::system::{System, SystemView};

verus! {

/// Priority of an agent: higher ones are polled first.
#[derive(Debug, Clone, Copy, PartialEq, Eq, PartialOrd, Ord, Structural)]
pub enum CognitivePriority {
    /// Rarely needed work.
    Background,
    /// Blocked on external events.
    Waiting,
    /// Active worker.
    Active,
    /// High-priority reasoning agent.
    Reasoning,
}

impl CognitivePriority {
    /// The place of the priority in the order, lowest first.
    pub open spec fn level(self) -> int {
        match self {
            CognitivePriority::Background => 0,
            CognitivePriority::Waiting => 1,
            CognitivePriority::Active => 2,
            CognitivePriority::Reasoning => 3,
        }
    }

    /// The place of the priority in the order, lowest first.
    pub fn rank(self) -> (r: u8)
        ensures
            r == self.level(),
    {
        match self {
            CognitivePriority::Background => 0,
            CognitivePriority::Waiting => 1,
            CognitivePriority::Active => 2,
            CognitivePriority::Reasoning => 3,
        }
    }
}

/// Result of one poll of an agent.
#[derive(Debug, Clone, Copy, PartialEq, Eq, Structural)]
pub enum AgentPoll {
    /// The agent did useful work.
    Yield,
    /// The agent has nothing to do. A persistently idle agent is polled less often.
    Pending,
    /// The agent is finished and leaves the scheduler.
    Done,
}

/// Context passed to an agent each time it is polled.
pub struct AgentContext<'a> {
    /// The agent's bus connection.
    pub bus: &'a BusConnection,
    /// Current tick count (100 Hz).
    pub tick: u64,
}

/// An agent.
///
/// The first six functions are the agent's model: its name and priority, when it can be
/// polled, and how starting, polling and stopping may change it and the shared system.
/// Every verified agent gives its name and priority here; the bodies that stand here
/// serve agents that are written outside: such an agent has some name and some priority,
/// which depend on nothing but the agent. An agent that gives no more of its model
/// promises nothing else but to keep the system well formed.
pub trait Agent: Sized {
    /// The name that `name` gives.
    open spec fn agent_name(&self) -> Seq<char> {
        arbitrary::<spec_fn(Self) -> Seq<char>>()(*self)
    }

    /// The priority that `priority` gives.
    open spec fn agent_priority(&self) -> CognitivePriority {
        arbitrary::<spec_fn(Self) -> CognitivePriority>()(*self)
    }

    /// The agent can be polled at this tick: no counter of it is exhausted.
    open spec fn ready(&self, tick: u64) -> bool {
        true
    }

    /// `on_start` may turn `pre` into `post` and the system `sys` into `after`.
    open spec fn started(pre: Self, name: Seq<char>, tick: u64, sys: SystemView, post: Self, after: SystemView) -> bool {
        true
    }

    /// `poll` may turn `pre` into `post` and the system `sys` into `after`, and
    /// return `r`. `name` is the name of the agent's connection.
    open spec fn polled(
        pre: Self,
        name: Seq<char>,
        tick: u64,
        sys: SystemView,
        post: Self,
        after: SystemView,
        r: AgentPoll,
    ) -> bool {
        true
    }

    /// `on_stop` may turn `pre` into `post`.
    open spec fn stopped(pre: Self, post: Self) -> bool {
        true
    }

    /// Unique name of this agent, for bus routing and display.
    fn name(&self) -> (r: &str)
        ensures
            r@ == self.agent_name(),
    ;

    /// Priority: determines the scheduling order.
    fn priority(&self) -> (r: CognitivePriority)
        ensures
            r == self.agent_priority(),
    ;

    /// Called once when the agent is registered.
    fn on_start(&mut self, ctx: &AgentContext, sys: &mut System)
        requires
            old(sys)@.wf(),
        ensures
            Self::started(*old(self), ctx.bus@, ctx.tick, old(sys)@, *final(self), final(sys)@),
            final(sys)@.wf(),
    ;

    /// Called every scheduler tick. Do one unit of work and return.
    fn poll(&mut self, ctx: &AgentContext, sys: &mut System) -> (r: AgentPoll)
        requires
            old(self).ready(ctx.tick),
            old(sys)@.wf(),
        ensures
            Self::polled(*old(self), ctx.bus@, ctx.tick, old(sys)@, *final(self), final(sys)@, r),
            final(sys)@.wf(),
    ;

    /// Called once when the agent leaves the scheduler.
    fn on_stop(&mut self)
        ensures
            Self::stopped(*old(self), *final(self)),
    ;
}

/// Reasoning comes before active work, that before waiting, and that before the
/// background.
pub proof fn law_priorities()
    ensures
        CognitivePriority::Reasoning.level() > CognitivePriority::Active.level(),
        CognitivePriority::Active.level() > CognitivePriority::Waiting.level(),
        CognitivePriority::Waiting.level() > CognitivePriority::Background.level(),
{
}

} // verus!
