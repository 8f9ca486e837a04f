//! What holds of the scheduler over any sequence of calls.

use vstd::prelude::*;

use crate::sart::agent::{Agent, AgentPoll};
use crate::sart::executor::{
    by_priority, law_by_priority_orders, law_ordered_list_keeps, lemma_slot, long_idle, priority_ordered, registered,
    round, slot, throttled, turn, EntryView,
};
use crate::system::SystemView;

verus! {

// ---------------------------------------------------------------------------
// One round
// ---------------------------------------------------------------------------

/// An agent is skipped at odd ticks only, and only where its last eleven polls all found
/// it idle: so it is polled in one of two successive rounds, and at every tick once a
/// poll has found work.
pub proof fn law_idle_agents_are_polled(results: Seq<AgentPoll>, tick: u64)
    ensures
        tick % 2 == 0 ==> !throttled(results, tick),
        tick < u64::MAX ==> !throttled(results, tick) || !throttled(results, (tick + 1) as u64),
        !throttled(results.push(AgentPoll::Yield), tick),
{
    let more = results.push(AgentPoll::Yield);
    if long_idle(more) {
        assert(more[more.len() - 1] == AgentPoll::Pending);
    }
}

/// In a round an agent is left out exactly where it is throttled; every other agent is
/// polled once.
pub proof fn law_round_polls<A: Agent>(
    agents: Seq<EntryView<A>>,
    tick: u64,
    results: Seq<Option<AgentPoll>>,
    before: SystemView,
    after: SystemView,
    kept: Seq<EntryView<A>>,
)
    requires
        round(agents, tick, results, before, after, kept),
    ensures
        results.len() == agents.len(),
        forall|i: int|
            0 <= i < agents.len() ==> ((#[trigger] results[i]) is None <==> throttled(agents[i].results, tick)),
    decreases agents.len(),
{
    if agents.len() > 0 {
        let (mid, some) = choose|mid: SystemView, some: Seq<EntryView<A>>|
            round(agents.drop_last(), tick, results.drop_last(), before, mid, some) && #[trigger] turn(
                agents.last(),
                tick,
                results.last(),
                mid,
                some,
                after,
                kept,
            );
        law_round_polls(agents.drop_last(), tick, results.drop_last(), before, mid, some);
        assert forall|i: int| 0 <= i < agents.len() implies ((#[trigger] results[i]) is None <==> throttled(
            agents[i].results,
            tick,
        )) by {
            if i < agents.len() - 1 {
                assert(results.drop_last()[i] == results[i]);
                assert(agents.drop_last()[i] == agents[i]);
            }
        }
    }
}

/// How many polls returned `Done`.
pub open spec fn dones(results: Seq<Option<AgentPoll>>) -> nat
    decreases results.len(),
{
    if results.len() == 0 {
        0
    } else {
        dones(results.drop_last()) + if results.last() == Some(AgentPoll::Done) {
            1nat
        } else {
            0nat
        }
    }
}

/// After a round so many agents are left as did not return `Done`.
pub proof fn law_round_drops_done<A: Agent>(
    agents: Seq<EntryView<A>>,
    tick: u64,
    results: Seq<Option<AgentPoll>>,
    before: SystemView,
    after: SystemView,
    kept: Seq<EntryView<A>>,
)
    requires
        round(agents, tick, results, before, after, kept),
    ensures
        kept.len() + dones(results) == agents.len(),
    decreases agents.len(),
{
    if agents.len() > 0 {
        let (mid, some) = choose|mid: SystemView, some: Seq<EntryView<A>>|
            round(agents.drop_last(), tick, results.drop_last(), before, mid, some) && #[trigger] turn(
                agents.last(),
                tick,
                results.last(),
                mid,
                some,
                after,
                kept,
            );
        law_round_drops_done(agents.drop_last(), tick, results.drop_last(), before, mid, some);
    }
}

/// A poll changes no agent's priority.
pub open spec fn steady_priorities<A: Agent>() -> bool {
    forall|pre: A, name: Seq<char>, tick: u64, sys: SystemView, post: A, after: SystemView, r: AgentPoll|
        #[trigger] A::polled(pre, name, tick, sys, post, after, r) ==> post.agent_priority() == pre.agent_priority()
}

/// A round keeps the agents in priority order.
pub proof fn law_round_keeps_order<A: Agent>(
    agents: Seq<EntryView<A>>,
    tick: u64,
    results: Seq<Option<AgentPoll>>,
    before: SystemView,
    after: SystemView,
    kept: Seq<EntryView<A>>,
)
    requires
        steady_priorities::<A>(),
        priority_ordered(agents),
        round(agents, tick, results, before, after, kept),
    ensures
        priority_ordered(kept),
        forall|k: int|
            0 <= k < kept.len() ==> agents.len() > 0 && (#[trigger] kept[k]).agent.agent_priority().level()
                >= agents.last().agent.agent_priority().level(),
    decreases agents.len(),
{
    if agents.len() > 0 {
        let rest = agents.drop_last();
        let last = agents.last();
        let (mid, some) = choose|mid: SystemView, some: Seq<EntryView<A>>|
            round(rest, tick, results.drop_last(), before, mid, some) && #[trigger] turn(
                last,
                tick,
                results.last(),
                mid,
                some,
                after,
                kept,
            );
        assert forall|i: int, j: int| 0 <= i < j < rest.len() implies (
        #[trigger] rest[i]).agent.agent_priority().level() >= (
        #[trigger] rest[j]).agent.agent_priority().level() by {
            assert(rest[i] == agents[i] && rest[j] == agents[j]);
        }
        law_round_keeps_order(rest, tick, results.drop_last(), before, mid, some);
        assert forall|k: int| 0 <= k < some.len() implies (#[trigger] some[k]).agent.agent_priority().level()
            >= last.agent.agent_priority().level() by {
            let m = rest.len() - 1;
            assert(rest.last() == agents[m]);
            assert(agents[m].agent.agent_priority().level() >= agents[agents.len() - 1].agent.agent_priority().level());
        }
        if kept != some {
            assert(kept.len() == some.len() + 1);
            assert(kept.drop_last() =~= some);
            assert(kept.last().agent.agent_priority() == last.agent.agent_priority());
            assert forall|i: int, j: int| 0 <= i < j < kept.len() implies (
            #[trigger] kept[i]).agent.agent_priority().level() >= (
            #[trigger] kept[j]).agent.agent_priority().level() by {
                assert(kept[i] == some[i]);
                if j < some.len() {
                    assert(kept[j] == some[j]);
                }
            }
            assert forall|k: int| 0 <= k < kept.len() implies (#[trigger] kept[k]).agent.agent_priority().level()
                >= last.agent.agent_priority().level() by {
                if k < some.len() {
                    assert(kept[k] == some[k]);
                }
            }
        }
    }
}

// ---------------------------------------------------------------------------
// Any sequence of calls
// ---------------------------------------------------------------------------

/// A call of the scheduler, with what the agents made of it.
pub enum Call<A> {
    /// An agent is registered: it was started in the system `joined`, and left `after`.
    Register { agent: A, tick: u64, joined: SystemView, after: SystemView },
    /// A round, in which the agents' polls gave these results.
    Tick { tick: u64, results: Seq<Option<AgentPoll>>, before: SystemView, after: SystemView },
}

/// The call turns the list `s` into `t`.
pub open spec fn leads<A: Agent>(s: Seq<EntryView<A>>, call: Call<A>, t: Seq<EntryView<A>>) -> bool {
    match call {
        Call::Register { agent, tick, joined, after } => registered(s, agent, tick, joined, after, t),
        Call::Tick { tick, results, before, after } => round(s, tick, results, before, after, t),
    }
}

/// The lists of a scheduler from its making on: one after each call.
pub open spec fn history<A: Agent>(lists: Seq<Seq<EntryView<A>>>, calls: Seq<Call<A>>) -> bool {
    &&& lists.len() == calls.len() + 1
    &&& lists[0].len() == 0
    &&& forall|i: int| 0 <= i < calls.len() ==> leads(lists[i], #[trigger] calls[i], lists[i + 1])
}

/// Whatever calls a scheduler has seen, its agents are in priority order.
pub proof fn law_always_in_order<A: Agent>(lists: Seq<Seq<EntryView<A>>>, calls: Seq<Call<A>>, i: int)
    requires
        steady_priorities::<A>(),
        history(lists, calls),
        0 <= i <= calls.len(),
    ensures
        priority_ordered(lists[i]),
    decreases i,
{
    if i > 0 {
        law_always_in_order(lists, calls, i - 1);
        let s = lists[i - 1];
        let t = lists[i];
        assert(leads(s, calls[i - 1], lists[i - 1 + 1]));
        match calls[i - 1] {
            Call::Register { agent, tick, joined, after } => {
                let a = choose|a: A|
                    {
                        &&& #[trigger] A::started(agent, agent.agent_name(), tick, joined, a, after)
                        &&& t == by_priority(
                            s.push(EntryView { agent: a, name: agent.agent_name(), results: Seq::empty() }),
                        )
                    };
                law_by_priority_orders(s.push(EntryView { agent: a, name: agent.agent_name(), results: Seq::empty() }));
            },
            Call::Tick { tick, results, before, after } => {
                law_round_keeps_order(s, tick, results, before, after, t);
            },
        }
    }
}

/// `t` is `s` with the entry behind all entries of no lower priority and before all of
/// lower priority.
pub open spec fn placed<A: Agent>(s: Seq<EntryView<A>>, e: EntryView<A>, t: Seq<EntryView<A>>) -> bool {
    exists|p: int|
        {
            &&& 0 <= p <= s.len()
            &&& t == #[trigger] s.insert(p, e)
            &&& forall|k: int|
                0 <= k < p ==> (#[trigger] s[k]).agent.agent_priority().level() >= e.agent.agent_priority().level()
            &&& forall|k: int|
                p <= k < s.len() ==> (#[trigger] s[k]).agent.agent_priority().level()
                    < e.agent.agent_priority().level()
        }
}

/// Registering puts the agent, once it has been started, behind all agents of no lower
/// priority and before all of lower priority; the others keep their order.
pub proof fn law_register_inserts<A: Agent>(lists: Seq<Seq<EntryView<A>>>, calls: Seq<Call<A>>, i: int)
    requires
        steady_priorities::<A>(),
        history(lists, calls),
        0 <= i < calls.len(),
        calls[i] is Register,
    ensures
        exists|a: A|
            {
                &&& #[trigger] A::started(
                    calls[i]->agent,
                    calls[i]->agent.agent_name(),
                    calls[i]->Register_tick,
                    calls[i]->joined,
                    a,
                    calls[i]->Register_after,
                )
                &&& placed(
                    lists[i],
                    EntryView { agent: a, name: calls[i]->agent.agent_name(), results: Seq::empty() },
                    lists[i + 1],
                )
            },
{
    let s = lists[i];
    let agent = calls[i]->agent;
    let name = agent.agent_name();
    let tick = calls[i]->Register_tick;
    let joined = calls[i]->joined;
    let after = calls[i]->Register_after;
    law_always_in_order(lists, calls, i);
    assert(leads(s, calls[i], lists[i + 1]));
    let a = choose|a: A|
        {
            &&& #[trigger] A::started(agent, name, tick, joined, a, after)
            &&& lists[i + 1] == by_priority(s.push(EntryView { agent: a, name, results: Seq::empty() }))
        };
    let e = EntryView { agent: a, name, results: Seq::empty() };
    law_ordered_list_keeps(s, e);
    lemma_slot(s, e);
    let p = slot(s, e);
    assert forall|k: int| p <= k < s.len() implies (#[trigger] s[k]).agent.agent_priority().level()
        < a.agent_priority().level() by {
        assert(s[p].agent.agent_priority().level() >= s[k].agent.agent_priority().level());
    }
    assert(lists[i + 1] == s.insert(p, e));
    assert(placed(s, e, lists[i + 1]));
    assert(A::started(agent, name, tick, joined, a, after));
}

/// How many of the calls register an agent.
pub open spec fn registrations<A>(calls: Seq<Call<A>>) -> nat
    decreases calls.len(),
{
    if calls.len() == 0 {
        0
    } else {
        registrations(calls.drop_last()) + if calls.last() is Register {
            1nat
        } else {
            0nat
        }
    }
}

/// How many polls returned `Done` in all the rounds.
pub open spec fn departures<A>(calls: Seq<Call<A>>) -> nat
    decreases calls.len(),
{
    if calls.len() == 0 {
        0
    } else {
        departures(calls.drop_last()) + match calls.last() {
            Call::Register { .. } => 0nat,
            Call::Tick { results, .. } => dones(results),
        }
    }
}

/// A scheduler holds as many agents as were registered and have not returned `Done`.
pub proof fn law_agent_count<A: Agent>(lists: Seq<Seq<EntryView<A>>>, calls: Seq<Call<A>>)
    requires
        history(lists, calls),
    ensures
        lists.last().len() + departures(calls) == registrations(calls),
    decreases calls.len(),
{
    if calls.len() > 0 {
        let n = calls.len() as int;
        let before = lists.drop_last();
        let rest = calls.drop_last();
        assert forall|i: int| 0 <= i < rest.len() implies leads(before[i], #[trigger] rest[i], before[i + 1]) by {
            assert(leads(lists[i], calls[i], lists[i + 1]));
        }
        law_agent_count(before, rest);
        assert(before.last() == lists[n - 1]);
        assert(leads(lists[n - 1], calls[n - 1], lists[n - 1 + 1]));
        match calls.last() {
            Call::Register { agent, tick, joined, after } => {
                let a = choose|a: A|
                    {
                        &&& #[trigger] A::started(agent, agent.agent_name(), tick, joined, a, after)
                        &&& lists[n] == by_priority(
                            lists[n - 1].push(
                                EntryView { agent: a, name: agent.agent_name(), results: Seq::empty() },
                            ),
                        )
                    };
                law_by_priority_orders(
                    lists[n - 1].push(EntryView { agent: a, name: agent.agent_name(), results: Seq::empty() }),
                );
            },
            Call::Tick { tick, results, before: sys, after } => {
                law_round_drops_done(lists[n - 1], tick, results, sys, after, lists[n]);
            },
        }
    }
}

} // verus!
