//! The scheduler: cooperative and priority-based.
//!
//! Agents are kept in priority order, highest first. Each tick every agent is polled
//! once; those that return `Done` leave. An agent that has been idle for more than
//! ten polls in a row is skipped on odd ticks.

use vstd::prelude::*;

use crate::intent_bus::bus::{patterns_of, BusConnection};
use crate::sart::agent::{Agent, AgentContext, AgentPoll};
use crate::system::{System, SystemView};
use crate::text::text;
use crate::views::{group_views, views};

verus! {

/// Polls in a row without work after which an agent is throttled.
pub const IDLE_LIMIT: u32 = 10;

/// A scheduled agent.
struct AgentEntry<A> {
    agent: A,
    bus: BusConnection,
    /// Consecutive `Pending` results.
    idle_count: u32,
    /// Results of all polls since the agent was registered.
    results: Ghost<Seq<AgentPoll>>,
}

/// What the scheduler holds of an agent.
pub struct EntryView<A> {
    pub agent: A,
    /// Name of the agent's bus connection.
    pub name: Seq<char>,
    /// Results of its polls since it was registered, oldest first.
    pub results: Seq<AgentPoll>,
}

impl<A> View for AgentEntry<A> {
    type V = EntryView<A>;

    closed spec fn view(&self) -> EntryView<A> {
        EntryView { agent: self.agent, name: self.bus@, results: self.results@ }
    }
}

/// The scheduler.
pub struct Sart<A> {
    agents: Vec<AgentEntry<A>>,
}

impl<A> View for Sart<A> {
    type V = Seq<EntryView<A>>;

    closed spec fn view(&self) -> Seq<EntryView<A>> {
        views(self.agents@)
    }
}

/// The place of an entry in a list that is ordered by priority: behind all entries
/// whose priority is not lower.
pub open spec fn slot<A: Agent>(s: Seq<EntryView<A>>, e: EntryView<A>) -> int
    decreases s.len(),
{
    if s.len() > 0 && s[0].agent.agent_priority().level() >= e.agent.agent_priority().level() {
        1 + slot(s.skip(1), e)
    } else {
        0
    }
}

/// The list in priority order, highest first; entries of one priority keep their
/// order.
pub open spec fn by_priority<A: Agent>(s: Seq<EntryView<A>>) -> Seq<EntryView<A>>
    decreases s.len(),
{
    if s.len() == 0 {
        s
    } else {
        let rest = by_priority(s.drop_last());
        rest.insert(slot(rest, s.last()), s.last())
    }
}

/// No entry has a higher priority than one before it.
pub open spec fn priority_ordered<A: Agent>(s: Seq<EntryView<A>>) -> bool {
    forall|i: int, j: int|
        0 <= i < j < s.len() ==> (#[trigger] s[i]).agent.agent_priority().level() >= (
        #[trigger] s[j]).agent.agent_priority().level()
}

/// An entry's slot has entries of no lower priority before it, and one of lower
/// priority at it.
pub proof fn lemma_slot<A: Agent>(s: Seq<EntryView<A>>, e: EntryView<A>)
    ensures
        0 <= slot(s, e) <= s.len(),
        forall|i: int|
            0 <= i < slot(s, e) ==> (#[trigger] s[i]).agent.agent_priority().level()
                >= e.agent.agent_priority().level(),
        slot(s, e) < s.len() ==> s[slot(s, e)].agent.agent_priority().level() < e.agent.agent_priority().level(),
    decreases s.len(),
{
    if s.len() > 0 && s[0].agent.agent_priority().level() >= e.agent.agent_priority().level() {
        let rest = s.skip(1);
        lemma_slot(rest, e);
        assert forall|i: int| 0 <= i < slot(s, e) implies (#[trigger] s[i]).agent.agent_priority().level()
            >= e.agent.agent_priority().level() by {
            if i > 0 {
                assert(s[i] == rest[i - 1]);
            }
        }
        if slot(s, e) < s.len() {
            assert(s[slot(s, e)] == rest[slot(rest, e)]);
        }
    }
}

/// Ordering puts higher priorities first and loses no entry.
pub proof fn law_by_priority_orders<A: Agent>(s: Seq<EntryView<A>>)
    ensures
        priority_ordered(by_priority(s)),
        by_priority(s).to_multiset() == s.to_multiset(),
        by_priority(s).len() == s.len(),
    decreases s.len(),
{
    broadcast use vstd::seq_lib::group_to_multiset_ensures;

    if s.len() > 0 {
        let rest = by_priority(s.drop_last());
        law_by_priority_orders(s.drop_last());
        lemma_slot(rest, s.last());
        let p = slot(rest, s.last());
        let t = rest.insert(p, s.last());
        assert forall|i: int, j: int| 0 <= i < j < t.len() implies (
        #[trigger] t[i]).agent.agent_priority().level() >= (#[trigger] t[j]).agent.agent_priority().level() by {
            if i != p && j != p {
                let a = if i < p { i } else { i - 1 };
                let b = if j < p { j } else { j - 1 };
                assert(t[i] == rest[a] && t[j] == rest[b]);
            } else if i == p {
                assert(t[j] == rest[j - 1]);
                assert(rest[p].agent.agent_priority().level() >= rest[j - 1].agent.agent_priority().level());
            } else {
                assert(t[i] == rest[i]);
            }
        }
        assert(s =~= s.drop_last().push(s.last()));
        assert(t.to_multiset() == rest.to_multiset().insert(s.last()));
    }
}

/// A list that is in order stays as it is; so registering an agent with an ordered
/// list only puts the new entry behind all entries of no lower priority.
pub proof fn law_ordered_list_keeps<A: Agent>(s: Seq<EntryView<A>>, e: EntryView<A>)
    requires
        priority_ordered(s),
    ensures
        by_priority(s) == s,
        by_priority(s.push(e)) == s.insert(slot(s, e), e),
    decreases s.len(),
{
    if s.len() > 0 {
        let rest = s.drop_last();
        assert forall|i: int, j: int| 0 <= i < j < rest.len() implies (
        #[trigger] rest[i]).agent.agent_priority().level() >= (
        #[trigger] rest[j]).agent.agent_priority().level() by {
            assert(rest[i] == s[i] && rest[j] == s[j]);
        }
        law_ordered_list_keeps(rest, s.last());
        lemma_slot(rest, s.last());
        let p = slot(rest, s.last());
        if p < rest.len() {
            assert(rest[p] == s[p]);
            assert(s[p].agent.agent_priority().level() >= s[s.len() - 1].agent.agent_priority().level());
        }
        assert(rest.insert(p, s.last()) =~= s);
        assert(by_priority(s) == by_priority(rest).insert(slot(by_priority(rest), s.last()), s.last()));
    }
    let more = s.push(e);
    assert(more.drop_last() =~= s);
    assert(more.last() == e);
    assert(by_priority(more) == by_priority(more.drop_last()).insert(slot(by_priority(more.drop_last()), e), e));
}

/// The last eleven polls all found the agent idle: it has been idle for more polls in
/// a row than the limit.
pub open spec fn long_idle(results: Seq<AgentPoll>) -> bool {
    &&& results.len() > IDLE_LIMIT
    &&& forall|i: int|
        results.len() - IDLE_LIMIT - 1 <= i < results.len() ==> #[trigger] results[i] == AgentPoll::Pending
}

/// An agent with these results is skipped at this tick.
pub open spec fn throttled(results: Seq<AgentPoll>, tick: u64) -> bool {
    long_idle(results) && tick % 2 != 0
}

/// The idle count after a poll: work resets it, idling raises it up to its limit.
spec fn idle_after(idle_count: u32, r: AgentPoll) -> u32 {
    match r {
        AgentPoll::Yield => 0,
        AgentPoll::Pending => if idle_count < u32::MAX {
            (idle_count + 1) as u32
        } else {
            u32::MAX
        },
        AgentPoll::Done => idle_count,
    }
}

/// The idle count after polls with these results.
spec fn idle_count_of(results: Seq<AgentPoll>) -> u32
    decreases results.len(),
{
    if results.len() == 0 {
        0
    } else {
        idle_after(idle_count_of(results.drop_last()), results.last())
    }
}

/// How many results at the end are idle ones.
spec fn idle_run(results: Seq<AgentPoll>) -> nat
    decreases results.len(),
{
    if results.len() > 0 && results.last() == AgentPoll::Pending {
        idle_run(results.drop_last()) + 1
    } else {
        0
    }
}

/// The idle results at the end are idle, and the one before them is not.
proof fn lemma_idle_run(results: Seq<AgentPoll>)
    ensures
        idle_run(results) <= results.len(),
        forall|i: int|
            results.len() - idle_run(results) <= i < results.len() ==> #[trigger] results[i] == AgentPoll::Pending,
        idle_run(results) < results.len() ==> results[results.len() - idle_run(results) - 1] != AgentPoll::Pending,
    decreases results.len(),
{
    if results.len() > 0 && results.last() == AgentPoll::Pending {
        let rest = results.drop_last();
        lemma_idle_run(rest);
        assert forall|i: int| results.len() - idle_run(results) <= i < results.len() implies (
        #[trigger] results[i]) == AgentPoll::Pending by {
            if i < rest.len() {
                assert(rest[i] == results[i]);
            }
        }
        if idle_run(results) < results.len() {
            assert(rest[rest.len() - idle_run(rest) - 1] == results[results.len() - idle_run(results) - 1]);
        }
    }
}

/// The idle count is the number of idle results at the end, as far as it can count.
proof fn lemma_idle_count(results: Seq<AgentPoll>)
    requires
        forall|i: int| 0 <= i < results.len() ==> #[trigger] results[i] != AgentPoll::Done,
    ensures
        idle_count_of(results) == if idle_run(results) < u32::MAX {
            idle_run(results)
        } else {
            u32::MAX as nat
        },
    decreases results.len(),
{
    if results.len() > 0 {
        let rest = results.drop_last();
        assert forall|i: int| 0 <= i < rest.len() implies #[trigger] rest[i] != AgentPoll::Done by {
            assert(rest[i] == results[i]);
        }
        assert(results[results.len() - 1] != AgentPoll::Done);
        lemma_idle_count(rest);
    }
}

/// The idle count exceeds the limit exactly where the last eleven polls were idle.
proof fn lemma_idle_count_tells(results: Seq<AgentPoll>)
    requires
        forall|i: int| 0 <= i < results.len() ==> #[trigger] results[i] != AgentPoll::Done,
    ensures
        idle_count_of(results) > IDLE_LIMIT <==> long_idle(results),
{
    lemma_idle_count(results);
    lemma_idle_run(results);
    let n = idle_run(results);
    if n <= IDLE_LIMIT && results.len() > IDLE_LIMIT {
        assert(results[results.len() - n - 1] != AgentPoll::Pending);
    }
}

/// One agent's part of a round. Where it is throttled it is not polled, and nothing
/// happens. Else it is polled once, with this result, and stays, changed; or it is done,
/// and is stopped and leaves.
pub open spec fn turn<A: Agent>(
    e: EntryView<A>,
    tick: u64,
    result: Option<AgentPoll>,
    before: SystemView,
    kept: Seq<EntryView<A>>,
    after: SystemView,
    kept_after: Seq<EntryView<A>>,
) -> bool {
    match result {
        None => throttled(e.results, tick) && after == before && kept_after == kept.push(e),
        Some(r) => {
            &&& !throttled(e.results, tick)
            &&& exists|a: A|
                {
                    &&& #[trigger] A::polled(e.agent, e.name, tick, before, a, after, r)
                    &&& if r == AgentPoll::Done {
                        kept_after == kept && exists|z: A| A::stopped(a, z)
                    } else {
                        kept_after == kept.push(EntryView { agent: a, results: e.results.push(r), ..e })
                    }
                }
        },
    }
}

/// A round over the agents, in order: it starts with the system `before` and ends
/// with `after`, `kept` are the agents that stay, and `results` tells for each agent what
/// its poll returned, where it was polled.
pub open spec fn round<A: Agent>(
    agents: Seq<EntryView<A>>,
    tick: u64,
    results: Seq<Option<AgentPoll>>,
    before: SystemView,
    after: SystemView,
    kept: Seq<EntryView<A>>,
) -> bool
    decreases agents.len(),
{
    &&& results.len() == agents.len()
    &&& if agents.len() == 0 {
        after == before && kept.len() == 0
    } else {
        exists|mid: SystemView, some: Seq<EntryView<A>>|
            round(agents.drop_last(), tick, results.drop_last(), before, mid, some) && #[trigger] turn(
                agents.last(),
                tick,
                results.last(),
                mid,
                some,
                after,
                kept,
            )
    }
}

/// The list after an agent has been registered: it was started, which left the system
/// `after`, and has its place by priority.
pub open spec fn registered<A: Agent>(
    agents: Seq<EntryView<A>>,
    agent: A,
    tick: u64,
    joined: SystemView,
    after: SystemView,
    more: Seq<EntryView<A>>,
) -> bool {
    exists|a: A|
        {
            &&& #[trigger] A::started(agent, agent.agent_name(), tick, joined, a, after)
            &&& more == by_priority(
                agents.push(EntryView { agent: a, name: agent.agent_name(), results: Seq::empty() }),
            )
        }
}

impl<A> AgentEntry<A> {
    /// The idle count is that of the results, and the agent is not done.
    spec fn wf(self) -> bool {
        &&& self.idle_count == idle_count_of(self.results@)
        &&& forall|i: int| 0 <= i < self.results@.len() ==> #[trigger] self.results@[i] != AgentPoll::Done
    }
}

impl<A: Agent> Sart<A> {
    /// Every idle count is that of the agent's results.
    pub closed spec fn wf(self) -> bool {
        forall|i: int| 0 <= i < self.agents@.len() ==> (#[trigger] self.agents@[i]).wf()
    }

    pub fn new() -> (r: Self)
        ensures
            r.wf(),
            r@ == Seq::<EntryView<A>>::empty(),
    {
        broadcast use group_views;

        Sart { agents: Vec::new() }
    }

    /// Register an agent with the given bus subscriptions. It is started at once, and
    /// takes its place by priority.
    pub fn register(&mut self, agent: A, subscriptions: &[&str], current_tick: u64, sys: &mut System)
        requires
            old(self).wf(),
            old(sys)@.wf(),
        ensures
            final(self).wf(),
            final(sys)@.wf(),
            registered(
                old(self)@,
                agent,
                current_tick,
                old(sys)@.joined(agent.agent_name(), patterns_of(subscriptions@)),
                final(sys)@,
                final(self)@,
            ),
    {
        broadcast use group_views;

        let mut agent = agent;
        let name = text(agent.name());
        let bus = sys.bus.connect(name.as_str(), subscriptions);
        let ghost given = agent;
        let ghost joined = old(sys)@.joined(given.agent_name(), patterns_of(subscriptions@));
        assert(sys@ == joined);
        let ctx = AgentContext { bus: &bus, tick: current_tick };
        agent.on_start(&ctx, sys);
        assert(A::started(given, given.agent_name(), current_tick, joined, agent, sys@));
        let ghost e = EntryView { agent, name: name@, results: Seq::empty() };
        self.agents.push(AgentEntry { agent, bus, idle_count: 0, results: Ghost(Seq::empty()) });
        assert(self@ == old(self)@.push(e));
        self.sort();
    }

    /// Put the agents into priority order, keeping the order within one priority.
    fn sort(&mut self)
        requires
            old(self).wf(),
        ensures
            final(self).wf(),
            final(self)@ == by_priority(old(self)@),
    {
        broadcast use group_views;

        let ghost all = self@;
        let mut rest: Vec<AgentEntry<A>> = Vec::new();
        core::mem::swap(&mut rest, &mut self.agents);
        let mut out: Vec<AgentEntry<A>> = Vec::new();
        let n = rest.len();
        let mut i: usize = 0;
        while i < n
            invariant
                n == all.len(),
                i <= n,
                views(rest@) == all.skip(i as int),
                views(out@) == by_priority(all.take(i as int)),
                forall|k: int| 0 <= k < rest@.len() ==> (#[trigger] rest@[k]).wf(),
                forall|k: int| 0 <= k < out@.len() ==> (#[trigger] out@[k]).wf(),
            decreases n - i,
        {
            broadcast use group_views;

            assert(views(rest@).len() == rest@.len());
            assert(views(rest@)[0] == rest@[0]@);
            let e = rest.remove(0);
            let ghost ev = e@;
            assert(ev == all.skip(i as int)[0]);
            assert(all.skip(i as int).remove(0) =~= all.skip(i + 1));
            let level = e.agent.priority().rank();
            let mut p: usize = 0;
            let ghost done = views(out@);
            assert(done.skip(0) =~= done);
            while p < out.len() && out[p].agent.priority().rank() >= level
                invariant
                    done == views(out@),
                    level == ev.agent.agent_priority().level(),
                    p <= out@.len(),
                    slot(done, ev) == p + slot(done.skip(p as int), ev),
                decreases out@.len() - p,
            {
                assert(done.skip(p as int).skip(1) =~= done.skip(p + 1));
                assert(done.skip(p as int)[0] == out@[p as int]@);
                p += 1;
            }
            if p < out.len() {
                assert(done.skip(p as int)[0] == out@[p as int]@);
            }
            assert(slot(done, ev) == p);
            out.insert(p, e);
            i += 1;
            assert(all.take(i as int).drop_last() =~= all.take(i - 1));
            assert(all.take(i as int).last() == ev);
        }
        assert(all.take(n as int) =~= all);
        self.agents = out;
    }

    /// Run one full scheduling round.
    pub fn tick(&mut self, current_tick: u64, sys: &mut System)
        requires
            old(self).wf(),
            old(sys)@.wf(),
            forall|i: int| 0 <= i < old(self)@.len() ==> (#[trigger] old(self)@[i]).agent.ready(current_tick),
        ensures
            final(self).wf(),
            final(sys)@.wf(),
            exists|results: Seq<Option<AgentPoll>>|
                round(old(self)@, current_tick, results, old(sys)@, final(sys)@, final(self)@),
    {
        broadcast use group_views;

        let ghost all = self@;
        let ghost first = sys@;
        let n = self.agents.len();
        let mut seen: usize = 0;
        let mut i: usize = 0;
        let ghost mut results: Seq<Option<AgentPoll>> = Seq::empty();
        assert(self@.take(0) =~= Seq::empty());
        while seen < n
            invariant
                n == all.len(),
                i <= seen <= n,
                self@.len() == i + (n - seen),
                self@ == views(self.agents@),
                forall|k: int| 0 <= k < n - seen ==> #[trigger] self@[i + k] == all[seen + k],
                forall|k: int| 0 <= k < all.len() ==> (#[trigger] all[k]).agent.ready(current_tick),
                self.wf(),
                sys@.wf(),
                round(all.take(seen as int), current_tick, results, first, sys@, self@.take(i as int)),
            decreases n - seen,
        {
            broadcast use group_views;

            let ghost mid = sys@;
            let ghost some = self@.take(i as int);
            let ghost list = self@;
            assert(self@[i + 0] == all[seen + 0]);
            assert(self.agents@[i as int]@ == all[seen as int]);
            let ghost e = all[seen as int];
            assert(all.take(seen + 1).drop_last() =~= all.take(seen as int));
            assert(all.take(seen + 1).last() == e);
            let ghost mut result: Option<AgentPoll> = None;
            proof {
                assert(self.agents@[i as int].wf());
                lemma_idle_count_tells(e.results);
            }
            if self.agents[i].idle_count > IDLE_LIMIT && current_tick % 2 != 0 {
                i += 1;
                assert(self@.take(i as int) =~= some.push(e));
                assert forall|k: int| 0 <= k < n - seen - 1 implies #[trigger] self@[i + k] == all[seen + 1 + k] by {
                    assert(list[i - 1 + (k + 1)] == all[seen + (k + 1)]);
                }
            } else {
                let mut entry = self.agents.remove(i);
                let ctx = AgentContext { bus: &entry.bus, tick: current_tick };
                let r = entry.agent.poll(&ctx, sys);
                let ghost a = entry.agent;
                assert(A::polled(e.agent, e.name, current_tick, mid, a, sys@, r));
                proof {
                    result = Some(r);
                }
                match r {
                    AgentPoll::Yield => {
                        entry.idle_count = 0;
                    },
                    AgentPoll::Pending => {
                        entry.idle_count = entry.idle_count.saturating_add(1);
                    },
                    AgentPoll::Done => {
                        entry.agent.on_stop();
                        assert(A::stopped(a, entry.agent));
                    },
                }
                entry.results = Ghost(entry.results@.push(r));
                assert(entry.results@.drop_last() =~= e.results);
                match r {
                    AgentPoll::Done => {
                        assert(self@ =~= list.remove(i as int));
                        assert(self@.take(i as int) =~= some);
                        assert forall|k: int| 0 <= k < n - seen - 1 implies #[trigger] self@[i + k] == all[seen + 1 + k] by {
                            assert(list[i + (k + 1)] == all[seen + (k + 1)]);
                        }
                    },
                    _ => {
                        self.agents.insert(i, entry);
                        i += 1;
                        assert(self@ =~= list.update(i - 1, entry@));
                        assert(self@.take(i as int) =~= some.push(entry@));
                        assert forall|k: int| 0 <= k < n - seen - 1 implies #[trigger] self@[i + k] == all[seen + 1 + k] by {
                            assert(list[i - 1 + (k + 1)] == all[seen + (k + 1)]);
                        }
                    },
                }
            }
            assert(turn(e, current_tick, result, mid, some, sys@, self@.take(i as int)));
            proof {
                let upto = all.take(seen + 1);
                let so_far = results;
                results = results.push(result);
                assert(results.drop_last() =~= so_far);
                assert(results.last() == result);
                assert(round(upto.drop_last(), current_tick, results.drop_last(), first, mid, some));
                assert(turn(upto.last(), current_tick, results.last(), mid, some, sys@, self@.take(i as int)));
                assert(round(upto, current_tick, results, first, sys@, self@.take(i as int)));
            }
            seen += 1;
        }
        assert(all.take(n as int) =~= all);
        assert(self@.take(i as int) =~= self@);
    }

    /// Number of currently registered agents.
    pub fn agent_count(&self) -> (r: usize)
        ensures
            r == self@.len(),
    {
        self.agents.len()
    }

    /// Names of all registered agents, in scheduling order.
    pub fn agent_names(&self) -> (r: Vec<String>)
        ensures
            views(r@) == self@.map_values(|e: EntryView<A>| e.agent.agent_name()),
    {
        broadcast use group_views;

        let mut out: Vec<String> = Vec::new();
        let ghost all = self@.map_values(|e: EntryView<A>| e.agent.agent_name());
        let mut i: usize = 0;
        assert(all.take(0) =~= Seq::empty());
        while i < self.agents.len()
            invariant
                i <= self.agents@.len(),
                self@ == views(self.agents@),
                all == self@.map_values(|e: EntryView<A>| e.agent.agent_name()),
                views(out@) == all.take(i as int),
            decreases self.agents@.len() - i,
        {
            broadcast use group_views;

            out.push(text(self.agents[i].agent.name()));
            i += 1;
            assert(all.take(i as int) =~= all.take(i - 1).push(all[i - 1]));
        }
        assert(all.take(all.len() as int) =~= all);
        out
    }
}

} // verus!
