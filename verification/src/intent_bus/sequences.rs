//! What a sequence of sends leaves to receive.

use vstd::prelude::*;

use crate::intent_bus::bus::{
    any_matches, delivered, leaving, lemma_next_index, lemma_subscriber_named, next_index, subscriber_named, BusState,
    SubscriberView, INBOX_CAPACITY,
};
use crate::intent_bus::intent::{IntentView, IntentPriority};
use crate::intent_bus::laws::{lemma_names_after_send, lemma_new_name};
use crate::views::bounded_push;

verus! {

/// An intent that is sent, and when.
pub struct Sent {
    pub at_ms: u64,
    pub intent: IntentView,
}

/// The bus at a time.
pub open spec fn at_time(bus: BusState, ms: u64) -> BusState {
    BusState { now_ms: ms, ..bus }
}

/// The bus after several sends.
pub open spec fn sent_all(bus: BusState, sends: Seq<Sent>) -> BusState
    decreases sends.len(),
{
    if sends.len() == 0 {
        bus
    } else {
        at_time(sent_all(bus, sends.drop_last()), sends.last().at_ms).sent(sends.last().intent)
    }
}

/// The sent intents of a type that one of the patterns matches, each once, as the bus
/// stamps them and in the order of sending.
pub open spec fn matching(bus: BusState, sends: Seq<Sent>, patterns: Seq<Seq<char>>) -> Seq<IntentView>
    decreases sends.len(),
{
    if sends.len() == 0 {
        Seq::empty()
    } else {
        let before = matching(bus, sends.drop_last(), patterns);
        let last = sends.last();
        if any_matches(last.intent.semantic_type, patterns) {
            before.push(at_time(sent_all(bus, sends.drop_last()), last.at_ms).stamped(last.intent))
        } else {
            before
        }
    }
}

/// The last `n` of a list, or all of it where it is shorter.
pub open spec fn newest(s: Seq<IntentView>, n: nat) -> Seq<IntentView> {
    if s.len() <= n {
        s
    } else {
        s.skip(s.len() - n)
    }
}

/// The bus after the named subscriber has tried to receive so many times.
pub open spec fn after_recvs(bus: BusState, name: Seq<char>, n: nat) -> BusState
    decreases n,
{
    if n == 0 {
        bus
    } else {
        after_recvs(bus, name, (n - 1) as nat).after_recv(name)
    }
}

/// All that an inbox holds leaves it.
pub proof fn lemma_leaving_len(inbox: Seq<IntentView>)
    ensures
        leaving(inbox).len() == inbox.len(),
    decreases inbox.len(),
{
    if inbox.len() > 0 {
        lemma_next_index(inbox);
        lemma_leaving_len(inbox.remove(next_index(inbox)));
    }
}

/// After some receives the rest of the inbox is left, to leave in the same order.
proof fn lemma_after_recvs(bus: BusState, name: Seq<char>, n: nat)
    requires
        n <= bus.inbox_of(name).len(),
    ensures
        leaving(after_recvs(bus, name, n).inbox_of(name)) == leaving(bus.inbox_of(name)).skip(n as int),
        after_recvs(bus, name, n).inbox_of(name).len() == bus.inbox_of(name).len() - n,
    decreases n,
{
    let all = leaving(bus.inbox_of(name));
    lemma_leaving_len(bus.inbox_of(name));
    if n == 0 {
        assert(all.skip(0) =~= all);
    } else {
        let m = (n - 1) as nat;
        lemma_after_recvs(bus, name, m);
        let mid = after_recvs(bus, name, m);
        let inbox = mid.inbox_of(name);
        lemma_next_index(inbox);
        lemma_subscriber_named(mid.subscribers, name);
        let rest = inbox.remove(next_index(inbox));
        mid.lemma_with_inbox(name, rest, rest);
        assert(leaving(inbox) == seq![inbox[next_index(inbox)]] + leaving(rest));
        assert(leaving(rest) =~= leaving(inbox).skip(1));
        assert(all.skip(m as int).skip(1) =~= all.skip(n as int));
    }
}

/// Repeated receiving hands out all that the inbox holds, each intent once, in the order
/// of leaving, and then nothing.
pub proof fn law_receives_all(bus: BusState, name: Seq<char>, n: nat)
    ensures
        n < bus.inbox_of(name).len() ==> after_recvs(bus, name, n).received(name) == Some(
            leaving(bus.inbox_of(name))[n as int],
        ),
        n == bus.inbox_of(name).len() ==> after_recvs(bus, name, n).received(name) is None,
{
    if n <= bus.inbox_of(name).len() {
        lemma_after_recvs(bus, name, n);
        lemma_leaving_len(bus.inbox_of(name));
        let inbox = after_recvs(bus, name, n).inbox_of(name);
        if inbox.len() > 0 {
            lemma_next_index(inbox);
            assert(leaving(inbox)[0] == inbox[next_index(inbox)]);
            assert(leaving(bus.inbox_of(name)).skip(n as int)[0] == leaving(bus.inbox_of(name))[n as int]);
        }
    }
}

/// The intents of one priority, in order.
pub open spec fn of_priority(s: Seq<IntentView>, p: IntentPriority) -> Seq<IntentView>
    decreases s.len(),
{
    if s.len() == 0 {
        Seq::empty()
    } else {
        let rest = of_priority(s.drop_first(), p);
        if s[0].priority == p {
            seq![s[0]] + rest
        } else {
            rest
        }
    }
}

proof fn lemma_of_priority_add(a: Seq<IntentView>, b: Seq<IntentView>, p: IntentPriority)
    ensures
        of_priority(a + b, p) == of_priority(a, p) + of_priority(b, p),
    decreases a.len(),
{
    if a.len() == 0 {
        assert(a + b =~= b);
        assert(of_priority(a, p) + of_priority(b, p) =~= of_priority(b, p));
    } else {
        lemma_of_priority_add(a.drop_first(), b, p);
        assert((a + b).drop_first() =~= a.drop_first() + b);
        assert(of_priority(a + b, p) =~= of_priority(a, p) + of_priority(b, p));
    }
}

proof fn lemma_none_of_priority(s: Seq<IntentView>, p: IntentPriority)
    requires
        forall|i: int| 0 <= i < s.len() ==> (#[trigger] s[i]).priority != p,
    ensures
        of_priority(s, p).len() == 0,
    decreases s.len(),
{
    if s.len() > 0 {
        assert forall|i: int| 0 <= i < s.drop_first().len() implies (#[trigger] s.drop_first()[i]).priority != p by {
            assert(s.drop_first()[i] == s[i + 1]);
        }
        lemma_none_of_priority(s.drop_first(), p);
    }
}

/// Within one priority intents leave in the order of their arrival.
pub proof fn law_order_within_priority(inbox: Seq<IntentView>, p: IntentPriority)
    ensures
        of_priority(leaving(inbox), p) == of_priority(inbox, p),
    decreases inbox.len(),
{
    if inbox.len() > 0 {
        let n = next_index(inbox);
        lemma_next_index(inbox);
        let x = inbox[n];
        let a = inbox.take(n);
        let b = inbox.skip(n + 1);
        law_order_within_priority(inbox.remove(n), p);
        assert(inbox.remove(n) =~= a + b);
        assert(inbox =~= a + (seq![x] + b));
        lemma_of_priority_add(a, b, p);
        lemma_of_priority_add(a, seq![x] + b, p);
        lemma_of_priority_add(seq![x], b, p);
        lemma_of_priority_add(seq![x], leaving(inbox.remove(n)), p);
        if x.priority == p {
            assert forall|i: int| 0 <= i < a.len() implies (#[trigger] a[i]).priority != p by {
                assert(a[i] == inbox[i]);
                assert(inbox[i].priority.level() < x.priority.level());
            }
            lemma_none_of_priority(a, p);
            assert(of_priority(a, p) + (of_priority(seq![x], p) + of_priority(b, p)) =~= of_priority(seq![x], p) + (
            of_priority(a, p) + of_priority(b, p)));
        } else {
            lemma_none_of_priority(seq![x], p);
            assert(of_priority(a, p) + (of_priority(seq![x], p) + of_priority(b, p)) =~= of_priority(seq![x], p) + (
            of_priority(a, p) + of_priority(b, p)));
        }
    }
}

/// Intents of one priority leave in the order of their arrival.
proof fn lemma_equal_priority_leaving(inbox: Seq<IntentView>, p: IntentPriority)
    requires
        forall|i: int| 0 <= i < inbox.len() ==> (#[trigger] inbox[i]).priority == p,
    ensures
        leaving(inbox) == inbox,
    decreases inbox.len(),
{
    if inbox.len() > 0 {
        let n = next_index(inbox);
        lemma_next_index(inbox);
        if n > 0 {
            assert(inbox[0].priority.level() < inbox[n].priority.level());
        }
        let rest = inbox.remove(0);
        assert forall|i: int| 0 <= i < rest.len() implies (#[trigger] rest[i]).priority == p by {
            assert(rest[i] == inbox[i + 1]);
        }
        lemma_equal_priority_leaving(rest, p);
        assert(leaving(inbox) =~= inbox);
    }
}

/// What a new subscriber's inbox holds after several sends: the newest of those that its
/// patterns match, as many as the inbox takes.
proof fn lemma_inbox_after(bus: BusState, name: Seq<char>, patterns: Seq<Seq<char>>, sends: Seq<Sent>)
    requires
        subscriber_named(bus.subscribers, name) is None,
    ensures
        ({
            let joined = bus.connected(name, patterns);
            let after = sent_all(joined, sends);
            let k = bus.subscribers.len() as int;
            &&& subscriber_named(after.subscribers, name) == Some(k)
            &&& k < after.subscribers.len()
            &&& after.subscribers[k].subscriptions == patterns
            &&& after.subscribers[k].inbox == newest(matching(joined, sends, patterns), INBOX_CAPACITY as nat)
        }),
    decreases sends.len(),
{
    let joined = bus.connected(name, patterns);
    let k = bus.subscribers.len() as int;
    if sends.len() == 0 {
        lemma_new_name(bus.subscribers, SubscriberView { subscriptions: patterns, inbox: Seq::empty(), name });
    } else {
        let rest = sends.drop_last();
        lemma_inbox_after(bus, name, patterns, rest);
        let mid = at_time(sent_all(joined, rest), sends.last().at_ms);
        let i = mid.stamped(sends.last().intent);
        lemma_names_after_send(mid.subscribers, i, name);
        let after = mid.sent(sends.last().intent);
        assert(after.subscribers[k] == delivered(mid.subscribers[k], i));
        let before = matching(joined, rest, patterns);
        let now = matching(joined, sends, patterns);
        if any_matches(i.semantic_type, patterns) {
            assert(now == before.push(i));
            assert(bounded_push(newest(before, INBOX_CAPACITY as nat), i, INBOX_CAPACITY as nat) =~= newest(
                now,
                INBOX_CAPACITY as nat,
            ));
        }
    }
}

/// What a sequence of sends leaves a new subscriber to receive: the newest of the intents
/// that its patterns match, as many as an inbox takes, each once however many patterns
/// match; intents that match no pattern never appear. They are handed out by priority,
/// and behind the last of them there is nothing.
pub proof fn law_sends_are_received(
    bus: BusState,
    name: Seq<char>,
    patterns: Seq<Seq<char>>,
    sends: Seq<Sent>,
    n: nat,
)
    requires
        subscriber_named(bus.subscribers, name) is None,
    ensures
        ({
            let joined = bus.connected(name, patterns);
            let after = sent_all(joined, sends);
            let due = newest(matching(joined, sends, patterns), INBOX_CAPACITY as nat);
            &&& n < due.len() ==> after_recvs(after, name, n).received(name) == Some(leaving(due)[n as int])
            &&& n == due.len() ==> after_recvs(after, name, n).received(name) is None
        }),
{
    lemma_inbox_after(bus, name, patterns, sends);
    law_receives_all(sent_all(bus.connected(name, patterns), sends), name, n);
}

/// What matches is among what was sent, so it has the priority of what was sent.
proof fn lemma_matching_priority(bus: BusState, sends: Seq<Sent>, patterns: Seq<Seq<char>>, p: IntentPriority)
    requires
        forall|i: int| 0 <= i < sends.len() ==> (#[trigger] sends[i]).intent.priority == p,
    ensures
        forall|i: int|
            0 <= i < matching(bus, sends, patterns).len() ==> (
            #[trigger] matching(bus, sends, patterns)[i]).priority == p,
    decreases sends.len(),
{
    if sends.len() > 0 {
        let rest = sends.drop_last();
        assert forall|i: int| 0 <= i < rest.len() implies (#[trigger] rest[i]).intent.priority == p by {
            assert(rest[i] == sends[i]);
        }
        lemma_matching_priority(bus, rest, patterns, p);
        assert(sends[sends.len() - 1].intent.priority == p);
    }
}

/// Where all that is sent has one priority, a new subscriber receives the newest that
/// match in the order of sending, and then nothing.
pub proof fn law_sends_are_received_in_order(
    bus: BusState,
    name: Seq<char>,
    patterns: Seq<Seq<char>>,
    sends: Seq<Sent>,
    p: IntentPriority,
    n: nat,
)
    requires
        subscriber_named(bus.subscribers, name) is None,
        forall|i: int| 0 <= i < sends.len() ==> (#[trigger] sends[i]).intent.priority == p,
    ensures
        ({
            let joined = bus.connected(name, patterns);
            let after = sent_all(joined, sends);
            let due = newest(matching(joined, sends, patterns), INBOX_CAPACITY as nat);
            &&& n < due.len() ==> after_recvs(after, name, n).received(name) == Some(due[n as int])
            &&& n == due.len() ==> after_recvs(after, name, n).received(name) is None
        }),
{
    let joined = bus.connected(name, patterns);
    let all = matching(joined, sends, patterns);
    let due = newest(all, INBOX_CAPACITY as nat);
    law_sends_are_received(bus, name, patterns, sends, n);
    lemma_matching_priority(joined, sends, patterns, p);
    assert forall|i: int| 0 <= i < due.len() implies (#[trigger] due[i]).priority == p by {
        let d = all.len() - due.len();
        assert(due[i] == all[i + d]);
    }
    lemma_equal_priority_leaving(due, p);
}

} // verus!
