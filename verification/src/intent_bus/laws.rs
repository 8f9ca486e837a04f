//! What holds of the bus as a whole.

use vstd::prelude::*;

use crate::intent_bus::audit::{entry_of, AuditEntryView, CAPACITY};
use crate::intent_bus::bus::{
    any_matches, delivered, lemma_next_index, lemma_subscriber_named, next_index, subscriber_named, BusState,
    SubscriberView, INBOX_CAPACITY,
};
use crate::intent_bus::intent::{answer_to, type_matches, IntentPriority, IntentView};
use crate::text::starts_with;
use crate::views::bounded_push;

verus! {

/// Every intent that is sent is the newest entry of the audit log.
pub proof fn law_every_intent_is_audited(bus: BusState, intent: IntentView)
    ensures
        bus.sent(intent).audit.len() > 0,
        bus.sent(intent).audit.last() == entry_of(bus.stamped(intent)),
{
}

/// An intent reaches the inbox of every subscriber with a matching pattern, as the
/// last one there, and changes no other subscriber.
pub proof fn law_delivery(bus: BusState, intent: IntentView, i: int)
    requires
        0 <= i < bus.subscribers.len(),
    ensures
        bus.sent(intent).subscribers.len() == bus.subscribers.len(),
        any_matches(intent.semantic_type, bus.subscribers[i].subscriptions) ==> {
            &&& bus.sent(intent).subscribers[i].inbox.len() > 0
            &&& bus.sent(intent).subscribers[i].inbox.last() == bus.stamped(intent)
        },
        !any_matches(intent.semantic_type, bus.subscribers[i].subscriptions) ==> bus.sent(intent).subscribers[i]
            == bus.subscribers[i],
{
}

/// Ids grow from one intent to the next, until the counter is exhausted.
pub proof fn law_ids_increase(bus: BusState, first: IntentView, second: IntentView)
    requires
        bus.next_id < u64::MAX,
    ensures
        bus.stamped(first).id < bus.sent(first).stamped(second).id,
{
}

/// Sending and receiving keep inboxes and audit log within their capacities.
pub proof fn law_bounded(bus: BusState, intent: IntentView, name: Seq<char>)
    requires
        bus.wf(),
    ensures
        bus.sent(intent).wf(),
        bus.after_recv(name).wf(),
{
    let after = bus.sent(intent);
    assert forall|i: int| 0 <= i < after.subscribers.len() implies (#[trigger] after.subscribers[i]).inbox.len()
        <= INBOX_CAPACITY by {
        assert(bus.subscribers[i].inbox.len() <= INBOX_CAPACITY);
    }
    let inbox = bus.inbox_of(name);
    lemma_subscriber_named(bus.subscribers, name);
    if inbox.len() > 0 {
        lemma_next_index(inbox);
        let r = bus.after_recv(name);
        assert forall|i: int| 0 <= i < r.subscribers.len() implies (#[trigger] r.subscribers[i]).inbox.len()
            <= INBOX_CAPACITY by {
            assert(bus.subscribers[i].inbox.len() <= INBOX_CAPACITY);
        }
    }
}

/// A name that no one had registered under is found at the end of the list.
pub proof fn lemma_new_name(subs: Seq<SubscriberView>, sub: SubscriberView)
    requires
        subscriber_named(subs, sub.name) is None,
    ensures
        subscriber_named(subs.push(sub), sub.name) == Some(subs.len() as int),
    decreases subs.len(),
{
    if subs.len() > 0 {
        lemma_new_name(subs.skip(1), sub);
        assert(subs.push(sub).skip(1) =~= subs.skip(1).push(sub));
    }
}

/// Delivering an intent changes no name.
pub proof fn lemma_names_after_send(subs: Seq<SubscriberView>, intent: IntentView, name: Seq<char>)
    ensures
        subscriber_named(subs.map_values(|s: SubscriberView| delivered(s, intent)), name) == subscriber_named(
            subs,
            name,
        ),
    decreases subs.len(),
{
    let t = subs.map_values(|s: SubscriberView| delivered(s, intent));
    if subs.len() > 0 {
        lemma_names_after_send(subs.skip(1), intent, name);
        assert(t.skip(1) =~= subs.skip(1).map_values(|s: SubscriberView| delivered(s, intent)));
    }
}

/// What is sent is received, once: a subscriber whose inbox is empty and who listens to
/// the intent gets it as it was stamped, and then finds its inbox empty again.
pub proof fn law_sent_intent_is_received(bus: BusState, name: Seq<char>, intent: IntentView)
    requires
        bus.inbox_of(name).len() == 0,
        subscriber_named(bus.subscribers, name) matches Some(k) && any_matches(
            intent.semantic_type,
            bus.subscribers[k].subscriptions,
        ),
    ensures
        bus.sent(intent).received(name) == Some(bus.stamped(intent)),
        bus.sent(intent).after_recv(name).received(name) is None,
{
    let after = bus.sent(intent);
    let k = subscriber_named(bus.subscribers, name)->0;
    lemma_subscriber_named(bus.subscribers, name);
    lemma_names_after_send(bus.subscribers, bus.stamped(intent), name);
    assert(after.subscribers[k].inbox =~= seq![bus.stamped(intent)]);
    assert(next_index(after.inbox_of(name)) == 0);
    let rest = after.inbox_of(name).remove(0);
    assert(rest.len() == 0);
    after.lemma_with_inbox(name, rest, rest);
}

/// What a component is sent after it has connected is what it receives, once.
pub proof fn law_send_then_receive(
    bus: BusState,
    name: Seq<char>,
    subscriptions: Seq<Seq<char>>,
    intent: IntentView,
)
    requires
        subscriber_named(bus.subscribers, name) is None,
        any_matches(intent.semantic_type, subscriptions),
    ensures
        bus.connected(name, subscriptions).sent(intent).received(name) == Some(bus.stamped(intent)),
        bus.connected(name, subscriptions).sent(intent).after_recv(name).received(name) is None,
{
    lemma_new_name(bus.subscribers, SubscriberView { subscriptions, inbox: Seq::empty(), name });
    law_sent_intent_is_received(bus.connected(name, subscriptions), name, intent);
}

/// Intents of one priority are received in the order in which they came.
pub proof fn law_equal_priority_in_order(bus: BusState, name: Seq<char>)
    requires
        bus.inbox_of(name).len() > 0,
        forall|i: int|
            0 <= i < bus.inbox_of(name).len() ==> (#[trigger] bus.inbox_of(name)[i]).priority == bus.inbox_of(
                name,
            )[0].priority,
    ensures
        bus.received(name) == Some(bus.inbox_of(name)[0]),
        bus.after_recv(name).inbox_of(name) == bus.inbox_of(name).skip(1),
{
    let inbox = bus.inbox_of(name);
    lemma_next_index(inbox);
    let k = next_index(inbox);
    if k > 0 {
        assert(inbox[0].priority.level() < inbox[k].priority.level());
    }
    let rest = inbox.remove(0);
    assert(rest =~= inbox.skip(1));
    lemma_subscriber_named(bus.subscribers, name);
    bus.lemma_with_inbox(name, rest, rest);
}

/// The intents of one inbox leave it highest priority first: while another intent
/// waits, none of lower priority is handed out.
pub proof fn law_higher_priority_first(bus: BusState, name: Seq<char>, i: int)
    requires
        0 <= i < bus.inbox_of(name).len(),
    ensures
        bus.received(name) is Some,
        bus.received(name)->0.priority.level() >= bus.inbox_of(name)[i].priority.level(),
{
    lemma_next_index(bus.inbox_of(name));
}

/// Urgent intents go first: a critical one before all others, a high one before those that
/// are neither, and one for the background only when nothing else waits.
pub proof fn law_urgent_first(bus: BusState, name: Seq<char>, i: int)
    requires
        0 <= i < bus.inbox_of(name).len(),
    ensures
        ({
            let waits = bus.inbox_of(name)[i].priority;
            let got = bus.received(name)->0.priority;
            &&& bus.received(name) is Some
            &&& waits == IntentPriority::Critical ==> got == IntentPriority::Critical
            &&& waits == IntentPriority::High ==> got == IntentPriority::Critical || got == IntentPriority::High
            &&& waits == IntentPriority::Normal ==> got != IntentPriority::Background
        }),
{
    lemma_next_index(bus.inbox_of(name));
}

/// A type is listened to exactly when one of the patterns is it or a name above it.
pub proof fn law_any_pattern(t: Seq<char>, patterns: Seq<Seq<char>>, i: int)
    ensures
        0 <= i < patterns.len() && t == patterns[i] ==> any_matches(t, patterns),
        0 <= i < patterns.len() && starts_with(t, patterns[i].push('.')) ==> any_matches(t, patterns),
        any_matches(t, patterns) ==> exists|k: int|
            0 <= k < patterns.len() && (t == #[trigger] patterns[k] || starts_with(t, patterns[k].push('.'))),
{
    if 0 <= i < patterns.len() {
        assert(type_matches(t, patterns[i]) ==> any_matches(t, patterns));
    }
    if any_matches(t, patterns) {
        let k = choose|k: int| 0 <= k < patterns.len() && type_matches(t, #[trigger] patterns[k]);
        assert(t == patterns[k] || starts_with(t, patterns[k].push('.')));
    }
}

/// An intent arrives as it was sent, with the bus's next id and time on it.
pub proof fn law_intent_arrives_unchanged(bus: BusState, intent: IntentView)
    ensures
        bus.stamped(intent).payload == intent.payload,
        bus.stamped(intent).semantic_type == intent.semantic_type,
        bus.stamped(intent).sender == intent.sender,
        bus.stamped(intent).reply_to == intent.reply_to,
        bus.stamped(intent).priority == intent.priority,
        bus.stamped(intent).id == bus.next_id,
        bus.stamped(intent).timestamp_ms == bus.now_ms,
{
}

/// The log tells of an intent who sent what and when, to what it is an answer, and how long
/// its payload is.
pub proof fn law_audit_tells(bus: BusState, intent: IntentView)
    ensures
        ({
            let entry = bus.sent(intent).audit.last();
            &&& entry.id == bus.next_id
            &&& entry.timestamp_ms == bus.now_ms
            &&& entry.sender == intent.sender
            &&& entry.semantic_type == intent.semantic_type
            &&& entry.reply_to == intent.reply_to
            &&& entry.payload_len == intent.payload.len()
        }),
{
}

/// Whoever listens to the type of a request also gets the answers to it.
pub proof fn law_answer_matches_request(origin: IntentView, sender: Seq<char>, payload: Seq<u8>)
    ensures
        type_matches(answer_to(origin, sender, payload).semantic_type, origin.semantic_type),
        answer_to(origin, sender, payload).reply_to == Some(origin.id),
{
    reveal_strlit(".response");
    let t = origin.semantic_type;
    let a = answer_to(origin, sender, payload).semantic_type;
    assert(a.subrange(0, t.len() as int + 1) =~= t.push('.'));
    assert(starts_with(a, t.push('.')));
}

/// A pattern matches itself and every name below it, and nothing that only begins with
/// the same letters.
pub proof fn law_pattern_scope(pattern: Seq<char>, tail: Seq<char>)
    ensures
        type_matches(pattern, pattern),
        type_matches(pattern.push('.') + tail, pattern),
        tail.len() > 0 && tail[0] != '.' ==> !type_matches(pattern + tail, pattern),
{
    let below = pattern.push('.') + tail;
    assert(below.subrange(0, pattern.len() as int + 1) =~= pattern.push('.'));
    if tail.len() > 0 && tail[0] != '.' {
        let s = pattern + tail;
        assert(s.len() != pattern.len());
        if starts_with(s, pattern.push('.')) {
            assert(s.subrange(0, pattern.len() as int + 1)[pattern.len() as int] == tail[0]);
        }
    }
}

/// The log after several intents have been recorded.
pub open spec fn recorded_all(log: Seq<AuditEntryView>, more: Seq<AuditEntryView>) -> Seq<AuditEntryView>
    decreases more.len(),
{
    if more.len() == 0 {
        log
    } else {
        bounded_push(recorded_all(log, more.drop_last()), more.last(), CAPACITY as nat)
    }
}

/// The log keeps the newest entries, as many as its capacity, in order: older ones
/// leave, and no entry leaves before an older one.
pub proof fn law_audit_keeps_newest(log: Seq<AuditEntryView>, more: Seq<AuditEntryView>)
    requires
        log.len() <= CAPACITY,
    ensures
        recorded_all(log, more) == if log.len() + more.len() <= CAPACITY {
            log + more
        } else {
            (log + more).skip(log.len() + more.len() - CAPACITY)
        },
    decreases more.len(),
{
    if more.len() == 0 {
        assert(log + more =~= log);
    } else {
        law_audit_keeps_newest(log, more.drop_last());
        let all = log + more;
        assert(all =~= (log + more.drop_last()).push(more.last()));
        let before = recorded_all(log, more.drop_last());
        if all.len() > CAPACITY {
            assert(bounded_push(before, more.last(), CAPACITY as nat) =~= all.skip(all.len() - CAPACITY));
        }
    }
}

} // verus!
