//! Intent Bus: the central message router.
//!
//! Components register as subscribers with semantic type patterns, then send and
//! receive intents through `BusConnection` handles. Every intent is recorded in the
//! audit log. Inboxes are bounded: a full one drops its oldest intent. Intents leave
//! an inbox by priority, and in the order of their arrival within one priority.

use std::collections::VecDeque;

use vstd::prelude::*;

use crate::intent_bus::audit::{entry_of, latest, AuditEntry, AuditEntryView, AuditLog, CAPACITY};
use crate::intent_bus::intent::{type_matches, Intent, IntentId, IntentView};
use crate::text::{text, text_eq};
use crate::views::{bounded_push, group_views, views};

verus! {

/// Maximum number of intents queued in one inbox.
pub const INBOX_CAPACITY: usize = 64;

/// A subscriber registered on the bus.
struct Subscriber {
    /// The semantic type patterns this subscriber listens to.
    subscriptions: Vec<String>,
    /// Intents delivered and not yet received.
    inbox: VecDeque<Intent>,
    /// Name, for audit and lookup.
    name: String,
}

/// What a subscriber holds.
pub struct SubscriberView {
    pub subscriptions: Seq<Seq<char>>,
    pub inbox: Seq<IntentView>,
    pub name: Seq<char>,
}

impl View for Subscriber {
    type V = SubscriberView;

    closed spec fn view(&self) -> SubscriberView {
        SubscriberView {
            subscriptions: views(self.subscriptions@),
            inbox: views(self.inbox@),
            name: self.name@,
        }
    }
}

/// The Intent Bus: its subscribers, the audit log, the id of the next intent and the
/// time that intents are stamped with.
pub struct IntentBus {
    subscribers: Vec<Subscriber>,
    audit: AuditLog,
    next_id: u64,
    now_ms: u64,
}

/// What the bus holds.
pub struct BusState {
    pub subscribers: Seq<SubscriberView>,
    pub audit: Seq<AuditEntryView>,
    pub next_id: u64,
    pub now_ms: u64,
}

impl View for IntentBus {
    type V = BusState;

    closed spec fn view(&self) -> BusState {
        BusState {
            subscribers: views(self.subscribers@),
            audit: self.audit@,
            next_id: self.next_id,
            now_ms: self.now_ms,
        }
    }
}

/// The patterns that the strings hold.
pub open spec fn patterns_of(subscriptions: Seq<&str>) -> Seq<Seq<char>> {
    subscriptions.map_values(|s: &str| s@)
}

/// Some pattern of the list matches the type.
pub open spec fn any_matches(t: Seq<char>, patterns: Seq<Seq<char>>) -> bool {
    exists|i: int| 0 <= i < patterns.len() && type_matches(t, #[trigger] patterns[i])
}

/// A subscriber after an intent has been routed: the intent joins its inbox exactly
/// where one of its patterns matches.
pub open spec fn delivered(sub: SubscriberView, intent: IntentView) -> SubscriberView {
    if any_matches(intent.semantic_type, sub.subscriptions) {
        SubscriberView { inbox: bounded_push(sub.inbox, intent, INBOX_CAPACITY as nat), ..sub }
    } else {
        sub
    }
}

/// The intent that leaves an inbox next is the one at `i`: none has a higher
/// priority, and none before it has the same.
pub open spec fn is_next(inbox: Seq<IntentView>, i: int) -> bool {
    &&& 0 <= i < inbox.len()
    &&& forall|j: int|
        0 <= j < inbox.len() ==> (#[trigger] inbox[j]).priority.level() <= inbox[i].priority.level()
    &&& forall|j: int| 0 <= j < i ==> (#[trigger] inbox[j]).priority.level() < inbox[i].priority.level()
}

/// The first subscriber of the given name, or nothing where there is none.
pub open spec fn subscriber_named(subs: Seq<SubscriberView>, name: Seq<char>) -> Option<int>
    decreases subs.len(),
{
    if subs.len() == 0 {
        None
    } else if subs[0].name == name {
        Some(0)
    } else {
        match subscriber_named(subs.skip(1), name) {
            Some(i) => Some(i + 1),
            None => None,
        }
    }
}

impl BusState {
    /// Inboxes and audit log keep within their capacities.
    pub open spec fn wf(self) -> bool {
        &&& self.audit.len() <= CAPACITY
        &&& forall|i: int|
            0 <= i < self.subscribers.len() ==> (#[trigger] self.subscribers[i]).inbox.len() <= INBOX_CAPACITY
    }

    /// An intent with the id and the time that the bus gives it.
    pub open spec fn stamped(self, intent: IntentView) -> IntentView {
        IntentView { id: self.next_id, timestamp_ms: self.now_ms, ..intent }
    }

    /// The id after the next one. The counter starts over behind the largest `u64`.
    pub open spec fn id_after(self) -> u64 {
        if self.next_id == u64::MAX {
            0
        } else {
            (self.next_id + 1) as u64
        }
    }

    /// The bus after an intent has been sent.
    pub open spec fn sent(self, intent: IntentView) -> BusState {
        let i = self.stamped(intent);
        BusState {
            subscribers: self.subscribers.map_values(|s: SubscriberView| delivered(s, i)),
            audit: bounded_push(self.audit, entry_of(i), CAPACITY as nat),
            next_id: self.id_after(),
            now_ms: self.now_ms,
        }
    }

    /// The bus after an intent has been sent under a name.
    pub open spec fn sent_by(self, name: Seq<char>, intent: IntentView) -> BusState {
        self.sent(IntentView { sender: name, ..intent })
    }

    /// What the named subscriber finds in its inbox.
    pub open spec fn inbox_of(self, name: Seq<char>) -> Seq<IntentView> {
        match subscriber_named(self.subscribers, name) {
            Some(k) => self.subscribers[k].inbox,
            None => Seq::empty(),
        }
    }

    /// The bus with another inbox for the named subscriber.
    pub open spec fn with_inbox(self, name: Seq<char>, inbox: Seq<IntentView>) -> BusState {
        match subscriber_named(self.subscribers, name) {
            Some(k) => BusState {
                subscribers: self.subscribers.update(
                    k,
                    SubscriberView { inbox, ..self.subscribers[k] },
                ),
                ..self
            },
            None => self,
        }
    }

    /// The bus after the named subscriber has tried to receive.
    pub open spec fn after_recv(self, name: Seq<char>) -> BusState {
        let inbox = self.inbox_of(name);
        if inbox.len() == 0 {
            self
        } else {
            self.with_inbox(name, inbox.remove(next_index(inbox)))
        }
    }

    /// What the named subscriber receives.
    pub open spec fn received(self, name: Seq<char>) -> Option<IntentView> {
        let inbox = self.inbox_of(name);
        if inbox.len() == 0 {
            None
        } else {
            Some(inbox[next_index(inbox)])
        }
    }

    /// The bus after a subscriber has registered.
    pub open spec fn connected(self, name: Seq<char>, subscriptions: Seq<Seq<char>>) -> BusState {
        BusState {
            subscribers: self.subscribers.push(
                SubscriberView { subscriptions, inbox: Seq::empty(), name },
            ),
            ..self
        }
    }
}

/// The position of the intent that leaves an inbox next.
pub open spec fn next_index(inbox: Seq<IntentView>) -> int
    decreases inbox.len(),
{
    if inbox.len() <= 1 {
        0
    } else {
        let k = next_index(inbox.drop_last());
        if inbox.last().priority.level() > inbox[k].priority.level() {
            inbox.len() - 1
        } else {
            k
        }
    }
}

/// The intent that leaves an inbox next is the earliest of those with the highest
/// priority.
pub proof fn lemma_next_index(inbox: Seq<IntentView>)
    requires
        inbox.len() > 0,
    ensures
        is_next(inbox, next_index(inbox)),
    decreases inbox.len(),
{
    if inbox.len() > 1 {
        lemma_next_index(inbox.drop_last());
        assert forall|j: int| 0 <= j < inbox.len() implies (#[trigger] inbox[j]).priority.level()
            <= inbox[next_index(inbox)].priority.level() by {
            if j < inbox.len() - 1 {
                assert(inbox.drop_last()[j] == inbox[j]);
            }
        }
        assert forall|j: int| 0 <= j < next_index(inbox) implies (#[trigger] inbox[j]).priority.level()
            < inbox[next_index(inbox)].priority.level() by {
            assert(inbox.drop_last()[j] == inbox[j]);
        }
    }
}

/// Where a subscriber of the name exists, the search finds the first one.
pub proof fn lemma_subscriber_named(subs: Seq<SubscriberView>, name: Seq<char>)
    ensures
        match subscriber_named(subs, name) {
            Some(k) => 0 <= k < subs.len() && subs[k].name == name && forall|j: int|
                0 <= j < k ==> (#[trigger] subs[j]).name != name,
            None => forall|j: int| 0 <= j < subs.len() ==> (#[trigger] subs[j]).name != name,
        },
    decreases subs.len(),
{
    if subs.len() > 0 && subs[0].name != name {
        lemma_subscriber_named(subs.skip(1), name);
        let rest = subs.skip(1);
        assert forall|j: int| 1 <= j < subs.len() implies #[trigger] subs[j] == rest[j - 1] by {}
    }
}

/// The intents of an inbox in the order in which they leave it.
pub open spec fn leaving(inbox: Seq<IntentView>) -> Seq<IntentView>
    decreases inbox.len(),
{
    let n = next_index(inbox);
    if 0 <= n < inbox.len() {
        seq![inbox[n]] + leaving(inbox.remove(n))
    } else {
        Seq::empty()
    }
}

/// Another inbox for one subscriber leaves every name where it is found.
pub proof fn lemma_named_keeps(subs: Seq<SubscriberView>, k: int, inbox: Seq<IntentView>, name: Seq<char>)
    requires
        0 <= k < subs.len(),
    ensures
        subscriber_named(subs.update(k, SubscriberView { inbox, ..subs[k] }), name) == subscriber_named(subs, name),
    decreases subs.len(),
{
    let t = subs.update(k, SubscriberView { inbox, ..subs[k] });
    if subs[0].name != name {
        if k == 0 {
            assert(t.skip(1) =~= subs.skip(1));
        } else {
            lemma_named_keeps(subs.skip(1), k - 1, inbox, name);
            assert(t.skip(1) =~= subs.skip(1).update(k - 1, SubscriberView { inbox, ..subs.skip(1)[k - 1] }));
        }
    }
}

impl BusState {
    /// What is put into a subscriber's inbox is found there; the last inbox put counts.
    pub proof fn lemma_with_inbox(self, name: Seq<char>, a: Seq<IntentView>, b: Seq<IntentView>)
        ensures
            subscriber_named(self.subscribers, name) is Some ==> self.with_inbox(name, a).inbox_of(name) == a,
            self.with_inbox(name, a).with_inbox(name, b) == self.with_inbox(name, b),
            self.with_inbox(name, self.inbox_of(name)) == self,
            self.with_inbox(name, a).now_ms == self.now_ms,
            subscriber_named(self.with_inbox(name, a).subscribers, name) == subscriber_named(self.subscribers, name),
    {
        lemma_subscriber_named(self.subscribers, name);
        match subscriber_named(self.subscribers, name) {
            Some(k) => {
                lemma_named_keeps(self.subscribers, k, a, name);
                assert(self.with_inbox(name, a).with_inbox(name, b).subscribers =~= self.with_inbox(
                    name,
                    b,
                ).subscribers);
                assert(self.with_inbox(name, self.inbox_of(name)).subscribers =~= self.subscribers);
            },
            None => {},
        }
    }
}

/// Get current milliseconds since boot.
pub fn current_ms(bus: &IntentBus) -> (r: u64)
    ensures
        r == bus@.now_ms,
{
    bus.now_ms
}

/// Set the current time; the kernel timer keeps the timestamps accurate.
pub fn set_current_ms(bus: &mut IntentBus, ms: u64)
    ensures
        final(bus)@ == (BusState { now_ms: ms, ..old(bus)@ }),
{
    bus.now_ms = ms;
}

impl IntentBus {
    pub fn new() -> (r: Self)
        ensures
            r@ == (BusState { subscribers: Seq::empty(), audit: Seq::empty(), next_id: 1, now_ms: 0 }),
            r@.wf(),
    {
        broadcast use group_views;

        IntentBus { subscribers: Vec::new(), audit: AuditLog::new(), next_id: 1, now_ms: 0 }
    }

    /// Register a new subscriber. Returns a `BusConnection` for sending/receiving.
    ///
    /// `subscriptions` is a list of semantic type patterns to listen for.
    pub fn connect(&mut self, name: &str, subscriptions: &[&str]) -> (r: BusConnection)
        ensures
            r@ == name@,
            final(self)@ == old(self)@.connected(name@, patterns_of(subscriptions@)),
            old(self)@.wf() ==> final(self)@.wf(),
    {
        broadcast use group_views;

        let mut patterns: Vec<String> = Vec::new();
        let mut i: usize = 0;
        while i < subscriptions.len()
            invariant
                i <= subscriptions@.len(),
                views(patterns@) == patterns_of(subscriptions@).take(i as int),
            decreases subscriptions@.len() - i,
        {
            broadcast use group_views;

            patterns.push(text(subscriptions[i]));
            i += 1;
            let ghost all = patterns_of(subscriptions@);
            assert(all.take(i as int) =~= all.take(i - 1).push(all[i - 1]));
        }
        let ghost all = patterns_of(subscriptions@);
        assert(all.take(all.len() as int) =~= all);
        self.subscribers.push(
            Subscriber { subscriptions: patterns, inbox: VecDeque::with_capacity(INBOX_CAPACITY), name: text(name) },
        );
        BusConnection { sender_name: text(name) }
    }

    /// Send an intent to all matching subscribers. Returns the assigned id.
    ///
    /// The intent's `id` and `timestamp_ms` are set here. The intent is cloned to
    /// each matching subscriber's inbox and recorded in the audit log.
    pub fn send(&mut self, intent: Intent) -> (r: IntentId)
        ensures
            r == old(self)@.next_id,
            final(self)@ == old(self)@.sent(intent@),
            old(self)@.wf() ==> final(self)@.wf(),
    {
        let ghost given = intent@;
        let mut intent = intent;
        intent.id = self.next_id;
        intent.timestamp_ms = self.now_ms;
        self.next_id = self.next_id.wrapping_add(1);
        self.audit.record(&intent);

        let ghost before = self.subscribers@;
        let ghost log = self.audit;
        let mut k: usize = 0;
        while k < self.subscribers.len()
            invariant
                self.audit == log,
                self.next_id == old(self)@.id_after(),
                self.now_ms == old(self).now_ms,
                k <= self.subscribers@.len(),
                self.subscribers@.len() == before.len(),
                forall|j: int|
                    0 <= j < k ==> (#[trigger] self.subscribers@[j])@ == delivered(before[j]@, intent@),
                forall|j: int| k <= j < before.len() ==> self.subscribers@[j] == before[j],
            decreases self.subscribers@.len() - k,
        {
            broadcast use group_views;

            if Self::listens(&self.subscribers[k].subscriptions, &intent) {
                let ghost inbox = self.subscribers@[k as int].inbox@;
                if self.subscribers[k].inbox.len() >= INBOX_CAPACITY {
                    self.subscribers[k].inbox.pop_front();
                    assert(views(inbox).subrange(1, inbox.len() as int) =~= views(inbox).skip(1));
                }
                self.subscribers[k].inbox.push_back(intent.clone());
            }
            k += 1;
        }
        proof {
            assert(intent@ == old(self)@.stamped(given));
            assert(self@.subscribers =~= old(self)@.sent(given).subscribers);
            if old(self)@.wf() {
                assert forall|i: int| 0 <= i < self@.subscribers.len() implies (
                #[trigger] self@.subscribers[i]).inbox.len() <= INBOX_CAPACITY by {
                    assert(old(self)@.subscribers[i].inbox.len() <= INBOX_CAPACITY);
                }
            }
        }
        intent.id
    }

    /// Whether one of the patterns matches the intent's type.
    fn listens(patterns: &Vec<String>, intent: &Intent) -> (r: bool)
        ensures
            r == any_matches(intent@.semantic_type, views(patterns@)),
    {
        let mut i: usize = 0;
        while i < patterns.len()
            invariant
                i <= patterns@.len(),
                forall|j: int|
                    0 <= j < i ==> !type_matches(intent@.semantic_type, #[trigger] views(patterns@)[j]),
            decreases patterns@.len() - i,
        {
            if intent.semantic_type.matches(patterns[i].as_str()) {
                assert(type_matches(intent@.semantic_type, views(patterns@)[i as int]));
                return true;
            }
            i += 1;
        }
        false
    }

    /// Try to receive an intent for the named subscriber (non-blocking).
    pub fn try_recv(&mut self, subscriber_name: &str) -> (r: Option<Intent>)
        ensures
            final(self)@ == old(self)@.after_recv(subscriber_name@),
            match r {
                Some(i) => old(self)@.received(subscriber_name@) == Some(i@),
                None => old(self)@.received(subscriber_name@) is None,
            },
            old(self)@.wf() ==> final(self)@.wf(),
    {
        broadcast use group_views;

        let ghost subs = self@.subscribers;
        let mut k: usize = 0;
        assert(subs.skip(0) =~= subs);
        while k < self.subscribers.len() && !text_eq(self.subscribers[k].name.as_str(), subscriber_name)
            invariant
                *self == *old(self),
                subs == self@.subscribers,
                k <= self.subscribers@.len(),
                subscriber_named(subs, subscriber_name@) == match subscriber_named(
                    subs.skip(k as int),
                    subscriber_name@,
                ) {
                    Some(i) => Some(i + k),
                    None => None,
                },
            decreases self.subscribers@.len() - k,
        {
            assert(subs.skip(k as int).skip(1) =~= subs.skip(k + 1));
            assert(subs.skip(k as int)[0] == self.subscribers@[k as int]@);
            k += 1;
        }
        if k >= self.subscribers.len() {
            return None;
        }
        assert(subs.skip(k as int)[0] == self.subscribers@[k as int]@);
        assert(subscriber_named(subs, subscriber_name@) == Some(k as int));
        let len = self.subscribers[k].inbox.len();
        if len == 0 {
            return None;
        }
        let ghost inbox = subs[k as int].inbox;
        let mut best: usize = 0;
        let mut i: usize = 1;
        assert(inbox.take(1).len() == 1);
        while i < len
            invariant
                *self == *old(self),
                k < self.subscribers@.len(),
                inbox == views(self.subscribers@[k as int].inbox@),
                len == inbox.len(),
                1 <= i <= len,
                best < i,
                best == next_index(inbox.take(i as int)),
            decreases len - i,
        {
            assert(inbox.take(i + 1).drop_last() =~= inbox.take(i as int));
            if self.subscribers[k].inbox[i].priority.rank() > self.subscribers[k].inbox[best].priority.rank() {
                best = i;
            }
            i += 1;
        }
        assert(inbox.take(len as int) =~= inbox);
        let r = self.subscribers[k].inbox.remove(best);
        r
    }

    /// The last `n` audit entries, most recent first.
    pub fn audit_snapshot(&self, n: usize) -> (r: Vec<AuditEntry>)
        ensures
            views(r@) == latest(self@.audit, n as nat),
    {
        self.audit.last(n)
    }
}

/// Handle of a registered component, used to send and receive intents.
pub struct BusConnection {
    sender_name: String,
}

impl View for BusConnection {
    type V = Seq<char>;

    closed spec fn view(&self) -> Seq<char> {
        self.sender_name@
    }
}

impl Clone for BusConnection {
    fn clone(&self) -> (r: Self)
        ensures
            r@ == self@,
    {
        BusConnection { sender_name: self.sender_name.clone() }
    }
}

impl BusConnection {
    /// Send an intent onto the bus. The sender name is set automatically.
    pub fn send(&self, bus: &mut IntentBus, intent: Intent) -> (r: IntentId)
        ensures
            r == old(bus)@.next_id,
            final(bus)@ == old(bus)@.sent_by(self@, intent@),
            old(bus)@.wf() ==> final(bus)@.wf(),
    {
        let mut intent = intent;
        intent.sender = self.sender_name.clone();
        bus.send(intent)
    }

    /// Try to receive an intent (non-blocking). Returns `None` if the inbox is empty.
    pub fn try_recv(&self, bus: &mut IntentBus) -> (r: Option<Intent>)
        ensures
            final(bus)@ == old(bus)@.after_recv(self@),
            match r {
                Some(i) => old(bus)@.received(self@) == Some(i@),
                None => old(bus)@.received(self@) is None,
            },
            old(bus)@.wf() ==> final(bus)@.wf(),
    {
        bus.try_recv(self.sender_name.as_str())
    }

    pub fn sender_name(&self) -> (r: &str)
        ensures
            r@ == self@,
    {
        self.sender_name.as_str()
    }
}

} // verus!
