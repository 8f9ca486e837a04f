//! Audit log: records every intent that passes through the bus.
//!
//! A ring buffer of fixed capacity. When it is full, the oldest entry is dropped.
//! Entries store metadata only, not the payload.

use vstd::prelude::*;

use crate::intent_bus::intent::{Intent, IntentId, IntentView};
use crate::text::text;
use crate::views::{bounded_push, group_views, views};

verus! {

/// One audit log entry: who sent what when.
#[derive(Debug)]
pub struct AuditEntry {
    pub id: IntentId,
    pub reply_to: Option<IntentId>,
    pub semantic_type: String,
    pub sender: String,
    pub timestamp_ms: u64,
    pub payload_len: usize,
}

/// What an audit entry holds.
pub struct AuditEntryView {
    pub id: IntentId,
    pub reply_to: Option<IntentId>,
    pub semantic_type: Seq<char>,
    pub sender: Seq<char>,
    pub timestamp_ms: u64,
    pub payload_len: nat,
}

impl View for AuditEntry {
    type V = AuditEntryView;

    open spec fn view(&self) -> AuditEntryView {
        AuditEntryView {
            id: self.id,
            reply_to: self.reply_to,
            semantic_type: self.semantic_type@,
            sender: self.sender@,
            timestamp_ms: self.timestamp_ms,
            payload_len: self.payload_len as nat,
        }
    }
}

impl Clone for AuditEntry {
    fn clone(&self) -> (r: Self)
        ensures
            r@ == self@,
    {
        AuditEntry {
            id: self.id,
            reply_to: self.reply_to,
            semantic_type: self.semantic_type.clone(),
            sender: self.sender.clone(),
            timestamp_ms: self.timestamp_ms,
            payload_len: self.payload_len,
        }
    }
}

/// The metadata of an intent.
pub open spec fn entry_of(intent: IntentView) -> AuditEntryView {
    AuditEntryView {
        id: intent.id,
        reply_to: intent.reply_to,
        semantic_type: intent.semantic_type,
        sender: intent.sender,
        timestamp_ms: intent.timestamp_ms,
        payload_len: intent.payload.len(),
    }
}

impl AuditEntry {
    pub fn from_intent(intent: &Intent) -> (r: Self)
        ensures
            r@ == entry_of(intent@),
    {
        AuditEntry {
            id: intent.id,
            reply_to: intent.reply_to,
            semantic_type: text(intent.semantic_type.as_str()),
            sender: intent.sender.clone(),
            timestamp_ms: intent.timestamp_ms,
            payload_len: intent.payload.len(),
        }
    }
}

/// The log keeps this many entries.
pub const CAPACITY: usize = 512;

/// Ring-buffer audit log, oldest entry first.
pub struct AuditLog {
    entries: Vec<AuditEntry>,
}

impl View for AuditLog {
    type V = Seq<AuditEntryView>;

    closed spec fn view(&self) -> Seq<AuditEntryView> {
        views(self.entries@)
    }
}

impl AuditLog {
    pub fn new() -> (r: Self)
        ensures
            r@ == Seq::<AuditEntryView>::empty(),
    {
        broadcast use group_views;

        AuditLog { entries: Vec::new() }
    }

    /// Record an intent. Drops the oldest entry at capacity.
    pub fn record(&mut self, intent: &Intent)
        ensures
            final(self)@ == bounded_push(old(self)@, entry_of(intent@), CAPACITY as nat),
    {
        broadcast use group_views;

        if self.entries.len() >= CAPACITY {
            self.entries.remove(0);
            assert(views(old(self).entries@).remove(0) =~= old(self)@.skip(1));
        }
        self.entries.push(AuditEntry::from_intent(intent));
    }

    /// The last `n` entries, most recent first.
    pub fn last(&self, n: usize) -> (r: Vec<AuditEntry>)
        ensures
            views(r@) == latest(self@, n as nat),
    {
        broadcast use group_views;

        let mut out: Vec<AuditEntry> = Vec::new();
        let len = self.entries.len();
        let count = if n < len { n } else { len };
        let mut i: usize = 0;
        while i < count
            invariant
                len == self.entries@.len(),
                i <= count <= len,
                views(out@) == Seq::new(i as nat, |j: int| self@[len - 1 - j]),
            decreases count - i,
        {
            out.push(self.entries[len - 1 - i].clone());
            i += 1;
            assert(Seq::new(i as nat, |j: int| self@[len - 1 - j]) =~= Seq::new(
                (i - 1) as nat,
                |j: int| self@[len - 1 - j],
            ).push(self@[len - i]));
        }
        out
    }

    /// Number of entries currently in the log.
    pub fn total_count(&self) -> (r: usize)
        ensures
            r == self@.len(),
    {
        self.entries.len()
    }
}

/// The last `n` entries of a log, most recent first; all of them where there are
/// fewer.
pub open spec fn latest(log: Seq<AuditEntryView>, n: nat) -> Seq<AuditEntryView> {
    Seq::new(
        if n < log.len() {
            n
        } else {
            log.len()
        },
        |j: int| log[log.len() - 1 - j],
    )
}

/// What is shown of a log begins with the newest entry, goes back one by one, and is as
/// long as was asked for, or as the log.
pub proof fn law_newest_entries_first(log: Seq<AuditEntryView>, entry: AuditEntryView, n: nat)
    ensures
        latest(log, 0).len() == 0,
        latest(log.push(entry), n + 1) == seq![entry] + latest(log, n),
        latest(Seq::empty(), n).len() == 0,
{
    assert(latest(log.push(entry), n + 1) =~= seq![entry] + latest(log, n));
}

} // verus!
