//! The storage module: carries storage requests to the kernel, and the kernel's answers
//! back.

use vstd::prelude::*;
use vstd::utf8::*;

use crate::modules::display::counted;
use crate::modules::host::{framed, notes, send_intent, sends, split_frame, u32_to_ascii, update_glass_box, HostCall, HostView};
use crate::text::{bytes_eq, decimal};
use crate::views::{group_views, views};

verus! {

/// Bytes that are received at once.
pub const STORAGE_BUFFER: usize = 4096;

/// The storage module.
pub struct StorageModule {
    /// Requests that were carried to the kernel.
    pub ops_count: u32,
}

/// Where an intent is carried to, and whether it is counted as an operation.
pub open spec fn carried(t: Seq<u8>) -> Option<(Seq<char>, bool)> {
    if t == encode_utf8("storage.store"@) {
        Some(("kernel.storage.store"@, true))
    } else if t == encode_utf8("storage.retrieve"@) {
        Some(("kernel.storage.retrieve"@, true))
    } else if t == encode_utf8("kernel.storage.store.response"@) {
        Some(("storage.store.response"@, false))
    } else if t == encode_utf8("kernel.storage.retrieve.response"@) {
        Some(("storage.retrieve.response"@, false))
    } else {
        None
    }
}

/// What the module does with a received frame, and its count after it.
pub open spec fn proxied(count: u32, received: Seq<u8>) -> (u32, Seq<HostView>) {
    match framed(received) {
        None => (count, Seq::empty()),
        Some((t, payload)) => match carried(t) {
            None => (count, Seq::empty()),
            Some((to, counts)) => if counts {
                let n = counted(count);
                (n, seq![sends(to, payload), notes("ops"@, decimal(n as nat))])
            } else {
                (count, seq![sends(to, payload)])
            },
        },
    }
}

/// Where an intent is carried to.
fn target(t: &[u8]) -> (r: Option<(&'static str, bool)>)
    ensures
        match r {
            Some(x) => carried(t@) == Some((x.0@, x.1)),
            None => carried(t@) is None,
        },
{
    if bytes_eq(t, "storage.store".as_bytes()) {
        Some(("kernel.storage.store", true))
    } else if bytes_eq(t, "storage.retrieve".as_bytes()) {
        Some(("kernel.storage.retrieve", true))
    } else if bytes_eq(t, "kernel.storage.store.response".as_bytes()) {
        Some(("storage.store.response", false))
    } else if bytes_eq(t, "kernel.storage.retrieve.response".as_bytes()) {
        Some(("storage.retrieve.response", false))
    } else {
        None
    }
}

impl StorageModule {
    pub fn new() -> (r: Self)
        ensures
            r.ops_count == 0,
    {
        StorageModule { ops_count: 0 }
    }

    /// Called once when the module is loaded.
    pub fn init(&self) -> (r: Vec<HostCall>)
        ensures
            views(r@) == seq![sends("storage.ready"@, Seq::empty()), notes("status"@, "ready"@)],
    {
        broadcast use group_views;

        let none: Vec<u8> = Vec::new();
        assert(none@ =~= Seq::empty());
        let mut out: Vec<HostCall> = Vec::new();
        out.push(send_intent("storage.ready", none.as_slice()));
        out.push(update_glass_box("status", "ready"));
        out
    }

    /// Called every tick, with the frame that was received.
    pub fn poll(&mut self, received: &[u8]) -> (r: Vec<HostCall>)
        ensures
            (final(self).ops_count, views(r@)) == proxied(old(self).ops_count, received@),
    {
        broadcast use group_views;

        let mut out: Vec<HostCall> = Vec::new();
        match split_frame(received) {
            None => {},
            Some((t, payload)) => match target(t) {
                None => {},
                Some((to, counts)) => {
                    out.push(send_intent(to, payload));
                    if counts {
                        out.push(self.increment_ops());
                    }
                },
            },
        }
        out
    }

    /// Count an operation.
    fn increment_ops(&mut self) -> (r: HostCall)
        ensures
            final(self).ops_count == counted(old(self).ops_count),
            r@ == notes("ops"@, decimal(final(self).ops_count as nat)),
    {
        self.ops_count = self.ops_count.wrapping_add(1);
        update_glass_box("ops", u32_to_ascii(self.ops_count).as_str())
    }
}

/// A payload is carried unchanged, whichever way it goes.
pub proof fn law_payload_is_carried_unchanged(count: u32, received: Seq<u8>)
    ensures
        forall|i: int|
            0 <= i < proxied(count, received).1.len() && #[trigger] proxied(count, received).1[i] is Send
                ==> proxied(count, received).1[i]->payload == (framed(received)->0).1,
{
}

} // verus!
