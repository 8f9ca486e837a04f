//! The display module: the one path to the screen.
//!
//! Takes "display.print", "display.clear" and "display.prompt".

use vstd::prelude::*;
use vstd::utf8::*;

use crate::modules::host::{framed, notes, send_intent, sends, split_frame, u32_to_ascii, update_glass_box, HostCall, HostView};
use crate::text::{bytes_eq, decimal};
use crate::views::{group_views, views};

verus! {

/// Bytes that are received at once.
pub const DISPLAY_BUFFER: usize = 2048;

/// The display module.
pub struct DisplayModule {
    /// Texts that were printed.
    pub line_count: u32,
}

/// A count that starts over after its largest value.
pub open spec fn counted(n: u32) -> u32 {
    if n == u32::MAX {
        0
    } else {
        (n + 1) as u32
    }
}

/// What the module does with a received frame, and its count after it.
pub open spec fn displayed(count: u32, received: Seq<u8>) -> (u32, Seq<HostView>) {
    match framed(received) {
        None => (count, Seq::empty()),
        Some((t, payload)) => if t == encode_utf8("display.print"@) {
            let n = counted(count);
            (n, seq![HostView::Write { bytes: payload }, notes("lines_printed"@, decimal(n as nat))])
        } else if t == encode_utf8("display.clear"@) {
            (
                count,
                seq![
                    sends("kernel.display.clear"@, Seq::empty()),
                    sends("display.clear.done"@, Seq::empty()),
                    notes("status"@, "cleared"@),
                ],
            )
        } else if t == encode_utf8("display.prompt"@) {
            (count, seq![HostView::Write { bytes: encode_utf8("> "@) }])
        } else {
            (count, Seq::empty())
        },
    }
}

impl DisplayModule {
    pub fn new() -> (r: Self)
        ensures
            r.line_count == 0,
    {
        DisplayModule { line_count: 0 }
    }

    /// Called once when the module is loaded.
    pub fn init(&self) -> (r: Vec<HostCall>)
        ensures
            views(r@) == seq![sends("display.ready"@, Seq::empty()), notes("status"@, "ready"@)],
    {
        broadcast use group_views;

        let none: Vec<u8> = Vec::new();
        assert(none@ =~= Seq::empty());
        let mut out: Vec<HostCall> = Vec::new();
        out.push(send_intent("display.ready", none.as_slice()));
        out.push(update_glass_box("status", "ready"));
        out
    }

    /// Called every tick, with the frame that was received.
    pub fn poll(&mut self, received: &[u8]) -> (r: Vec<HostCall>)
        ensures
            (final(self).line_count, views(r@)) == displayed(old(self).line_count, received@),
    {
        broadcast use group_views;

        let none: Vec<u8> = Vec::new();
        assert(none@ =~= Seq::empty());
        let mut out: Vec<HostCall> = Vec::new();
        match split_frame(received) {
            None => {},
            Some((t, payload)) => if bytes_eq(t, "display.print".as_bytes()) {
                out.push(HostCall::Write { bytes: vstd::slice::slice_to_vec(payload) });
                self.line_count = self.line_count.wrapping_add(1);
                out.push(update_glass_box("lines_printed", u32_to_ascii(self.line_count).as_str()));
            } else if bytes_eq(t, "display.clear".as_bytes()) {
                out.push(send_intent("kernel.display.clear", none.as_slice()));
                out.push(send_intent("display.clear.done", none.as_slice()));
                out.push(update_glass_box("status", "cleared"));
            } else if bytes_eq(t, "display.prompt".as_bytes()) {
                out.push(HostCall::Write { bytes: vstd::slice::slice_to_vec("> ".as_bytes()) });
            },
        }
        out
    }
}

} // verus!
