//! The input module: makes lines out of keystrokes, and echoes them.
//!
//! Keys are echoed as they are, or as '*' while a secret is entered.

use vstd::prelude::*;
use vstd::utf8::*;

use crate::modules::display::counted;
use crate::modules::host::{
    framed_rest, notes, print, prints, send_intent, sends, split_rest, u32_to_ascii, update_glass_box, HostCall, HostView,
};
use crate::text::{bytes_eq, decimal};
use crate::views::{group_views, views};

verus! {

/// Bytes that are received at once.
pub const INPUT_BUFFER: usize = 512;

/// Bytes that a line holds at most.
pub const MAX_LINE: usize = 512;

/// The input module.
pub struct InputModule {
    line: Vec<u8>,
    secret_mode: bool,
    chars_typed: u32,
}

/// What the input module holds.
#[verifier::ext_equal]
pub struct InputView {
    /// The line so far.
    pub line: Seq<u8>,
    /// Keys are echoed as '*'.
    pub secret_mode: bool,
    /// Keys that were pressed.
    pub chars_typed: u32,
}

impl View for InputModule {
    type V = InputView;

    closed spec fn view(&self) -> InputView {
        InputView { line: self.line@, secret_mode: self.secret_mode, chars_typed: self.chars_typed }
    }
}

/// A byte that can be printed.
pub open spec fn printable(b: u8) -> bool {
    32 <= b < 127
}

/// What a key does to the line, and what it makes the module send.
pub open spec fn edited(s: InputView, key: u8) -> (InputView, Seq<HostView>) {
    if key == 10 || key == 13 {
        (
            InputView { line: Seq::empty(), secret_mode: false, ..s },
            seq![
                sends(
                    if s.secret_mode {
                        "input.secret.response"@
                    } else {
                        "input.line"@
                    },
                    s.line,
                ),
                prints("\n"@),
                notes("mode"@, "normal"@),
            ],
        )
    } else if key == 8 || key == 127 {
        if s.line.len() > 0 {
            (InputView { line: s.line.drop_last(), ..s }, seq![prints("\x08 \x08"@)])
        } else {
            (s, Seq::empty())
        }
    } else if printable(key) && s.line.len() < MAX_LINE {
        (
            InputView { line: s.line.push(key), ..s },
            seq![
                sends(
                    "display.print"@,
                    seq![
                        if s.secret_mode {
                            42u8
                        } else {
                            key
                        },
                    ],
                ),
            ],
        )
    } else {
        (s, Seq::empty())
    }
}

/// What a key does: it edits the line, and the count of keys is published.
pub open spec fn keyed(s: InputView, key: u8) -> (InputView, Seq<HostView>) {
    let n = counted(s.chars_typed);
    let (after, calls) = edited(s, key);
    (InputView { chars_typed: n, ..after }, calls.push(notes("chars_typed"@, decimal(n as nat))))
}

/// What the module does with a received frame.
pub open spec fn entered(s: InputView, received: Seq<u8>) -> (InputView, Seq<HostView>) {
    match framed_rest(received) {
        None => (s, Seq::empty()),
        Some((t, payload)) => if t == encode_utf8("input.char"@) {
            if payload.len() > 0 {
                keyed(s, payload[0])
            } else {
                (s, Seq::empty())
            }
        } else if t == encode_utf8("input.request_secret"@) {
            (InputView { secret_mode: true, ..s }, seq![notes("mode"@, "secret"@)])
        } else if t == encode_utf8("input.request_line"@) {
            (InputView { secret_mode: false, ..s }, seq![notes("mode"@, "normal"@)])
        } else {
            (s, Seq::empty())
        },
    }
}

impl InputModule {
    pub fn new() -> (r: Self)
        ensures
            r@ == (InputView { line: Seq::empty(), secret_mode: false, chars_typed: 0 }),
    {
        InputModule { line: Vec::new(), secret_mode: false, chars_typed: 0 }
    }

    /// Called once when the module is loaded.
    pub fn init(&self) -> (r: Vec<HostCall>)
        ensures
            views(r@) == seq![sends("input.ready"@, Seq::empty()), notes("status"@, "ready"@)],
    {
        broadcast use group_views;

        let none: Vec<u8> = Vec::new();
        assert(none@ =~= Seq::empty());
        let mut out: Vec<HostCall> = Vec::new();
        out.push(send_intent("input.ready", none.as_slice()));
        out.push(update_glass_box("status", "ready"));
        out
    }

    /// Called every tick, with the frame that was received.
    pub fn poll(&mut self, received: &[u8]) -> (r: Vec<HostCall>)
        ensures
            (final(self)@, views(r@)) == entered(old(self)@, received@),
    {
        broadcast use group_views;

        let mut out: Vec<HostCall> = Vec::new();
        match split_rest(received) {
            None => {},
            Some((t, payload)) => if bytes_eq(t, "input.char".as_bytes()) {
                if payload.len() > 0 {
                    return self.handle_char(payload[0]);
                }
            } else if bytes_eq(t, "input.request_secret".as_bytes()) {
                self.secret_mode = true;
                out.push(update_glass_box("mode", "secret"));
            } else if bytes_eq(t, "input.request_line".as_bytes()) {
                self.secret_mode = false;
                out.push(update_glass_box("mode", "normal"));
            },
        }
        out
    }

    /// Take a key.
    pub fn handle_char(&mut self, key: u8) -> (r: Vec<HostCall>)
        ensures
            (final(self)@, views(r@)) == keyed(old(self)@, key),
    {
        broadcast use group_views;

        let mut out: Vec<HostCall> = Vec::new();
        self.chars_typed = self.chars_typed.wrapping_add(1);
        if key == 10 || key == 13 {
            if self.secret_mode {
                out.push(send_intent("input.secret.response", self.line.as_slice()));
            } else {
                out.push(send_intent("input.line", self.line.as_slice()));
            }
            out.push(print("\n"));
            self.line = Vec::new();
            self.secret_mode = false;
            out.push(update_glass_box("mode", "normal"));
        } else if key == 8 || key == 127 {
            if self.line.len() > 0 {
                self.line.pop();
                out.push(print("\x08 \x08"));
            }
        } else if 32 <= key && key < 127 {
            if self.line.len() < MAX_LINE {
                self.line.push(key);
                let mut echo: Vec<u8> = Vec::new();
                if self.secret_mode {
                    echo.push(42);
                } else {
                    echo.push(key);
                }
                assert(echo@ =~= seq![echo@[0]]);
                out.push(send_intent("display.print", echo.as_slice()));
            }
        }
        out.push(update_glass_box("chars_typed", u32_to_ascii(self.chars_typed).as_str()));
        out
    }
}

/// The module after keys were pressed one after the other.
pub open spec fn after_keys(s: InputView, keys: Seq<u8>) -> InputView
    decreases keys.len(),
{
    if keys.len() == 0 {
        s
    } else {
        keyed(after_keys(s, keys.drop_last()), keys.last()).0
    }
}

/// What was typed is what the line holds: printable keys are appended in order, as long as
/// the line has room.
pub proof fn law_line_holds_what_was_typed(s: InputView, keys: Seq<u8>)
    requires
        forall|i: int| 0 <= i < keys.len() ==> printable(#[trigger] keys[i]),
        s.line.len() + keys.len() <= MAX_LINE,
    ensures
        after_keys(s, keys).line == s.line + keys,
        after_keys(s, keys).secret_mode == s.secret_mode,
    decreases keys.len(),
{
    if keys.len() > 0 {
        let first = keys.drop_last();
        assert forall|i: int| 0 <= i < first.len() implies printable(#[trigger] first[i]) by {
            assert(first[i] == keys[i]);
        }
        law_line_holds_what_was_typed(s, first);
        assert(printable(keys[keys.len() - 1]));
        assert((s.line + first).push(keys.last()) =~= s.line + keys);
    } else {
        assert(s.line + keys =~= s.line);
    }
}

/// A line never outgrows its buffer.
pub proof fn law_line_is_bounded(s: InputView, received: Seq<u8>)
    requires
        s.line.len() <= MAX_LINE,
    ensures
        entered(s, received).0.line.len() <= MAX_LINE,
{
}

/// Enter sends the line that was typed since the last one, and the next line starts empty.
pub proof fn law_enter_sends_the_line(s: InputView, keys: Seq<u8>)
    requires
        forall|i: int| 0 <= i < keys.len() ==> printable(#[trigger] keys[i]),
        keys.len() <= MAX_LINE,
        s.line.len() == 0,
        !s.secret_mode,
    ensures
        keyed(after_keys(s, keys), 10).1[0] == sends("input.line"@, keys),
        keyed(after_keys(s, keys), 10).0.line.len() == 0,
{
    law_line_holds_what_was_typed(s, keys);
    assert(s.line + keys =~= keys);
}

/// Backspace takes back the key before it.
pub proof fn law_backspace_takes_back(s: InputView, key: u8)
    requires
        printable(key),
        s.line.len() < MAX_LINE,
    ensures
        keyed(keyed(s, key).0, 8).0.line == s.line,
{
    assert(s.line.push(key).drop_last() =~= s.line);
}

/// While a secret is entered, what the module sends does not depend on which printable
/// key was pressed.
pub proof fn law_secret_is_masked(s: InputView, a: u8, b: u8)
    requires
        s.secret_mode,
        printable(a),
        printable(b),
    ensures
        keyed(s, a).1 == keyed(s, b).1,
{
}

/// A secret is sent as a secret, and the line after it is echoed again.
pub proof fn law_secret_ends_with_enter(s: InputView)
    requires
        s.secret_mode,
    ensures
        keyed(s, 10).1[0] == sends("input.secret.response"@, s.line),
        !keyed(s, 10).0.secret_mode,
{
}

} // verus!
