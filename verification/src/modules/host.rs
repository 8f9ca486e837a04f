//! What a module and its host exchange: the calls a module makes, and the frames in
//! which it receives intents.

use vstd::prelude::*;
use vstd::utf8::*;

use crate::text::{decimal, decimal_text, text};

verus! {

/// A call to the host.
pub enum HostCall {
    /// Send an intent.
    Send { intent_type: String, payload: Vec<u8> },
    /// Publish an entry of the module's state.
    GlassBox { key: String, value: Vec<u8> },
    /// Write a line to the console.
    Log { message: String },
    /// Write to the framebuffer.
    Write { bytes: Vec<u8> },
}

/// What a call to the host holds.
pub enum HostView {
    Send { intent_type: Seq<char>, payload: Seq<u8> },
    GlassBox { key: Seq<char>, value: Seq<u8> },
    Log { message: Seq<char> },
    Write { bytes: Seq<u8> },
}

impl View for HostCall {
    type V = HostView;

    open spec fn view(&self) -> HostView {
        match self {
            HostCall::Send { intent_type, payload } => HostView::Send { intent_type: intent_type@, payload: payload@ },
            HostCall::GlassBox { key, value } => HostView::GlassBox { key: key@, value: value@ },
            HostCall::Log { message } => HostView::Log { message: message@ },
            HostCall::Write { bytes } => HostView::Write { bytes: bytes@ },
        }
    }
}

/// An intent with raw bytes.
pub open spec fn sends(intent_type: Seq<char>, payload: Seq<u8>) -> HostView {
    HostView::Send { intent_type, payload }
}

/// A text sent to the display.
pub open spec fn prints(s: Seq<char>) -> HostView {
    sends("display.print"@, encode_utf8(s))
}

/// An entry of the module's state.
pub open spec fn notes(key: Seq<char>, value: Seq<char>) -> HostView {
    HostView::GlassBox { key, value: encode_utf8(value) }
}

pub fn send_intent(intent_type: &str, payload: &[u8]) -> (r: HostCall)
    ensures
        r@ == sends(intent_type@, payload@),
{
    HostCall::Send { intent_type: text(intent_type), payload: vstd::slice::slice_to_vec(payload) }
}

pub fn print(s: &str) -> (r: HostCall)
    ensures
        r@ == prints(s@),
{
    send_intent("display.print", s.as_bytes())
}

pub fn update_glass_box(key: &str, value: &str) -> (r: HostCall)
    ensures
        r@ == notes(key@, value@),
{
    HostCall::GlassBox { key: text(key), value: vstd::slice::slice_to_vec(value.as_bytes()) }
}

/// The decimal digits of a number.
pub fn u32_to_ascii(n: u32) -> (r: String)
    ensures
        r@ == decimal(n as nat),
{
    decimal_text(n as u64)
}

/// The length in the two bytes at `i`, the low one first.
pub open spec fn length_at(b: Seq<u8>, i: int) -> int {
    b[i] + 256 * b[i + 1]
}

/// A received frame as type and payload: the length of the type, the type, the length of
/// the payload, the payload. A payload that is longer than what was received is cut.
pub open spec fn framed(b: Seq<u8>) -> Option<(Seq<u8>, Seq<u8>)> {
    if b.len() < 4 || 2 + length_at(b, 0) + 2 > b.len() {
        None
    } else {
        let start = 2 + length_at(b, 0) + 2;
        let end = start + length_at(b, start - 2);
        Some((b.subrange(2, start - 2), b.subrange(start, if end < b.len() { end } else { b.len() as int })))
    }
}

/// A received frame as type and what follows it.
pub open spec fn framed_rest(b: Seq<u8>) -> Option<(Seq<u8>, Seq<u8>)> {
    if b.len() < 2 || 2 + length_at(b, 0) > b.len() {
        None
    } else {
        let start = 2 + length_at(b, 0);
        Some((b.subrange(2, start), b.subrange(start, b.len() as int)))
    }
}

/// Split a received frame into type and payload.
pub fn split_frame(b: &[u8]) -> (r: Option<(&[u8], &[u8])>)
    ensures
        match r {
            Some(f) => framed(b@) == Some((f.0@, f.1@)),
            None => framed(b@) is None,
        },
{
    let n = b.len();
    if n < 4 {
        return None;
    }
    let type_len = b[0] as usize + 256 * b[1] as usize;
    if 2 + type_len + 2 > n {
        return None;
    }
    let start = 2 + type_len + 2;
    let payload_len = b[start - 2] as usize + 256 * b[start - 1] as usize;
    let end = if payload_len < n - start {
        start + payload_len
    } else {
        n
    };
    Some((vstd::slice::slice_subrange(b, 2, start - 2), vstd::slice::slice_subrange(b, start, end)))
}

/// Split a received frame into type and what follows it.
pub fn split_rest(b: &[u8]) -> (r: Option<(&[u8], &[u8])>)
    ensures
        match r {
            Some(f) => framed_rest(b@) == Some((f.0@, f.1@)),
            None => framed_rest(b@) is None,
        },
{
    let n = b.len();
    if n < 2 {
        return None;
    }
    let type_len = b[0] as usize + 256 * b[1] as usize;
    if 2 + type_len > n {
        return None;
    }
    let start = 2 + type_len;
    Some((vstd::slice::slice_subrange(b, 2, start), vstd::slice::slice_subrange(b, start, n)))
}

/// The two bytes of a length, the low one first.
pub open spec fn length_bytes(n: int) -> Seq<u8> {
    seq![(n % 256) as u8, (n / 256) as u8]
}

/// The frame of an intent.
pub open spec fn frame_of(intent_type: Seq<u8>, payload: Seq<u8>) -> Seq<u8> {
    length_bytes(intent_type.len() as int) + intent_type + length_bytes(payload.len() as int) + payload
}

/// A frame splits into the type and the payload that were put into it.
pub proof fn law_frame_round_trip(intent_type: Seq<u8>, payload: Seq<u8>)
    requires
        intent_type.len() < 0x1_0000,
        payload.len() < 0x1_0000,
    ensures
        framed(frame_of(intent_type, payload)) == Some((intent_type, payload)),
{
    let b = frame_of(intent_type, payload);
    let t = intent_type.len() as int;
    let p = payload.len() as int;
    assert(b.len() == 4 + t + p);
    assert(b[0] == (t % 256) as u8 && b[1] == (t / 256) as u8);
    assert(length_at(b, 0) == t);
    assert(b[2 + t] == (p % 256) as u8 && b[3 + t] == (p / 256) as u8);
    assert(length_at(b, 2 + t) == p);
    assert(b.subrange(2, 2 + t) =~= intent_type);
    assert(b.subrange(4 + t, 4 + t + p) =~= payload);
}

} // verus!
