//! Payloads of intents, and the codec that carries them.
//!
//! A payload travels in the `postcard` format. The codec functions below work on
//! tuples of plain values: a struct is encoded as the tuple of its fields, a unit
//! variant of an enum as its index, and a single-precision number as its four
//! bytes, lowest first.

use vstd::prelude::*;
use vstd::utf8::*;

use crate::text::{starts_with, text};
use crate::views::views;

verus! {

/// A type that can be the payload of an intent.
pub trait Payload: Sized + View {
    /// The bytes that stand for `v`.
    spec fn wire(v: Self::V) -> Seq<u8>;

    /// What the bytes are read as.
    spec fn parsed(bytes: Seq<u8>) -> Option<Self::V>;

    /// The values of the model that some value of the type stands for.
    spec fn sound(v: Self::V) -> bool;

    fn encode(&self) -> (r: Vec<u8>)
        ensures
            r@ == Self::wire(self@),
            Self::sound(self@),
    ;

    /// Read a value. What `encode` wrote is read back.
    fn parse(bytes: &[u8]) -> (r: Option<Self>)
        ensures
            match r {
                Some(v) => Self::parsed(bytes@) == Some(v@),
                None => Self::parsed(bytes@) is None,
            },
            forall|v: Self::V|
                Self::sound(v) && starts_with(bytes@, #[trigger] Self::wire(v)) ==> Self::parsed(bytes@) == Some(v),
    ;
}

// ---------------------------------------------------------------------------
// The wire format
// ---------------------------------------------------------------------------

/// A number in groups of seven bits, lowest first; every byte but the last has its
/// top bit set.
pub open spec fn varint(n: nat) -> Seq<u8>
    decreases n,
{
    if n < 128 {
        seq![n as u8]
    } else {
        seq![(n % 128 + 128) as u8] + varint(n / 128)
    }
}

/// A string: the number of its bytes, then its bytes.
pub open spec fn wire_text(s: Seq<char>) -> Seq<u8> {
    varint(encode_utf8(s).len()) + encode_utf8(s)
}

/// Three strings, one behind the other.
pub open spec fn wire_texts3(a: Seq<char>, b: Seq<char>, c: Seq<char>) -> Seq<u8> {
    wire_text(a) + wire_text(b) + wire_text(c)
}

/// What `postcard` reads the bytes as when a string is wanted.
pub uninterp spec fn postcard_text(bytes: Seq<u8>) -> Option<Seq<char>>;

/// What `postcard` reads the bytes as when three strings are wanted.
pub uninterp spec fn postcard_texts3(bytes: Seq<u8>) -> Option<(Seq<char>, Seq<char>, Seq<char>)>;

/// What `postcard` reads the bytes as when a `u32` and a `u64` are wanted.
pub uninterp spec fn postcard_u32_u64(bytes: Seq<u8>) -> Option<(u32, u64)>;

/// What `postcard` reads the bytes as when a `u32` is wanted.
pub uninterp spec fn postcard_u32(bytes: Seq<u8>) -> Option<u32>;

/// `postcard::to_allocvec` of a `u32`: a varint.
#[verifier::external_body]
fn encode_u32(a: u32) -> (r: Vec<u8>)
    ensures
        r@ == varint(a as nat),
{
    postcard::to_allocvec(&a).unwrap_or_default()
}

/// `postcard::from_bytes` for a `u32`. The result depends on the bytes alone; an encoded
/// number at their front is read back.
#[verifier::external_body]
fn parse_u32(bytes: &[u8]) -> (r: Option<u32>)
    ensures
        r == postcard_u32(bytes@),
        forall|a: u32| starts_with(bytes@, #[trigger] varint(a as nat)) ==> r == Some(a),
{
    postcard::from_bytes::<u32>(bytes).ok()
}

/// `postcard::to_allocvec` of a string: the length of its bytes as a varint, then
/// the bytes. Writing into a growing vector does not fail.
#[verifier::external_body]
fn encode_text(s: &String) -> (r: Vec<u8>)
    ensures
        r@ == wire_text(s@),
{
    postcard::to_allocvec(s).unwrap_or_default()
}

/// `postcard::from_bytes` for a string. The result depends on the bytes alone; an
/// encoded string at their front is read back, whatever follows it.
#[verifier::external_body]
fn parse_text(bytes: &[u8]) -> (r: Option<String>)
    ensures
        r is Some <==> postcard_text(bytes@) is Some,
        r is Some ==> postcard_text(bytes@) == Some(r->0@),
        forall|s: Seq<char>|
            encode_utf8(s).len() <= usize::MAX && starts_with(bytes@, #[trigger] wire_text(s)) ==> r is Some
                && r->0@ == s,
{
    postcard::from_bytes::<String>(bytes).ok()
}

/// Two strings, one behind the other.
pub open spec fn wire_texts2(a: Seq<char>, b: Seq<char>) -> Seq<u8> {
    wire_text(a) + wire_text(b)
}

/// A number and a string.
pub open spec fn wire_u32_text(n: u32, s: Seq<char>) -> Seq<u8> {
    varint(n as nat) + wire_text(s)
}

/// What `postcard` reads the bytes as when two strings are wanted.
pub uninterp spec fn postcard_texts2(bytes: Seq<u8>) -> Option<(Seq<char>, Seq<char>)>;

/// What `postcard` reads the bytes as when a `u32` and a string are wanted.
pub uninterp spec fn postcard_u32_text(bytes: Seq<u8>) -> Option<(u32, Seq<char>)>;

/// `postcard::to_allocvec` of two strings: each with its length before it.
#[verifier::external_body]
fn encode_texts2(a: &String, b: &String) -> (r: Vec<u8>)
    ensures
        r@ == wire_texts2(a@, b@),
{
    postcard::to_allocvec(&(a, b)).unwrap_or_default()
}

/// `postcard::from_bytes` for two strings. The result depends on the bytes alone; two
/// encoded strings at their front are read back.
#[verifier::external_body]
fn parse_texts2(bytes: &[u8]) -> (r: Option<(String, String)>)
    ensures
        r is Some <==> postcard_texts2(bytes@) is Some,
        r is Some ==> postcard_texts2(bytes@) == Some(((r->0).0@, (r->0).1@)),
        forall|a: Seq<char>, b: Seq<char>|
            encode_utf8(a).len() <= usize::MAX && encode_utf8(b).len() <= usize::MAX && starts_with(
                bytes@,
                #[trigger] wire_texts2(a, b),
            ) ==> r is Some && (r->0).0@ == a && (r->0).1@ == b,
{
    postcard::from_bytes::<(String, String)>(bytes).ok()
}

/// `postcard::to_allocvec` of a `u32` and a string: a varint, then the string with its
/// length before it.
#[verifier::external_body]
fn encode_u32_text(n: u32, s: &String) -> (r: Vec<u8>)
    ensures
        r@ == wire_u32_text(n, s@),
{
    postcard::to_allocvec(&(n, s)).unwrap_or_default()
}

/// `postcard::from_bytes` for a `u32` and a string. The result depends on the bytes
/// alone; an encoded number and string at their front are read back.
#[verifier::external_body]
fn parse_u32_text(bytes: &[u8]) -> (r: Option<(u32, String)>)
    ensures
        r is Some <==> postcard_u32_text(bytes@) is Some,
        r is Some ==> postcard_u32_text(bytes@) == Some(((r->0).0, (r->0).1@)),
        forall|n: u32, s: Seq<char>|
            encode_utf8(s).len() <= usize::MAX && starts_with(bytes@, #[trigger] wire_u32_text(n, s)) ==> r is Some
                && (r->0).0 == n && (r->0).1@ == s,
{
    postcard::from_bytes::<(u32, String)>(bytes).ok()
}

/// `postcard::to_allocvec` of three strings: each with its length before it.
#[verifier::external_body]
fn encode_texts3(a: &String, b: &String, c: &String) -> (r: Vec<u8>)
    ensures
        r@ == wire_texts3(a@, b@, c@),
{
    postcard::to_allocvec(&(a, b, c)).unwrap_or_default()
}

/// `postcard::from_bytes` for three strings. The result depends on the bytes alone;
/// three encoded strings at their front are read back.
#[verifier::external_body]
fn parse_texts3(bytes: &[u8]) -> (r: Option<(String, String, String)>)
    ensures
        r is Some <==> postcard_texts3(bytes@) is Some,
        r is Some ==> postcard_texts3(bytes@) == Some(((r->0).0@, (r->0).1@, (r->0).2@)),
        forall|a: Seq<char>, b: Seq<char>, c: Seq<char>|
            encode_utf8(a).len() <= usize::MAX && encode_utf8(b).len() <= usize::MAX && encode_utf8(c).len()
                <= usize::MAX && starts_with(bytes@, #[trigger] wire_texts3(a, b, c)) ==> r is Some && (r->0).0@
                == a && (r->0).1@ == b && (r->0).2@ == c,
{
    postcard::from_bytes::<(String, String, String)>(bytes).ok()
}

/// `postcard::to_allocvec` of a `u32` and a `u64`: two varints.
#[verifier::external_body]
fn encode_u32_u64(a: u32, b: u64) -> (r: Vec<u8>)
    ensures
        r@ == varint(a as nat) + varint(b as nat),
{
    postcard::to_allocvec(&(a, b)).unwrap_or_default()
}

/// `postcard::from_bytes` for a `u32` and a `u64`. The result depends on the bytes
/// alone; two encoded numbers at their front are read back.
#[verifier::external_body]
fn parse_u32_u64(bytes: &[u8]) -> (r: Option<(u32, u64)>)
    ensures
        r == postcard_u32_u64(bytes@),
        forall|a: u32, b: u64|
            starts_with(bytes@, #[trigger] varint(a as nat) + #[trigger] varint(b as nat)) ==> r == Some((a, b)),
{
    postcard::from_bytes::<(u32, u64)>(bytes).ok()
}

/// Several strings, one behind the other.
pub open spec fn wire_all(s: Seq<Seq<char>>) -> Seq<u8>
    decreases s.len(),
{
    if s.len() == 0 {
        Seq::empty()
    } else {
        wire_all(s.drop_last()) + wire_text(s.last())
    }
}

/// A text, a number, four bytes and a list of texts.
pub open spec fn wire_prompt(a: Seq<char>, n: usize, four: Seq<u8>, list: Seq<Seq<char>>) -> Seq<u8> {
    wire_text(a) + varint(n as nat) + four + varint(list.len()) + wire_all(list)
}

/// A text, two numbers, a text and a number.
pub open spec fn wire_reply(a: Seq<char>, n: usize, k: u32, b: Seq<char>, m: u64) -> Seq<u8> {
    wire_text(a) + varint(n as nat) + varint(k as nat) + wire_text(b) + varint(m as nat)
}

/// What `postcard` reads the bytes as when a text, a `usize`, four bytes and a list of
/// texts are wanted.
pub uninterp spec fn postcard_prompt(bytes: Seq<u8>) -> Option<(Seq<char>, usize, Seq<u8>, Seq<Seq<char>>)>;

/// What `postcard` reads the bytes as when a text, a `usize`, a `u32`, a text and a
/// `u64` are wanted.
pub uninterp spec fn postcard_reply(bytes: Seq<u8>) -> Option<(Seq<char>, usize, u32, Seq<char>, u64)>;

/// `postcard::to_allocvec` of a string, a number, four bytes and a list of strings:
/// the string with its length, the number as a varint, the bytes as they are, the
/// length of the list and its strings.
#[verifier::external_body]
pub(crate) fn encode_prompt(a: &String, n: usize, four: [u8; 4], list: &Vec<String>) -> (r: Vec<u8>)
    ensures
        r@ == wire_prompt(a@, n, four@, views(list@)),
{
    postcard::to_allocvec(&(a, n, four, list)).unwrap_or_default()
}

/// `postcard::from_bytes` for a string, a `usize`, four bytes and a list of strings.
/// The result depends on the bytes alone; encoded values at their front are read back.
#[verifier::external_body]
pub(crate) fn parse_prompt(bytes: &[u8]) -> (r: Option<(String, usize, [u8; 4], Vec<String>)>)
    ensures
        r is Some <==> postcard_prompt(bytes@) is Some,
        r is Some ==> postcard_prompt(bytes@) == Some(((r->0).0@, (r->0).1, (r->0).2@, views((r->0).3@))),
        forall|a: Seq<char>, n: usize, four: Seq<u8>, list: Seq<Seq<char>>|
            text_fits(a) && four.len() == 4 && texts_fit(list) && starts_with(
                bytes@,
                #[trigger] wire_prompt(a, n, four, list),
            ) ==> r is Some && (r->0).0@ == a && (r->0).1 == n && (r->0).2@ == four && views((r->0).3@) == list,
{
    postcard::from_bytes::<(String, usize, [u8; 4], Vec<String>)>(bytes).ok()
}

/// `postcard::to_allocvec` of a string, two numbers, a string and a number.
#[verifier::external_body]
pub(crate) fn encode_reply(a: &String, n: usize, k: u32, b: &String, m: u64) -> (r: Vec<u8>)
    ensures
        r@ == wire_reply(a@, n, k, b@, m),
{
    postcard::to_allocvec(&(a, n, k, b, m)).unwrap_or_default()
}

/// `postcard::from_bytes` for a string, a `usize`, a `u32`, a string and a `u64`. The
/// result depends on the bytes alone; encoded values at their front are read back.
#[verifier::external_body]
pub(crate) fn parse_reply(bytes: &[u8]) -> (r: Option<(String, usize, u32, String, u64)>)
    ensures
        r is Some <==> postcard_reply(bytes@) is Some,
        r is Some ==> postcard_reply(bytes@) == Some(
            ((r->0).0@, (r->0).1, (r->0).2, (r->0).3@, (r->0).4),
        ),
        forall|a: Seq<char>, n: usize, k: u32, b: Seq<char>, m: u64|
            text_fits(a) && text_fits(b) && starts_with(bytes@, #[trigger] wire_reply(a, n, k, b, m)) ==> r is Some
                && (r->0).0@ == a && (r->0).1 == n && (r->0).2 == k && (r->0).3@ == b && (r->0).4 == m,
{
    postcard::from_bytes::<(String, usize, u32, String, u64)>(bytes).ok()
}

/// Pairs of texts, one behind the other.
pub open spec fn wire_pairs(s: Seq<(Seq<char>, Seq<char>)>) -> Seq<u8>
    decreases s.len(),
{
    if s.len() == 0 {
        Seq::empty()
    } else {
        wire_pairs(s.drop_last()) + wire_text(s.last().0) + wire_text(s.last().1)
    }
}

/// A text, a list of pairs and a list of bytes.
pub open spec fn wire_post(a: Seq<char>, pairs: Seq<(Seq<char>, Seq<char>)>, body: Seq<u8>) -> Seq<u8> {
    wire_text(a) + varint(pairs.len()) + wire_pairs(pairs) + varint(body.len()) + body
}

/// A number, a list of bytes and an optional text.
pub open spec fn wire_posted(n: u16, body: Seq<u8>, e: Option<Seq<char>>) -> Seq<u8> {
    varint(n as nat) + varint(body.len()) + body + match e {
        Some(s) => seq![1u8] + wire_text(s),
        None => seq![0u8],
    }
}

/// What `postcard` reads the bytes as when a text, a list of pairs of texts and a list
/// of bytes are wanted.
pub uninterp spec fn postcard_post(bytes: Seq<u8>) -> Option<
    (Seq<char>, Seq<(Seq<char>, Seq<char>)>, Seq<u8>),
>;

/// What `postcard` reads the bytes as when a `u16`, a list of bytes and an optional text
/// are wanted.
pub uninterp spec fn postcard_posted(bytes: Seq<u8>) -> Option<(u16, Seq<u8>, Option<Seq<char>>)>;

/// `postcard::to_allocvec` of a string, a list of pairs of strings and a list of bytes:
/// each list with its length before it.
#[verifier::external_body]
pub(crate) fn encode_post(a: &String, pairs: &Vec<(String, String)>, body: &Vec<u8>) -> (r: Vec<u8>)
    ensures
        r@ == wire_post(a@, views(pairs@), body@),
{
    postcard::to_allocvec(&(a, pairs, body)).unwrap_or_default()
}

/// `postcard::from_bytes` for a string, a list of pairs of strings and a list of bytes.
/// The result depends on the bytes alone; encoded values at their front are read back.
#[verifier::external_body]
pub(crate) fn parse_post(bytes: &[u8]) -> (r: Option<(String, Vec<(String, String)>, Vec<u8>)>)
    ensures
        r is Some <==> postcard_post(bytes@) is Some,
        r is Some ==> postcard_post(bytes@) == Some(((r->0).0@, views((r->0).1@), (r->0).2@)),
        forall|a: Seq<char>, pairs: Seq<(Seq<char>, Seq<char>)>, body: Seq<u8>|
            text_fits(a) && pairs_fit(pairs) && body.len() <= usize::MAX && starts_with(
                bytes@,
                #[trigger] wire_post(a, pairs, body),
            ) ==> r is Some && (r->0).0@ == a && views((r->0).1@) == pairs && (r->0).2@ == body,
{
    postcard::from_bytes::<(String, Vec<(String, String)>, Vec<u8>)>(bytes).ok()
}

/// `postcard::to_allocvec` of a number, a list of bytes and an optional string: the
/// option as one byte, 1 before a string and 0 for none.
#[verifier::external_body]
pub(crate) fn encode_posted(n: u16, body: &Vec<u8>, e: &Option<String>) -> (r: Vec<u8>)
    ensures
        r@ == wire_posted(
            n,
            body@,
            match *e {
                Some(s) => Some(s@),
                None => None,
            },
        ),
{
    postcard::to_allocvec(&(n, body, e)).unwrap_or_default()
}

/// `postcard::from_bytes` for a `u16`, a list of bytes and an optional string. The result
/// depends on the bytes alone; encoded values at their front are read back.
#[verifier::external_body]
pub(crate) fn parse_posted(bytes: &[u8]) -> (r: Option<(u16, Vec<u8>, Option<String>)>)
    ensures
        r is Some <==> postcard_posted(bytes@) is Some,
        r is Some ==> postcard_posted(bytes@) == Some(
            (
                (r->0).0,
                (r->0).1@,
                match (r->0).2 {
                    Some(s) => Some(s@),
                    None => None,
                },
            ),
        ),
        forall|n: u16, body: Seq<u8>, e: Option<Seq<char>>|
            body.len() <= usize::MAX && (e matches Some(s) ==> text_fits(s)) && starts_with(
                bytes@,
                #[trigger] wire_posted(n, body, e),
            ) ==> r is Some && (r->0).0 == n && (r->0).1@ == body && e == (match (r->0).2 {
                Some(s) => Some(s@),
                None => None,
            }),
{
    postcard::from_bytes::<(u16, Vec<u8>, Option<String>)>(bytes).ok()
}

/// Every list of bytes fits in memory.
pub fn bytes_are_held(list: &Vec<u8>)
    ensures
        list@.len() <= usize::MAX,
{
    let n = list.len();
    assert(n == list@.len());
}

/// Every text of a list of pairs fits in memory, and so does the list.
pub open spec fn pairs_fit(list: Seq<(Seq<char>, Seq<char>)>) -> bool {
    list.len() <= usize::MAX && forall|i: int|
        0 <= i < list.len() ==> text_fits((#[trigger] list[i]).0) && text_fits(list[i].1)
}

/// Every list of pairs of strings fits in memory.
pub fn pairs_are_held(list: &Vec<(String, String)>)
    ensures
        pairs_fit(views(list@)),
{
    let mut i: usize = 0;
    while i < list.len()
        invariant
            i <= list@.len(),
            forall|j: int|
                0 <= j < i ==> text_fits((#[trigger] views(list@)[j]).0) && text_fits(views(list@)[j].1),
        decreases list@.len() - i,
    {
        text_is_held(&list[i].0);
        text_is_held(&list[i].1);
        i += 1;
    }
}

/// Every text of a list fits in memory, and so does the list.
pub open spec fn texts_fit(list: Seq<Seq<char>>) -> bool {
    list.len() <= usize::MAX && forall|i: int| 0 <= i < list.len() ==> text_fits(#[trigger] list[i])
}

/// Every list of strings fits in memory.
pub fn texts_are_held(list: &Vec<String>)
    ensures
        texts_fit(views(list@)),
{
    let mut i: usize = 0;
    while i < list.len()
        invariant
            i <= list@.len(),
            forall|j: int| 0 <= j < i ==> text_fits(#[trigger] views(list@)[j]),
        decreases list@.len() - i,
    {
        text_is_held(&list[i]);
        i += 1;
    }
}

// ---------------------------------------------------------------------------
// Common payloads
// ---------------------------------------------------------------------------

/// Empty payload for intents that carry no data.
#[derive(Debug, Clone, Copy, PartialEq, Eq, Structural)]
pub struct Empty {}

/// Generic string payload.
#[derive(Debug)]
pub struct StringPayload {
    pub value: String,
}

/// Generic error payload.
#[derive(Debug)]
pub struct ErrorPayload {
    pub code: u32,
    pub message: String,
}

/// Key-value pair.
#[derive(Debug)]
pub struct KeyValue {
    pub key: String,
    pub value: String,
}

/// The longest string that memory can hold has a length that fits a `usize`.
pub open spec fn text_fits(s: Seq<char>) -> bool {
    encode_utf8(s).len() <= usize::MAX
}

/// Every string fits in memory.
pub fn text_is_held(s: &String)
    ensures
        text_fits(s@),
{
    let n = s.as_str().as_bytes().len();
    assert(n == encode_utf8(s@).len());
}

impl Payload for String {
    open spec fn wire(v: Seq<char>) -> Seq<u8> {
        wire_text(v)
    }

    open spec fn parsed(bytes: Seq<u8>) -> Option<Seq<char>> {
        postcard_text(bytes)
    }

    open spec fn sound(v: Seq<char>) -> bool {
        text_fits(v)
    }

    fn encode(&self) -> (r: Vec<u8>) {
        text_is_held(self);
        encode_text(self)
    }

    fn parse(bytes: &[u8]) -> (r: Option<Self>) {
        parse_text(bytes)
    }
}

impl View for Empty {
    type V = Empty;

    open spec fn view(&self) -> Empty {
        *self
    }
}

/// Nothing is written, and nothing has to be there to be read.
impl Payload for Empty {
    open spec fn wire(v: Empty) -> Seq<u8> {
        Seq::empty()
    }

    open spec fn parsed(bytes: Seq<u8>) -> Option<Empty> {
        Some(Empty {  })
    }

    open spec fn sound(v: Empty) -> bool {
        true
    }

    fn encode(&self) -> (r: Vec<u8>) {
        Vec::new()
    }

    fn parse(bytes: &[u8]) -> (r: Option<Self>) {
        Some(Empty {  })
    }
}

impl View for StringPayload {
    type V = Seq<char>;

    open spec fn view(&self) -> Seq<char> {
        self.value@
    }
}

impl Payload for StringPayload {
    open spec fn wire(v: Seq<char>) -> Seq<u8> {
        wire_text(v)
    }

    open spec fn parsed(bytes: Seq<u8>) -> Option<Seq<char>> {
        postcard_text(bytes)
    }

    open spec fn sound(v: Seq<char>) -> bool {
        text_fits(v)
    }

    fn encode(&self) -> (r: Vec<u8>) {
        text_is_held(&self.value);
        encode_text(&self.value)
    }

    fn parse(bytes: &[u8]) -> (r: Option<Self>) {
        match parse_text(bytes) {
            Some(value) => Some(StringPayload { value }),
            None => None,
        }
    }
}

impl View for ErrorPayload {
    type V = (u32, Seq<char>);

    open spec fn view(&self) -> (u32, Seq<char>) {
        (self.code, self.message@)
    }
}

impl Payload for ErrorPayload {
    open spec fn wire(v: (u32, Seq<char>)) -> Seq<u8> {
        wire_u32_text(v.0, v.1)
    }

    open spec fn parsed(bytes: Seq<u8>) -> Option<(u32, Seq<char>)> {
        postcard_u32_text(bytes)
    }

    open spec fn sound(v: (u32, Seq<char>)) -> bool {
        text_fits(v.1)
    }

    fn encode(&self) -> (r: Vec<u8>) {
        text_is_held(&self.message);
        encode_u32_text(self.code, &self.message)
    }

    fn parse(bytes: &[u8]) -> (r: Option<Self>) {
        match parse_u32_text(bytes) {
            Some((code, message)) => Some(ErrorPayload { code, message }),
            None => None,
        }
    }
}

impl View for KeyValue {
    type V = (Seq<char>, Seq<char>);

    open spec fn view(&self) -> (Seq<char>, Seq<char>) {
        (self.key@, self.value@)
    }
}

impl Payload for KeyValue {
    open spec fn wire(v: (Seq<char>, Seq<char>)) -> Seq<u8> {
        wire_texts2(v.0, v.1)
    }

    open spec fn parsed(bytes: Seq<u8>) -> Option<(Seq<char>, Seq<char>)> {
        postcard_texts2(bytes)
    }

    open spec fn sound(v: (Seq<char>, Seq<char>)) -> bool {
        text_fits(v.0) && text_fits(v.1)
    }

    fn encode(&self) -> (r: Vec<u8>) {
        text_is_held(&self.key);
        text_is_held(&self.value);
        encode_texts2(&self.key, &self.value)
    }

    fn parse(bytes: &[u8]) -> (r: Option<Self>) {
        match parse_texts2(bytes) {
            Some((key, value)) => Some(KeyValue { key, value }),
            None => None,
        }
    }
}

/// A "system.heartbeat" message.
#[derive(Debug, Clone, Copy, PartialEq, Eq, Structural)]
pub struct Heartbeat {
    pub beat: u32,
    pub tick: u64,
}

impl View for Heartbeat {
    type V = Heartbeat;

    open spec fn view(&self) -> Heartbeat {
        *self
    }
}

impl Payload for Heartbeat {
    open spec fn wire(v: Heartbeat) -> Seq<u8> {
        varint(v.beat as nat) + varint(v.tick as nat)
    }

    open spec fn parsed(bytes: Seq<u8>) -> Option<Heartbeat> {
        match postcard_u32_u64(bytes) {
            Some(p) => Some(Heartbeat { beat: p.0, tick: p.1 }),
            None => None,
        }
    }

    open spec fn sound(v: Heartbeat) -> bool {
        true
    }

    fn encode(&self) -> (r: Vec<u8>) {
        encode_u32_u64(self.beat, self.tick)
    }

    fn parse(bytes: &[u8]) -> (r: Option<Self>) {
        let p = parse_u32_u64(bytes);
        proof {
            assert forall|v: Heartbeat|
                Self::sound(v) && starts_with(bytes@, #[trigger] Self::wire(v)) implies Self::parsed(bytes@)
                == Some(v) by {
                let a = v.beat;
                let b = v.tick;
                assert(starts_with(bytes@, varint(a as nat) + varint(b as nat)));
            }
        }
        match p {
            Some((beat, tick)) => Some(Heartbeat { beat, tick }),
            None => None,
        }
    }
}

/// A "test.ping" message.
#[derive(Debug, Clone, Copy, PartialEq, Eq, Structural)]
pub struct TestMsg {
    pub value: u32,
}

impl View for TestMsg {
    type V = u32;

    open spec fn view(&self) -> u32 {
        self.value
    }
}

impl Payload for TestMsg {
    open spec fn wire(v: u32) -> Seq<u8> {
        varint(v as nat)
    }

    open spec fn parsed(bytes: Seq<u8>) -> Option<u32> {
        postcard_u32(bytes)
    }

    open spec fn sound(v: u32) -> bool {
        true
    }

    fn encode(&self) -> (r: Vec<u8>) {
        encode_u32(self.value)
    }

    fn parse(bytes: &[u8]) -> (r: Option<Self>) {
        match parse_u32(bytes) {
            Some(value) => Some(TestMsg { value }),
            None => None,
        }
    }
}

/// A "glass-box.update" message: one state entry of one module.
#[derive(Debug)]
pub struct GlassBoxUpdate {
    /// Which module this update is for.
    pub module: String,
    /// The state key.
    pub key: String,
    /// The state value.
    pub value: String,
}

/// What a Glass Box update holds.
pub struct GlassBoxUpdateView {
    pub module: Seq<char>,
    pub key: Seq<char>,
    pub value: Seq<char>,
}

impl View for GlassBoxUpdate {
    type V = GlassBoxUpdateView;

    open spec fn view(&self) -> GlassBoxUpdateView {
        GlassBoxUpdateView { module: self.module@, key: self.key@, value: self.value@ }
    }
}

impl GlassBoxUpdate {
    pub fn new(module: &str, key: &str, value: &str) -> (r: Self)
        ensures
            r@ == (GlassBoxUpdateView { module: module@, key: key@, value: value@ }),
    {
        GlassBoxUpdate { module: text(module), key: text(key), value: text(value) }
    }
}

impl Payload for GlassBoxUpdate {
    open spec fn wire(v: GlassBoxUpdateView) -> Seq<u8> {
        wire_texts3(v.module, v.key, v.value)
    }

    open spec fn parsed(bytes: Seq<u8>) -> Option<GlassBoxUpdateView> {
        match postcard_texts3(bytes) {
            Some(t) => Some(GlassBoxUpdateView { module: t.0, key: t.1, value: t.2 }),
            None => None,
        }
    }

    open spec fn sound(v: GlassBoxUpdateView) -> bool {
        text_fits(v.module) && text_fits(v.key) && text_fits(v.value)
    }

    fn encode(&self) -> (r: Vec<u8>) {
        text_is_held(&self.module);
        text_is_held(&self.key);
        text_is_held(&self.value);
        encode_texts3(&self.module, &self.key, &self.value)
    }

    fn parse(bytes: &[u8]) -> (r: Option<Self>) {
        match parse_texts3(bytes) {
            Some((module, key, value)) => Some(GlassBoxUpdate { module, key, value }),
            None => None,
        }
    }
}

} // verus!
