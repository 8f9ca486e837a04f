//! PS/2 keyboard: decoded characters wait in a buffer until they are read.

use std::collections::VecDeque;

use pc_keyboard::layouts::Us104Key;
use pc_keyboard::{DecodedKey, HandleControl, KeyCode, KeyEvent, Keyboard, ScancodeSet1};
use vstd::prelude::*;

verus! {

/// Characters that can wait.
pub const BUFFER_CAPACITY: usize = 256;

/// The decoder of the pc_keyboard crate: which keys are held, and how far a scancode has
/// come.
#[verifier::external_body]
pub struct KeyDecoder {
    keyboard: Keyboard<Us104Key, ScancodeSet1>,
}

/// `KeyEvent` of the pc_keyboard crate: a key that goes down or up.
#[verifier::external_type_specification]
#[verifier::external_body]
pub struct ExKeyEvent(pc_keyboard::KeyEvent);

/// `KeyCode` of the pc_keyboard crate: a key of the keyboard.
#[verifier::external_type_specification]
#[verifier::external_body]
pub struct ExKeyCode(pc_keyboard::KeyCode);

/// `Error` of the pc_keyboard crate: a byte that no scancode allows.
#[verifier::external_type_specification]
#[verifier::external_body]
pub struct ExKeyError(pc_keyboard::Error);

/// What a key that was pressed stands for: a character, or the key itself.
pub enum Key {
    Unicode(char),
    RawKey(KeyCode),
}

/// The event that a byte completes, where it completes one.
pub uninterp spec fn event_of(decoder: KeyDecoder, scancode: u8) -> Result<Option<KeyEvent>, pc_keyboard::Error>;

/// The decoder after a byte.
pub uninterp spec fn after_byte(decoder: KeyDecoder, scancode: u8) -> KeyDecoder;

/// What an event stands for, where it stands for something.
pub uninterp spec fn key_of(decoder: KeyDecoder, event: KeyEvent) -> Option<Key>;

/// The decoder after an event.
pub uninterp spec fn after_event(decoder: KeyDecoder, event: KeyEvent) -> KeyDecoder;

/// `Keyboard::add_byte` of the pc_keyboard crate. The event and the decoder's next state
/// depend on its state and the byte alone.
#[verifier::external_body]
fn add_byte(decoder: &mut KeyDecoder, scancode: u8) -> (r: Result<Option<KeyEvent>, pc_keyboard::Error>)
    ensures
        r == event_of(*old(decoder), scancode),
        *final(decoder) == after_byte(*old(decoder), scancode),
{
    decoder.keyboard.add_byte(scancode)
}

/// `Keyboard::process_keyevent` of the pc_keyboard crate. The key and the decoder's next
/// state depend on its state and the event alone.
#[verifier::external_body]
fn process_keyevent(decoder: &mut KeyDecoder, event: KeyEvent) -> (r: Option<Key>)
    ensures
        r == key_of(*old(decoder), event),
        *final(decoder) == after_event(*old(decoder), event),
{
    match decoder.keyboard.process_keyevent(event) {
        Some(DecodedKey::Unicode(c)) => Some(Key::Unicode(c)),
        Some(DecodedKey::RawKey(k)) => Some(Key::RawKey(k)),
        None => None,
    }
}

/// `Keyboard::new` of the pc_keyboard crate: a decoder for scancode set 1 and the US
/// layout that ignores control keys. Nothing is claimed of its state.
#[verifier::external_body]
fn new_decoder() -> (r: KeyDecoder) {
    KeyDecoder { keyboard: Keyboard::new(ScancodeSet1::new(), Us104Key, HandleControl::Ignore) }
}

/// The character of a key: keys that stand for none are dropped.
pub open spec fn char_of(key: Option<Key>) -> Option<char> {
    match key {
        Some(Key::Unicode(c)) => Some(c),
        _ => None,
    }
}

/// The character of a key.
pub fn typed_char(key: Option<Key>) -> (r: Option<char>)
    ensures
        r == char_of(key),
{
    match key {
        Some(Key::Unicode(c)) => Some(c),
        _ => None,
    }
}

/// The character that a decoder gives for a byte: none where the byte is an error or
/// completes no event, or where the event stands for no character.
pub open spec fn decoded_char(decoder: KeyDecoder, scancode: u8) -> Option<char> {
    match event_of(decoder, scancode) {
        Ok(Some(event)) => char_of(key_of(after_byte(decoder, scancode), event)),
        _ => None,
    }
}

/// The decoder after a byte, and after the event that it completes.
pub open spec fn decoder_after(decoder: KeyDecoder, scancode: u8) -> KeyDecoder {
    match event_of(decoder, scancode) {
        Ok(Some(event)) => after_event(after_byte(decoder, scancode), event),
        _ => after_byte(decoder, scancode),
    }
}

/// The buffer after a key: a character joins it, unless it is full.
pub open spec fn buffered(buffer: Seq<char>, key: Option<char>) -> Seq<char> {
    match key {
        Some(c) => if buffer.len() < BUFFER_CAPACITY {
            buffer.push(c)
        } else {
            buffer
        },
        None => buffer,
    }
}

/// Take a decoded key into the buffer.
pub fn take_key(buffer: &mut VecDeque<char>, key: Option<char>)
    ensures
        final(buffer)@ == buffered(old(buffer)@, key),
        old(buffer)@.len() <= BUFFER_CAPACITY ==> final(buffer)@.len() <= BUFFER_CAPACITY,
{
    match key {
        Some(c) => {
            if buffer.len() < BUFFER_CAPACITY {
                buffer.push_back(c);
            }
        },
        None => {},
    }
}

/// The keyboard driver.
pub struct KeyboardDriver {
    pub decoder: KeyDecoder,
}

impl KeyboardDriver {
    /// A driver with no key held.
    pub fn new() -> (r: Self) {
        KeyboardDriver { decoder: new_decoder() }
    }

    /// Called for each byte of the keyboard: what it completes joins the buffer.
    pub fn handle_scancode(&mut self, buffer: &mut VecDeque<char>, scancode: u8)
        ensures
            final(self).decoder == decoder_after(old(self).decoder, scancode),
            final(buffer)@ == buffered(old(buffer)@, decoded_char(old(self).decoder, scancode)),
            old(buffer)@.len() <= BUFFER_CAPACITY ==> final(buffer)@.len() <= BUFFER_CAPACITY,
    {
        let key = match add_byte(&mut self.decoder, scancode) {
            Ok(Some(event)) => process_keyevent(&mut self.decoder, event),
            _ => None,
        };
        take_key(buffer, typed_char(key));
    }
}

/// Take the oldest character out of the buffer.
pub fn try_read_char(buffer: &mut VecDeque<char>) -> (r: Option<char>)
    ensures
        r == if old(buffer)@.len() > 0 {
            Some(old(buffer)@[0])
        } else {
            None
        },
        final(buffer)@ == if old(buffer)@.len() > 0 {
            old(buffer)@.skip(1)
        } else {
            old(buffer)@
        },
{
    let ghost before = buffer@;
    let r = buffer.pop_front();
    proof {
        if before.len() > 0 {
            assert(buffer@ =~= before.skip(1));
        }
    }
    r
}

} // verus!
