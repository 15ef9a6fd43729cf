//! The keyboard interrupt: scancodes go to the PS/2 decoder, decoded keys
//! come back, and the keyboard vector is acknowledged.
use vstd::prelude::*;
use pc_keyboard::layouts::Us104Key;
use pc_keyboard::ScancodeSet1;
use crate::interrupts::{ChainedPics, InterruptIndex, eoi_spec};

verus! {

#[verifier::external_type_specification]
#[verifier::external_body]
pub struct ExKeyEvent(pc_keyboard::KeyEvent);

#[verifier::external_type_specification]
#[verifier::external_body]
pub struct ExKeyCode(pc_keyboard::KeyCode);

#[verifier::external_type_specification]
#[verifier::external_body]
pub struct ExKeyboardError(pc_keyboard::Error);

/// A decoded key press.
pub enum Key {
    /// A key that stands for a character.
    Unicode(char),
    /// A key with no character, such as a function key.
    RawKey(pc_keyboard::KeyCode),
}

/// pc_keyboard's decoder for scancode set 1 on a US 104-key layout. Verus
/// cannot declare that generic type, whose bounds are pc_keyboard's traits, so
/// it is held out of view here.
#[verifier::external_body]
pub struct PcKeyboard {
    keyboard: pc_keyboard::Keyboard<Us104Key, ScancodeSet1>,
}

/// The scancode bytes that a decoder has been fed through `add_byte`, oldest
/// first.
pub uninterp spec fn bytes_fed(decoder: PcKeyboard) -> Seq<u8>;

/// Whether the last byte of `history` completes a key's scancode, so that
/// `add_byte` hands back an event. Scancode set 1's state machine reads the
/// bytes and nothing else, so this is a function of them alone.
pub uninterp spec fn completes_key(history: Seq<u8>) -> bool;

/// Relies on pc_keyboard's `Keyboard::new`: a fresh decoder, with Ctrl
/// passed through unmapped, that has been fed nothing.
#[verifier::external_body]
fn new_keyboard() -> (r: PcKeyboard)
    ensures
        bytes_fed(r) == Seq::<u8>::empty(),
{
    PcKeyboard {
        keyboard: pc_keyboard::Keyboard::new(
            ScancodeSet1::new(),
            Us104Key,
            pc_keyboard::HandleControl::Ignore,
        ),
    }
}

/// Relies on pc_keyboard's `Keyboard::add_byte`: advances the scancode state
/// machine by one byte, and yields an event once a key's scancode is complete.
#[verifier::external_body]
fn add_byte(
    decoder: &mut PcKeyboard,
    byte: u8,
) -> (r: Result<Option<pc_keyboard::KeyEvent>, pc_keyboard::Error>)
    ensures
        bytes_fed(*final(decoder)) == bytes_fed(*old(decoder)).push(byte),
        (r matches Ok(Some(_))) == completes_key(bytes_fed(*final(decoder))),
{
    decoder.keyboard.add_byte(byte)
}

/// Relies on pc_keyboard's `Keyboard::process_keyevent`: turns a key event
/// into the key it stands for under the current modifiers, if any. It feeds
/// no byte to the scancode state machine.
#[verifier::external_body]
fn process_keyevent(decoder: &mut PcKeyboard, event: pc_keyboard::KeyEvent) -> (r: Option<Key>)
    ensures
        bytes_fed(*final(decoder)) == bytes_fed(*old(decoder)),
{
    match decoder.keyboard.process_keyevent(event) {
        Some(pc_keyboard::DecodedKey::Unicode(c)) => Some(Key::Unicode(c)),
        Some(pc_keyboard::DecodedKey::RawKey(k)) => Some(Key::RawKey(k)),
        None => None,
    }
}

/// What the handler takes from the scancode decoder's answer: the completed
/// key event, if there is one; an incomplete scancode or a rejected byte
/// gives nothing.
pub fn key_event_of(
    outcome: Result<Option<pc_keyboard::KeyEvent>, pc_keyboard::Error>,
) -> (r: Option<pc_keyboard::KeyEvent>)
    ensures
        r == match outcome {
            Ok(Some(e)) => Some(e),
            _ => None::<pc_keyboard::KeyEvent>,
        },
{
    match outcome {
        Ok(Some(event)) => Some(event),
        Ok(None) => None,
        Err(_) => None,
    }
}

/// The state of the keyboard decoder, kept from one interrupt to the next.
pub struct KeyboardDecoder {
    keyboard: PcKeyboard,
}

impl KeyboardDecoder {
    /// The scancode bytes fed to the decoder so far, oldest first.
    pub closed spec fn fed(&self) -> Seq<u8> {
        bytes_fed(self.keyboard)
    }

    pub fn new() -> (r: KeyboardDecoder)
        ensures
            r.fed() == Seq::<u8>::empty(),
    {
        KeyboardDecoder { keyboard: new_keyboard() }
    }

    /// Feeds one scancode byte to the decoder; returns the key that it
    /// completes, if it completes one. A byte that completes no scancode, or
    /// that the decoder rejects, gives `None`.
    pub fn add_scancode(&mut self, scancode: u8) -> (r: Option<Key>)
        ensures
            final(self).fed() == old(self).fed().push(scancode),
            !completes_key(final(self).fed()) ==> r.is_none(),
    {
        let outcome = add_byte(&mut self.keyboard, scancode);
        match key_event_of(outcome) {
            Some(event) => process_keyevent(&mut self.keyboard, event),
            None => None,
        }
    }
}

/// The keyboard handler's work on the byte read from the keyboard's data
/// port: decode it, then acknowledge the keyboard vector, whatever the decoder
/// made of the byte.
pub fn keyboard_interrupt(
    decoder: &mut KeyboardDecoder,
    pics: &mut ChainedPics,
    scancode: u8,
) -> (r: Option<Key>)
    requires
        old(pics).wf(),
    ensures
        final(pics).wf(),
        final(pics).view() == eoi_spec(old(pics).view(), InterruptIndex::Keyboard.vector()),
        final(decoder).fed() == old(decoder).fed().push(scancode),
        !completes_key(final(decoder).fed()) ==> r.is_none(),
{
    let key = decoder.add_scancode(scancode);
    let _ = pics.notify_end_of_interrupt(InterruptIndex::Keyboard.as_u8());
    key
}

} // verus!
