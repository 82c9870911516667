//! Interrupt numbering of the two chained 8259 PICs, and the decoding of
//! keyboard scancodes.

use vstd::prelude::*;
use pc_keyboard::{layouts::Us104Key, KeyCode, KeyEvent, Keyboard, ScancodeSet1};

verus! {

/// The interrupt vector of the primary PIC's first line; vectors below it
/// belong to CPU exceptions.
pub const PIC_1_OFFSET: u8 = 32;

/// The interrupt vector of the secondary PIC's first line, just past the
/// primary PIC's eight lines.
pub const PIC_2_OFFSET: u8 = PIC_1_OFFSET + 8;

/// The hardware interrupts that the kernel handles, in the order of the
/// primary PIC's lines: the timer on line 0, the keyboard on line 1.
#[derive(Debug, Clone, Copy, PartialEq, Eq)]
pub enum InterruptIndex {
    Timer,
    Keyboard,
}

/// The interrupt vector of each handled interrupt: the primary PIC's
/// offset plus its line.
pub open spec fn interrupt_vector(index: InterruptIndex) -> u8 {
    match index {
        InterruptIndex::Timer => PIC_1_OFFSET,
        InterruptIndex::Keyboard => (PIC_1_OFFSET + 1) as u8,
    }
}

impl InterruptIndex {
    /// The interrupt vector, as a `u8`.
    pub fn as_u8(self) -> (r: u8)
        ensures
            r == interrupt_vector(self),
    {
        match self {
            InterruptIndex::Timer => PIC_1_OFFSET,
            InterruptIndex::Keyboard => PIC_1_OFFSET + 1,
        }
    }

    /// The interrupt vector, as a `usize`, for indexing the interrupt
    /// descriptor table.
    pub fn as_usize(self) -> (r: usize)
        ensures
            r == interrupt_vector(self),
    {
        usize::from(self.as_u8())
    }
}

/// The handled interrupts have distinct vectors, both on the primary PIC:
/// at or above its offset and below the secondary PIC's.
pub proof fn lemma_interrupt_vectors(a: InterruptIndex, b: InterruptIndex)
    ensures
        PIC_1_OFFSET <= interrupt_vector(a) < PIC_2_OFFSET,
        a != b ==> interrupt_vector(a) != interrupt_vector(b),
{
}

/// The keyboard of the `pc_keyboard` crate, with the US 104-key layout and
/// scancode set 1, which PS/2 keyboards emulate. The crate's keyboard type
/// is generic over the crate's layout and scancode-set traits, so it is held
/// here, at the one instance the kernel uses, rather than declared.
#[verifier::external_body]
pub struct KeyboardState {
    keyboard: Keyboard<Us104Key, ScancodeSet1>,
}

/// The keyboard that `Keyboard::new` makes with scancode set 1 and the US
/// 104-key layout, in its starting state; `ignore_ctrl` chooses between
/// control keys left as they are (`HandleControl::Ignore`) and control plus a
/// letter mapped to a control character (`HandleControl::MapLettersToUnicode`).
pub uninterp spec fn fresh_keyboard(ignore_ctrl: bool) -> KeyboardState;

/// Calls `Keyboard::new` with scancode set 1, the US 104-key layout and the
/// control-key handling that `ignore_ctrl` chooses.
#[verifier::external_body]
fn keyboard_new(ignore_ctrl: bool) -> (r: KeyboardState)
    ensures
        r == fresh_keyboard(ignore_ctrl),
{
    let handle_ctrl = if ignore_ctrl {
        pc_keyboard::HandleControl::Ignore
    } else {
        pc_keyboard::HandleControl::MapLettersToUnicode
    };
    KeyboardState { keyboard: Keyboard::new(ScancodeSet1::new(), Us104Key, handle_ctrl) }
}

impl KeyboardState {
    /// A keyboard as the kernel sets it up: scancode set 1, the US 104-key
    /// layout, and control keys left as they are, in its starting state.
    pub fn new() -> (r: KeyboardState)
        ensures
            r == fresh_keyboard(true),
    {
        keyboard_new(true)
    }
}

/// A key press or release, as the `pc_keyboard` crate reports it.
#[verifier::external_type_specification]
#[verifier::external_body]
pub struct ExKeyEvent(KeyEvent);

/// A key of the `pc_keyboard` crate.
#[verifier::external_type_specification]
#[verifier::external_body]
pub struct ExKeyCode(KeyCode);

/// A decoded key: the character it types, or the key itself when it types
/// none.
#[derive(Debug, Clone, Copy, PartialEq, Eq)]
pub enum Key {
    Unicode(char),
    RawKey(KeyCode),
}

/// The key event, if any, that the keyboard reports when it is fed `byte`
/// in state `keyboard` (an error of the crate counts as none).
pub uninterp spec fn event_of(keyboard: KeyboardState, byte: u8) -> Option<KeyEvent>;

/// The keyboard's state after it is fed `byte` in state `keyboard`.
pub uninterp spec fn after_byte(keyboard: KeyboardState, byte: u8) -> KeyboardState;

/// The key, if any, that the keyboard maps `event` to in state `keyboard`.
pub uninterp spec fn key_of(keyboard: KeyboardState, event: KeyEvent) -> Option<Key>;

/// The keyboard's state after it processes `event` in state `keyboard`.
pub uninterp spec fn after_event(keyboard: KeyboardState, event: KeyEvent) -> KeyboardState;

/// The key that `decode_scancode` gives for `scancode` in state `keyboard`:
/// the key that the event of the byte maps to, in the state the byte leaves,
/// or none when the byte completes no event.
pub open spec fn decoded_key(keyboard: KeyboardState, scancode: u8) -> Option<Key> {
    match event_of(keyboard, scancode) {
        Some(event) => key_of(after_byte(keyboard, scancode), event),
        None => None,
    }
}

/// The keyboard's state after `decode_scancode` has decoded `scancode` in
/// state `keyboard`.
pub open spec fn decoded_state(keyboard: KeyboardState, scancode: u8) -> KeyboardState {
    match event_of(keyboard, scancode) {
        Some(event) => after_event(after_byte(keyboard, scancode), event),
        None => after_byte(keyboard, scancode),
    }
}

/// Decoding processes every event that a byte completes, a press or a
/// release alike (a modifier's release clears the modifier): the key is what
/// the layout maps that event to, in the state the byte leaves, and the
/// keyboard ends in the state that processing the event leaves. A byte that
/// completes no event gives no key and only advances the scancode decoder.
pub proof fn lemma_every_event_is_processed(keyboard: KeyboardState, scancode: u8)
    ensures
        event_of(keyboard, scancode) matches Some(event) ==> {
            &&& decoded_key(keyboard, scancode) == key_of(after_byte(keyboard, scancode), event)
            &&& decoded_state(keyboard, scancode) == after_event(after_byte(keyboard, scancode), event)
        },
        event_of(keyboard, scancode) is None ==> {
            &&& decoded_key(keyboard, scancode) is None
            &&& decoded_state(keyboard, scancode) == after_byte(keyboard, scancode)
        },
{
}

/// Calls `Keyboard::add_byte`, which feeds one scancode byte to the
/// keyboard's scancode decoder; an error of the crate is reported as `None`.
/// The answer and the new state are functions of the old state and the
/// byte.
#[verifier::external_body]
fn keyboard_add_byte(keyboard: &mut KeyboardState, byte: u8) -> (r: Option<KeyEvent>)
    ensures
        r == event_of(*old(keyboard), byte),
        *final(keyboard) == after_byte(*old(keyboard), byte),
{
    match keyboard.keyboard.add_byte(byte) {
        Ok(event) => event,
        Err(_) => None,
    }
}

/// Calls `Keyboard::process_keyevent`, which updates the modifier keys and
/// maps the event to a key by the layout. The answer and the new state are
/// functions of the old state and the event.
#[verifier::external_body]
fn keyboard_process_keyevent(keyboard: &mut KeyboardState, ev: KeyEvent) -> (r: Option<Key>)
    ensures
        r == key_of(*old(keyboard), ev),
        *final(keyboard) == after_event(*old(keyboard), ev),
{
    match keyboard.keyboard.process_keyevent(ev) {
        Some(pc_keyboard::DecodedKey::Unicode(character)) => Some(Key::Unicode(character)),
        Some(pc_keyboard::DecodedKey::RawKey(key)) => Some(Key::RawKey(key)),
        None => None,
    }
}

/// Decodes the scancode read from the keyboard controller: the byte is fed
/// to the scancode decoder, and when it completes a key event, that event is
/// mapped to a key by the layout. `None` comes back when the byte completes
/// no event (it starts a sequence, or the decoder refuses it) or when the
/// layout maps the event to no key (a key release).
pub fn decode_scancode(keyboard: &mut KeyboardState, scancode: u8) -> (r: Option<Key>)
    ensures
        r == decoded_key(*old(keyboard), scancode),
        *final(keyboard) == decoded_state(*old(keyboard), scancode),
        match event_of(*old(keyboard), scancode) {
            Some(event) => {
                &&& r == key_of(after_byte(*old(keyboard), scancode), event)
                &&& *final(keyboard) == after_event(after_byte(*old(keyboard), scancode), event)
            },
            None => {
                &&& r is None
                &&& *final(keyboard) == after_byte(*old(keyboard), scancode)
            },
        },
{
    proof {
        lemma_every_event_is_processed(*keyboard, scancode);
    }
    match keyboard_add_byte(keyboard, scancode) {
        Some(key_event) => keyboard_process_keyevent(keyboard, key_event),
        None => None,
    }
}

} // verus!
