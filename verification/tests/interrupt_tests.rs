use os_kernel::interrupts::{decode_scancode, InterruptIndex, Key, KeyboardState, PIC_1_OFFSET, PIC_2_OFFSET};
use pc_keyboard::KeyCode;

#[test]
fn pic_offsets() {
    assert_eq!(PIC_1_OFFSET, 32);
    assert_eq!(PIC_2_OFFSET, 40);
}

#[test]
fn interrupt_vectors() {
    assert_eq!(InterruptIndex::Timer.as_u8(), 32);
    assert_eq!(InterruptIndex::Keyboard.as_u8(), 33);
    assert_eq!(InterruptIndex::Timer.as_usize(), 32);
    assert_eq!(InterruptIndex::Keyboard.as_usize(), 33);
}

#[test]
fn key_press_types_its_letter() {
    let mut keyboard = KeyboardState::new();
    assert_eq!(decode_scancode(&mut keyboard, 0x1e), Some(Key::Unicode('a')));
    assert_eq!(decode_scancode(&mut keyboard, 0x9e), None);
}

#[test]
fn shift_changes_the_letter() {
    let mut keyboard = KeyboardState::new();
    assert_eq!(decode_scancode(&mut keyboard, 0x2a), Some(Key::RawKey(KeyCode::LShift)));
    assert_eq!(decode_scancode(&mut keyboard, 0x1e), Some(Key::Unicode('A')));
}

#[test]
fn extended_scancodes_take_two_bytes() {
    let mut keyboard = KeyboardState::new();
    assert_eq!(decode_scancode(&mut keyboard, 0xe0), None);
    assert_eq!(decode_scancode(&mut keyboard, 0x48), Some(Key::RawKey(KeyCode::ArrowUp)));
}

#[test]
fn control_keys_are_left_as_they_are() {
    let mut keyboard = KeyboardState::new();
    assert_eq!(decode_scancode(&mut keyboard, 0x1d), Some(Key::RawKey(KeyCode::LControl)));
    assert_eq!(decode_scancode(&mut keyboard, 0x2e), Some(Key::Unicode('c')));
}
