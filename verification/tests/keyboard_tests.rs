use kfs::keyboard::{output_buffer_full, Ps2Keyboard};

#[test]
fn new_keyboard_has_no_shift() {
    assert!(!Ps2Keyboard::new().shift());
}

#[test]
fn letters_without_and_with_shift() {
    let mut k = Ps2Keyboard::new();
    assert_eq!(k.handle_scancode(0x1E), Some(b'a'));
    assert_eq!(k.handle_scancode(0x2A), None);
    assert!(k.shift());
    assert_eq!(k.handle_scancode(0x1E), Some(b'A'));
    assert_eq!(k.handle_scancode(0x02), Some(b'!'));
    assert_eq!(k.handle_scancode(0xAA), None);
    assert!(!k.shift());
    assert_eq!(k.handle_scancode(0x1E), Some(b'a'));
}

#[test]
fn right_shift_works_too() {
    let mut k = Ps2Keyboard::new();
    assert_eq!(k.handle_scancode(0x36), None);
    assert_eq!(k.handle_scancode(0x10), Some(b'Q'));
    assert_eq!(k.handle_scancode(0xB6), None);
    assert_eq!(k.handle_scancode(0x10), Some(b'q'));
}

#[test]
fn special_keys() {
    let mut k = Ps2Keyboard::new();
    assert_eq!(k.handle_scancode(0x1C), Some(b'\n'));
    assert_eq!(k.handle_scancode(0x0E), Some(0x08));
    assert_eq!(k.handle_scancode(0x0F), Some(b'\t'));
    assert_eq!(k.handle_scancode(0x01), Some(0x1B));
    assert_eq!(k.handle_scancode(0x39), Some(b' '));
}

#[test]
fn keys_that_give_nothing() {
    let mut k = Ps2Keyboard::new();
    assert_eq!(k.handle_scancode(0x38), None);
    assert_eq!(k.handle_scancode(0xB8), None);
    assert_eq!(k.handle_scancode(0x9E), None);
    assert_eq!(k.handle_scancode(0x1D), None);
    assert_eq!(k.handle_scancode(0x3A), None);
    assert_eq!(k.handle_scancode(0x00), None);
    assert!(!k.shift());
}

#[test]
fn status_bit_zero() {
    assert!(output_buffer_full(0x01));
    assert!(output_buffer_full(0x1D));
    assert!(!output_buffer_full(0x1C));
    assert!(!output_buffer_full(0));
}
