//! The rewind key-buffer decoder: the typed-order, least-significant-first
//! digit convention, and the buffers it rejects.

use snake_rewind::input::{decode_rewind_command, map_key_buffer, Key};

#[test]
fn c_1_2_enter_decodes_21() {
    let buffer = vec![Key::KeyC, Key::Digit1, Key::Digit2, Key::Enter];
    assert_eq!(decode_rewind_command(&buffer), Some(21));
}

#[test]
fn c_enter_decodes_0() {
    let buffer = vec![Key::KeyC, Key::Enter];
    assert_eq!(decode_rewind_command(&buffer), Some(0));
}

#[test]
fn single_digit_decodes_itself() {
    let buffer = vec![Key::KeyC, Key::Digit7, Key::Enter];
    assert_eq!(decode_rewind_command(&buffer), Some(7));
}

#[test]
fn first_digit_is_least_significant() {
    let buffer = vec![Key::KeyC, Key::Digit3, Key::Digit0, Key::Digit9, Key::Enter];
    // Typed 3, then 0, then 9: 3 + 0 * 10 + 9 * 100.
    assert_eq!(decode_rewind_command(&buffer), Some(903));
}

#[test]
fn eight_digits_decode() {
    let buffer = vec![
        Key::KeyC,
        Key::Digit1,
        Key::Digit2,
        Key::Digit3,
        Key::Digit4,
        Key::Digit5,
        Key::Digit6,
        Key::Digit7,
        Key::Digit8,
        Key::Enter,
    ];
    assert_eq!(decode_rewind_command(&buffer), Some(87654321));
}

#[test]
fn nine_digits_are_too_many() {
    let mut buffer = vec![Key::KeyC];
    for _ in 0..9 {
        buffer.push(Key::Digit1);
    }
    buffer.push(Key::Enter);
    assert_eq!(decode_rewind_command(&buffer), None);
}

#[test]
fn missing_leading_c_is_invalid() {
    let buffer = vec![Key::Digit1, Key::Digit2, Key::Enter];
    assert_eq!(decode_rewind_command(&buffer), None);
}

#[test]
fn non_digit_between_markers_is_invalid() {
    let buffer = vec![Key::KeyC, Key::Digit1, Key::KeyW, Key::Enter];
    assert_eq!(decode_rewind_command(&buffer), None);
    let buffer = vec![Key::KeyC, Key::KeyU, Key::Enter];
    assert_eq!(decode_rewind_command(&buffer), None);
}

#[test]
fn missing_enter_is_invalid() {
    let buffer = vec![Key::KeyC, Key::Digit1];
    assert_eq!(decode_rewind_command(&buffer), None);
}

#[test]
fn empty_buffer_is_invalid() {
    let buffer: Vec<Key> = Vec::new();
    assert_eq!(decode_rewind_command(&buffer), None);
}

#[test]
fn buffer_display_characters() {
    assert_eq!(map_key_buffer(Key::Digit0), '0');
    assert_eq!(map_key_buffer(Key::Digit9), '9');
    assert_eq!(map_key_buffer(Key::KeyC), 'c');
    assert_eq!(map_key_buffer(Key::KeyW), 'w');
    assert_eq!(map_key_buffer(Key::KeyU), 'u');
    assert_eq!(map_key_buffer(Key::Enter), ' ');
}
