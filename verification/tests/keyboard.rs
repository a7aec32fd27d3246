use snowflake::keyboard::{get_char, Keyboard, LineEdit};

#[test]
fn us_layout() {
    assert_eq!(get_char(16, false), 'q');
    assert_eq!(get_char(16, true), 'Q');
    assert_eq!(get_char(2, true), '!');
    assert_eq!(get_char(57, false), ' ');
    assert_eq!(get_char(28, false), '\n');
    assert_eq!(get_char(14, false), '\x7F');
    assert_eq!(get_char(58, false), '\0');
    assert_eq!(get_char(200, true), '\0');
}

#[test]
fn status_bits() {
    assert!(Keyboard::is_output(0x01));
    assert!(!Keyboard::is_output(0x02));
    assert!(Keyboard::is_input(0x02));
    assert!(!Keyboard::is_input(0xFD));
}

#[test]
fn led_byte() {
    assert_eq!(Keyboard::led_byte(true, false, false), 4);
    assert_eq!(Keyboard::led_byte(false, true, true), 3);
    assert_eq!(Keyboard::led_byte(true, true, true), 7);
}

#[test]
fn shift_and_locks() {
    let mut kb = Keyboard::new();
    assert!(kb.keyboard_handler(42));
    assert!(kb.shift_down);
    assert_eq!(kb.convert_ascii(30), 'A');
    assert!(kb.keyboard_handler(42 | 0x80));
    assert!(!kb.shift_down);
    assert_eq!(kb.convert_ascii(30), 'a');
    assert!(kb.keyboard_handler(58));
    assert!(kb.caps_lock);
    assert!(kb.keyboard_handler(58 | 0x80));
    assert!(kb.caps_lock);
    assert_eq!(kb.convert_ascii(30), 'A');
    assert!(kb.keyboard_handler(58));
    assert!(!kb.caps_lock);
    assert!(kb.keyboard_handler(69));
    assert!(kb.keyboard_handler(70));
    assert_eq!(kb.leds(), 3);
    assert!(!kb.keyboard_handler(30));
}

#[test]
fn lock_pressed_twice_is_unchanged() {
    let mut kb = Keyboard::new();
    let before = kb;
    kb.keyboard_handler(69);
    kb.keyboard_handler(69);
    assert_eq!(kb, before);
}

#[test]
fn typing_a_line() {
    let mut kb = Keyboard::new();
    let mut line = Vec::new();
    assert_eq!(kb.edit_line(&mut line, 35), LineEdit::Echo('h'));
    assert_eq!(kb.edit_line(&mut line, 35 | 0x80), LineEdit::Silent);
    assert_eq!(kb.edit_line(&mut line, 42), LineEdit::Silent);
    assert_eq!(kb.edit_line(&mut line, 23), LineEdit::Echo('I'));
    assert_eq!(kb.edit_line(&mut line, 42 | 0x80), LineEdit::Silent);
    assert_eq!(kb.edit_line(&mut line, 0xE1), LineEdit::Silent);
    assert_eq!(line, vec!['h', 'I']);
    assert_eq!(kb.edit_line(&mut line, 14), LineEdit::Echo('\x7F'));
    assert_eq!(line, vec!['h']);
    assert_eq!(kb.edit_line(&mut line, 28), LineEdit::Finished);
    assert_eq!(line, vec!['h']);
}

#[test]
fn backspace_on_empty_line() {
    let mut kb = Keyboard::new();
    let mut line = Vec::new();
    assert_eq!(kb.edit_line(&mut line, 14), LineEdit::Echo('\x7F'));
    assert!(line.is_empty());
}

#[test]
fn backspace_undoes_typing() {
    let mut kb = Keyboard::new();
    let mut line = vec!['a', 'b'];
    kb.edit_line(&mut line, 45);
    kb.edit_line(&mut line, 14);
    assert_eq!(line, vec!['a', 'b']);
}
