use vstd::prelude::*;
use crate::keyboard_table::US;

verus! {

/// The character that the US layout gives to `scan_code`, shifted or not:
/// `'\0'` for a code outside the table.
pub open spec fn us_char(scan_code: u8, shift: bool) -> char {
    if (scan_code as int) < 58 {
        if shift {
            US[scan_code as int][1]
        } else {
            US[scan_code as int][0]
        }
    } else {
        '\0'
    }
}

/// Translates a scan code into a character of the US layout.
pub fn get_char(scan_code: u8, shift: bool) -> (c: char)
    ensures
        c == us_char(scan_code, shift),
{
    if scan_code < 58 {
        let entry = US[scan_code as usize];
        if shift {
            entry[1]
        } else {
            entry[0]
        }
    } else {
        '\0'
    }
}

/// The lock and shift state of a PS/2 keyboard.
#[derive(Clone, Copy, Debug, PartialEq, Eq)]
pub struct Keyboard {
    pub shift_down: bool,
    pub caps_lock: bool,
    pub num_lock: bool,
    pub scroll_lock: bool,
}

/// Whether a scan code reports a key release (its top bit is set).
pub open spec fn is_release(scan_code: u8) -> bool {
    scan_code >= 0x80
}

/// The key that a scan code speaks of, without the release bit.
pub open spec fn key_of(scan_code: u8) -> u8 {
    (scan_code % 0x80) as u8
}

/// The state after `scan_code`, and whether the code was a shift or lock key.
pub open spec fn handle_key(kb: Keyboard, scan_code: u8) -> (Keyboard, bool) {
    let down = !is_release(scan_code);
    let c = key_of(scan_code);
    if c == 42 || c == 54 {
        (Keyboard { shift_down: down, ..kb }, true)
    } else if c == 58 {
        (Keyboard { caps_lock: if down { !kb.caps_lock } else { kb.caps_lock }, ..kb }, true)
    } else if c == 69 {
        (Keyboard { num_lock: if down { !kb.num_lock } else { kb.num_lock }, ..kb }, true)
    } else if c == 70 {
        (Keyboard { scroll_lock: if down { !kb.scroll_lock } else { kb.scroll_lock }, ..kb }, true)
    } else {
        (kb, false)
    }
}

/// The byte that the keyboard's "set LEDs" command takes.
pub open spec fn led_bits(caps_lock: bool, num_lock: bool, scroll_lock: bool) -> u8 {
    ((if caps_lock { 4int } else { 0 }) + (if num_lock { 2int } else { 0 }) + (if scroll_lock {
        1int
    } else {
        0
    })) as u8
}

/// What one scan code does to a line being typed.
#[derive(Clone, Copy, Debug, PartialEq, Eq)]
pub enum LineEdit {
    /// The key ended the line (enter).
    Finished,
    /// The key produced this character, which is echoed.
    Echo(char),
    /// Nothing is typed: a release, a prefix byte, or a shift or lock key.
    Silent,
}

/// The line after a typed character: backspace drops the last character,
/// any other character is appended.
pub open spec fn edit_line(line: Seq<char>, c: char) -> Seq<char> {
    if c == '\x7F' {
        if line.len() == 0 {
            line
        } else {
            line.drop_last()
        }
    } else {
        line.push(c)
    }
}

/// Whether a scan code is one that types nothing: a release or the 0xE1 prefix.
pub open spec fn is_silent_code(scan_code: u8) -> bool {
    scan_code == 0xE1 || is_release(scan_code) || scan_code == 207
}

impl Keyboard {
    /// A keyboard with no shift held and all locks off.
    pub fn new() -> (kb: Self)
        ensures
            !kb.shift_down,
            !kb.caps_lock,
            !kb.num_lock,
            !kb.scroll_lock,
    {
        Keyboard { shift_down: false, caps_lock: false, num_lock: false, scroll_lock: false }
    }

    /// Whether the controller's status byte says that a byte waits to be read.
    pub fn is_output(status: u8) -> (b: bool)
        ensures
            b == (status % 2 == 1),
    {
        let r = (status & 0x01) != 0;
        assert(((status & 0x01) != 0) == (status % 2 == 1)) by (bit_vector);
        r
    }

    /// Whether the controller's status byte says that its input buffer is full.
    pub fn is_input(status: u8) -> (b: bool)
        ensures
            b == ((status / 2) % 2 == 1),
    {
        let r = (status & 0x02) != 0;
        assert(((status & 0x02) != 0) == ((status / 2) % 2 == 1)) by (bit_vector);
        r
    }

    /// The byte that the "set LEDs" command sends for these lock states.
    pub fn led_byte(caps_lock: bool, num_lock: bool, scroll_lock: bool) -> (b: u8)
        ensures
            b == led_bits(caps_lock, num_lock, scroll_lock),
    {
        let c: u8 = if caps_lock { 1 } else { 0 };
        let n: u8 = if num_lock { 1 } else { 0 };
        let s: u8 = if scroll_lock { 1 } else { 0 };
        let b = (c << 2) | (n << 1) | s;
        assert(c <= 1 && n <= 1 && s <= 1 ==> ((c << 2) | (n << 1) | s) == 4 * c + 2 * n + s)
            by (bit_vector);
        b
    }

    /// The LED byte for the current lock states.
    pub fn leds(&self) -> (b: u8)
        ensures
            b == led_bits(self.caps_lock, self.num_lock, self.scroll_lock),
    {
        Self::led_byte(self.caps_lock, self.num_lock, self.scroll_lock)
    }

    /// Updates the shift and lock state for a scan code; returns whether the
    /// code was a shift or lock key.
    pub fn keyboard_handler(&mut self, scan_code: u8) -> (changed: bool)
        ensures
            (*final(self), changed) == handle_key(*old(self), scan_code),
    {
        let down = (scan_code & 0x80) == 0;
        let c = scan_code & 0x7F;
        assert(((scan_code & 0x80) == 0) == (scan_code < 0x80)) by (bit_vector);
        assert((scan_code & 0x7F) == scan_code % 0x80) by (bit_vector);
        let mut changed = true;
        if c == 42 || c == 54 {
            self.shift_down = down;
        } else if c == 58 {
            if down {
                self.caps_lock = !self.caps_lock;
            }
        } else if c == 69 {
            if down {
                self.num_lock = !self.num_lock;
            }
        } else if c == 70 {
            if down {
                self.scroll_lock = !self.scroll_lock;
            }
        } else {
            changed = false;
        }
        changed
    }

    /// The character that a scan code types in the current state: shifted
    /// when shift is held or caps lock is on.
    pub fn convert_ascii(&self, scan_code: u8) -> (c: char)
        ensures
            c == us_char(scan_code, self.shift_down || self.caps_lock),
    {
        let shift = self.shift_down || self.caps_lock;
        get_char(scan_code, shift)
    }

    /// One step of reading a line: applies `scan_code` to the keyboard state
    /// and to `line`, and says what the caller echoes.
    pub fn edit_line(&mut self, line: &mut Vec<char>, scan_code: u8) -> (edit: LineEdit)
        ensures
            *final(self) == handle_key(*old(self), scan_code).0,
            ({
                let kb = handle_key(*old(self), scan_code).0;
                let c = us_char(scan_code, kb.shift_down || kb.caps_lock);
                if handle_key(*old(self), scan_code).1 || is_silent_code(scan_code) {
                    edit == LineEdit::Silent && final(line)@ == old(line)@
                } else if c == '\n' {
                    edit == LineEdit::Finished && final(line)@ == old(line)@
                } else {
                    edit == LineEdit::Echo(c) && final(line)@ == edit_line(old(line)@, c)
                }
            }),
    {
        let mut prefix = scan_code == 0xE1;
        if (scan_code & 0x80) != 0 {
            prefix = true;
        }
        assert(((scan_code & 0x80) != 0) == (scan_code >= 0x80)) by (bit_vector);
        let changed = self.keyboard_handler(scan_code);
        if changed || prefix || scan_code == 207 {
            return LineEdit::Silent;
        }
        let ascii = self.convert_ascii(scan_code);
        if ascii == '\n' {
            LineEdit::Finished
        } else {
            if ascii == '\x7F' {
                if line.len() != 0 {
                    line.pop();
                }
            } else {
                line.push(ascii);
            }
            LineEdit::Echo(ascii)
        }
    }
}

/// Pressing a lock key twice (or pressing and releasing it, or releasing
/// it alone) leaves every lock as it was; the last shift press or release
/// decides whether shift is held.
pub proof fn lemma_lock_keys(kb: Keyboard, key: u8)
    requires
        key == 58 || key == 69 || key == 70,
    ensures
        handle_key(handle_key(kb, key).0, key).0 == kb,
        handle_key(kb, (key + 0x80) as u8).0 == kb,
        handle_key(handle_key(kb, key).0, (key + 0x80) as u8).0 == handle_key(kb, key).0,
        handle_key(kb, 42).0.shift_down,
        !handle_key(handle_key(kb, 42).0, 170u8).0.shift_down,
        handle_key(handle_key(kb, 42).0, 170u8).0 == (Keyboard { shift_down: false, ..kb }),
{
}

/// What each key does to the keyboard state. Either shift key (42 left,
/// 54 right) sets shift while it is held and clears it when released (the
/// release codes carry the top bit: 0xAA, 0xB6); caps lock (58), num lock
/// (69) and scroll lock (70) each flip their lock when pressed and leave it
/// when released (0xBA, 0xC5, 0xC6); all of these are reported as shift
/// or lock keys and change nothing else. Every other key changes nothing and
/// is not reported.
pub proof fn lemma_key_effects(kb: Keyboard, code: u8)
    ensures
        handle_key(kb, 42) == (Keyboard { shift_down: true, ..kb }, true),
        handle_key(kb, 54) == (Keyboard { shift_down: true, ..kb }, true),
        handle_key(kb, 0xAAu8) == (Keyboard { shift_down: false, ..kb }, true),
        handle_key(kb, 0xB6u8) == (Keyboard { shift_down: false, ..kb }, true),
        handle_key(kb, 58) == (Keyboard { caps_lock: !kb.caps_lock, ..kb }, true),
        handle_key(kb, 69) == (Keyboard { num_lock: !kb.num_lock, ..kb }, true),
        handle_key(kb, 70) == (Keyboard { scroll_lock: !kb.scroll_lock, ..kb }, true),
        handle_key(kb, 0xBAu8) == (kb, true),
        handle_key(kb, 0xC5u8) == (kb, true),
        handle_key(kb, 0xC6u8) == (kb, true),
        code % 0x80 != 42 && code % 0x80 != 54 && code % 0x80 != 58 && code % 0x80 != 69 && code
            % 0x80 != 70 ==> handle_key(kb, code) == (kb, false),
{
}

/// Typing a character other than backspace and then backspace leaves the
/// line as it was.
pub proof fn lemma_backspace_undoes(line: Seq<char>, c: char)
    requires
        c != '\x7F',
    ensures
        edit_line(edit_line(line, c), '\x7F') == line,
{
    assert(line.push(c).drop_last() =~= line);
}

} // verus!
