use vstd::prelude::*;
use vstd::string::StringSliceAdditionalSpecFns;

verus! {

/// I/O port of the PS/2 controller's data register.
pub const KB_DATA: u16 = 0x60;
/// I/O port of the PS/2 controller's status register.
pub const KB_STATUS: u16 = 0x64;

/// A source of key presses for the shell.
pub trait KeyboardDriver {
    /// Returns the next printable ASCII byte if a key was just pressed, `None`
    /// if nothing is available yet.
    fn poll(&self) -> Option<u8>;
}

/// Scancode set 1, US QWERTY, without shift: the ASCII byte of each make code
/// below 0x3A, 0 where the key gives none.
pub open spec fn normal_map() -> Seq<u8> {
    seq![
        0, 27, 49, 50, 51, 52, 53, 54,           // 0x00: none Esc 1 2 3 4 5 6
        55, 56, 57, 48, 45, 61, 8, 9,            // 0x08: 7 8 9 0 - = Backspace Tab
        113, 119, 101, 114, 116, 121, 117, 105,  // 0x10: q w e r t y u i
        111, 112, 91, 93, 10, 0, 97, 115,        // 0x18: o p [ ] Enter none a s
        100, 102, 103, 104, 106, 107, 108, 59,   // 0x20: d f g h j k l ;
        39, 96, 0, 92, 122, 120, 99, 118,        // 0x28: ' ` none \ z x c v
        98, 110, 109, 44, 46, 47, 0, 42,         // 0x30: b n m , . / none *
        0, 32,                                   // 0x38: none Space
    ]
}

/// Scancode set 1, US QWERTY, with shift held.
pub open spec fn shift_map() -> Seq<u8> {
    seq![
        0, 27, 33, 64, 35, 36, 37, 94,           // 0x00: none Esc ! @ # $ % ^
        38, 42, 40, 41, 95, 43, 8, 9,            // 0x08: & * ( ) _ + Backspace Tab
        81, 87, 69, 82, 84, 89, 85, 73,          // 0x10: Q W E R T Y U I
        79, 80, 123, 125, 10, 0, 65, 83,         // 0x18: O P { } Enter none A S
        68, 70, 71, 72, 74, 75, 76, 58,          // 0x20: D F G H J K L :
        34, 126, 0, 124, 90, 88, 67, 86,         // 0x28: " ~ none | Z X C V
        66, 78, 77, 60, 62, 63, 0, 42,           // 0x30: B N M < > ? none *
        0, 32,                                   // 0x38: none Space
    ]
}

/// Make codes of the left and right shift keys.
pub open spec fn is_shift_press(sc: u8) -> bool {
    sc == 0x2A || sc == 0x36
}

/// Break codes of the left and right shift keys.
pub open spec fn is_shift_release(sc: u8) -> bool {
    sc == 0xAA || sc == 0xB6
}

/// Make and break codes of the left alt key.
pub open spec fn is_alt(sc: u8) -> bool {
    sc == 0x38 || sc == 0xB8
}

/// What one scancode does: the shift state after it and the character it
/// produces. Shift press and release set and clear the state; alt, any other
/// break code (bit 7 set) and any make code past the table produce nothing;
/// any other make code produces its table entry for the current shift state,
/// unless that entry is 0.
pub open spec fn decode(shift: bool, sc: u8) -> (bool, Option<u8>) {
    if is_shift_press(sc) {
        (true, None)
    } else if is_shift_release(sc) {
        (false, None)
    } else if is_alt(sc) || sc >= 0x80 || sc >= 58 {
        (shift, None)
    } else {
        let c = if shift {
            shift_map()[sc as int]
        } else {
            normal_map()[sc as int]
        };
        (shift, if c != 0 { Some(c) } else { None })
    }
}

/// The PS/2 keyboard's decoder: whether a shift key is held.
#[derive(Clone, Copy, Debug)]
pub struct Ps2Keyboard {
    shift: bool,
}

impl Ps2Keyboard {
    /// Whether a shift key is held.
    pub closed spec fn shift_held(self) -> bool {
        self.shift
    }

    /// A decoder with no shift key held.
    pub fn new() -> (k: Ps2Keyboard)
        ensures
            !k.shift_held(),
    {
        Ps2Keyboard { shift: false }
    }

    /// Whether a shift key is held.
    pub fn shift(&self) -> (held: bool)
        ensures
            held == self.shift_held(),
    {
        self.shift
    }

    /// Takes one scancode read from the data port: updates the shift state
    /// and returns the character the key gives, if any (see `decode`).
    pub fn handle_scancode(&mut self, sc: u8) -> (c: Option<u8>)
        ensures
            (final(self).shift_held(), c) == decode(old(self).shift_held(), sc),
    {
        if sc == 0x2A || sc == 0x36 {
            self.shift = true;
            return None;
        }
        if sc == 0xAA || sc == 0xB6 {
            self.shift = false;
            return None;
        }
        if sc == 0x38 || sc == 0xB8 {
            return None;
        }
        let released = sc & 0x80 != 0;
        assert(released == (sc >= 0x80)) by (bit_vector)
            requires
                released == (sc & 0x80 != 0),
        ;
        if released {
            return None;
        }
        let idx = sc as usize;
        if idx >= 58 {
            return None;
        }
        let c = if self.shift {
            shift_key(idx)
        } else {
            normal_key(idx)
        };
        if c != 0 {
            Some(c)
        } else {
            None
        }
    }
}

/// The unshifted table entry of make code `idx`.
fn normal_key(idx: usize) -> (c: u8)
    requires
        idx < 58,
    ensures
        c == normal_map()[idx as int],
{
    let table: [u8; 58] = [
        0, 27, 49, 50, 51, 52, 53, 54,
        55, 56, 57, 48, 45, 61, 8, 9,
        113, 119, 101, 114, 116, 121, 117, 105,
        111, 112, 91, 93, 10, 0, 97, 115,
        100, 102, 103, 104, 106, 107, 108, 59,
        39, 96, 0, 92, 122, 120, 99, 118,
        98, 110, 109, 44, 46, 47, 0, 42,
        0, 32,
    ];
    assert(table@ =~= normal_map());
    table[idx]
}

/// The shifted table entry of make code `idx`.
fn shift_key(idx: usize) -> (c: u8)
    requires
        idx < 58,
    ensures
        c == shift_map()[idx as int],
{
    let table: [u8; 58] = [
        0, 27, 33, 64, 35, 36, 37, 94,
        38, 42, 40, 41, 95, 43, 8, 9,
        81, 87, 69, 82, 84, 89, 85, 73,
        79, 80, 123, 125, 10, 0, 65, 83,
        68, 70, 71, 72, 74, 75, 76, 58,
        34, 126, 0, 124, 90, 88, 67, 86,
        66, 78, 77, 60, 62, 63, 0, 42,
        0, 32,
    ];
    assert(table@ =~= shift_map());
    table[idx]
}

/// Whether the status byte says the output buffer holds a scancode (bit 0).
pub fn output_buffer_full(status: u8) -> (full: bool)
    ensures
        full == (status % 2 == 1),
{
    let full = status & 0x01 != 0;
    assert(full == (status % 2 == 1)) by (bit_vector)
        requires
            full == (status & 0x01 != 0),
    ;
    full
}

/// With shift held, every letter key gives the upper-case form of the letter
/// it gives without shift.
pub proof fn lemma_shift_gives_upper_case(sc: u8)
    requires
        sc < 58,
        97 <= normal_map()[sc as int] <= 122,
    ensures
        shift_map()[sc as int] == normal_map()[sc as int] - 32,
        decode(true, sc).1 == Some((normal_map()[sc as int] - 32) as u8),
        decode(false, sc).1 == Some(normal_map()[sc as int]),
{
    assert(normal_map()[sc as int] != 0);
}

/// Every character the decoder produces is printable ASCII or one of
/// backspace, tab, newline and escape; it is never NUL.
pub proof fn lemma_decoded_characters(shift: bool, sc: u8)
    ensures
        decode(shift, sc).1 matches Some(c) ==> (32 <= c < 127 || c == 8 || c == 9 || c == 10 || c == 27),
{
    if sc < 58 && !is_shift_press(sc) && !is_alt(sc) {
        assert(forall|i: int| 0 <= i < 58 ==> {
            let c = #[trigger] normal_map()[i];
            c == 0 || 32 <= c < 127 || c == 8 || c == 9 || c == 10 || c == 27
        });
        assert(forall|i: int| 0 <= i < 58 ==> {
            let c = #[trigger] shift_map()[i];
            c == 0 || 32 <= c < 127 || c == 8 || c == 9 || c == 10 || c == 27
        });
    }
}

/// A break code (bit 7 set) never produces a character; only the shift keys'
/// break codes change the shift state, and they clear it.
pub proof fn lemma_break_codes(shift: bool, sc: u8)
    requires
        sc >= 0x80,
    ensures
        decode(shift, sc).1 is None,
        decode(shift, sc).0 == (if is_shift_release(sc) { false } else { shift }),
{
}

/// A make code other than the shift keys leaves the shift state as it is; a
/// shift press sets it and a shift release clears it, whatever it was.
pub proof fn lemma_shift_state(shift: bool, sc: u8)
    ensures
        is_shift_press(sc) ==> decode(shift, sc).0,
        is_shift_release(sc) ==> !decode(shift, sc).0,
        !is_shift_press(sc) && !is_shift_release(sc) ==> decode(shift, sc).0 == shift,
{
}

/// Consecutive make codes from `start` produce, for the shift state
/// `shift`, the characters of `row` in order.
pub open spec fn row_decodes(shift: bool, start: int, row: Seq<u8>) -> bool {
    forall|k: int| 0 <= k < row.len() ==> #[trigger] decode(shift, (start + k) as u8).1 == Some(row[k])
}

/// The keyboard is US QWERTY: each row of keys, left to right, gives the
/// characters printed on it, without and with shift; Escape, Backspace, Tab,
/// Enter, keypad `*` and Space give their characters; Control and a missing
/// code give nothing.
pub proof fn lemma_us_qwerty_layout()
    ensures
        row_decodes(false, 0x02, "1234567890-=".spec_bytes()),
        row_decodes(true, 0x02, "!@#$%^&*()_+".spec_bytes()),
        row_decodes(false, 0x10, "qwertyuiop[]".spec_bytes()),
        row_decodes(true, 0x10, "QWERTYUIOP{}".spec_bytes()),
        row_decodes(false, 0x1E, "asdfghjkl;'`".spec_bytes()),
        row_decodes(true, 0x1E, "ASDFGHJKL:\"~".spec_bytes()),
        row_decodes(false, 0x2B, "\\zxcvbnm,./".spec_bytes()),
        row_decodes(true, 0x2B, "|ZXCVBNM<>?".spec_bytes()),
        forall|shift: bool|
            {
                &&& #[trigger] decode(shift, 0x01).1 == Some(27u8)
                &&& decode(shift, 0x0E).1 == Some(8u8)
                &&& decode(shift, 0x0F).1 == Some(9u8)
                &&& decode(shift, 0x1C).1 == Some(10u8)
                &&& decode(shift, 0x37).1 == Some(42u8)
                &&& decode(shift, 0x39).1 == Some(32u8)
                &&& decode(shift, 0x00).1 is None
                &&& decode(shift, 0x1D).1 is None
            },
{
    reveal_strlit("1234567890-=");
    reveal_strlit("!@#$%^&*()_+");
    reveal_strlit("qwertyuiop[]");
    reveal_strlit("QWERTYUIOP{}");
    reveal_strlit("asdfghjkl;'`");
    reveal_strlit("ASDFGHJKL:\"~");
    reveal_strlit("\\zxcvbnm,./");
    reveal_strlit("|ZXCVBNM<>?");
    vstd::string::is_ascii_spec_bytes("1234567890-=");
    vstd::string::is_ascii_spec_bytes("!@#$%^&*()_+");
    vstd::string::is_ascii_spec_bytes("qwertyuiop[]");
    vstd::string::is_ascii_spec_bytes("QWERTYUIOP{}");
    vstd::string::is_ascii_spec_bytes("asdfghjkl;'`");
    vstd::string::is_ascii_spec_bytes("ASDFGHJKL:\"~");
    vstd::string::is_ascii_spec_bytes("\\zxcvbnm,./");
    vstd::string::is_ascii_spec_bytes("|ZXCVBNM<>?");
}

} // verus!
