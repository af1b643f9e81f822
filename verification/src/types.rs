use vstd::prelude::*;

verus! {

/// The sixteen VGA text-mode colours, in the order of their attribute codes
/// (Black is 0x0, White is 0xF).
#[derive(Clone, Copy, Debug, PartialEq, Eq, Structural)]
pub enum Colors {
    Black,
    Blue,
    Green,
    Cyan,
    Red,
    Magenta,
    Brown,
    Gray,
    DarkGray,
    LightBlue,
    LightGreen,
    LightCyan,
    LightRed,
    LightMagenta,
    Yellow,
    White,
}

/// The VGA attribute code of a colour.
pub open spec fn color_code(c: Colors) -> u8 {
    match c {
        Colors::Black => 0x0,
        Colors::Blue => 0x1,
        Colors::Green => 0x2,
        Colors::Cyan => 0x3,
        Colors::Red => 0x4,
        Colors::Magenta => 0x5,
        Colors::Brown => 0x6,
        Colors::Gray => 0x7,
        Colors::DarkGray => 0x8,
        Colors::LightBlue => 0x9,
        Colors::LightGreen => 0xA,
        Colors::LightCyan => 0xB,
        Colors::LightRed => 0xC,
        Colors::LightMagenta => 0xD,
        Colors::Yellow => 0xE,
        Colors::White => 0xF,
    }
}

impl Colors {
    /// The attribute byte written next to each character in the VGA buffer.
    pub fn value(self) -> (code: u8)
        ensures
            code == color_code(self),
            code < 16,
    {
        match self {
            Colors::Black => 0x0,
            Colors::Blue => 0x1,
            Colors::Green => 0x2,
            Colors::Cyan => 0x3,
            Colors::Red => 0x4,
            Colors::Magenta => 0x5,
            Colors::Brown => 0x6,
            Colors::Gray => 0x7,
            Colors::DarkGray => 0x8,
            Colors::LightBlue => 0x9,
            Colors::LightGreen => 0xA,
            Colors::LightCyan => 0xB,
            Colors::LightRed => 0xC,
            Colors::LightMagenta => 0xD,
            Colors::Yellow => 0xE,
            Colors::White => 0xF,
        }
    }
}

/// Distinct colours have distinct attribute codes.
pub proof fn lemma_color_code_injective(a: Colors, b: Colors)
    ensures
        color_code(a) == color_code(b) <==> a == b,
{
}

} // verus!
