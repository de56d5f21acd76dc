//! The 16-colour palette of the text mode and the packed attribute byte:
//! background nibble in the high half, foreground nibble in the low half.

use vstd::prelude::*;

verus! {

/// The closed 16-entry palette. Every combination of a foreground and a
/// background drawn from it packs into a valid attribute byte.
#[derive(Debug, Clone, Copy, PartialEq, Eq, Structural)]
pub enum Color {
    Black,
    Blue,
    Green,
    Cyan,
    Red,
    Magenta,
    Brown,
    LightGray,
    DarkGray,
    LightBlue,
    LightGreen,
    LightCyan,
    LightRed,
    Pink,
    Yellow,
    White,
}

/// The 4-bit selector that the hardware assigns to each palette entry.
pub open spec fn color_number(c: Color) -> u8 {
    match c {
        Color::Black => 0,
        Color::Blue => 1,
        Color::Green => 2,
        Color::Cyan => 3,
        Color::Red => 4,
        Color::Magenta => 5,
        Color::Brown => 6,
        Color::LightGray => 7,
        Color::DarkGray => 8,
        Color::LightBlue => 9,
        Color::LightGreen => 10,
        Color::LightCyan => 11,
        Color::LightRed => 12,
        Color::Pink => 13,
        Color::Yellow => 14,
        Color::White => 15,
    }
}

pub proof fn lemma_color_number_fits(c: Color)
    ensures
        color_number(c) <= 15,
{
}

impl Color {
    /// The palette index as the hardware sees it.
    pub fn number(self) -> (n: u8)
        ensures
            n == color_number(self),
    {
        match self {
            Color::Black => 0,
            Color::Blue => 1,
            Color::Green => 2,
            Color::Cyan => 3,
            Color::Red => 4,
            Color::Magenta => 5,
            Color::Brown => 6,
            Color::LightGray => 7,
            Color::DarkGray => 8,
            Color::LightBlue => 9,
            Color::LightGreen => 10,
            Color::LightCyan => 11,
            Color::LightRed => 12,
            Color::Pink => 13,
            Color::Yellow => 14,
            Color::White => 15,
        }
    }
}

/// One attribute byte: `background * 16 + foreground`.
#[derive(Debug, Clone, Copy, PartialEq, Eq, Structural)]
pub struct ColorCode {
    code: u8,
}

impl ColorCode {
    /// The packed byte itself, for contracts.
    pub closed spec fn spec_value(self) -> u8 {
        self.code
    }

    /// Packs a foreground/background pair into one attribute byte,
    /// background in the high nibble.
    pub fn new(foreground: Color, background: Color) -> (cc: ColorCode)
        ensures
            cc.spec_value() == color_number(background) * 16 + color_number(foreground),
    {
        proof {
            lemma_color_number_fits(foreground);
            lemma_color_number_fits(background);
        }
        ColorCode { code: background.number() * 16 + foreground.number() }
    }

    /// The packed byte itself.
    pub fn value(self) -> (v: u8)
        ensures
            v == self.spec_value(),
    {
        self.code
    }
}

} // verus!
