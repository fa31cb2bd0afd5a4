//! Terminal colours.

use vstd::prelude::*;
use crate::text::{decimal, push_char, push_decimal};

verus! {

/// A foreground or background colour of the terminal.
#[derive(Clone, Copy, PartialEq, Eq, Structural, Debug)]
pub enum Color {
    Black,
    Red,
    Green,
    Yellow,
    Blue,
    Magenta,
    Cyan,
    White,
    Default,
    BlackBG,
    RedBG,
    GreenBG,
    YellowBG,
    BlueBG,
    MagentaBG,
    CyanBG,
    WhiteBG,
    DefaultBG,
}

impl Color {
    /// The number that selects this colour in a "select graphic rendition"
    /// escape sequence.
    pub open spec fn spec_code(self) -> u8 {
        match self {
            Color::Black => 30,
            Color::Red => 31,
            Color::Green => 32,
            Color::Yellow => 33,
            Color::Blue => 34,
            Color::Magenta => 35,
            Color::Cyan => 36,
            Color::White => 37,
            Color::Default => 39,
            Color::BlackBG => 40,
            Color::RedBG => 41,
            Color::GreenBG => 42,
            Color::YellowBG => 43,
            Color::BlueBG => 44,
            Color::MagentaBG => 45,
            Color::CyanBG => 46,
            Color::WhiteBG => 47,
            Color::DefaultBG => 49,
        }
    }

    /// The number that selects this colour in an escape sequence.
    #[verifier::when_used_as_spec(spec_code)]
    pub fn code(self) -> (r: u8)
        ensures
            r == self.spec_code(),
    {
        match self {
            Color::Black => 30,
            Color::Red => 31,
            Color::Green => 32,
            Color::Yellow => 33,
            Color::Blue => 34,
            Color::Magenta => 35,
            Color::Cyan => 36,
            Color::White => 37,
            Color::Default => 39,
            Color::BlackBG => 40,
            Color::RedBG => 41,
            Color::GreenBG => 42,
            Color::YellowBG => 43,
            Color::BlueBG => 44,
            Color::MagentaBG => 45,
            Color::CyanBG => 46,
            Color::WhiteBG => 47,
            Color::DefaultBG => 49,
        }
    }

    /// The escape sequence that switches the terminal to this colour:
    /// `ESC [`, the code in decimal, `m`.
    pub open spec fn escape(self) -> Seq<char> {
        seq!['\x1b', '['] + decimal(self.spec_code() as nat) + seq!['m']
    }

    /// Appends the colour's escape sequence to `buf`.
    pub fn write_to(self, buf: &mut String)
        ensures
            final(buf)@ == old(buf)@ + self.escape(),
    {
        push_char(buf, '\x1b');
        push_char(buf, '[');
        push_decimal(buf, self.code() as usize);
        push_char(buf, 'm');
        assert(final(buf)@ =~= old(buf)@ + self.escape());
    }

    /// The colour's escape sequence as a string.
    pub fn to_string(&self) -> (s: String)
        ensures
            s@ == self.escape(),
    {
        let mut s = String::new();
        self.write_to(&mut s);
        assert(s@ =~= self.escape());
        s
    }
}

} // verus!
