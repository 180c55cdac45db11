//! Colors by name: the terminal backend's reading of a color's name, and the
//! name it shows for a color.
use vstd::prelude::*;

use crate::decimal::decimal;
use crate::style::Color;
use crate::style::Color::{
    Black, Blue, Cyan, DarkGray, Gray, Green, Indexed, LightBlue, LightCyan, LightGreen, LightMagenta, LightRed,
    LightYellow, Magenta, Red, Reset, Rgb, White, Yellow,
};
use ratatui::style::Color as R;

verus! {

/// The upper case hexadecimal digit of `d` (below 16).
pub open spec fn hex_digit(d: nat) -> char {
    seq!['0', '1', '2', '3', '4', '5', '6', '7', '8', '9', 'A', 'B', 'C', 'D', 'E', 'F'][d as int]
}

/// A byte as two upper case hexadecimal digits.
pub open spec fn hex_byte(b: u8) -> Seq<char> {
    seq![hex_digit((b / 16) as nat), hex_digit((b % 16) as nat)]
}

/// The name that the terminal backend shows for a color: the name of a
/// named color, `#RRGGBB` in upper case hexadecimal for a true color, and
/// the decimal index of an indexed one.
pub open spec fn color_display(c: Color) -> Seq<char> {
    match c {
        Color::Reset => "Reset"@,
        Color::Black => "Black"@,
        Color::Red => "Red"@,
        Color::Green => "Green"@,
        Color::Yellow => "Yellow"@,
        Color::Blue => "Blue"@,
        Color::Magenta => "Magenta"@,
        Color::Cyan => "Cyan"@,
        Color::Gray => "Gray"@,
        Color::DarkGray => "DarkGray"@,
        Color::LightRed => "LightRed"@,
        Color::LightGreen => "LightGreen"@,
        Color::LightYellow => "LightYellow"@,
        Color::LightBlue => "LightBlue"@,
        Color::LightMagenta => "LightMagenta"@,
        Color::LightCyan => "LightCyan"@,
        Color::White => "White"@,
        Color::Rgb(r, g, b) => seq!['#'] + hex_byte(r) + hex_byte(g) + hex_byte(b),
        Color::Indexed(i) => decimal(i as nat),
    }
}

/// The color that ratatui's `Color::from_str` reads in `text`, if it reads
/// one.
pub uninterp spec fn parsed_color(text: Seq<char>) -> Option<Color>;

/// ratatui's `Color::from_str`: the color that `text` names (a color's name,
/// in any case and with spaces, dashes or underscores, a few other spellings,
/// a number below 256 or `#RRGGBB`), or `None`. What it reads is named
/// `parsed_color`. Its source reads back each name that `color_text` shows:
/// the name of a named color in lower case, a decimal index, or a `#`
/// and six hexadecimal digits.
#[verifier::external_body]
pub fn parse_color_text(text: &str) -> (r: Option<Color>)
    ensures
        r == parsed_color(text@),
        forall|c: Color| text@ == color_display(c) ==> r == Some(c),
{
    match text.parse::<R>() {
        Ok(c) => Some(match c {
            R::Reset => Reset, R::Black => Black, R::Red => Red, R::Green => Green, R::Yellow => Yellow,
            R::Blue => Blue, R::Magenta => Magenta, R::Cyan => Cyan, R::Gray => Gray, R::DarkGray => DarkGray,
            R::LightRed => LightRed, R::LightGreen => LightGreen, R::LightYellow => LightYellow,
            R::LightBlue => LightBlue, R::LightMagenta => LightMagenta, R::LightCyan => LightCyan,
            R::White => White, R::Rgb(r, g, b) => Rgb(r, g, b), R::Indexed(i) => Indexed(i),
        }),
        Err(_) => None,
    }
}

/// ratatui's `Display` of a color, as its source writes it: the names,
/// `#RRGGBB` with `{:02X}` and the index with `{}`.
#[verifier::external_body]
pub fn color_text(c: Color) -> (r: String)
    ensures
        r@ == color_display(c),
{
    (match c {
        Reset => R::Reset, Black => R::Black, Red => R::Red, Green => R::Green, Yellow => R::Yellow,
        Blue => R::Blue, Magenta => R::Magenta, Cyan => R::Cyan, Gray => R::Gray, DarkGray => R::DarkGray,
        LightRed => R::LightRed, LightGreen => R::LightGreen, LightYellow => R::LightYellow,
        LightBlue => R::LightBlue, LightMagenta => R::LightMagenta, LightCyan => R::LightCyan,
        White => R::White, Rgb(r, g, b) => R::Rgb(r, g, b), Indexed(i) => R::Indexed(i),
    }).to_string()
}

} // verus!
