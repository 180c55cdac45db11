//! Colors and text styles, as plain values that a terminal backend can take.
use vstd::prelude::*;

verus! {

/// A terminal color; the same choices as the terminal backend's color type.
#[derive(Debug, Clone, Copy, PartialEq, Eq, Structural)]
pub enum Color {
    Reset,
    Black,
    Red,
    Green,
    Yellow,
    Blue,
    Magenta,
    Cyan,
    Gray,
    DarkGray,
    LightRed,
    LightGreen,
    LightYellow,
    LightBlue,
    LightMagenta,
    LightCyan,
    White,
    Rgb(u8, u8, u8),
    Indexed(u8),
}

/// Which text modifiers are switched on.
#[derive(Debug, Clone, Copy, PartialEq, Eq, Structural)]
pub struct Modifier {
    pub bold: bool,
    pub dim: bool,
    pub italic: bool,
    pub underlined: bool,
    pub slow_blink: bool,
    pub rapid_blink: bool,
    pub reversed: bool,
    pub hidden: bool,
    pub crossed_out: bool,
}

impl Modifier {
    pub open spec fn spec_empty() -> Modifier {
        Modifier {
            bold: false,
            dim: false,
            italic: false,
            underlined: false,
            slow_blink: false,
            rapid_blink: false,
            reversed: false,
            hidden: false,
            crossed_out: false,
        }
    }

    /// No modifier switched on.
    pub fn empty() -> (m: Modifier)
        ensures
            m == Modifier::spec_empty(),
    {
        Modifier {
            bold: false,
            dim: false,
            italic: false,
            underlined: false,
            slow_blink: false,
            rapid_blink: false,
            reversed: false,
            hidden: false,
            crossed_out: false,
        }
    }
}

/// A text style: foreground and background colors, where set, and modifiers.
#[derive(Debug, Clone, Copy, PartialEq, Eq, Structural)]
pub struct Style {
    pub fg: Option<Color>,
    pub bg: Option<Color>,
    pub add_modifier: Modifier,
}

impl Style {
    pub open spec fn spec_new() -> Style {
        Style { fg: None, bg: None, add_modifier: Modifier::spec_empty() }
    }

    /// The style with no color and no modifier.
    pub fn new() -> (s: Style)
        ensures
            s == Style::spec_new(),
    {
        Style { fg: None, bg: None, add_modifier: Modifier::empty() }
    }

    /// This style with the foreground color set.
    pub fn fg(self, color: Color) -> (s: Style)
        ensures
            s == (Style { fg: Some(color), ..self }),
    {
        Style { fg: Some(color), ..self }
    }

    /// This style with the reversed modifier switched on.
    pub fn reversed(self) -> (s: Style)
        ensures
            s == (Style { add_modifier: Modifier { reversed: true, ..self.add_modifier }, ..self }),
    {
        Style { add_modifier: Modifier { reversed: true, ..self.add_modifier }, ..self }
    }
}

} // verus!
