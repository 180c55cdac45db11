//! The user's settings: how well cards should be remembered, and the colors.
use vstd::prelude::*;

use crate::markup::SyntaxHighlightTheme;
use crate::scroll::ScrollbarColors;
use crate::style::Color;

verus! {

/// General settings.
#[derive(Debug, Clone, Copy, PartialEq, Eq, Structural)]
pub struct General {
    pub desired_retention: u8,
}

/// Whether the terminal has a dark or a light background.
#[derive(Debug, Clone, Copy, PartialEq, Eq, Structural)]
pub enum ThemeMode {
    Dark,
    Light,
}

/// The colors of the interface.
#[derive(Debug, Clone, Copy, PartialEq, Eq, Structural)]
pub struct Colors {
    pub primary: Color,
    pub secondary: Color,
    pub neutral: Color,
}

/// The colors of a text input or editor.
#[derive(Debug, Clone, Copy, PartialEq, Eq, Structural)]
pub struct InputColors {
    pub normal: Color,
    pub cursor: Color,
    pub selector: Color,
    pub placeholder: Color,
    pub disabled: Color,
}

/// The colors that go with a theme.
pub open spec fn theme_colors(theme: ThemeMode) -> Colors {
    match theme {
        ThemeMode::Dark => Colors {
            primary: Color::LightYellow,
            secondary: Color::Yellow,
            neutral: Color::Indexed(245),
        },
        ThemeMode::Light => Colors {
            primary: Color::LightCyan,
            secondary: Color::Cyan,
            neutral: Color::Indexed(245),
        },
    }
}

impl Colors {
    pub fn from_theme(theme: ThemeMode) -> (c: Self)
        ensures
            c == theme_colors(theme),
    {
        let neutral = Color::Indexed(245);
        match theme {
            ThemeMode::Dark => Colors { primary: Color::LightYellow, secondary: Color::Yellow, neutral },
            ThemeMode::Light => Colors { primary: Color::LightCyan, secondary: Color::Cyan, neutral },
        }
    }

    /// The colors of a text input.
    pub fn text_input(&self) -> (c: InputColors)
        ensures
            c == (InputColors {
                normal: Color::Reset,
                cursor: self.secondary,
                selector: self.neutral,
                placeholder: self.neutral,
                disabled: self.neutral,
            }),
    {
        InputColors {
            normal: Color::Reset,
            cursor: self.secondary,
            selector: self.neutral,
            placeholder: self.neutral,
            disabled: self.neutral,
        }
    }

    /// The colors of a text editor.
    pub fn text_editor(&self) -> (c: InputColors)
        ensures
            c == (InputColors {
                normal: Color::Reset,
                cursor: self.secondary,
                selector: self.neutral,
                placeholder: self.neutral,
                disabled: self.neutral,
            }),
    {
        self.text_input()
    }

    /// The colors of a scrollbar.
    pub fn scrollbar(&self) -> (c: ScrollbarColors)
        ensures
            c == (ScrollbarColors { thumb: self.neutral, track: None }),
    {
        ScrollbarColors { thumb: self.neutral, track: None }
    }
}

/// The settings, as the file keeps them, and the theme found at start.
#[derive(Debug, Clone, Copy, PartialEq, Eq, Structural)]
pub struct Settings {
    pub general: General,
    pub colors: Colors,
    pub theme: ThemeMode,
}

/// The retention that a requested percentage is kept as: at most 100.
pub open spec fn clamped_retention(percent: u8) -> u8 {
    if percent > 100 {
        100
    } else {
        percent
    }
}

impl Settings {
    /// The settings to start from for a theme: a retention of 80 percent and
    /// the theme's colors.
    pub fn with_theme(theme: ThemeMode) -> (s: Self)
        ensures
            s == (Settings { general: General { desired_retention: 80 }, colors: theme_colors(theme), theme }),
    {
        Settings { general: General { desired_retention: 80 }, colors: Colors::from_theme(theme), theme }
    }

    pub fn desired_retention(&self) -> (p: u8)
        ensures
            p == self.general.desired_retention,
    {
        self.general.desired_retention
    }

    /// Keeps the desired retention, at most 100 percent.
    pub fn set_desired_retention(&mut self, percent: u8)
        ensures
            *final(self) == (Settings {
                general: General { desired_retention: clamped_retention(percent) },
                ..*old(self)
            }),
    {
        self.general.desired_retention = if percent > 100 {
            100
        } else {
            percent
        };
    }

    pub fn colors(&self) -> (c: &Colors)
        ensures
            *c == self.colors,
    {
        &self.colors
    }

    pub fn primary(&self) -> (c: Color)
        ensures
            c == self.colors.primary,
    {
        self.colors.primary
    }

    pub fn secondary(&self) -> (c: Color)
        ensures
            c == self.colors.secondary,
    {
        self.colors.secondary
    }

    pub fn neutral(&self) -> (c: Color)
        ensures
            c == self.colors.neutral,
    {
        self.colors.neutral
    }

    /// The code highlighting theme for the terminal's background.
    pub fn syntax_highlight_theme(&self) -> (t: SyntaxHighlightTheme)
        ensures
            t == match self.theme {
                ThemeMode::Dark => SyntaxHighlightTheme::Base16EightiesDark,
                ThemeMode::Light => SyntaxHighlightTheme::InspiredGitHub,
            },
    {
        match self.theme {
            ThemeMode::Dark => SyntaxHighlightTheme::Base16EightiesDark,
            ThemeMode::Light => SyntaxHighlightTheme::InspiredGitHub,
        }
    }

    pub fn set_primary(&mut self, color: Color)
        ensures
            *final(self) == (Settings { colors: Colors { primary: color, ..old(self).colors }, ..*old(self) }),
    {
        self.colors.primary = color;
    }

    pub fn set_secondary(&mut self, color: Color)
        ensures
            *final(self) == (Settings { colors: Colors { secondary: color, ..old(self).colors }, ..*old(self) }),
    {
        self.colors.secondary = color;
    }

    pub fn set_neutral(&mut self, color: Color)
        ensures
            *final(self) == (Settings { colors: Colors { neutral: color, ..old(self).colors }, ..*old(self) }),
    {
        self.colors.neutral = color;
    }
}

/// Whatever percentage is asked for, the retention kept is a percentage, and
/// one that is already a percentage is kept as it is.
pub proof fn law_retention_is_percentage(percent: u8)
    ensures
        clamped_retention(percent) <= 100,
        percent <= 100 ==> clamped_retention(percent) == percent,
        clamped_retention(clamped_retention(percent)) == clamped_retention(percent),
{
}

} // verus!
