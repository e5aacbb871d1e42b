//! Display configuration: colour and icon themes and the terminal size that
//! the layout engine fills.

use vstd::prelude::*;
use crate::colors::{
    FG_BLACK, FG_BLUE, FG_CYAN, FG_GREEN, FG_MAGENTA, FG_RED, FG_WHITE, FG_YELLOW,
};

verus! {

/// Columns and rows assumed where the terminal cannot report its size.
pub const DEFAULT_TERMINAL_COLUMNS: usize = 80;
pub const DEFAULT_TERMINAL_ROWS: usize = 24;

#[derive(Debug, Clone, Copy, PartialEq, Eq, Structural)]
pub enum TerminalColors {
    Black,
    Red,
    Green,
    Yellow,
    Blue,
    Magenta,
    Cyan,
    White,
}

/// The foreground code of a colour.
pub open spec fn color_code(c: TerminalColors) -> Seq<char> {
    match c {
        TerminalColors::Black => FG_BLACK@,
        TerminalColors::Red => FG_RED@,
        TerminalColors::Green => FG_GREEN@,
        TerminalColors::Yellow => FG_YELLOW@,
        TerminalColors::Blue => FG_BLUE@,
        TerminalColors::Magenta => FG_MAGENTA@,
        TerminalColors::Cyan => FG_CYAN@,
        TerminalColors::White => FG_WHITE@,
    }
}

impl TerminalColors {
    /// The foreground code of this colour.
    pub fn as_str(&self) -> (r: &'static str)
        ensures
            r@ == color_code(*self),
    {
        match self {
            TerminalColors::Black => FG_BLACK,
            TerminalColors::Red => FG_RED,
            TerminalColors::Green => FG_GREEN,
            TerminalColors::Yellow => FG_YELLOW,
            TerminalColors::Blue => FG_BLUE,
            TerminalColors::Magenta => FG_MAGENTA,
            TerminalColors::Cyan => FG_CYAN,
            TerminalColors::White => FG_WHITE,
        }
    }
}

#[derive(Debug, Clone, Copy, PartialEq, Eq, Structural)]
pub struct ColorTheme {
    pub hint_color: TerminalColors,
    pub error_color: TerminalColors,
    pub success_color: TerminalColors,
    pub warning_color: TerminalColors,
}

impl ColorTheme {
    pub fn new(
        hint_color: TerminalColors,
        error_color: TerminalColors,
        success_color: TerminalColors,
        warning_color: TerminalColors,
    ) -> (r: Self)
        ensures
            r == (ColorTheme { hint_color, error_color, success_color, warning_color }),
    {
        ColorTheme { hint_color, error_color, success_color, warning_color }
    }
}

impl Default for ColorTheme {
    /// Blue hints, red errors, green successes, yellow warnings.
    fn default() -> (r: Self)
        ensures
            r == (ColorTheme {
                hint_color: TerminalColors::Blue,
                error_color: TerminalColors::Red,
                success_color: TerminalColors::Green,
                warning_color: TerminalColors::Yellow,
            }),
    {
        ColorTheme {
            hint_color: TerminalColors::Blue,
            error_color: TerminalColors::Red,
            success_color: TerminalColors::Green,
            warning_color: TerminalColors::Yellow,
        }
    }
}

#[derive(Debug, Clone)]
pub struct IconsTheme {
    pub hint_icon: String,
    pub error_icon: String,
    pub success_icon: String,
    pub warning_icon: String,
}

impl IconsTheme {
    pub fn new(
        hint_icon: String,
        error_icon: String,
        success_icon: String,
        warning_icon: String,
    ) -> (r: Self)
        ensures
            r.hint_icon == hint_icon,
            r.error_icon == error_icon,
            r.success_icon == success_icon,
            r.warning_icon == warning_icon,
    {
        IconsTheme { hint_icon, error_icon, success_icon, warning_icon }
    }

    /// An independent copy of this theme.
    pub fn duplicate(&self) -> (r: Self)
        ensures
            r == *self,
    {
        IconsTheme {
            hint_icon: self.hint_icon.clone(),
            error_icon: self.error_icon.clone(),
            success_icon: self.success_icon.clone(),
            warning_icon: self.warning_icon.clone(),
        }
    }
}

impl Default for IconsTheme {
    /// `🛈` for hints, `✗` for errors, `✓` for successes, `⚠` for warnings.
    fn default() -> (r: Self)
        ensures
            r.hint_icon@ == "🛈"@,
            r.error_icon@ == "✗"@,
            r.success_icon@ == "✓"@,
            r.warning_icon@ == "⚠"@,
    {
        IconsTheme {
            hint_icon: "🛈".to_owned(),
            error_icon: "✗".to_owned(),
            success_icon: "✓".to_owned(),
            warning_icon: "⚠".to_owned(),
        }
    }
}

#[derive(Debug)]
pub struct DisplayConfig {
    pub color_theme: ColorTheme,
    pub icons_theme: IconsTheme,
    /// Columns, then rows.
    pub terminal_size: (usize, usize),
}

impl DisplayConfig {
    pub fn new(color_theme: ColorTheme, icons_theme: IconsTheme, terminal_size: (usize, usize)) -> (r: Self)
        ensures
            r == (DisplayConfig { color_theme, icons_theme, terminal_size }),
    {
        DisplayConfig { color_theme, icons_theme, terminal_size }
    }

    /// The terminal size, columns then rows, used where the terminal itself
    /// cannot be asked: 80 by 24.
    pub fn get_terminal_size() -> (r: (usize, usize))
        ensures
            r == (DEFAULT_TERMINAL_COLUMNS, DEFAULT_TERMINAL_ROWS),
    {
        (DEFAULT_TERMINAL_COLUMNS, DEFAULT_TERMINAL_ROWS)
    }

    /// The size the terminal reported, or the default size where it reported
    /// none.
    pub fn terminal_size_or_default(reported: Option<(usize, usize)>) -> (r: (usize, usize))
        ensures
            r == match reported {
                Some(size) => size,
                None => (DEFAULT_TERMINAL_COLUMNS, DEFAULT_TERMINAL_ROWS),
            },
    {
        match reported {
            Some(size) => size,
            None => Self::get_terminal_size(),
        }
    }

    /// An independent copy of this configuration.
    pub fn duplicate(&self) -> (r: Self)
        ensures
            r == *self,
    {
        DisplayConfig {
            color_theme: self.color_theme,
            icons_theme: self.icons_theme.duplicate(),
            terminal_size: self.terminal_size,
        }
    }
}

impl Clone for DisplayConfig {
    fn clone(&self) -> (r: Self)
        ensures
            r == *self,
    {
        self.duplicate()
    }
}

impl Default for DisplayConfig {
    /// The default themes, at the default terminal size.
    fn default() -> (r: Self)
        ensures
            r.color_theme == (ColorTheme {
                hint_color: TerminalColors::Blue,
                error_color: TerminalColors::Red,
                success_color: TerminalColors::Green,
                warning_color: TerminalColors::Yellow,
            }),
            r.icons_theme.hint_icon@ == "🛈"@,
            r.icons_theme.error_icon@ == "✗"@,
            r.icons_theme.success_icon@ == "✓"@,
            r.icons_theme.warning_icon@ == "⚠"@,
            r.terminal_size == (DEFAULT_TERMINAL_COLUMNS, DEFAULT_TERMINAL_ROWS),
    {
        DisplayConfig {
            color_theme: ColorTheme::default(),
            icons_theme: IconsTheme::default(),
            terminal_size: Self::get_terminal_size(),
        }
    }
}

} // verus!
