//! The SGR escape strings for colours and text styles.

use vstd::prelude::*;

verus! {

/// Foreground colours.
pub const FG_BLACK: &'static str = "\x1b[30m";
pub const FG_RED: &'static str = "\x1b[31m";
pub const FG_GREEN: &'static str = "\x1b[32m";
pub const FG_YELLOW: &'static str = "\x1b[33m";
pub const FG_BLUE: &'static str = "\x1b[34m";
pub const FG_MAGENTA: &'static str = "\x1b[35m";
pub const FG_CYAN: &'static str = "\x1b[36m";
pub const FG_WHITE: &'static str = "\x1b[37m";

/// Background colours.
pub const BG_BLACK: &'static str = "\x1b[40m";
pub const BG_RED: &'static str = "\x1b[41m";
pub const BG_GREEN: &'static str = "\x1b[42m";
pub const BG_YELLOW: &'static str = "\x1b[43m";
pub const BG_BLUE: &'static str = "\x1b[44m";
pub const BG_MAGENTA: &'static str = "\x1b[45m";
pub const BG_CYAN: &'static str = "\x1b[46m";
pub const BG_WHITE: &'static str = "\x1b[47m";

/// Text styles.
pub const STYLE_BOLD: &'static str = "\x1b[1m";
pub const STYLE_FADED: &'static str = "\x1b[2m";
pub const STYLE_ITALIC: &'static str = "\x1b[3m";
pub const STYLE_UNDERLINE: &'static str = "\x1b[4m";
pub const STYLE_BLINKING: &'static str = "\x1b[5m";
pub const STYLE_CROSSED_OUT: &'static str = "\x1b[9m";

/// Resets every colour and style.
pub const RESET_COLOR: &'static str = "\x1b[0m";

} // verus!
