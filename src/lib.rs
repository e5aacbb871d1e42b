//! Pretty terminal printers: inline style tags expanded into ANSI escape
//! sequences, and a tree/table layout engine that pads and wraps text by its
//! visual width.

pub mod colors;
pub mod common_types;
pub mod logger;
pub mod stylish;
pub mod text;
pub mod theme_config;
pub mod tree_printer;
pub mod width;

pub use colors::{
    BG_BLACK, BG_BLUE, BG_CYAN, BG_GREEN, BG_MAGENTA, BG_RED, BG_WHITE, BG_YELLOW, FG_BLACK,
    FG_BLUE, FG_CYAN, FG_GREEN, FG_MAGENTA, FG_RED, FG_WHITE, FG_YELLOW, RESET_COLOR,
    STYLE_BLINKING, STYLE_BOLD, STYLE_CROSSED_OUT, STYLE_FADED, STYLE_ITALIC, STYLE_UNDERLINE,
};
pub use common_types::Status;
pub use logger::{join_log_lines, Component, Log, LogTime, Logger, LoggerPrintStyle};
pub use stylish::{code_for_lowercase, get_style_code, process_style_tags};
pub use theme_config::{ColorTheme, DisplayConfig, IconsTheme, TerminalColors};
pub use tree_printer::{wrap_segments, Branch, BranchStyle};
pub use width::visual_len;
