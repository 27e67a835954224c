//! ANSI graphics escape sequences: the codes, their composition into a
//! sequence, and the rendering of a sequence as `ESC [ ... m` text.
//!
//! [`display`] renders into a buffer of the caller and allocates nothing;
//! the `to_string` and `debug` methods return owned strings. What the
//! text is, for every sequence, is defined in [`text`], and [`laws`] holds
//! what follows from it.
pub mod code;
pub mod codes;
pub mod compose;
pub mod laws;
pub mod print;
pub mod render;
pub mod text;

pub use crate::code::Code;
pub use crate::codes::{
    BOLD, DIM, ITALIC, UNDERLINE, BLINK, INVERSE, HIDDEN, STRIKE, RESET, RESET_WEIGHT,
    RESET_ITALIC, RESET_UNDERLINE, RESET_BLINK, RESET_INVERSE, RESET_HIDDEN, RESET_STRIKE,
    BLACK, RED, GREEN, YELLOW, BLUE, MAGENTA, CYAN, WHITE, DEFAULT, BLACK_BG, RED_BG, GREEN_BG,
    YELLOW_BG, BLUE_BG, MAGENTA_BG, CYAN_BG, WHITE_BG, DEFAULT_BG, BRIGHT_BLACK, BRIGHT_RED,
    BRIGHT_GREEN, BRIGHT_YELLOW, BRIGHT_BLUE, BRIGHT_MAGENTA, BRIGHT_CYAN, BRIGHT_WHITE,
    BRIGHT_BLACK_BG, BRIGHT_RED_BG, BRIGHT_GREEN_BG, BRIGHT_YELLOW_BG, BRIGHT_BLUE_BG,
    BRIGHT_MAGENTA_BG, BRIGHT_CYAN_BG, BRIGHT_WHITE_BG, FG, BG, PAL, RGB
};
pub use crate::compose::{mode, CodeBuf, Ground, Item};
pub use crate::print::{AsCodes, Print, TEXT_CAPACITY};
pub use crate::render::{debug, display, display_code};
