//! The catalog of graphics codes, by name.
//!
//! Every value is the number that a terminal reads, so none may ever change.
//! A name is a `u8`: it can stand in a code list as it is, and `Code::new`
//! makes a [`Code`](crate::code::Code) of it.
use vstd::prelude::*;

verus! {

// Attributes.
/// Set bold mode.
pub const BOLD: u8 = 1;

/// Set dim/faint mode.
pub const DIM: u8 = 2;

/// Set italic mode.
pub const ITALIC: u8 = 3;

/// Set underline mode.
pub const UNDERLINE: u8 = 4;

/// Set blinking mode.
pub const BLINK: u8 = 5;

/// Flip foreground and background colors.
pub const INVERSE: u8 = 7;

/// Set hidden/invisible mode.
pub const HIDDEN: u8 = 8;

/// Set strikethrough mode.
pub const STRIKE: u8 = 9;

// Resets.
/// Reset all attributes.
pub const RESET: u8 = 0;

/// Reset bold/dim mode.
pub const RESET_WEIGHT: u8 = 22;

/// Reset italic mode.
pub const RESET_ITALIC: u8 = 23;

/// Reset underline mode.
pub const RESET_UNDERLINE: u8 = 24;

/// Reset blinking mode.
pub const RESET_BLINK: u8 = 25;

/// Reset inverse mode.
pub const RESET_INVERSE: u8 = 27;

/// Reset hidden mode.
pub const RESET_HIDDEN: u8 = 28;

/// Reset strikethrough mode.
pub const RESET_STRIKE: u8 = 29;

// Foreground colors.
/// Black foreground color.
pub const BLACK: u8 = 30;

/// Red foreground color.
pub const RED: u8 = 31;

/// Green foreground color.
pub const GREEN: u8 = 32;

/// Yellow foreground color.
pub const YELLOW: u8 = 33;

/// Blue foreground color.
pub const BLUE: u8 = 34;

/// Magenta foreground color.
pub const MAGENTA: u8 = 35;

/// Cyan foreground color.
pub const CYAN: u8 = 36;

/// White foreground color.
pub const WHITE: u8 = 37;

/// Default foreground color.
pub const DEFAULT: u8 = 39;

// Background colors.
/// Black background color.
pub const BLACK_BG: u8 = 40;

/// Red background color.
pub const RED_BG: u8 = 41;

/// Green background color.
pub const GREEN_BG: u8 = 42;

/// Yellow background color.
pub const YELLOW_BG: u8 = 43;

/// Blue background color.
pub const BLUE_BG: u8 = 44;

/// Magenta background color.
pub const MAGENTA_BG: u8 = 45;

/// Cyan background color.
pub const CYAN_BG: u8 = 46;

/// White background color.
pub const WHITE_BG: u8 = 47;

/// Default background color.
pub const DEFAULT_BG: u8 = 49;

// Bright foreground colors.
/// Bright black foreground color.
pub const BRIGHT_BLACK: u8 = 90;

/// Bright red foreground color.
pub const BRIGHT_RED: u8 = 91;

/// Bright green foreground color.
pub const BRIGHT_GREEN: u8 = 92;

/// Bright yellow foreground color.
pub const BRIGHT_YELLOW: u8 = 93;

/// Bright blue foreground color.
pub const BRIGHT_BLUE: u8 = 94;

/// Bright magenta foreground color.
pub const BRIGHT_MAGENTA: u8 = 95;

/// Bright cyan foreground color.
pub const BRIGHT_CYAN: u8 = 96;

/// Bright white foreground color.
pub const BRIGHT_WHITE: u8 = 97;

// Bright background colors.
/// Bright black background color.
pub const BRIGHT_BLACK_BG: u8 = 100;

/// Bright red background color.
pub const BRIGHT_RED_BG: u8 = 101;

/// Bright green background color.
pub const BRIGHT_GREEN_BG: u8 = 102;

/// Bright yellow background color.
pub const BRIGHT_YELLOW_BG: u8 = 103;

/// Bright blue background color.
pub const BRIGHT_BLUE_BG: u8 = 104;

/// Bright magenta background color.
pub const BRIGHT_MAGENTA_BG: u8 = 105;

/// Bright cyan background color.
pub const BRIGHT_CYAN_BG: u8 = 106;

/// Bright white background color.
pub const BRIGHT_WHITE_BG: u8 = 107;

// Selectors of the extended colors.
/// Selects an extended foreground color; a color mode follows.
pub const FG: u8 = 38;

/// Selects an extended background color; a color mode follows.
pub const BG: u8 = 48;

/// Color mode: one index into the 256-color palette follows.
pub const PAL: u8 = 5;

/// Color mode: red, green and blue follow.
pub const RGB: u8 = 2;

} // verus!
