//! Escape sequences that drive the terminal.

use vstd::prelude::*;

verus! {

/// Clear the whole screen.
pub const CLEAR_SCREEN: &'static str = "\x1b[2J";

/// Reset colours and attributes.
pub const RESET_FMT: &'static str = "\x1b[m";

/// Swap foreground and background colour.
pub const REVERSE_VIDEO: &'static str = "\x1b[7m";

/// Move the cursor to the first row and column.
pub const MOVE_CURSOR_TO_START: &'static str = "\x1b[H";

/// Make the cursor invisible.
pub const HIDE_CURSOR: &'static str = "\x1b[?25l";

/// Make the cursor visible.
pub const SHOW_CURSOR: &'static str = "\x1b[?25h";

/// Clear the line from the cursor to its end.
pub const CLEAR_LINE_RIGHT_OF_CURSOR: &'static str = "\x1b[K";

/// Ask the terminal to report the cursor's position.
pub const DEVICE_STATUS_REPORT: &'static str = "\x1b[6n";

/// Move the cursor to the last row and column of the window.
pub const REPOSITION_CURSOR_END: &'static str = "\x1b[999C\x1b[999B";

} // verus!
