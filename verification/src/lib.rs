//! Rendering and editing core of a small terminal text editor.
//!
//! The crate keeps a buffer of rows, lays each row out on screen columns
//! (tab stops, display widths), colours it with a per-language rule set and
//! re-colours the following rows when an edit changes the state in which a
//! row ends. Keys are decoded from raw input bytes and drive either normal
//! editing or one of the modal prompts. Reading files, the terminal and the
//! clock is left to the program around the library, which hands in plain
//! values and performs the actions that the library asks for.

pub mod text;
pub mod color;
pub mod glyph;
pub mod layout;
pub mod syntax;
pub mod highlight;
pub mod ansi_escape;
pub mod row;
pub mod config;
pub mod keys;
pub mod ctrl_key;
pub mod editor;
pub mod nav;
pub mod edit;
pub mod search;
pub mod command;
pub mod screen;
pub mod file;
pub mod loader;
pub mod terminal;

pub use color::Color;
pub use row::Row;
pub use config::{parse_ini_file, parse_value, parse_values, Config, IniLine};
pub use keys::{decode_key, ArrowKey, Key, KeyDecoder};
pub use editor::{CommandMode, Cursor, Editor, HELP_MESSAGE};
pub use command::{process_command_key, Action, CommandState};
pub use syntax::{HlState, SyntaxConfig};
pub use text::{format_size, slice_find};
