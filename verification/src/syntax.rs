//! Highlighting rules of one language, and the state carried between rows.

use vstd::prelude::*;
use crate::color::Color;

verus! {

/// The state in which the highlighter stands between two bytes, and in
/// which it passes from one row to the next.
#[derive(Clone, Copy, PartialEq, Eq, Structural, Debug)]
pub enum HlState {
    /// Plain code.
    Normal,
    /// Inside a block comment.
    MlComment,
    /// Inside a single-line string that the given quote byte opened.
    String(u8),
    /// Inside a block string.
    MlString,
}

impl Default for HlState {
    fn default() -> (s: HlState)
        ensures
            s == HlState::Normal,
    {
        HlState::Normal
    }
}

impl HlState {
    /// The state that a row hands on: a single-line string ends with its
    /// row, every other state carries over.
    pub open spec fn carried(self) -> HlState {
        match self {
            HlState::String(_) => HlState::Normal,
            s => s,
        }
    }

    /// The state that a row hands on.
    pub fn carry(self) -> (s: HlState)
        ensures
            s == self.carried(),
    {
        match self {
            HlState::String(_) => HlState::Normal,
            s => s,
        }
    }
}

/// The bytes of a piece of text, in UTF-8.
pub open spec fn utf8(s: Seq<char>) -> Seq<u8> {
    vstd::utf8::encode_utf8(s)
}

/// The highlighting rules of one language.
#[derive(Debug)]
pub struct SyntaxConfig {
    /// The language's name, shown in the status bar.
    pub name: String,
    /// Whether numbers are coloured.
    pub highlight_numbers: bool,
    /// The markers that start a comment running to the end of the row.
    pub slcomment_start: Vec<String>,
    /// The characters that open and close a single-line string.
    pub slstring_quotes: Vec<char>,
    /// The delimiters that open and close a block comment.
    pub mlcomment_delims: Option<(String, String)>,
    /// The delimiter that opens and closes a block string.
    pub mlstring_delims: Option<String>,
    /// The keyword classes in the order in which they are tried, each with
    /// its colour.
    pub keywords: Vec<(Color, Vec<String>)>,
}

impl SyntaxConfig {
    /// Whether the rules can drive the highlighter: a block delimiter that
    /// is present is not empty. (An empty one would match everywhere without
    /// ever moving the scan on.)
    pub open spec fn well_formed(&self) -> bool {
        &&& self.mlcomment_delims matches Some(d) ==> utf8(d.0@).len() > 0 && utf8(d.1@).len() > 0
        &&& self.mlstring_delims matches Some(d) ==> utf8(d@).len() > 0
    }

    /// Whether the rules can drive the highlighter.
    pub fn is_well_formed(&self) -> (r: bool)
        ensures
            r == self.well_formed(),
    {
        let comment_ok = match &self.mlcomment_delims {
            Some(d) => d.0.as_str().as_bytes().len() > 0 && d.1.as_str().as_bytes().len() > 0,
            None => true,
        };
        let string_ok = match &self.mlstring_delims {
            Some(d) => d.as_str().as_bytes().len() > 0,
            None => true,
        };
        comment_ok && string_ok
    }

    /// Rules that colour nothing: no name, no markers, no keywords.
    pub fn plain() -> (r: SyntaxConfig)
        ensures
            r.name@.len() == 0,
            !r.highlight_numbers,
            r.slcomment_start@.len() == 0,
            r.slstring_quotes@.len() == 0,
            r.mlcomment_delims is None,
            r.mlstring_delims is None,
            r.keywords@.len() == 0,
            r.well_formed(),
    {
        SyntaxConfig {
            name: String::new(),
            highlight_numbers: false,
            slcomment_start: Vec::new(),
            slstring_quotes: Vec::new(),
            mlcomment_delims: None,
            mlstring_delims: None,
            keywords: Vec::new(),
        }
    }
}

impl Default for SyntaxConfig {
    fn default() -> (r: SyntaxConfig)
        ensures
            r.name@.len() == 0,
            !r.highlight_numbers,
            r.slcomment_start@.len() == 0,
            r.slstring_quotes@.len() == 0,
            r.mlcomment_delims is None,
            r.mlstring_delims is None,
            r.keywords@.len() == 0,
    {
        SyntaxConfig::plain()
    }
}

} // verus!
