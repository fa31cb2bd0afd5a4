//! What the editor computes for the terminal driver: console modes, the
//! size of the window, and the reading of a cursor position report.

use vstd::prelude::*;
use crate::nav::least;
use crate::text::{find_char, index_of, number_of, parse_usize};

verus! {

/// Console input mode bit: control keys are handled by the system.
pub const ENABLE_PROCESSED_INPUT: u32 = 0x0001;

/// Console input mode bit: input is delivered line by line.
pub const ENABLE_LINE_INPUT: u32 = 0x0002;

/// Console input mode bit: input is echoed.
pub const ENABLE_ECHO_INPUT: u32 = 0x0004;

/// Console input mode bit: keys arrive as escape sequences.
pub const ENABLE_VIRTUAL_TERMINAL_INPUT: u32 = 0x0200;

/// Console output mode bit: control characters are acted on.
pub const ENABLE_PROCESSED_OUTPUT: u32 = 0x0001;

/// Console output mode bit: escape sequences are acted on.
pub const ENABLE_VIRTUAL_TERMINAL_PROCESSING: u32 = 0x0004;

/// Console output mode bit: no line feed is added to a carriage return.
pub const DISABLE_NEWLINE_AUTO_RETURN: u32 = 0x0008;

/// The input mode of a raw console: escape sequences on; processing, line
/// input and echo off; every other bit as it was.
pub open spec fn raw_input_mode(mode: u32) -> u32 {
    (mode | 0x0200u32) & !(0x0001u32 | 0x0002u32 | 0x0004u32)
}

/// The output mode of a raw console: escape sequences and processing on,
/// no line feed added to a carriage return; every other bit as it was.
pub open spec fn raw_output_mode(mode: u32) -> u32 {
    (mode | 0x0004u32) | (0x0008u32 | 0x0001u32)
}

/// The console modes for raw input and output, from the modes in force.
pub fn raw_modes(stdin_mode: u32, stdout_mode: u32) -> (r: (u32, u32))
    ensures
        r.0 == raw_input_mode(stdin_mode),
        r.1 == raw_output_mode(stdout_mode),
        r.0 & 0x0207 == 0x0200,
        r.0 | 0x0207 == stdin_mode | 0x0207,
        r.1 & 0x000D == 0x000D,
        r.1 | 0x000D == stdout_mode | 0x000D,
{
    let mode_in = (stdin_mode | ENABLE_VIRTUAL_TERMINAL_INPUT) & !(ENABLE_PROCESSED_INPUT
        | ENABLE_LINE_INPUT | ENABLE_ECHO_INPUT);
    let mode_out = (stdout_mode | ENABLE_VIRTUAL_TERMINAL_PROCESSING) | (DISABLE_NEWLINE_AUTO_RETURN
        | ENABLE_PROCESSED_OUTPUT);
    assert(((stdin_mode | 0x0200u32) & !(0x0001u32 | 0x0002u32 | 0x0004u32)) & 0x0207 == 0x0200)
        by (bit_vector);
    assert(((stdin_mode | 0x0200u32) & !(0x0001u32 | 0x0002u32 | 0x0004u32)) | 0x0207 == stdin_mode
        | 0x0207) by (bit_vector);
    assert(((stdout_mode | 0x0004u32) | (0x0008u32 | 0x0001u32)) & 0x000D == 0x000D)
        by (bit_vector);
    assert(((stdout_mode | 0x0004u32) | (0x0008u32 | 0x0001u32)) | 0x000D == stdout_mode | 0x000D)
        by (bit_vector);
    (mode_in, mode_out)
}

/// The rows and columns of a window from the edges of its rectangle, both
/// edges counted in. A rectangle whose far edge lies more than one before
/// its near edge has no size.
pub fn window_size(top: i16, bottom: i16, left: i16, right: i16) -> (r: Result<(usize, usize), String>)
    ensures
        match r {
            Ok(size) => size.0 == bottom - top + 1 && size.1 == right - left + 1,
            Err(e) => (bottom - top + 1 < 0 || right - left + 1 < 0) && e@ == "Invalid window size"@,
        },
{
    let rows: i32 = bottom as i32 - top as i32 + 1;
    let cols: i32 = right as i32 - left as i32 + 1;
    if rows >= 0 && cols >= 0 {
        Ok((rows as usize, cols as usize))
    } else {
        Err(String::from_str("Invalid window size"))
    }
}

/// Bytes as characters, each byte the character of its value.
pub open spec fn latin(bytes: Seq<u8>) -> Seq<char> {
    bytes.map_values(|b: u8| b as char)
}

/// The row and column that a cursor position report names: ESC `[`, the
/// row, `;`, the column, `R`. What follows the `R` does not count.
pub open spec fn report_of(reply: Seq<u8>) -> Option<(usize, usize)> {
    let s = latin(reply);
    if s.len() < 2 || s[0] != '\x1b' || s[1] != '[' {
        None
    } else {
        let rest = s.subrange(2, s.len() as int);
        let k = index_of(rest, ';', 0);
        let after = rest.subrange(least(k + 1, rest.len() as int), rest.len() as int);
        let m = index_of(after, 'R', 0);
        if k >= rest.len() || m >= after.len() {
            None
        } else {
            match (number_of(rest.subrange(0, k)), number_of(after.subrange(0, m))) {
                (Ok(row), Ok(col)) => Some((row, col)),
                _ => None,
            }
        }
    }
}

/// Reads a cursor position report.
///
/// Returns the row and the column, or the error `Cursor error.` where the
/// reply is no report.
pub fn parse_cursor_report(reply: &[u8]) -> (r: Result<(usize, usize), String>)
    ensures
        match report_of(reply@) {
            Some(p) => r == Ok::<(usize, usize), String>(p),
            None => r matches Err(e) && e@ == "Cursor error."@,
        },
{
    let mut s: Vec<char> = Vec::new();
    let mut i: usize = 0;
    while i < reply.len()
        invariant
            i <= reply.len(),
            s@ == latin(reply@.take(i as int)),
        decreases reply.len() - i,
    {
        s.push(reply[i] as char);
        i += 1;
        assert(s@ =~= latin(reply@.take(i as int)));
    }
    assert(reply@.take(i as int) =~= reply@);
    let n = s.len();
    if n < 2 || s[0] != '\x1b' || s[1] != '[' {
        return Err(String::from_str("Cursor error."));
    }
    let ghost rest = s@.subrange(2, n as int);
    let k = find_char(s.as_slice(), ';', 2, n);
    if k >= n {
        return Err(String::from_str("Cursor error."));
    }
    let ghost after = rest.subrange(k - 2 + 1, rest.len() as int);
    assert(after =~= s@.subrange(k + 1, n as int));
    let m = find_char(s.as_slice(), 'R', k + 1, n);
    if m >= n {
        return Err(String::from_str("Cursor error."));
    }
    assert(s@.subrange(2, k as int) =~= rest.subrange(0, k - 2));
    assert(s@.subrange(k + 1, m as int) =~= after.subrange(0, m - k - 1));
    let row = parse_usize(s.as_slice(), 2, k);
    let col = parse_usize(s.as_slice(), k + 1, m);
    match (row, col) {
        (Ok(row), Ok(col)) => Ok((row, col)),
        _ => Err(String::from_str("Cursor error.")),
    }
}

} // verus!
