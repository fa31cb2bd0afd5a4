//! The control bytes that the editor binds.

use vstd::prelude::*;

verus! {

/// The byte that a terminal sends for a letter pressed with Ctrl: the
/// letter's low five bits.
pub fn ctrl_key(key: u8) -> (r: u8)
    ensures
        r == key & 0x1f,
{
    key & 0x1f
}

/// Ctrl+Q.
pub const EXIT: u8 = 17;

/// Ctrl+H.
pub const DELETE_BIS: u8 = 8;

/// Ctrl+L.
pub const REFRESH_SCREEN: u8 = 12;

/// Ctrl+S.
pub const SAVE: u8 = 19;

/// Ctrl+F.
pub const FIND: u8 = 6;

/// Ctrl+G.
pub const GOTO: u8 = 7;

/// Ctrl+X.
pub const CUT: u8 = 24;

/// Ctrl+C.
pub const COPY: u8 = 3;

/// Ctrl+V.
pub const PASTE: u8 = 22;

/// Ctrl+D.
pub const DUPLICATE: u8 = 4;

/// Ctrl+E.
pub const EXECUTE: u8 = 5;

/// Ctrl+R.
pub const REMOVE_LINE: u8 = 18;

/// The byte of the backspace key.
pub const BACKSPACE: u8 = 127;

/// The byte of the Enter key.
pub const ENTER: u8 = 13;

/// Every binding is the control byte of its letter.
pub proof fn lemma_bindings()
    ensures
        EXIT == 0x51u8 & 0x1f,
        DELETE_BIS == 0x48u8 & 0x1f,
        REFRESH_SCREEN == 0x4cu8 & 0x1f,
        SAVE == 0x53u8 & 0x1f,
        FIND == 0x46u8 & 0x1f,
        GOTO == 0x47u8 & 0x1f,
        CUT == 0x58u8 & 0x1f,
        COPY == 0x43u8 & 0x1f,
        PASTE == 0x56u8 & 0x1f,
        DUPLICATE == 0x44u8 & 0x1f,
        EXECUTE == 0x45u8 & 0x1f,
        REMOVE_LINE == 0x52u8 & 0x1f,
{
    assert(17u8 == 0x51u8 & 0x1f) by (bit_vector);
    assert(8u8 == 0x48u8 & 0x1f) by (bit_vector);
    assert(12u8 == 0x4cu8 & 0x1f) by (bit_vector);
    assert(19u8 == 0x53u8 & 0x1f) by (bit_vector);
    assert(6u8 == 0x46u8 & 0x1f) by (bit_vector);
    assert(7u8 == 0x47u8 & 0x1f) by (bit_vector);
    assert(24u8 == 0x58u8 & 0x1f) by (bit_vector);
    assert(3u8 == 0x43u8 & 0x1f) by (bit_vector);
    assert(22u8 == 0x56u8 & 0x1f) by (bit_vector);
    assert(4u8 == 0x44u8 & 0x1f) by (bit_vector);
    assert(5u8 == 0x45u8 & 0x1f) by (bit_vector);
    assert(18u8 == 0x52u8 & 0x1f) by (bit_vector);
}

} // verus!
