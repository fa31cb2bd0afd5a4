//! Keys, and how they are decoded from the bytes that a terminal sends.

use vstd::prelude::*;

verus! {

/// One of the four arrow keys.
#[derive(Clone, Copy, PartialEq, Eq, Structural, Debug)]
pub enum ArrowKey {
    Left,
    Right,
    Up,
    Down,
}

/// A key as the editor understands it.
#[derive(Clone, Copy, PartialEq, Eq, Structural, Debug)]
pub enum Key {
    Arrow(ArrowKey),
    CtrlArrow(ArrowKey),
    PageUp,
    PageDown,
    Home,
    End,
    Delete,
    Escape,
    /// Any single byte outside an escape sequence, control bytes included.
    Char(u8),
}

/// How far into an escape sequence the decoder has read.
#[derive(Clone, Copy, PartialEq, Eq, Structural, Debug)]
pub enum Pending {
    /// Nothing is pending.
    Idle,
    /// ESC was read.
    Esc,
    /// ESC `[` was read.
    Csi,
    /// ESC `O` was read.
    Ss3,
    /// ESC `[` and this digit were read.
    Param(u8),
    /// ESC `[` `1` `;` was read.
    Modifier,
    /// ESC `[` `1` `;` and this byte were read.
    ModifierParam(u8),
}

/// The key that ends an escape sequence with parameter byte `c` and final
/// byte `d`: Home, End, Delete and the page keys with `~`, the arrows held
/// with Ctrl with parameter `5`; Escape for anything else and for a short
/// read.
pub open spec fn closing_key(c: u8, d: Option<u8>) -> Key {
    match d {
        Some(d) => {
            if d == 0x7E && (c == 0x31 || c == 0x37) {
                Key::Home
            } else if d == 0x7E && (c == 0x34 || c == 0x38) {
                Key::End
            } else if d == 0x7E && c == 0x33 {
                Key::Delete
            } else if d == 0x7E && c == 0x35 {
                Key::PageUp
            } else if d == 0x7E && c == 0x36 {
                Key::PageDown
            } else if c == 0x35 && d == 0x41 {
                Key::CtrlArrow(ArrowKey::Up)
            } else if c == 0x35 && d == 0x42 {
                Key::CtrlArrow(ArrowKey::Down)
            } else if c == 0x35 && d == 0x43 {
                Key::CtrlArrow(ArrowKey::Right)
            } else if c == 0x35 && d == 0x44 {
                Key::CtrlArrow(ArrowKey::Left)
            } else {
                Key::Escape
            }
        },
        None => Key::Escape,
    }
}

/// The key that follows ESC `[` at once, if `b` is its final byte.
pub open spec fn csi_key(b: u8) -> Option<Key> {
    if b == 0x41 {
        Some(Key::Arrow(ArrowKey::Up))
    } else if b == 0x42 {
        Some(Key::Arrow(ArrowKey::Down))
    } else if b == 0x43 {
        Some(Key::Arrow(ArrowKey::Right))
    } else if b == 0x44 {
        Some(Key::Arrow(ArrowKey::Left))
    } else if b == 0x48 {
        Some(Key::Home)
    } else if b == 0x46 {
        Some(Key::End)
    } else {
        None
    }
}

/// The key that follows ESC `O`, Escape for an unknown byte.
pub open spec fn ss3_key(b: u8) -> Key {
    if b == 0x48 {
        Key::Home
    } else if b == 0x46 {
        Key::End
    } else if b == 0x61 {
        Key::CtrlArrow(ArrowKey::Up)
    } else if b == 0x62 {
        Key::CtrlArrow(ArrowKey::Down)
    } else if b == 0x63 {
        Key::CtrlArrow(ArrowKey::Right)
    } else if b == 0x64 {
        Key::CtrlArrow(ArrowKey::Left)
    } else {
        Key::Escape
    }
}

impl Pending {
    /// What the next byte of input does: the state afterwards and the key
    /// that is complete, if one is. `None` for the byte stands for a read
    /// that brought nothing: it leaves an idle decoder idle and ends a
    /// sequence under way as Escape.
    ///
    /// A byte outside a sequence is a key of its own, unless it is ESC,
    /// which opens a sequence. ESC is followed by `[` or `O`; `[` by the
    /// final byte of an arrow, Home or End, or by a digit up to 8; the digit
    /// by a final byte, or, if it is 1, by `;`, a parameter and a final
    /// byte. Whatever fits none of this ends the sequence as Escape.
    pub open spec fn fed(self, byte: Option<u8>) -> (Pending, Option<Key>) {
        match self {
            Pending::Idle => match byte {
                None => (Pending::Idle, None),
                Some(b) => if b == 0x1B {
                    (Pending::Esc, None)
                } else {
                    (Pending::Idle, Some(Key::Char(b)))
                },
            },
            Pending::Esc => match byte {
                Some(b) => if b == 0x5B {
                    (Pending::Csi, None)
                } else if b == 0x4F {
                    (Pending::Ss3, None)
                } else {
                    (Pending::Idle, Some(Key::Escape))
                },
                None => (Pending::Idle, Some(Key::Escape)),
            },
            Pending::Csi => match byte {
                Some(b) => if csi_key(b) is Some {
                    (Pending::Idle, csi_key(b))
                } else if 0x30 <= b <= 0x38 {
                    (Pending::Param(b), None)
                } else {
                    (Pending::Idle, Some(Key::Escape))
                },
                None => (Pending::Idle, Some(Key::Escape)),
            },
            Pending::Ss3 => match byte {
                Some(b) => (Pending::Idle, Some(ss3_key(b))),
                None => (Pending::Idle, Some(Key::Escape)),
            },
            Pending::Param(c) => if c == 0x31 && byte == Some(0x3Bu8) {
                (Pending::Modifier, None)
            } else {
                (Pending::Idle, Some(closing_key(c, byte)))
            },
            Pending::Modifier => match byte {
                Some(b) => (Pending::ModifierParam(b), None),
                None => (Pending::Idle, Some(Key::Escape)),
            },
            Pending::ModifierParam(c) => (Pending::Idle, Some(closing_key(c, byte))),
        }
    }

}

/// The first key in `s` from index `i` on, read in state `st`, and the
/// index after its last byte. Where the bytes end within a sequence the key
/// is Escape; where they end outside one there is no key.
pub open spec fn first_key(st: Pending, s: Seq<u8>, i: int) -> (Option<Key>, int)
    decreases s.len() - i,
{
    if 0 <= i < s.len() {
        let r = st.fed(Some(s[i]));
        if r.1 is Some {
            (r.1, i + 1)
        } else {
            first_key(r.0, s, i + 1)
        }
    } else {
        (st.fed(None).1, i)
    }
}

fn csi(b: u8) -> (r: Option<Key>)
    ensures
        r == csi_key(b),
{
    if b == 0x41 {
        Some(Key::Arrow(ArrowKey::Up))
    } else if b == 0x42 {
        Some(Key::Arrow(ArrowKey::Down))
    } else if b == 0x43 {
        Some(Key::Arrow(ArrowKey::Right))
    } else if b == 0x44 {
        Some(Key::Arrow(ArrowKey::Left))
    } else if b == 0x48 {
        Some(Key::Home)
    } else if b == 0x46 {
        Some(Key::End)
    } else {
        None
    }
}

fn ss3(b: u8) -> (r: Key)
    ensures
        r == ss3_key(b),
{
    if b == 0x48 {
        Key::Home
    } else if b == 0x46 {
        Key::End
    } else if b == 0x61 {
        Key::CtrlArrow(ArrowKey::Up)
    } else if b == 0x62 {
        Key::CtrlArrow(ArrowKey::Down)
    } else if b == 0x63 {
        Key::CtrlArrow(ArrowKey::Right)
    } else if b == 0x64 {
        Key::CtrlArrow(ArrowKey::Left)
    } else {
        Key::Escape
    }
}

fn closing(c: u8, d: Option<u8>) -> (r: Key)
    ensures
        r == closing_key(c, d),
{
    match d {
        Some(d) => {
            if d == 0x7E && (c == 0x31 || c == 0x37) {
                Key::Home
            } else if d == 0x7E && (c == 0x34 || c == 0x38) {
                Key::End
            } else if d == 0x7E && c == 0x33 {
                Key::Delete
            } else if d == 0x7E && c == 0x35 {
                Key::PageUp
            } else if d == 0x7E && c == 0x36 {
                Key::PageDown
            } else if c == 0x35 && d == 0x41 {
                Key::CtrlArrow(ArrowKey::Up)
            } else if c == 0x35 && d == 0x42 {
                Key::CtrlArrow(ArrowKey::Down)
            } else if c == 0x35 && d == 0x43 {
                Key::CtrlArrow(ArrowKey::Right)
            } else if c == 0x35 && d == 0x44 {
                Key::CtrlArrow(ArrowKey::Left)
            } else {
                Key::Escape
            }
        },
        None => Key::Escape,
    }
}

/// Turns the bytes that a terminal sends into keys, one byte at a time.
#[derive(Clone, Copy, Debug)]
pub struct KeyDecoder {
    /// How far into an escape sequence the decoder has read.
    pub state: Pending,
}

impl KeyDecoder {
    /// A decoder with nothing pending.
    pub fn new() -> (d: KeyDecoder)
        ensures
            d.state == Pending::Idle,
    {
        KeyDecoder { state: Pending::Idle }
    }

    /// Takes the next byte of input, or `None` where a read brought
    /// nothing, and returns the key that it completes, if it completes one.
    pub fn feed(&mut self, byte: Option<u8>) -> (key: Option<Key>)
        ensures
            (final(self).state, key) == old(self).state.fed(byte),
    {
        let (next, key) = match self.state {
            Pending::Idle => match byte {
                None => (Pending::Idle, None),
                Some(b) => if b == 0x1B {
                    (Pending::Esc, None)
                } else {
                    (Pending::Idle, Some(Key::Char(b)))
                },
            },
            Pending::Esc => match byte {
                Some(b) => if b == 0x5B {
                    (Pending::Csi, None)
                } else if b == 0x4F {
                    (Pending::Ss3, None)
                } else {
                    (Pending::Idle, Some(Key::Escape))
                },
                None => (Pending::Idle, Some(Key::Escape)),
            },
            Pending::Csi => match byte {
                Some(b) => {
                    let k = csi(b);
                    if k.is_some() {
                        (Pending::Idle, k)
                    } else if 0x30 <= b && b <= 0x38 {
                        (Pending::Param(b), None)
                    } else {
                        (Pending::Idle, Some(Key::Escape))
                    }
                },
                None => (Pending::Idle, Some(Key::Escape)),
            },
            Pending::Ss3 => match byte {
                Some(b) => (Pending::Idle, Some(ss3(b))),
                None => (Pending::Idle, Some(Key::Escape)),
            },
            Pending::Param(c) => {
                let semicolon = match byte {
                    Some(b) => b == 0x3B,
                    None => false,
                };
                if c == 0x31 && semicolon {
                    (Pending::Modifier, None)
                } else {
                    (Pending::Idle, Some(closing(c, byte)))
                }
            },
            Pending::Modifier => match byte {
                Some(b) => (Pending::ModifierParam(b), None),
                None => (Pending::Idle, Some(Key::Escape)),
            },
            Pending::ModifierParam(c) => (Pending::Idle, Some(closing(c, byte))),
        };
        self.state = next;
        key
    }
}

/// Decodes the first key in `bytes`.
///
/// Returns the key and the number of bytes that it took. Bytes that end
/// within an escape sequence give Escape; no bytes give no key.
pub fn decode_key(bytes: &[u8]) -> (r: (Option<Key>, usize))
    ensures
        (r.0, r.1 as int) == first_key(Pending::Idle, bytes@, 0),
        r.1 <= bytes.len(),
        r.0 is None <==> bytes.len() == 0,
{
    let mut decoder = KeyDecoder::new();
    let mut i: usize = 0;
    while i < bytes.len()
        invariant
            i <= bytes.len(),
            first_key(Pending::Idle, bytes@, 0) == first_key(decoder.state, bytes@, i as int),
            i == 0 ==> decoder.state == Pending::Idle,
            i > 0 ==> decoder.state != Pending::Idle,
        decreases bytes.len() - i,
    {
        let key = decoder.feed(Some(bytes[i]));
        i += 1;
        if key.is_some() {
            return (key, i);
        }
    }
    (decoder.feed(None), i)
}

} // verus!
