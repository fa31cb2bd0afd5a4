//! Lenient decoding of a row's bytes into characters.
//!
//! A row holds arbitrary bytes. They are read as UTF-8; a byte sequence that
//! is no well-formed encoding is replaced, one maximal ill-formed prefix at a
//! time, by U+FFFD. Every decoded character remembers how many bytes it
//! stands for and how many screen columns it takes.

use vstd::prelude::*;
use unicode_width::UnicodeWidthChar;

verus! {

/// The width in columns that the `unicode-width` tables give a character:
/// the value of `UnicodeWidthChar::width`.
pub uninterp spec fn unicode_width(c: char) -> Option<usize>;

/// Looks a character's width up in the `unicode-width` tables.
///
/// Trusted: calls `unicode_width::UnicodeWidthChar::width`, a pure table
/// lookup on the character; the contract only names its result.
#[verifier::external_body]
fn table_width(c: char) -> (w: Option<usize>)
    ensures
        w == unicode_width(c),
{
    UnicodeWidthChar::width(c)
}

/// The character with the given scalar value.
///
/// Trusted: calls `char::from_u32`, which the standard library documents as
/// returning the character for every Unicode scalar value (anything up to
/// U+10FFFF outside the surrogate range U+D800..=U+DFFF) and `None` else.
#[verifier::external_body]
fn char_of(v: u32) -> (c: Option<char>)
    ensures
        is_scalar_value(v as int) ==> c == Some(v as char),
        !is_scalar_value(v as int) ==> c is None,
{
    char::from_u32(v)
}

/// The character shown in place of ill-formed input.
pub const REPLACEMENT: char = '\u{FFFD}';

/// Whether a number is the value of a character: at most U+10FFFF and no
/// surrogate.
pub open spec fn is_scalar_value(v: int) -> bool {
    0 <= v <= 0xD7FF || 0xE000 <= v <= 0x10FFFF
}

/// The columns that a character takes on screen when the Unicode tables
/// give it the width `w`: that width, and one column where they give it
/// none or zero.
pub open spec fn columns_for(w: Option<usize>) -> nat {
    match w {
        Some(n) => if n == 0 {
            1
        } else {
            n as nat
        },
        None => 1,
    }
}

/// The columns that a character takes on screen.
pub open spec fn display_width(c: char) -> nat {
    columns_for(unicode_width(c))
}

/// The columns that a character takes on screen when the Unicode tables
/// give it the width `w`.
pub fn width_or_one(w: Option<usize>) -> (n: usize)
    ensures
        n == columns_for(w),
        n >= 1,
{
    match w {
        Some(n) => if n == 0 {
            1
        } else {
            n
        },
        None => 1,
    }
}

/// The columns that a character takes on screen.
pub fn columns_of(c: char) -> (w: usize)
    ensures
        w == display_width(c),
        w >= 1,
{
    width_or_one(table_width(c))
}

/// One decoded character of a row.
#[derive(Clone, Copy, PartialEq, Eq, Structural, Debug)]
pub struct Glyph {
    /// The character.
    pub ch: char,
    /// How many bytes of the row it stands for.
    pub len: usize,
    /// How many columns it takes, a tab aside.
    pub width: usize,
}

/// The length of the encoding that a leading byte announces, 0 for a byte
/// that cannot lead.
pub open spec fn lead_width(b: u8) -> nat {
    if b < 0x80 {
        1
    } else if 0xC2 <= b <= 0xDF {
        2
    } else if 0xE0 <= b <= 0xEF {
        3
    } else if 0xF0 <= b <= 0xF4 {
        4
    } else {
        0
    }
}

/// Whether a byte continues an encoding that a leading byte began.
pub open spec fn is_continuation(b: u8) -> bool {
    0x80 <= b <= 0xBF
}

/// Whether `b1` may follow the leading byte `b0`: a continuation byte, in
/// the narrower range that rules out overlong forms, surrogates and values
/// beyond U+10FFFF.
pub open spec fn second_fits(b0: u8, b1: u8) -> bool {
    if b0 == 0xE0 {
        0xA0 <= b1 <= 0xBF
    } else if b0 == 0xED {
        0x80 <= b1 <= 0x9F
    } else if b0 == 0xF0 {
        0x90 <= b1 <= 0xBF
    } else if b0 == 0xF4 {
        0x80 <= b1 <= 0x8F
    } else {
        is_continuation(b1)
    }
}

/// The scalar value read at index `i` and the number of bytes it takes.
/// An ill-formed sequence gives U+FFFD and takes the bytes that were
/// well-formed so far, at least one.
pub open spec fn scalar_at(s: Seq<u8>, i: int) -> (int, int) {
    let b0 = s[i];
    let w = lead_width(b0);
    if w == 1 {
        (b0 as int, 1)
    } else if w == 0 || !(i + 1 < s.len() && second_fits(b0, s[i + 1])) {
        (0xFFFD, 1)
    } else if w == 2 {
        ((b0 - 0xC0) * 64 + (s[i + 1] - 0x80), 2)
    } else if !(i + 2 < s.len() && is_continuation(s[i + 2])) {
        (0xFFFD, 2)
    } else if w == 3 {
        ((b0 - 0xE0) * 4096 + (s[i + 1] - 0x80) * 64 + (s[i + 2] - 0x80), 3)
    } else if !(i + 3 < s.len() && is_continuation(s[i + 3])) {
        (0xFFFD, 3)
    } else {
        ((b0 - 0xF0) * 262144 + (s[i + 1] - 0x80) * 4096 + (s[i + 2] - 0x80) * 64 + (s[i + 3]
            - 0x80), 4)
    }
}

/// The glyph read at index `i`.
pub open spec fn glyph_at(s: Seq<u8>, i: int) -> Glyph {
    let (v, n) = scalar_at(s, i);
    Glyph { ch: v as char, len: n as usize, width: display_width(v as char) as usize }
}

/// The glyphs of `s` from index `i` on.
pub open spec fn glyphs_from(s: Seq<u8>, i: int) -> Seq<Glyph>
    decreases s.len() - i,
{
    if 0 <= i < s.len() {
        seq![glyph_at(s, i)] + glyphs_from(s, i + scalar_at(s, i).1)
    } else {
        Seq::empty()
    }
}

/// The glyphs of a row.
pub open spec fn glyphs(s: Seq<u8>) -> Seq<Glyph> {
    glyphs_from(s, 0)
}

/// The bytes that a run of glyphs stands for.
pub open spec fn total_len(gs: Seq<Glyph>) -> nat
    decreases gs.len(),
{
    if gs.len() == 0 {
        0
    } else {
        total_len(gs.drop_last()) + gs.last().len as nat
    }
}

/// Every glyph stands for at least one byte and takes at least one column.
pub open spec fn all_solid(gs: Seq<Glyph>) -> bool {
    forall|k: int| 0 <= k < gs.len() ==> (#[trigger] gs[k]).len >= 1 && gs[k].width >= 1
}

/// What is read at an index lies within the row and is a scalar value.
pub proof fn lemma_scalar_at(s: Seq<u8>, i: int)
    requires
        0 <= i < s.len(),
    ensures
        1 <= scalar_at(s, i).1 <= 4,
        i + scalar_at(s, i).1 <= s.len(),
        is_scalar_value(scalar_at(s, i).0),
{
}

/// A glyph more stands for its bytes more.
pub proof fn lemma_total_len_push(gs: Seq<Glyph>, g: Glyph)
    ensures
        total_len(gs.push(g)) == total_len(gs) + g.len,
{
    assert(gs.push(g).drop_last() =~= gs);
}

/// Two runs of glyphs stand for the bytes of both.
pub proof fn lemma_total_len_concat(a: Seq<Glyph>, b: Seq<Glyph>)
    ensures
        total_len(a + b) == total_len(a) + total_len(b),
    decreases b.len(),
{
    if b.len() == 0 {
        assert(a + b =~= a);
    } else {
        lemma_total_len_concat(a, b.drop_last());
        assert((a + b).drop_last() =~= a + b.drop_last());
    }
}

/// The glyphs of a row stand for all of its bytes, each for at least one,
/// and each takes at least one column.
pub proof fn lemma_glyphs_cover(s: Seq<u8>, i: int)
    requires
        0 <= i <= s.len(),
    ensures
        total_len(glyphs_from(s, i)) == s.len() - i,
        all_solid(glyphs_from(s, i)),
    decreases s.len() - i,
{
    if i < s.len() {
        lemma_scalar_at(s, i);
        let n = scalar_at(s, i).1;
        lemma_glyphs_cover(s, i + n);
        let head = seq![glyph_at(s, i)];
        let tail = glyphs_from(s, i + n);
        lemma_total_len_concat(head, tail);
        assert(head =~= Seq::<Glyph>::empty().push(glyph_at(s, i)));
        lemma_total_len_push(Seq::<Glyph>::empty(), glyph_at(s, i));
        assert(total_len(head) == n);
        assert forall|k: int| 0 <= k < (head + tail).len() implies (#[trigger] (head + tail)[k]).len
            >= 1 && (head + tail)[k].width >= 1 by {
            if k > 0 {
                assert((head + tail)[k] == tail[k - 1]);
            }
        }
    }
}

/// Reads the glyph at index `i` of `bytes`.
fn read_glyph(bytes: &[u8], i: usize) -> (g: Glyph)
    requires
        i < bytes.len(),
    ensures
        g == glyph_at(bytes@, i as int),
        1 <= g.len <= 4,
        i + g.len <= bytes.len(),
        g.width >= 1,
{
    proof {
        lemma_scalar_at(bytes@, i as int);
    }
    let n = bytes.len();
    let b0 = bytes[i];
    let mut v: u32 = 0xFFFD;
    let mut len: usize = 1;
    if b0 < 0x80 {
        v = b0 as u32;
    } else if 0xC2 <= b0 && b0 <= 0xF4 && n - i > 1 && second_fits_exec(b0, bytes[i + 1]) {
        let b1 = bytes[i + 1];
        if b0 <= 0xDF {
            v = (b0 as u32 - 0xC0) * 64 + (b1 as u32 - 0x80);
            len = 2;
        } else if !(n - i > 2 && is_continuation_exec(bytes[i + 2])) {
            len = 2;
        } else {
            let b2 = bytes[i + 2];
            if b0 <= 0xEF {
                v = (b0 as u32 - 0xE0) * 4096 + (b1 as u32 - 0x80) * 64 + (b2 as u32 - 0x80);
                len = 3;
            } else if !(n - i > 3 && is_continuation_exec(bytes[i + 3])) {
                len = 3;
            } else {
                let b3 = bytes[i + 3];
                v = (b0 as u32 - 0xF0) * 262144 + (b1 as u32 - 0x80) * 4096 + (b2 as u32 - 0x80)
                    * 64 + (b3 as u32 - 0x80);
                len = 4;
            }
        }
    }
    assert((v as int, len as int) == scalar_at(bytes@, i as int));
    let ch = match char_of(v) {
        Some(c) => c,
        None => REPLACEMENT,
    };
    Glyph { ch, len, width: columns_of(ch) }
}

fn is_continuation_exec(b: u8) -> (r: bool)
    ensures
        r == is_continuation(b),
{
    0x80 <= b && b <= 0xBF
}

fn second_fits_exec(b0: u8, b1: u8) -> (r: bool)
    ensures
        r == second_fits(b0, b1),
{
    if b0 == 0xE0 {
        0xA0 <= b1 && b1 <= 0xBF
    } else if b0 == 0xED {
        0x80 <= b1 && b1 <= 0x9F
    } else if b0 == 0xF0 {
        0x90 <= b1 && b1 <= 0xBF
    } else if b0 == 0xF4 {
        0x80 <= b1 && b1 <= 0x8F
    } else {
        is_continuation_exec(b1)
    }
}

/// Decodes a row's bytes into glyphs.
///
/// The result is exactly `glyphs(bytes@)`; the glyphs stand for all of the
/// bytes, each for at least one, and each takes at least one column.
pub fn decode(bytes: &[u8]) -> (out: Vec<Glyph>)
    ensures
        out@ == glyphs(bytes@),
        total_len(out@) == bytes.len(),
        all_solid(out@),
{
    let mut out: Vec<Glyph> = Vec::new();
    let mut i: usize = 0;
    while i < bytes.len()
        invariant
            i <= bytes.len(),
            glyphs(bytes@) == out@ + glyphs_from(bytes@, i as int),
        decreases bytes.len() - i,
    {
        let g = read_glyph(bytes, i);
        proof {
            let rest = glyphs_from(bytes@, i + g.len);
            assert(out@.push(g) + rest =~= out@ + (seq![g] + rest));
        }
        out.push(g);
        i += g.len;
    }
    proof {
        assert(out@ + glyphs_from(bytes@, i as int) =~= out@);
        lemma_glyphs_cover(bytes@, 0);
    }
    out
}

} // verus!
