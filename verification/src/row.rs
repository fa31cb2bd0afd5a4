//! One row of the buffer: its bytes, what is shown for them, the maps
//! between the two, and its colours.

use std::ops::Range;
use vstd::prelude::*;
use crate::ansi_escape::{RESET_FMT, REVERSE_VIDEO};
use crate::color::Color;
use crate::glyph::{decode, glyphs, lemma_glyphs_cover};
use crate::highlight::{highlight, is_sep, is_separator, lemma_paint_from_len, paint};
use crate::layout::{ints, layout, layout_of, lemma_layout_maps, nondecreasing, same_numbers};
use crate::syntax::{HlState, SyntaxConfig, utf8};
use crate::text::{chars_of, push_char};

verus! {

/// A row as mathematical values.
#[verifier::ext_equal]
pub struct RowView {
    /// The row's bytes.
    pub chars: Seq<u8>,
    /// The characters shown.
    pub render: Seq<char>,
    /// For each character shown, the column at which it stands.
    pub cols: Seq<int>,
    /// For each byte offset, the column of its character; then the width.
    pub c2r: Seq<int>,
    /// For each column, the byte offset of its character; then the length.
    pub r2c: Seq<int>,
    /// One colour for each byte of the characters shown.
    pub hl: Seq<Color>,
    /// The state in which the row ends.
    pub hl_state: HlState,
    /// The columns of a search match, to be shown highlighted.
    pub match_range: Option<(int, int)>,
}

/// One row of the buffer.
#[derive(Debug)]
pub struct Row {
    /// The row's bytes, without a line terminator.
    pub chars: Vec<u8>,
    /// The characters shown for them: tabs as spaces, ill-formed bytes as
    /// U+FFFD.
    pub render: String,
    /// For each character shown, the column at which it stands.
    pub cols: Vec<usize>,
    /// For each byte offset, the column of its character; then the width.
    pub c2r: Vec<usize>,
    /// For each column, the byte offset of its character; then the length.
    pub r2c: Vec<usize>,
    /// One colour for each byte of `render`.
    pub hl: Vec<Color>,
    /// The state in which the row ends.
    pub hl_state: HlState,
    /// The columns of a search match, to be shown highlighted.
    pub match_range: Option<Range<usize>>,
}

impl View for Row {
    type V = RowView;

    open spec fn view(&self) -> RowView {
        RowView {
            chars: self.chars@,
            render: self.render@,
            cols: ints(self.cols@),
            c2r: ints(self.c2r@),
            r2c: ints(self.r2c@),
            hl: self.hl@,
            hl_state: self.hl_state,
            match_range: match self.match_range {
                Some(r) => Some((r.start as int, r.end as int)),
                None => None,
            },
        }
    }
}

/// The size in bytes of the character at column `rx`, searched from index
/// `from` of the map on: the distance to the first later entry that lies
/// beyond the entry at `rx`, and 1 if there is none.
pub open spec fn size_from(r2c: Seq<int>, rx: int, from: int) -> int
    decreases r2c.len() - from,
{
    if !(0 <= rx < from < r2c.len()) {
        1
    } else if r2c[from] > r2c[rx] {
        r2c[from] - r2c[rx]
    } else {
        size_from(r2c, rx, from + 1)
    }
}

/// The size in bytes of the character at column `rx`.
pub open spec fn char_size(r2c: Seq<int>, rx: int) -> int {
    size_from(r2c, rx, rx + 1)
}

/// The size of a character is at least one byte, whatever the map holds.
pub proof fn lemma_size_positive(r2c: Seq<int>, rx: int, from: int)
    ensures
        size_from(r2c, rx, from) >= 1,
    decreases r2c.len() - from,
{
    if 0 <= rx < from < r2c.len() && r2c[from] <= r2c[rx] {
        lemma_size_positive(r2c, rx, from + 1);
    }
}

/// The distance from the entry at `rx` to the first entry from index `from`
/// on that differs from it, and 1 if there is none.
pub open spec fn next_differing(r2c: Seq<int>, rx: int, from: int) -> int
    decreases r2c.len() - from,
{
    if !(0 <= rx < from < r2c.len()) {
        1
    } else if r2c[from] != r2c[rx] {
        r2c[from] - r2c[rx]
    } else {
        next_differing(r2c, rx, from + 1)
    }
}

/// In a map that never falls, as that of every laid-out row, the size of a
/// character is the distance to the next entry that differs.
pub proof fn lemma_size_is_next_differing(r2c: Seq<int>, rx: int, from: int)
    requires
        nondecreasing(r2c),
    ensures
        size_from(r2c, rx, from) == next_differing(r2c, rx, from),
    decreases r2c.len() - from,
{
    if 0 <= rx < from < r2c.len() && r2c[from] == r2c[rx] {
        lemma_size_is_next_differing(r2c, rx, from + 1);
    }
}

/// Whether a character is an ASCII control character.
pub open spec fn is_control(c: char) -> bool {
    c as u32 <= 31 || c as u32 == 127
}

/// The printable stand-in of a control character: `@`, `A`, `B` and so on
/// for the first 26, `?` for the others.
pub open spec fn control_picture(c: char) -> char {
    if (c as u32) < 26 {
        (64 + c as u32) as char
    } else {
        '?'
    }
}

/// Nothing, or the escape sequence of a colour.
pub open spec fn escape_if(wanted: bool, color: Color) -> Seq<char> {
    if wanted {
        color.escape()
    } else {
        Seq::empty()
    }
}

impl RowView {
    /// Whether column `rx` lies in the search match.
    pub open spec fn in_match(self, rx: int) -> bool {
        self.match_range matches Some(r) && r.0 <= rx < r.1
    }

    /// Whether column `rx` is the first one after the search match.
    pub open spec fn after_match(self, rx: int) -> bool {
        self.match_range matches Some(r) && !(r.0 <= rx < r.1) && rx == r.1
    }

    /// The colour in which the `k`-th character is shown: that of a search
    /// match where it stands in one, else the `k`-th colour.
    pub open spec fn shown_color(self, k: int) -> Color {
        if self.in_match(self.cols[k]) {
            Color::CyanBG
        } else {
            self.hl[k]
        }
    }

    /// What is drawn for the `k`-th character when the terminal stands in
    /// colour `cur`, and the colour in which it stands afterwards.
    ///
    /// A control character is drawn in reverse video as its printable
    /// stand-in, after which the colour is restored. Any other character is
    /// preceded by a reset at the first column after a search match, and by
    /// its colour where that differs from the current one.
    pub open spec fn cell(self, k: int, cur: Color) -> (Seq<char>, Color) {
        let c = self.render[k];
        if is_control(c) {
            (
                REVERSE_VIDEO@ + seq![control_picture(c)] + RESET_FMT@ + escape_if(
                    cur != Color::Default,
                    cur,
                ),
                cur,
            )
        } else {
            let color = self.shown_color(k);
            let reset = if self.after_match(self.cols[k]) {
                RESET_FMT@
            } else {
                Seq::empty()
            };
            (reset + escape_if(cur != color, color) + seq![c], color)
        }
    }

    /// What is drawn for the characters from `k` up to `end`, and the final
    /// reset.
    pub open spec fn cells_from(self, k: int, end: int, cur: Color) -> Seq<char>
        decreases end - k,
    {
        if k >= end {
            RESET_FMT@
        } else {
            self.cell(k, cur).0 + self.cells_from(k + 1, end, self.cell(k, cur).1)
        }
    }

    /// The index after the last character drawn when at most `max_len`
    /// characters are drawn from `offset` on: no character without a colour
    /// and a column is drawn.
    pub open spec fn draw_end(self, offset: int, max_len: int) -> int {
        let have = if self.hl.len() < self.render.len() {
            self.hl.len() as int
        } else {
            self.render.len() as int
        };
        let have = if self.cols.len() < have {
            self.cols.len() as int
        } else {
            have
        };
        if offset + max_len < have {
            offset + max_len
        } else {
            have
        }
    }

    /// What drawing the row appends to the screen buffer: at most `max_len`
    /// characters from the `offset`-th on, each in its colour, and a final
    /// reset.
    pub open spec fn drawn(self, offset: int, max_len: int) -> Seq<char> {
        self.cells_from(offset, self.draw_end(offset, max_len), Color::Default)
    }

    /// The row after it has been laid out for the tab stop `tab` and
    /// coloured by `rules`, the highlighter entering it in state `st`: its
    /// bytes and its search match stay, everything else is computed anew
    /// from the bytes.
    pub open spec fn updated(self, rules: SyntaxConfig, st: HlState, tab: int) -> RowView {
        let l = layout_of(glyphs(self.chars), tab);
        let p = paint(utf8(l.render), rules, st);
        RowView {
            chars: self.chars,
            render: l.render,
            cols: l.cols,
            c2r: l.c2r,
            r2c: l.r2c,
            hl: p.0,
            hl_state: p.1,
            match_range: self.match_range,
        }
    }

    /// Whether what is shown, the maps and the number of colours fit the
    /// row's bytes for the tab stop `tab`.
    pub open spec fn laid_out(self, tab: int) -> bool {
        let l = layout_of(glyphs(self.chars), tab);
        &&& self.render == l.render
        &&& self.cols == l.cols
        &&& self.c2r == l.c2r
        &&& self.r2c == l.r2c
        &&& self.hl.len() == utf8(self.render).len()
    }

    /// Whether the two maps have the shape that every laid-out row has.
    pub open spec fn maps_fit(self) -> bool {
        &&& self.c2r.len() == self.chars.len() + 1
        &&& nondecreasing(self.c2r)
        &&& self.c2r.last() == self.r2c.len() - 1
        &&& self.r2c.len() >= 1
        &&& nondecreasing(self.r2c)
        &&& self.r2c.last() == self.chars.len()
        &&& forall|i: int| 0 <= i < self.c2r.len() ==> 0 <= #[trigger] self.c2r[i] < self.r2c.len()
        &&& forall|i: int| 0 <= i < self.r2c.len() ==> 0 <= #[trigger] self.r2c[i] < self.c2r.len()
        &&& self.cols.len() == self.render.len()
    }
}

/// A laid-out row has one `c2r` entry per byte and one more, which is the
/// total width; one `r2c` entry per column and one more, which is the
/// number of bytes; and neither map ever falls.
pub proof fn lemma_laid_out_maps(v: RowView, tab: int)
    requires
        tab > 0,
        v.laid_out(tab),
    ensures
        v.maps_fit(),
{
    lemma_glyphs_cover(v.chars, 0);
    lemma_layout_maps(glyphs(v.chars), tab);
    crate::layout::lemma_lay_shape(glyphs(v.chars), tab);
}

/// An updated row is laid out, and so its maps fit.
pub proof fn lemma_updated_laid_out(v: RowView, rules: SyntaxConfig, st: HlState, tab: int)
    requires
        tab > 0,
        rules.well_formed(),
    ensures
        v.updated(rules, st, tab).laid_out(tab),
        v.updated(rules, st, tab).maps_fit(),
        v.updated(rules, st, tab).hl_state !is String,
{
    let l = layout_of(glyphs(v.chars), tab);
    lemma_paint_from_len(utf8(l.render), rules, 0, st, Color::Default);
    lemma_laid_out_maps(v.updated(rules, st, tab), tab);
}

/// Updating a row a second time, with the same rules, incoming state and
/// tab stop, changes nothing: the colours, the end state and all else stay
/// as the first update left them.
pub proof fn lemma_update_idempotent(v: RowView, rules: SyntaxConfig, st: HlState, tab: int)
    ensures
        v.updated(rules, st, tab).updated(rules, st, tab) == v.updated(rules, st, tab),
{
}

impl Row {
    /// A row with the given bytes that has not been laid out yet.
    pub fn new(chars: Vec<u8>) -> (row: Row)
        ensures
            row.chars == chars,
            row.render@.len() == 0,
            row.cols@.len() == 0,
            row.c2r@ == seq![0usize],
            row.r2c@.len() == 0,
            row.hl@.len() == 0,
            row.hl_state == HlState::Normal,
            row.match_range is None,
    {
        let mut c2r: Vec<usize> = Vec::new();
        c2r.push(0);
        Row {
            chars,
            render: String::new(),
            cols: Vec::new(),
            c2r,
            r2c: Vec::new(),
            hl: Vec::new(),
            hl_state: HlState::Normal,
            match_range: None,
        }
    }

    /// Whether a byte separates words: ASCII whitespace, NUL, or ASCII
    /// punctuation other than the underscore.
    pub fn is_sep(c: u8) -> (r: bool)
        ensures
            r == is_separator(c),
    {
        is_sep(c)
    }

    /// The size in bytes of the character at render column `rx`: the
    /// distance from the column's entry in `r2c` to the first later entry
    /// that lies beyond it, and 1 where there is none (as at the sentinel
    /// and past it).
    pub fn get_char_size(&self, rx: usize) -> (n: usize)
        ensures
            n == char_size(self@.r2c, rx as int),
            n >= 1,
    {
        proof {
            lemma_size_positive(self@.r2c, rx as int, rx + 1);
        }
        if rx >= self.r2c.len() {
            return 1;
        }
        let here = self.r2c[rx];
        let mut j: usize = rx + 1;
        while j < self.r2c.len()
            invariant
                rx < j <= self.r2c.len(),
                here == self.r2c@[rx as int],
                char_size(self@.r2c, rx as int) == size_from(self@.r2c, rx as int, j as int),
            decreases self.r2c.len() - j,
        {
            if self.r2c[j] > here {
                return self.r2c[j] - here;
            }
            j += 1;
        }
        1
    }

    /// Lays the row out anew and colours it.
    ///
    /// `hl_state` is the state in which the row before ends (`Normal` for
    /// the first row), `tab` the tab stop. Afterwards the row is
    /// `old@.updated(..)`: `render`, the maps and the colours are computed
    /// from `chars`, which stay as they are, as does `match_range`. Returns
    /// the state in which the row ends.
    pub fn update(&mut self, syntax: &SyntaxConfig, hl_state: HlState, tab: usize) -> (end: HlState)
        requires
            syntax.well_formed(),
            tab > 0,
        ensures
            final(self)@ == old(self)@.updated(*syntax, hl_state, tab as int),
            final(self).chars == old(self).chars,
            final(self).match_range == old(self).match_range,
            end == final(self).hl_state,
            final(self)@.laid_out(tab as int),
            final(self)@.maps_fit(),
            end !is String,
    {
        let glyphs = decode(self.chars.as_slice());
        let laid = layout(glyphs.as_slice(), tab);
        let (colors, end) = highlight(laid.render.as_str().as_bytes(), syntax, hl_state);
        proof {
            lemma_updated_laid_out(self@, *syntax, hl_state, tab as int);
        }
        self.render = laid.render;
        self.cols = laid.cols;
        self.c2r = laid.c2r;
        self.r2c = laid.r2c;
        self.hl = colors;
        self.hl_state = end;
        end
    }

    /// Whether what is shown, the maps and the number of colours fit the
    /// row's bytes for the tab stop `tab`.
    pub fn is_laid_out(&self, tab: usize) -> (r: bool)
        requires
            tab > 0,
        ensures
            r == self@.laid_out(tab as int),
    {
        let glyphs = decode(self.chars.as_slice());
        let laid = layout(glyphs.as_slice(), tab);
        self.render == laid.render && same_numbers(&self.cols, &laid.cols) && same_numbers(
            &self.c2r,
            &laid.c2r,
        ) && same_numbers(&self.r2c, &laid.r2c) && self.hl.len()
            == self.render.as_str().as_bytes().len()
    }

    /// Draws the row into the screen buffer.
    ///
    /// Appends `self@.drawn(offset, max_len)` to `buffer`: at most `max_len`
    /// of the characters shown, from the `offset`-th on, with the escape
    /// sequences that switch colours, and a final reset. Never fails.
    pub fn draw(&self, offset: usize, max_len: usize, buffer: &mut String) -> (r: Result<(), String>)
        ensures
            r is Ok,
            final(buffer)@ == old(buffer)@ + self@.drawn(offset as int, max_len as int),
    {
        let chars = chars_of(self.render.as_str());
        let mut end = chars.len();
        if self.hl.len() < end {
            end = self.hl.len();
        }
        if self.cols.len() < end {
            end = self.cols.len();
        }
        if offset < end && max_len < end - offset {
            end = offset + max_len;
        }
        let ghost stop = self@.draw_end(offset as int, max_len as int);
        assert(offset < end ==> stop == end);
        assert(offset >= end ==> stop <= offset);
        let mut cur = Color::Default;
        let mut k = offset;
        while k < end
            invariant
                offset <= k,
                k <= end || offset >= end,
                end <= chars.len(),
                end <= self.hl.len(),
                end <= self.cols.len(),
                chars@ == self.render@,
                offset < end ==> stop == end,
                offset >= end ==> stop <= offset,
                old(buffer)@ + self@.drawn(offset as int, max_len as int) == buffer@
                    + self@.cells_from(k as int, stop, cur),
                stop == self@.draw_end(offset as int, max_len as int),
            decreases end - k,
        {
            let c = chars[k];
            let rx = self.cols[k];
            let ghost before = buffer@;
            let ghost was = cur;
            let ghost piece = self@.cell(k as int, cur);
            let code = c as u32;
            if code <= 31 || code == 127 {
                let picture = if code < 26 {
                    (64 + code as u8) as char
                } else {
                    '?'
                };
                buffer.append(REVERSE_VIDEO);
                push_char(buffer, picture);
                buffer.append(RESET_FMT);
                if cur != Color::Default {
                    cur.write_to(buffer);
                }
            } else {
                let mut color = self.hl[k];
                match &self.match_range {
                    Some(range) => {
                        if range.start <= rx && rx < range.end {
                            color = Color::CyanBG;
                        } else if rx == range.end {
                            buffer.append(RESET_FMT);
                        }
                    },
                    None => {},
                }
                if cur != color {
                    color.write_to(buffer);
                    cur = color;
                }
                push_char(buffer, c);
            }
            assert(buffer@ =~= before + piece.0);
            assert(cur == piece.1);
            assert(before + self@.cells_from(k as int, stop, was) =~= (before + piece.0)
                + self@.cells_from(k + 1, stop, piece.1));
            k += 1;
        }
        buffer.append(RESET_FMT);
        assert(self@.cells_from(k as int, stop, cur) == RESET_FMT@);
        Ok(())
    }
}

} // verus!
