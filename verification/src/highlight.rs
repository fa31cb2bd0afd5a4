//! The highlighter: one colour for every byte of a rendered row.
//!
//! The scan runs left to right and carries a state. At each position the
//! first rule that applies paints one or more bytes: a line comment, a block
//! comment or block string, a single-line string, a number, a keyword, and
//! else the default colour.

use vstd::prelude::*;
use crate::color::Color;
use crate::syntax::{HlState, SyntaxConfig, utf8};
use crate::text::{occurs_at, starts_at};

verus! {

/// Whether a byte separates words: ASCII whitespace, NUL, or ASCII
/// punctuation other than the underscore.
pub open spec fn is_separator(c: u8) -> bool {
    ||| c == 0
    ||| c == 9 || c == 10 || c == 12 || c == 13 || c == 32
    ||| (33 <= c <= 47 || 58 <= c <= 64 || 91 <= c <= 96 || 123 <= c <= 126) && c != 95
}

/// Whether a byte separates words.
pub fn is_sep(c: u8) -> (r: bool)
    ensures
        r == is_separator(c),
{
    c == 0 || c == 9 || c == 10 || c == 12 || c == 13 || c == 32 || ((33 <= c && c <= 47 || 58
        <= c && c <= 64 || 91 <= c && c <= 96 || 123 <= c && c <= 126) && c != 95)
}

/// Whether a byte is an ASCII digit.
pub open spec fn is_digit(c: u8) -> bool {
    48 <= c <= 57
}

/// What one step of the scan paints: `count` bytes in `color`, after which
/// the scan stands in `state`.
pub struct Stroke {
    pub color: Color,
    pub count: int,
    pub state: HlState,
}

/// Whether one of the line-comment markers occurs at `i`.
pub open spec fn marker_at(line: Seq<u8>, i: int, markers: Seq<String>) -> bool {
    exists|k: int| 0 <= k < markers.len() && occurs_at(line, utf8(#[trigger] markers[k]@), i)
}

/// The stroke of a block construct at `i`, if it has one: inside the block
/// its closing delimiter, or else one more byte of it; in plain code its
/// opening delimiter.
pub open spec fn block_stroke(
    line: Seq<u8>,
    i: int,
    st: HlState,
    opening: Seq<u8>,
    closing: Seq<u8>,
    inside: HlState,
    color: Color,
) -> Option<Stroke> {
    if st == inside {
        if occurs_at(line, closing, i) {
            Some(Stroke { color, count: closing.len() as int, state: HlState::Normal })
        } else {
            Some(Stroke { color, count: 1, state: inside })
        }
    } else if st == HlState::Normal && occurs_at(line, opening, i) {
        Some(Stroke { color, count: opening.len() as int, state: inside })
    } else {
        None
    }
}

/// The stroke of the block comment at `i`, if the rules have one and it
/// applies.
pub open spec fn comment_stroke(line: Seq<u8>, rules: SyntaxConfig, i: int, st: HlState) -> Option<
    Stroke,
> {
    match rules.mlcomment_delims {
        Some(d) => block_stroke(
            line,
            i,
            st,
            utf8(d.0@),
            utf8(d.1@),
            HlState::MlComment,
            Color::Blue,
        ),
        None => None,
    }
}

/// The stroke of the block string at `i`, if the rules have one and it
/// applies.
pub open spec fn text_stroke(line: Seq<u8>, rules: SyntaxConfig, i: int, st: HlState) -> Option<
    Stroke,
> {
    match rules.mlstring_delims {
        Some(d) => block_stroke(line, i, st, utf8(d@), utf8(d@), HlState::MlString, Color::Green),
        None => None,
    }
}

/// Whether the byte is one of the quote characters.
pub open spec fn is_quote(quotes: Seq<char>, c: u8) -> bool {
    exists|k: int| 0 <= k < quotes.len() && #[trigger] quotes[k] == c as char
}

/// Whether the keyword stands at `i`: it is not empty, occurs there, and is
/// followed by a separator or by the end of the row.
pub open spec fn keyword_hit(line: Seq<u8>, i: int, kw: Seq<u8>) -> bool {
    &&& kw.len() > 0
    &&& occurs_at(line, kw, i)
    &&& (i + kw.len() == line.len() || is_separator(line[i + kw.len()]))
}

/// The length of the first keyword of `kws`, from index `from` on, that
/// stands at `i`.
pub open spec fn first_hit(line: Seq<u8>, i: int, kws: Seq<String>, from: int) -> Option<int>
    decreases kws.len() - from,
{
    if from < 0 || from >= kws.len() {
        None
    } else if keyword_hit(line, i, utf8(kws[from]@)) {
        Some(utf8(kws[from]@).len() as int)
    } else {
        first_hit(line, i, kws, from + 1)
    }
}

/// The colour and length of the first keyword that stands at `i`, the
/// classes from index `from` on taken in their order and each class's
/// keywords in theirs.
pub open spec fn class_hit(
    line: Seq<u8>,
    i: int,
    classes: Seq<(Color, Vec<String>)>,
    from: int,
) -> Option<(Color, int)>
    decreases classes.len() - from,
{
    if from < 0 || from >= classes.len() {
        None
    } else {
        match first_hit(line, i, classes[from].1@, 0) {
            Some(n) => Some((classes[from].0, n)),
            None => class_hit(line, i, classes, from + 1),
        }
    }
}

/// The stroke at position `i` of `line`, a valid index, when the scan
/// stands in state `st` and the byte before was painted `prev`.
pub open spec fn stroke_at(line: Seq<u8>, rules: SyntaxConfig, i: int, st: HlState, prev: Color) -> Stroke {
    let c = line[i];
    let after_sep = i == 0 || is_separator(line[i - 1]);
    if st == HlState::Normal && marker_at(line, i, rules.slcomment_start@) {
        Stroke { color: Color::Blue, count: line.len() - i, state: st }
    } else if comment_stroke(line, rules, i, st) is Some {
        comment_stroke(line, rules, i, st)->0
    } else if text_stroke(line, rules, i, st) is Some {
        text_stroke(line, rules, i, st)->0
    } else if st is String {
        if c == st->0 {
            Stroke { color: Color::Green, count: 1, state: HlState::Normal }
        } else if c == 92 && i != line.len() - 1 {
            Stroke { color: Color::Green, count: 2, state: st }
        } else {
            Stroke { color: Color::Green, count: 1, state: st }
        }
    } else if is_quote(rules.slstring_quotes@, c) {
        Stroke { color: Color::Green, count: 1, state: HlState::String(c) }
    } else if rules.highlight_numbers && ((is_digit(c) && after_sep) || (i > 0 && prev == Color::Red
        && !is_separator(c))) {
        Stroke { color: Color::Red, count: 1, state: st }
    } else if after_sep && class_hit(line, i, rules.keywords@, 0) is Some {
        let hit = class_hit(line, i, rules.keywords@, 0)->0;
        Stroke { color: hit.0, count: hit.1, state: st }
    } else {
        Stroke { color: Color::Default, count: 1, state: st }
    }
}

/// `n` bytes of one colour.
pub open spec fn run(color: Color, n: int) -> Seq<Color> {
    Seq::new(n as nat, |j: int| color)
}

/// The colours of `line` from `i` on and the state at its end, when the
/// scan stands at `i` in state `st` and the byte before was painted `prev`.
pub open spec fn paint_from(
    line: Seq<u8>,
    rules: SyntaxConfig,
    i: int,
    st: HlState,
    prev: Color,
) -> (Seq<Color>, HlState)
    decreases line.len() - i,
    when rules.well_formed()
{
    if 0 <= i < line.len() {
        let s = stroke_at(line, rules, i, st, prev);
        proof {
            lemma_stroke_bounds(line, rules, i, st, prev);
        }
        let rest = paint_from(line, rules, i + s.count, s.state, s.color);
        (run(s.color, s.count) + rest.0, rest.1)
    } else {
        (Seq::empty(), st)
    }
}

/// The colours of a rendered row and the state it hands to the next row,
/// when the scan enters it in state `st`.
pub open spec fn paint(line: Seq<u8>, rules: SyntaxConfig, st: HlState) -> (Seq<Color>, HlState) {
    let p = paint_from(line, rules, 0, st, Color::Default);
    (p.0, p.1.carried())
}

/// A keyword that stands at `i` is not empty and ends within the row.
pub proof fn lemma_first_hit(line: Seq<u8>, i: int, kws: Seq<String>, from: int)
    requires
        0 <= i < line.len(),
    ensures
        first_hit(line, i, kws, from) matches Some(n) ==> 1 <= n <= line.len() - i,
    decreases kws.len() - from,
{
    if 0 <= from < kws.len() && !keyword_hit(line, i, utf8(kws[from]@)) {
        lemma_first_hit(line, i, kws, from + 1);
    }
}

/// A keyword of any class that stands at `i` is not empty and ends within
/// the row.
pub proof fn lemma_class_hit(line: Seq<u8>, i: int, classes: Seq<(Color, Vec<String>)>, from: int)
    requires
        0 <= i < line.len(),
    ensures
        class_hit(line, i, classes, from) matches Some(h) ==> 1 <= h.1 <= line.len() - i,
    decreases classes.len() - from,
{
    if 0 <= from < classes.len() {
        lemma_first_hit(line, i, classes[from].1@, 0);
        if first_hit(line, i, classes[from].1@, 0) is None {
            lemma_class_hit(line, i, classes, from + 1);
        }
    }
}

/// Every stroke paints at least one byte and stays within the row.
pub proof fn lemma_stroke_bounds(line: Seq<u8>, rules: SyntaxConfig, i: int, st: HlState, prev: Color)
    requires
        rules.well_formed(),
        0 <= i < line.len(),
    ensures
        1 <= stroke_at(line, rules, i, st, prev).count <= line.len() - i,
{
    lemma_class_hit(line, i, rules.keywords@, 0);
}

/// The highlighter gives every byte of the row one colour, and hands on a
/// state that is no single-line string.
pub proof fn lemma_paint_from_len(line: Seq<u8>, rules: SyntaxConfig, i: int, st: HlState, prev: Color)
    requires
        rules.well_formed(),
        0 <= i <= line.len(),
    ensures
        paint_from(line, rules, i, st, prev).0.len() == line.len() - i,
    decreases line.len() - i,
{
    if i < line.len() {
        lemma_stroke_bounds(line, rules, i, st, prev);
        let s = stroke_at(line, rules, i, st, prev);
        lemma_paint_from_len(line, rules, i + s.count, s.state, s.color);
    }
}

/// What one step of the scan paints, as the scan computes it.
#[derive(Clone, Copy, Debug)]
pub struct Step {
    pub color: Color,
    pub count: usize,
    pub state: HlState,
}

impl View for Step {
    type V = Stroke;

    open spec fn view(&self) -> Stroke {
        Stroke { color: self.color, count: self.count as int, state: self.state }
    }
}

/// The stroke, if there is one, as the scan computes it.
pub open spec fn step_view(s: Option<Step>) -> Option<Stroke> {
    match s {
        Some(s) => Some(s@),
        None => None,
    }
}

fn marker_here(line: &[u8], i: usize, markers: &Vec<String>) -> (r: bool)
    ensures
        r == marker_at(line@, i as int, markers@),
{
    let mut k: usize = 0;
    while k < markers.len()
        invariant
            k <= markers.len(),
            forall|j: int| 0 <= j < k ==> !occurs_at(line@, utf8(#[trigger] markers@[j]@), i as int),
        decreases markers.len() - k,
    {
        if starts_at(line, i, markers[k].as_str().as_bytes()) {
            return true;
        }
        k += 1;
    }
    false
}

fn block_here(
    line: &[u8],
    i: usize,
    st: HlState,
    opening: &[u8],
    closing: &[u8],
    inside: HlState,
    color: Color,
) -> (r: Option<Step>)
    ensures
        step_view(r) == block_stroke(line@, i as int, st, opening@, closing@, inside, color),
{
    if st == inside {
        if starts_at(line, i, closing) {
            Some(Step { color, count: closing.len(), state: HlState::Normal })
        } else {
            Some(Step { color, count: 1, state: inside })
        }
    } else if st == HlState::Normal && starts_at(line, i, opening) {
        Some(Step { color, count: opening.len(), state: inside })
    } else {
        None
    }
}

fn comment_here(line: &[u8], rules: &SyntaxConfig, i: usize, st: HlState) -> (r: Option<Step>)
    ensures
        step_view(r) == comment_stroke(line@, *rules, i as int, st),
{
    match &rules.mlcomment_delims {
        Some(d) => block_here(
            line,
            i,
            st,
            d.0.as_str().as_bytes(),
            d.1.as_str().as_bytes(),
            HlState::MlComment,
            Color::Blue,
        ),
        None => None,
    }
}

fn text_here(line: &[u8], rules: &SyntaxConfig, i: usize, st: HlState) -> (r: Option<Step>)
    ensures
        step_view(r) == text_stroke(line@, *rules, i as int, st),
{
    match &rules.mlstring_delims {
        Some(d) => block_here(
            line,
            i,
            st,
            d.as_str().as_bytes(),
            d.as_str().as_bytes(),
            HlState::MlString,
            Color::Green,
        ),
        None => None,
    }
}

fn quote_here(quotes: &Vec<char>, c: u8) -> (r: bool)
    ensures
        r == is_quote(quotes@, c),
{
    let mut k: usize = 0;
    while k < quotes.len()
        invariant
            k <= quotes.len(),
            forall|j: int| 0 <= j < k ==> #[trigger] quotes@[j] != c as char,
        decreases quotes.len() - k,
    {
        if quotes[k] == c as char {
            return true;
        }
        k += 1;
    }
    false
}

fn keyword_here(line: &[u8], i: usize, kws: &Vec<String>) -> (r: Option<usize>)
    requires
        i < line.len(),
    ensures
        match first_hit(line@, i as int, kws@, 0) {
            Some(n) => r == Some(n as usize) && 1 <= n <= line.len() - i,
            None => r is None,
        },
{
    let mut k: usize = 0;
    while k < kws.len()
        invariant
            k <= kws.len(),
            i < line.len(),
            first_hit(line@, i as int, kws@, 0) == first_hit(line@, i as int, kws@, k as int),
        decreases kws.len() - k,
    {
        let kw = kws[k].as_str().as_bytes();
        if kw.len() > 0 && starts_at(line, i, kw) && (i + kw.len() == line.len() || is_sep(
            line[i + kw.len()],
        )) {
            return Some(kw.len());
        }
        k += 1;
    }
    None
}

fn class_here(line: &[u8], i: usize, classes: &Vec<(Color, Vec<String>)>) -> (r: Option<
    (Color, usize),
>)
    requires
        i < line.len(),
    ensures
        match class_hit(line@, i as int, classes@, 0) {
            Some(h) => r == Some((h.0, h.1 as usize)) && 1 <= h.1 <= line.len() - i,
            None => r is None,
        },
{
    let mut k: usize = 0;
    while k < classes.len()
        invariant
            k <= classes.len(),
            i < line.len(),
            class_hit(line@, i as int, classes@, 0) == class_hit(line@, i as int, classes@, k as int),
        decreases classes.len() - k,
    {
        match keyword_here(line, i, &classes[k].1) {
            Some(n) => {
                return Some((classes[k].0, n));
            },
            None => {},
        }
        k += 1;
    }
    None
}

/// The stroke at position `i`.
pub fn stroke(line: &[u8], rules: &SyntaxConfig, i: usize, st: HlState, prev: Color) -> (s: Step)
    requires
        rules.well_formed(),
        i < line.len(),
    ensures
        s@ == stroke_at(line@, *rules, i as int, st, prev),
        1 <= s.count <= line.len() - i,
{
    proof {
        lemma_stroke_bounds(line@, *rules, i as int, st, prev);
    }
    if st == HlState::Normal && marker_here(line, i, &rules.slcomment_start) {
        return Step { color: Color::Blue, count: line.len() - i, state: st };
    }
    match comment_here(line, rules, i, st) {
        Some(s) => {
            return s;
        },
        None => {},
    }
    match text_here(line, rules, i, st) {
        Some(s) => {
            return s;
        },
        None => {},
    }
    let c = line[i];
    match st {
        HlState::String(q) => {
            if c == q {
                return Step { color: Color::Green, count: 1, state: HlState::Normal };
            } else if c == 92 && i != line.len() - 1 {
                return Step { color: Color::Green, count: 2, state: st };
            } else {
                return Step { color: Color::Green, count: 1, state: st };
            }
        },
        _ => {},
    }
    if quote_here(&rules.slstring_quotes, c) {
        return Step { color: Color::Green, count: 1, state: HlState::String(c) };
    }
    let after_sep = i == 0 || is_sep(line[i - 1]);
    if rules.highlight_numbers && ((48 <= c && c <= 57 && after_sep) || (i > 0 && prev == Color::Red
        && !is_sep(c))) {
        return Step { color: Color::Red, count: 1, state: st };
    }
    if after_sep {
        match class_here(line, i, &rules.keywords) {
            Some(hit) => {
                return Step { color: hit.0, count: hit.1, state: st };
            },
            None => {},
        }
    }
    Step { color: Color::Default, count: 1, state: st }
}

fn push_run(colors: &mut Vec<Color>, color: Color, n: usize)
    ensures
        final(colors)@ == old(colors)@ + run(color, n as int),
{
    let mut j: usize = 0;
    while j < n
        invariant
            j <= n,
            colors@ == old(colors)@ + run(color, j as int),
        decreases n - j,
    {
        colors.push(color);
        j += 1;
        assert(colors@ =~= old(colors)@ + run(color, j as int));
    }
}

/// Colours a rendered row.
///
/// Returns one colour for every byte of `line` and the state that the row
/// hands to the next one: exactly `paint(line@, *rules, state)`.
pub fn highlight(line: &[u8], rules: &SyntaxConfig, state: HlState) -> (r: (Vec<Color>, HlState))
    requires
        rules.well_formed(),
    ensures
        (r.0@, r.1) == paint(line@, *rules, state),
        r.0@.len() == line@.len(),
{
    let mut colors: Vec<Color> = Vec::new();
    let mut st = state;
    let mut prev = Color::Default;
    let mut i: usize = 0;
    let ghost whole = paint_from(line@, *rules, 0, state, Color::Default);
    assert(whole.0 =~= colors@ + whole.0);
    while i < line.len()
        invariant
            i <= line.len(),
            rules.well_formed(),
            whole == paint_from(line@, *rules, 0, state, Color::Default),
            whole.0 == colors@ + paint_from(line@, *rules, i as int, st, prev).0,
            whole.1 == paint_from(line@, *rules, i as int, st, prev).1,
        decreases line.len() - i,
    {
        let s = stroke(line, rules, i, st, prev);
        proof {
            let rest = paint_from(line@, *rules, i + s.count, s.state, s.color);
            assert((colors@ + run(s.color, s.count as int)) + rest.0 =~= colors@ + (run(
                s.color,
                s.count as int,
            ) + rest.0));
        }
        push_run(&mut colors, s.color, s.count);
        i += s.count;
        st = s.state;
        prev = s.color;
    }
    proof {
        lemma_paint_from_len(line@, *rules, 0, state, Color::Default);
        assert(whole.0 =~= colors@);
    }
    (colors, st.carry())
}

} // verus!
