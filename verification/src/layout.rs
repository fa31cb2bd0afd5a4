//! Laying a row out on screen columns.
//!
//! Each glyph starts at a render column. A tab runs to the next tab stop and
//! is shown as spaces; any other glyph takes its own width. Two maps tie the
//! row's bytes to the columns: `c2r` gives, for every byte offset, the column
//! at which its glyph starts, and `r2c` gives, for every column, the byte
//! offset at which its glyph starts. Both end in a sentinel: the total width
//! and the total number of bytes.

use vstd::prelude::*;
use crate::glyph::{Glyph, all_solid, total_len};
use crate::text::push_char;

verus! {

/// The layout of a run of glyphs, as mathematical sequences.
#[verifier::ext_equal]
pub struct Layout {
    /// The characters shown.
    pub render: Seq<char>,
    /// For each character shown, the column at which it stands.
    pub cols: Seq<int>,
    /// For each byte offset, the column at which its glyph starts.
    pub c2r: Seq<int>,
    /// For each column, the byte offset at which its glyph starts.
    pub r2c: Seq<int>,
}

/// The columns that glyph `g` takes when it starts at column `rx`.
pub open spec fn span(g: Glyph, rx: int, tab: int) -> int {
    if g.ch == '\t' {
        tab - rx % tab
    } else {
        g.width as int
    }
}

/// The characters shown for glyph `g` at column `rx`.
pub open spec fn shown(g: Glyph, rx: int, tab: int) -> Seq<char> {
    if g.ch == '\t' {
        Seq::new(span(g, rx, tab) as nat, |j: int| ' ')
    } else {
        seq![g.ch]
    }
}

/// The columns of the characters shown for glyph `g` at column `rx`.
pub open spec fn shown_cols(g: Glyph, rx: int, tab: int) -> Seq<int> {
    if g.ch == '\t' {
        Seq::new(span(g, rx, tab) as nat, |j: int| rx + j)
    } else {
        seq![rx]
    }
}

/// The layout of a run of glyphs, without the sentinels: the layout of all
/// but the last glyph, followed by the last glyph at the column and byte
/// offset reached so far.
pub open spec fn lay(gs: Seq<Glyph>, tab: int) -> Layout
    decreases gs.len(),
{
    if gs.len() == 0 {
        Layout { render: Seq::empty(), cols: Seq::empty(), c2r: Seq::empty(), r2c: Seq::empty() }
    } else {
        let p = lay(gs.drop_last(), tab);
        let g = gs.last();
        let rx = p.r2c.len() as int;
        let cx = p.c2r.len() as int;
        Layout {
            render: p.render + shown(g, rx, tab),
            cols: p.cols + shown_cols(g, rx, tab),
            c2r: p.c2r + Seq::new(g.len as nat, |j: int| rx),
            r2c: p.r2c + Seq::new(span(g, rx, tab) as nat, |j: int| cx),
        }
    }
}

impl Layout {
    /// The layout with its two sentinels: the total width ends `c2r`, the
    /// total number of bytes ends `r2c`.
    pub open spec fn sealed(self) -> Layout {
        Layout {
            render: self.render,
            cols: self.cols,
            c2r: self.c2r.push(self.r2c.len() as int),
            r2c: self.r2c.push(self.c2r.len() as int),
        }
    }
}

/// The complete layout of a run of glyphs.
pub open spec fn layout_of(gs: Seq<Glyph>, tab: int) -> Layout {
    lay(gs, tab).sealed()
}

/// A sequence that never falls.
pub open spec fn nondecreasing(s: Seq<int>) -> bool {
    forall|i: int, j: int| 0 <= i <= j < s.len() ==> s[i] <= s[j]
}

/// The shape of a layout without sentinels: `c2r` has one entry per byte,
/// every entry of either map lies within the other, and neither map falls.
pub proof fn lemma_lay_shape(gs: Seq<Glyph>, tab: int)
    requires
        tab > 0,
    ensures
        lay(gs, tab).c2r.len() == total_len(gs),
        lay(gs, tab).cols.len() == lay(gs, tab).render.len(),
        forall|i: int| 0 <= i < lay(gs, tab).c2r.len() ==> 0 <= #[trigger] lay(gs, tab).c2r[i] <= lay(gs, tab).r2c.len(),
        forall|i: int| 0 <= i < lay(gs, tab).r2c.len() ==> 0 <= #[trigger] lay(gs, tab).r2c[i] <= lay(gs, tab).c2r.len(),
        forall|i: int| 0 <= i < lay(gs, tab).cols.len() ==> 0 <= #[trigger] lay(gs, tab).cols[i] <= lay(gs, tab).r2c.len(),
        nondecreasing(lay(gs, tab).c2r),
        nondecreasing(lay(gs, tab).r2c),
    decreases gs.len(),
{
    if gs.len() > 0 {
        lemma_lay_shape(gs.drop_last(), tab);
        let p = lay(gs.drop_last(), tab);
        let g = gs.last();
        let rx = p.r2c.len() as int;
        assert(0 <= rx % tab < tab) by (nonlinear_arith)
            requires
                tab > 0,
                rx >= 0,
        ;
        assert(span(g, rx, tab) >= 0);
    }
}

/// In the layout of glyphs that each stand for a byte and take a column,
/// the two maps invert each other up to the start of a glyph: the column of
/// a byte leads back to a byte offset at or before it, and the byte offset
/// of a column leads back to a column at or before it.
pub proof fn lemma_lay_inverse(gs: Seq<Glyph>, tab: int)
    requires
        tab > 0,
        all_solid(gs),
    ensures
        forall|i: int| #![trigger lay(gs, tab).c2r[i]]
            0 <= i < lay(gs, tab).c2r.len() ==> 0 <= lay(gs, tab).c2r[i] < lay(gs, tab).r2c.len()
                && lay(gs, tab).r2c[lay(gs, tab).c2r[i]] <= i,
        forall|x: int| #![trigger lay(gs, tab).r2c[x]]
            0 <= x < lay(gs, tab).r2c.len() ==> 0 <= lay(gs, tab).r2c[x] < lay(gs, tab).c2r.len()
                && lay(gs, tab).c2r[lay(gs, tab).r2c[x]] <= x,
    decreases gs.len(),
{
    if gs.len() > 0 {
        assert(all_solid(gs.drop_last())) by {
            assert forall|k: int| 0 <= k < gs.drop_last().len() implies (#[trigger] gs.drop_last()[k]).len >= 1
                && gs.drop_last()[k].width >= 1 by {
                assert(gs.drop_last()[k] == gs[k]);
            }
        }
        lemma_lay_inverse(gs.drop_last(), tab);
        lemma_lay_shape(gs.drop_last(), tab);
        let p = lay(gs.drop_last(), tab);
        let g = gs.last();
        assert(g.len >= 1 && g.width >= 1);
        let rx = p.r2c.len() as int;
        assert(0 <= rx % tab < tab) by (nonlinear_arith)
            requires
                tab > 0,
                rx >= 0,
        ;
        assert(span(g, rx, tab) >= 1);
    }
}

/// The maps of a complete layout: `c2r` has one entry per byte and one
/// more, never falls and ends in the total width; `r2c` has one entry per
/// column and one more, never falls and ends in the total number of bytes.
pub proof fn lemma_layout_maps(gs: Seq<Glyph>, tab: int)
    requires
        tab > 0,
    ensures
        layout_of(gs, tab).c2r.len() == total_len(gs) + 1,
        nondecreasing(layout_of(gs, tab).c2r),
        layout_of(gs, tab).c2r.last() == layout_of(gs, tab).r2c.len() - 1,
        nondecreasing(layout_of(gs, tab).r2c),
        layout_of(gs, tab).r2c.last() == total_len(gs),
        forall|i: int| 0 <= i < layout_of(gs, tab).c2r.len() ==> 0 <= #[trigger] layout_of(gs, tab).c2r[i] < layout_of(gs, tab).r2c.len(),
        forall|i: int| 0 <= i < layout_of(gs, tab).r2c.len() ==> 0 <= #[trigger] layout_of(gs, tab).r2c[i] < layout_of(gs, tab).c2r.len(),
{
    lemma_lay_shape(gs, tab);
}

/// A laid-out row: what `layout` returns.
pub struct Laid {
    /// The characters shown.
    pub render: String,
    /// For each character shown, the column at which it stands.
    pub cols: Vec<usize>,
    /// For each byte offset, the column of its glyph; then the total width.
    pub c2r: Vec<usize>,
    /// For each column, the byte offset of its glyph; then the total bytes.
    pub r2c: Vec<usize>,
}

/// A sequence of machine integers as mathematical integers.
pub open spec fn ints(s: Seq<usize>) -> Seq<int> {
    s.map_values(|x: usize| x as int)
}

impl View for Laid {
    type V = Layout;

    open spec fn view(&self) -> Layout {
        Layout {
            render: self.render@,
            cols: ints(self.cols@),
            c2r: ints(self.c2r@),
            r2c: ints(self.r2c@),
        }
    }
}

proof fn lemma_ints_push(s: Seq<usize>, x: usize)
    ensures
        ints(s.push(x)) == ints(s).push(x as int),
{
    assert(ints(s.push(x)) =~= ints(s).push(x as int));
}

/// Whether two lists of numbers are the same.
pub fn same_numbers(a: &Vec<usize>, b: &Vec<usize>) -> (r: bool)
    ensures
        r == (ints(a@) == ints(b@)),
{
    if a.len() != b.len() {
        assert(ints(a@).len() != ints(b@).len());
        return false;
    }
    let mut k: usize = 0;
    while k < a.len()
        invariant
            k <= a.len(),
            a.len() == b.len(),
            forall|j: int| 0 <= j < k ==> a@[j] == b@[j],
        decreases a.len() - k,
    {
        if a[k] != b[k] {
            assert(ints(a@)[k as int] != ints(b@)[k as int]);
            return false;
        }
        k += 1;
    }
    assert(ints(a@) =~= ints(b@));
    true
}

/// Appends `n` copies of `x`.
fn push_copies(v: &mut Vec<usize>, x: usize, n: usize)
    ensures
        ints(final(v)@) == ints(old(v)@) + Seq::new(n as nat, |j: int| x as int),
        final(v)@.len() == old(v)@.len() + n,
{
    let mut j: usize = 0;
    while j < n
        invariant
            j <= n,
            ints(v@) == ints(old(v)@) + Seq::new(j as nat, |k: int| x as int),
            v@.len() == old(v)@.len() + j,
        decreases n - j,
    {
        proof {
            lemma_ints_push(v@, x);
        }
        v.push(x);
        j += 1;
        assert(ints(v@) =~= ints(old(v)@) + Seq::new(j as nat, |k: int| x as int));
    }
}

/// Appends `n` spaces to `render` and their columns, from `rx` on, to `cols`.
fn push_blanks(render: &mut String, cols: &mut Vec<usize>, rx: usize, n: usize)
    requires
        rx + n <= usize::MAX,
    ensures
        final(render)@ == old(render)@ + Seq::new(n as nat, |j: int| ' '),
        ints(final(cols)@) == ints(old(cols)@) + Seq::new(n as nat, |j: int| rx + j),
{
    let mut j: usize = 0;
    while j < n
        invariant
            j <= n,
            rx + n <= usize::MAX,
            render@ == old(render)@ + Seq::new(j as nat, |k: int| ' '),
            ints(cols@) == ints(old(cols)@) + Seq::new(j as nat, |k: int| rx + k),
        decreases n - j,
    {
        push_char(render, ' ');
        proof {
            lemma_ints_push(cols@, (rx + j) as usize);
        }
        cols.push(rx + j);
        j += 1;
        assert(render@ =~= old(render)@ + Seq::new(j as nat, |k: int| ' '));
        assert(ints(cols@) =~= ints(old(cols)@) + Seq::new(j as nat, |k: int| rx + k));
    }
}

/// Lays a run of glyphs out for the given tab stop.
///
/// The result is exactly `layout_of(glyphs@, tab)`.
pub fn layout(glyphs: &[Glyph], tab: usize) -> (out: Laid)
    requires
        tab > 0,
    ensures
        out@ == layout_of(glyphs@, tab as int),
{
    let mut out = Laid {
        render: String::new(),
        cols: Vec::new(),
        c2r: Vec::new(),
        r2c: Vec::new(),
    };
    let mut k: usize = 0;
    assert(glyphs@.take(0) =~= Seq::<Glyph>::empty());
    assert(out@ =~= lay(glyphs@.take(0), tab as int));
    while k < glyphs.len()
        invariant
            k <= glyphs.len(),
            tab > 0,
            out@ == lay(glyphs@.take(k as int), tab as int),
        decreases glyphs.len() - k,
    {
        let g = glyphs[k];
        let rx = out.r2c.len();
        let cx = out.c2r.len();
        let ghost before = out@;
        proof {
            assert(glyphs@.take(k + 1).drop_last() =~= glyphs@.take(k as int));
            assert(glyphs@.take(k + 1).last() == g);
            assert(before.r2c.len() == rx && before.c2r.len() == cx);
        }
        if g.ch == '\t' {
            let n = tab - rx % tab;
            push_copies(&mut out.r2c, cx, n);
            let reached = out.r2c.len();
            assert(rx + n == reached);
            push_blanks(&mut out.render, &mut out.cols, rx, n);
        } else {
            push_copies(&mut out.r2c, cx, g.width);
            push_char(&mut out.render, g.ch);
            proof {
                lemma_ints_push(out.cols@, rx);
            }
            out.cols.push(rx);
            assert(ints(out.cols@) =~= before.cols + seq![rx as int]);
        }
        push_copies(&mut out.c2r, rx, g.len);
        k += 1;
        assert(out@ =~= lay(glyphs@.take(k as int), tab as int));
    }
    assert(glyphs@.take(k as int) =~= glyphs@);
    let width = out.r2c.len();
    let bytes = out.c2r.len();
    proof {
        lemma_ints_push(out.c2r@, width);
        lemma_ints_push(out.r2c@, bytes);
    }
    out.c2r.push(width);
    out.r2c.push(bytes);
    assert(out@ =~= layout_of(glyphs@, tab as int));
    out
}

} // verus!
