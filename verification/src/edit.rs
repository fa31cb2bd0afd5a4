//! Editing the buffer: inserting and deleting bytes and rows.

use vstd::prelude::*;
use crate::editor::{Cursor, Editor, EditorView, all_laid_out, incoming, lemma_cascade, matches_of, texts, views};
use crate::keys::ArrowKey;
use crate::nav::{least, lemma_placed_wf};
use crate::row::{Row, RowView, lemma_laid_out_maps};
use crate::syntax::HlState;
use crate::text::{copy_bytes, remove_range, without};

verus! {

impl RowView {
    /// A row with the given bytes that has not been laid out yet.
    pub open spec fn fresh(chars: Seq<u8>) -> RowView {
        RowView {
            chars,
            render: Seq::empty(),
            cols: Seq::empty(),
            c2r: seq![0int],
            r2c: Seq::empty(),
            hl: Seq::empty(),
            hl_state: HlState::Normal,
            match_range: None,
        }
    }

    /// The row with other bytes, all else as it is.
    pub open spec fn with_chars(self, chars: Seq<u8>) -> RowView {
        RowView { chars, ..self }
    }
}

/// `n` raised by `k`, held at the largest machine integer.
pub open spec fn raised(n: usize, k: int) -> usize {
    if n + k <= usize::MAX {
        (n + k) as usize
    } else {
        usize::MAX
    }
}

/// `n` lowered by `k`, held at 0.
pub open spec fn lowered(n: usize, k: int) -> usize {
    if n >= k {
        (n - k) as usize
    } else {
        0
    }
}

/// `n` raised by `k`, held at the largest machine integer.
pub fn raise(n: usize, k: usize) -> (r: usize)
    ensures
        r == raised(n, k as int),
{
    if k <= usize::MAX - n {
        n + k
    } else {
        usize::MAX
    }
}

/// `n` lowered by `k`, held at 0.
pub fn lower(n: usize, k: usize) -> (r: usize)
    ensures
        r == lowered(n, k as int),
{
    if n >= k {
        n - k
    } else {
        0
    }
}

impl EditorView {
    /// The editor with other bytes in row `y`, all else as it is.
    pub open spec fn with_row_chars(self, y: int, chars: Seq<u8>) -> EditorView {
        EditorView { rows: self.rows.update(y, self.rows[y].with_chars(chars)), ..self }
    }

    /// The editor with a fresh row of the given bytes put in at index `y`.
    pub open spec fn with_row_inserted(self, y: int, chars: Seq<u8>) -> EditorView {
        EditorView { rows: self.rows.insert(y, RowView::fresh(chars)), ..self }
    }

    /// The editor after byte `c` was typed at the cursor: the byte enters
    /// the current row (a new row, where the cursor stands below the last
    /// one), the rows are re-coloured from there, and the cursor moves on.
    pub open spec fn byte_inserted(self, c: u8) -> EditorView {
        let y = self.cursor.y as int;
        let x = self.cursor.x as int;
        let held = if y < self.rows.len() {
            self.with_row_chars(y, self.rows[y].chars.insert(x, c))
        } else {
            self.with_row_inserted(y, seq![c]).padded()
        };
        EditorView {
            cursor: Cursor { x: (x + 1) as usize, ..self.cursor },
            n_bytes: raised(self.n_bytes, 1),
            dirty: true,
            ..held.row_updated(y, false)
        }
    }

    /// The editor after the row was broken at the cursor: the bytes from
    /// the cursor on move to a new row below (an empty row is put in above,
    /// where the cursor stands at the start of its row), and the cursor
    /// goes to the start of the next row.
    pub open spec fn line_broken(self) -> EditorView {
        let y = self.cursor.y as int;
        let x = self.cursor.x as int;
        let cut = if x == 0 {
            self
        } else {
            self.with_row_chars(y, self.rows[y].chars.subrange(0, x)).row_updated(y, false)
        };
        let at = if x == 0 {
            y
        } else {
            y + 1
        };
        let tail = if x == 0 {
            Seq::<u8>::empty()
        } else {
            self.rows[y].chars.subrange(x, self.rows[y].chars.len() as int)
        };
        EditorView {
            cursor: Cursor { x: 0, y: (y + 1) as usize, ..self.cursor },
            dirty: true,
            ..cut.with_row_inserted(at, tail).row_updated(at, false).padded()
        }
    }

    /// The editor after the character before the cursor was deleted.
    ///
    /// Within a row the character in the column before the cursor goes. At
    /// the start of a row that has one above it, the row is joined to the
    /// one above. On the line below the last row the cursor moves to the end
    /// of the last row. At the very start of the buffer nothing happens.
    pub open spec fn char_deleted(self) -> EditorView {
        let y = self.cursor.y as int;
        let x = self.cursor.x as int;
        if x > 0 && y < self.rows.len() {
            let row = self.rows[y];
            let n = least(row.size_before(x), x);
            EditorView {
                cursor: Cursor { x: (x - n) as usize, ..self.cursor },
                dirty: self.rows.len() > 1 || self.n_bytes != 0 || self.file_name is Some,
                n_bytes: lowered(self.n_bytes, n),
                ..self.with_row_chars(y, without(row.chars, x - n, x)).row_updated(y, false)
            }
        } else if x == 0 && 0 < y < self.rows.len() {
            let above = self.rows[y - 1];
            let joined = EditorView {
                rows: self.rows.remove(y).update(
                    y - 1,
                    above.with_chars(above.chars + self.rows[y].chars),
                ),
                ..self
            };
            EditorView {
                cursor: Cursor { x: above.chars.len() as usize, y: (y - 1) as usize, ..self.cursor },
                dirty: true,
                ..joined.row_updated(y - 1, true).row_updated(y, false).padded()
            }
        } else if y == self.rows.len() {
            self.moved(ArrowKey::Left, false)
        } else {
            self
        }
    }

    /// The editor after the current row was deleted: the row is emptied and
    /// then joined to the row below, where there is one.
    pub open spec fn row_deleted(self) -> EditorView {
        let y = self.cursor.y as int;
        if y < self.rows.len() {
            let cleared = self.with_row_chars(y, Seq::empty()).row_updated(y, false);
            (EditorView {
                cursor: Cursor { x: 0, y: (y + 1) as usize, ..self.cursor },
                ..cleared
            }).char_deleted()
        } else {
            self
        }
    }

    /// The editor after the current row was copied.
    pub open spec fn row_copied(self) -> EditorView {
        if self.cursor.y < self.rows.len() {
            EditorView { copied_row: self.rows[self.cursor.y as int].chars, ..self }
        } else {
            self
        }
    }

    /// The editor after the copied row was pasted below the current row;
    /// the cursor goes to the pasted row. Nothing happens while the copied
    /// row is empty.
    pub open spec fn row_pasted(self) -> EditorView {
        if self.copied_row.len() == 0 {
            self
        } else {
            let y = self.cursor.y as int;
            let at = least(y + 1, self.rows.len() as int);
            let held = EditorView {
                n_bytes: raised(self.n_bytes, self.copied_row.len() as int),
                dirty: true,
                ..self.with_row_inserted(at, self.copied_row).row_updated(at, false)
            };
            held.placed(self.cursor.x as int, y + 1).padded()
        }
    }
}

/// Re-colouring from row `y` leaves the editor with every row laid out and
/// every row's bytes as they were, where every row but row `y` was laid out
/// before.
pub proof fn lemma_row_updated(e: EditorView, y: int, once: bool)
    requires
        e.config.valid(),
        e.syntax.well_formed(),
        forall|i: int| 0 <= i < e.rows.len() && i != y ==> (#[trigger] e.rows[i]).laid_out(e.tab()),
    ensures
        e.row_updated(y, once).rows.len() == e.rows.len(),
        0 <= y < e.rows.len() ==> all_laid_out(e.row_updated(y, once).rows, e.tab()),
        forall|i: int| 0 <= i < e.rows.len() ==> (#[trigger] e.row_updated(y, once).rows[i]).chars == e.rows[i].chars,
        forall|i: int| 0 <= i < e.rows.len() ==> (#[trigger] e.row_updated(y, once).rows[i]).match_range == e.rows[i].match_range,
        forall|i: int| 0 <= i < e.rows.len() && i < y ==> (#[trigger] e.row_updated(y, once).rows[i]) == e.rows[i],
        !(0 <= y < e.rows.len()) ==> e.row_updated(y, once) == e,
{
    let out = e.row_updated(y, once).rows;
    lemma_cascade(e.rows, e.syntax, e.tab(), y, incoming(e.rows, y), once);
    assert forall|i: int| 0 <= i < e.rows.len() implies (#[trigger] out[i]).chars == e.rows[i].chars
        && out[i].match_range == e.rows[i].match_range by {
        assert(texts(out)[i] == out[i].chars);
        assert(texts(e.rows)[i] == e.rows[i].chars);
        assert(matches_of(out)[i] == out[i].match_range);
        assert(matches_of(e.rows)[i] == e.rows[i].match_range);
    }
    if !(0 <= y < e.rows.len()) {
        assert(e.row_updated(y, once) =~= e);
    }
}

/// Re-colouring never changes the bytes of the buffer.
pub proof fn lemma_row_updated_text(e: EditorView, y: int, once: bool)
    requires
        e.config.valid(),
        e.syntax.well_formed(),
    ensures
        texts(e.row_updated(y, once).rows) == texts(e.rows),
{
    lemma_cascade(e.rows, e.syntax, e.tab(), y, incoming(e.rows, y), once);
}

/// Typing a byte puts it into the current row at the cursor, or into a
/// new last row where the cursor stands below the rows; the bytes of every
/// other row stay as they are.
pub proof fn lemma_byte_inserted_text(e: EditorView, c: u8)
    requires
        e.wf(),
    ensures
        texts(e.byte_inserted(c).rows) == (if e.cursor.y < e.rows.len() {
            texts(e.rows).update(
                e.cursor.y as int,
                e.rows[e.cursor.y as int].chars.insert(e.cursor.x as int, c),
            )
        } else {
            texts(e.rows).push(seq![c])
        }),
{
    let y = e.cursor.y as int;
    let x = e.cursor.x as int;
    let held = if y < e.rows.len() {
        e.with_row_chars(y, e.rows[y].chars.insert(x, c))
    } else {
        e.with_row_inserted(y, seq![c]).padded()
    };
    lemma_row_updated_text(held, y, false);
    if y < e.rows.len() {
        assert(texts(held.rows) =~= texts(e.rows).update(y, e.rows[y].chars.insert(x, c)));
    } else {
        assert(texts(held.rows) =~= texts(e.rows).push(seq![c]));
    }
}

/// Breaking a row leaves the bytes before the cursor in the row and moves
/// the bytes from the cursor on to a new row below it; at the start of a
/// row it puts an empty row in above. The bytes of every other row stay as
/// they are.
pub proof fn lemma_line_broken_text(e: EditorView)
    requires
        e.wf(),
    ensures
        texts(e.line_broken().rows) == (if e.cursor.x == 0 {
            texts(e.rows).insert(e.cursor.y as int, Seq::empty())
        } else {
            texts(e.rows).update(
                e.cursor.y as int,
                e.rows[e.cursor.y as int].chars.subrange(0, e.cursor.x as int),
            ).insert(
                e.cursor.y + 1,
                e.rows[e.cursor.y as int].chars.subrange(
                    e.cursor.x as int,
                    e.rows[e.cursor.y as int].chars.len() as int,
                ),
            )
        }),
{
    let y = e.cursor.y as int;
    let x = e.cursor.x as int;
    if x == 0 {
        let held = e.with_row_inserted(y, Seq::empty());
        lemma_row_updated_text(held, y, false);
        assert(texts(held.rows) =~= texts(e.rows).insert(y, Seq::empty()));
    } else {
        let row = e.rows[y];
        let first = e.with_row_chars(y, row.chars.subrange(0, x));
        lemma_row_updated_text(first, y, false);
        lemma_cascade(first.rows, first.syntax, first.tab(), y, incoming(first.rows, y), false);
        let cut = first.row_updated(y, false);
        let tail = row.chars.subrange(x, row.chars.len() as int);
        let held = cut.with_row_inserted(y + 1, tail);
        lemma_row_updated_text(held, y + 1, false);
        assert(texts(first.rows) =~= texts(e.rows).update(y, row.chars.subrange(0, x)));
        assert(texts(held.rows) =~= texts(cut.rows).insert(y + 1, tail));
    }
}

/// Deleting within a row takes the bytes of the character before the
/// cursor out of the row; deleting at the start of a row joins the row to
/// the one above. The bytes of every other row stay as they are.
pub proof fn lemma_char_deleted_text(e: EditorView)
    requires
        e.wf(),
    ensures
        e.cursor.x > 0 ==> texts(e.char_deleted().rows) == texts(e.rows).update(
            e.cursor.y as int,
            without(
                e.rows[e.cursor.y as int].chars,
                e.cursor.x - least(e.rows[e.cursor.y as int].size_before(e.cursor.x as int), e.cursor.x as int),
                e.cursor.x as int,
            ),
        ),
        e.cursor.x == 0 && 0 < e.cursor.y < e.rows.len() ==> texts(e.char_deleted().rows) == texts(
            e.rows,
        ).remove(e.cursor.y as int).update(
            e.cursor.y - 1,
            e.rows[e.cursor.y - 1].chars + e.rows[e.cursor.y as int].chars,
        ),
        e.cursor.x == 0 && !(0 < e.cursor.y < e.rows.len()) ==> texts(e.char_deleted().rows) == texts(
            e.rows,
        ),
{
    let y = e.cursor.y as int;
    let x = e.cursor.x as int;
    if x > 0 {
        let row = e.rows[y];
        let n = least(row.size_before(x), x);
        let held = e.with_row_chars(y, without(row.chars, x - n, x));
        lemma_row_updated_text(held, y, false);
        assert(texts(held.rows) =~= texts(e.rows).update(y, without(row.chars, x - n, x)));
    } else if 0 < y < e.rows.len() {
        let above = e.rows[y - 1];
        let joined = EditorView {
            rows: e.rows.remove(y).update(y - 1, above.with_chars(above.chars + e.rows[y].chars)),
            ..e
        };
        lemma_row_updated_text(joined, y - 1, true);
        lemma_row_updated_text(joined.row_updated(y - 1, true), y, false);
        assert(texts(joined.rows) =~= texts(e.rows).remove(y).update(
            y - 1,
            above.chars + e.rows[y].chars,
        ));
    }
}

/// Pasting puts the copied row in below the current row, or as the last
/// row where the cursor stands below the rows; the bytes of every other row
/// stay as they are.
pub proof fn lemma_row_pasted_text(e: EditorView)
    requires
        e.wf(),
        e.copied_row.len() > 0,
    ensures
        texts(e.row_pasted().rows) == texts(e.rows).insert(
            least(e.cursor.y + 1, e.rows.len() as int),
            e.copied_row,
        ),
{
    let at = least(e.cursor.y + 1, e.rows.len() as int);
    let held = e.with_row_inserted(at, e.copied_row);
    lemma_row_updated_text(held, at, false);
    assert(texts(held.rows) =~= texts(e.rows).insert(at, e.copied_row));
}

impl Editor {
    /// Puts a fresh row of the given bytes in at index `at`.
    fn put_row(&mut self, at: usize, chars: Vec<u8>)
        requires
            at <= old(self).rows.len(),
        ensures
            final(self)@ == old(self)@.with_row_inserted(at as int, chars@),
    {
        let row = Row::new(chars);
        assert(row@ =~= RowView::fresh(chars@));
        self.rows.insert(at, row);
        assert(views(self.rows@) =~= views(old(self).rows@).insert(at as int, row@));
    }

    /// Types byte `c` at the cursor.
    pub fn insert_byte(&mut self, c: u8)
        requires
            old(self)@.wf(),
        ensures
            final(self)@ == old(self)@.byte_inserted(c),
            final(self)@.wf(),
    {
        let y = self.cursor.y;
        let x = self.cursor.x;
        let ghost start = self@;
        if y < self.rows.len() {
            assert(start.rows[y as int] == self.rows[y as int]@);
            self.rows[y].chars.insert(x, c);
            let len = self.rows[y].chars.len();
            assert(self@ =~= start.with_row_chars(y as int, start.rows[y as int].chars.insert(x as int, c)));
        } else {
            let mut chars: Vec<u8> = Vec::new();
            chars.push(c);
            assert(chars@ =~= seq![c]);
            self.put_row(y, chars);
            let len = self.rows.len();
            self.update_padding();
        }
        proof {
            let held = self@;
            assert forall|i: int| 0 <= i < held.rows.len() && i != y implies (#[trigger] held.rows[i]).laid_out(
                held.tab(),
            ) by {
                assert(held.rows[i] == start.rows[i]);
            }
            lemma_row_updated(held, y as int, false);
        }
        self.update_row(y, false);
        self.cursor.x = x + 1;
        self.n_bytes = raise(self.n_bytes, 1);
        self.dirty = true;
    }

    /// Puts a fresh row of the given bytes in at index `at` and colours
    /// the rows anew from there.
    fn open_row(&mut self, at: usize, chars: Vec<u8>)
        requires
            old(self)@.config.valid(),
            old(self)@.syntax.well_formed(),
            all_laid_out(old(self)@.rows, old(self)@.tab()),
            at <= old(self).rows.len(),
        ensures
            final(self)@ == old(self)@.with_row_inserted(at as int, chars@).row_updated(at as int, false),
            all_laid_out(final(self)@.rows, final(self)@.tab()),
            final(self)@.rows.len() == old(self)@.rows.len() + 1,
            final(self).rows@.len() == old(self).rows@.len() + 1,
            forall|i: int| 0 <= i < at ==> (#[trigger] final(self)@.rows[i]).chars == old(self)@.rows[i].chars,
            final(self)@.rows[at as int].chars == chars@,
            forall|i: int| at < i <= old(self)@.rows.len() ==> (#[trigger] final(self)@.rows[i]).chars == old(self)@.rows[i - 1].chars,
    {
        let ghost start = self@;
        self.put_row(at, chars);
        proof {
            let held = self@;
            assert forall|i: int| 0 <= i < held.rows.len() && i != at implies (#[trigger] held.rows[i]).laid_out(
                held.tab(),
            ) by {
                if i < at {
                    assert(held.rows[i] == start.rows[i]);
                } else {
                    assert(held.rows[i] == start.rows[i - 1]);
                }
            }
            lemma_row_updated(held, at as int, false);
        }
        self.update_row(at, false);
    }

    /// Cuts row `y` off at byte `x`, colours the rows anew from there and
    /// returns the bytes cut off.
    fn cut_row(&mut self, y: usize, x: usize) -> (tail: Vec<u8>)
        requires
            old(self)@.config.valid(),
            old(self)@.syntax.well_formed(),
            all_laid_out(old(self)@.rows, old(self)@.tab()),
            y < old(self).rows.len(),
            x <= old(self)@.rows[y as int].chars.len(),
        ensures
            final(self)@ == old(self)@.with_row_chars(
                y as int,
                old(self)@.rows[y as int].chars.subrange(0, x as int),
            ).row_updated(y as int, false),
            tail@ == old(self)@.rows[y as int].chars.subrange(
                x as int,
                old(self)@.rows[y as int].chars.len() as int,
            ),
            all_laid_out(final(self)@.rows, final(self)@.tab()),
            final(self).rows@.len() == old(self).rows@.len(),
    {
        let ghost start = self@;
        assert(start.rows[y as int] == self.rows[y as int]@);
        let tail = self.rows[y].chars.split_off(x);
        assert(self@ =~= start.with_row_chars(y as int, start.rows[y as int].chars.subrange(0, x as int)));
        proof {
            let held = self@;
            assert forall|i: int| 0 <= i < held.rows.len() && i != y implies (#[trigger] held.rows[i]).laid_out(
                held.tab(),
            ) by {
                assert(held.rows[i] == start.rows[i]);
            }
            lemma_row_updated(held, y as int, false);
        }
        self.update_row(y, false);
        tail
    }

    /// Breaks the row at the cursor.
    pub fn insert_new_line(&mut self)
        requires
            old(self)@.wf(),
        ensures
            final(self)@ == old(self)@.line_broken(),
            final(self)@.wf(),
    {
        let y = self.cursor.y;
        let x = self.cursor.x;
        assert(self@.rows.len() == self.rows@.len());
        if x == 0 {
            self.open_row(y, Vec::new());
        } else {
            assert(y < self.rows@.len());
            assert(self@.rows[y as int] == self.rows[y as int]@);
            let tail = self.cut_row(y, x);
            let rows = self.rows.len();
            assert(y < rows);
            self.open_row(y + 1, tail);
        }
        self.update_padding();
        let total = self.rows.len();
        assert(y < total);
        self.cursor.x = 0;
        self.cursor.y = y + 1;
        self.dirty = true;
    }

    /// Deletes the character before the cursor.
    pub fn delete_char(&mut self)
        requires
            old(self)@.wf(),
        ensures
            final(self)@ == old(self)@.char_deleted(),
            final(self)@.wf(),
    {
        let y = self.cursor.y;
        let x = self.cursor.x;
        let ghost start = self@;
        if x > 0 {
            assert(start.rows[y as int] == self.rows[y as int]@);
            proof {
                lemma_laid_out_maps(self.rows[y as int]@, self@.tab());
                assert(self.rows[y as int]@.c2r.len() == self.rows[y as int].c2r@.len());
            }
            let size = self.rows[y].size_before(x);
            let n = if size <= x {
                size
            } else {
                x
            };
            remove_range(&mut self.rows[y].chars, x - n, x);
            assert(self@ =~= start.with_row_chars(
                y as int,
                without(start.rows[y as int].chars, x - n, x as int),
            ));
            proof {
                let held = self@;
                assert forall|i: int| 0 <= i < held.rows.len() && i != y implies (#[trigger] held.rows[i]).laid_out(
                    held.tab(),
                ) by {
                    assert(held.rows[i] == start.rows[i]);
                }
                lemma_row_updated(held, y as int, false);
            }
            self.update_row(y, false);
            self.cursor.x = x - n;
            self.dirty = self.rows.len() > 1 || self.n_bytes != 0 || self.file_name.is_some();
            self.n_bytes = lower(self.n_bytes, n);
        } else if y < self.rows.len() && y > 0 {
            assert(start.rows[y as int] == self.rows[y as int]@);
            assert(start.rows[y - 1] == self.rows[y - 1]@);
            let mut row = self.rows.remove(y);
            let px = self.rows[y - 1].chars.len();
            self.rows[y - 1].chars.append(&mut row.chars);
            let ghost joined = self@;
            assert(joined.rows =~= start.rows.remove(y as int).update(
                y - 1,
                start.rows[y - 1].with_chars(start.rows[y - 1].chars + start.rows[y as int].chars),
            ));
            proof {
                assert forall|i: int| 0 <= i < joined.rows.len() && i != y - 1 implies (
                #[trigger] joined.rows[i]).laid_out(joined.tab()) by {
                    if i < y - 1 {
                        assert(joined.rows[i] == start.rows[i]);
                    } else {
                        assert(joined.rows[i] == start.rows[i + 1]);
                    }
                }
                lemma_row_updated(joined, y - 1, true);
                lemma_row_updated(joined.row_updated(y - 1, true), y as int, false);
            }
            self.update_row(y - 1, true);
            self.update_row(y, false);
            self.update_padding();
            self.cursor.x = px;
            self.cursor.y = y - 1;
            self.dirty = true;
        } else if y == self.rows.len() {
            self.move_cursor(ArrowKey::Left, false);
        }
    }

    /// Deletes the current row.
    pub fn delete_current_row(&mut self)
        requires
            old(self)@.wf(),
        ensures
            final(self)@ == old(self)@.row_deleted(),
            final(self)@.wf(),
    {
        let y = self.cursor.y;
        let ghost start = self@;
        if y < self.rows.len() {
            assert(start.rows[y as int] == self.rows[y as int]@);
            self.rows[y].chars.clear();
            assert(self@ =~= start.with_row_chars(y as int, Seq::empty()));
            proof {
                let held = self@;
                assert forall|i: int| 0 <= i < held.rows.len() && i != y implies (#[trigger] held.rows[i]).laid_out(
                    held.tab(),
                ) by {
                    assert(held.rows[i] == start.rows[i]);
                }
                lemma_row_updated(held, y as int, false);
            }
            self.update_row(y, false);
            self.cursor.x = 0;
            self.cursor.y = y + 1;
            self.delete_char();
        }
    }

    /// Pastes the copied row below the current row.
    pub fn paste_current_row(&mut self)
        requires
            old(self)@.wf(),
        ensures
            final(self)@ == old(self)@.row_pasted(),
            final(self)@.wf(),
    {
        if self.copied_row.len() == 0 {
            return ;
        }
        let y = self.cursor.y;
        let x = self.cursor.x;
        let ghost start = self@;
        let at = if y < self.rows.len() {
            y + 1
        } else {
            self.rows.len()
        };
        let chars = copy_bytes(self.copied_row.as_slice());
        self.open_row(at, chars);
        self.n_bytes = raise(self.n_bytes, self.copied_row.len());
        self.dirty = true;
        let total = self.rows.len();
        proof {
            if y + 1 < self.rows.len() {
                assert(self@.rows[y + 1] == self.rows[y + 1]@);
                assert(self@.len_of(y + 1) == self.rows[y + 1].chars.len());
            }
            lemma_placed_wf(self@, x as int, y + 1);
        }
        self.place(x, y + 1);
        self.update_padding();
    }

    /// Copies the current row and pastes it below.
    pub fn duplicate_current_row(&mut self)
        requires
            old(self)@.wf(),
        ensures
            final(self)@ == old(self)@.row_copied().row_pasted(),
            final(self)@.wf(),
    {
        self.copy_current_row();
        self.paste_current_row();
    }

    /// Copies the current row.
    pub fn copy_current_row(&mut self)
        ensures
            final(self)@ == old(self)@.row_copied(),
            old(self)@.wf() ==> final(self)@.wf(),
    {
        if self.cursor.y < self.rows.len() {
            assert(self@.rows[self.cursor.y as int] == self.rows[self.cursor.y as int]@);
            self.copied_row = copy_bytes(self.rows[self.cursor.y].chars.as_slice());
        }
    }
}

} // verus!
