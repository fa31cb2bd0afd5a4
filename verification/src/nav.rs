//! Moving the cursor.

use vstd::prelude::*;
use crate::editor::{Cursor, Editor, EditorView};
use crate::keys::ArrowKey;
use crate::row::{Row, RowView, char_size, lemma_laid_out_maps, lemma_size_positive};

verus! {

/// `x` moved back by `n`, not below 0.
pub open spec fn back(x: int, n: int) -> int {
    if x >= n {
        x - n
    } else {
        0
    }
}

/// `x` moved on by `n`, not beyond `len`.
pub open spec fn forth(x: int, n: int, len: int) -> int {
    if x + n <= len {
        x + n
    } else {
        len
    }
}

impl RowView {
    /// The size in bytes of the character whose column byte `x` lies in.
    pub open spec fn size_at(self, x: int) -> int {
        char_size(self.r2c, self.c2r[x])
    }

    /// The size in bytes of the character in the column before the one that
    /// byte `x` lies in.
    pub open spec fn size_before(self, x: int) -> int {
        char_size(self.r2c, back(self.c2r[x], 1))
    }

    /// Where the cursor comes to rest when it runs left from `x` over
    /// everything but spaces.
    pub open spec fn word_left(self, x: int) -> int
        decreases x,
    {
        if 0 < x <= self.chars.len() && self.chars[x - 1] != 32 {
            proof {
                lemma_size_positive(self.r2c, back(self.c2r[x], 1), back(self.c2r[x], 1) + 1);
            }
            self.word_left(back(x, self.size_before(x)))
        } else {
            x
        }
    }

    /// Where the cursor comes to rest when it runs right from `x` over
    /// everything but spaces.
    pub open spec fn word_right(self, x: int) -> int
        decreases self.chars.len() - x,
    {
        if 0 <= x < self.chars.len() && self.chars[x] != 32 {
            proof {
                lemma_size_positive(self.r2c, self.c2r[x], self.c2r[x] + 1);
            }
            self.word_right(forth(x, self.size_at(x), self.chars.len() as int))
        } else {
            x
        }
    }
}

impl Row {
    /// The size in bytes of the character whose column byte `x` lies in.
    pub fn size_at(&self, x: usize) -> (n: usize)
        requires
            x < self.c2r@.len(),
        ensures
            n == self@.size_at(x as int),
            n >= 1,
    {
        self.get_char_size(self.c2r[x])
    }

    /// The size in bytes of the character in the column before the one that
    /// byte `x` lies in.
    pub fn size_before(&self, x: usize) -> (n: usize)
        requires
            x < self.c2r@.len(),
        ensures
            n == self@.size_before(x as int),
            n >= 1,
    {
        let rx = self.c2r[x];
        self.get_char_size(if rx >= 1 {
            rx - 1
        } else {
            0
        })
    }

    /// Where the cursor comes to rest when it runs left from `x` over
    /// everything but spaces.
    pub fn word_left(&self, x: usize) -> (r: usize)
        requires
            x <= self.chars@.len(),
            self.c2r@.len() == self.chars@.len() + 1,
        ensures
            r == self@.word_left(x as int),
            r <= x,
    {
        let mut x = x;
        let ghost start = x;
        while x > 0 && self.chars[x - 1] != 32
            invariant
                x <= start,
                x <= self.chars@.len(),
                self.c2r@.len() == self.chars@.len() + 1,
                self@.word_left(start as int) == self@.word_left(x as int),
            decreases x,
        {
            let n = self.size_before(x);
            x = if x >= n {
                x - n
            } else {
                0
            };
        }
        x
    }

    /// Where the cursor comes to rest when it runs right from `x` over
    /// everything but spaces.
    pub fn word_right(&self, x: usize) -> (r: usize)
        requires
            x <= self.chars@.len(),
            self.c2r@.len() == self.chars@.len() + 1,
        ensures
            r == self@.word_right(x as int),
            x <= r <= self.chars@.len(),
    {
        let mut x = x;
        let ghost start = x;
        let len = self.chars.len();
        while x < len && self.chars[x] != 32
            invariant
                start <= x <= len,
                len == self.chars@.len(),
                self.c2r@.len() == self.chars@.len() + 1,
                self@.word_right(start as int) == self@.word_right(x as int),
            decreases len - x,
        {
            let n = self.size_at(x);
            x = if n <= len - x {
                x + n
            } else {
                len
            };
        }
        x
    }
}

/// The smaller of two numbers.
pub open spec fn least(a: int, b: int) -> int {
    if a <= b {
        a
    } else {
        b
    }
}

impl EditorView {
    /// The length in bytes of row `y`, 0 where there is no such row.
    pub open spec fn len_of(self, y: int) -> int {
        if 0 <= y < self.rows.len() {
            self.rows[y].chars.len() as int
        } else {
            0
        }
    }

    /// The editor with the cursor on row `y` at byte `x`, or at the end of
    /// that row where `x` lies beyond it.
    pub open spec fn placed(self, x: int, y: int) -> EditorView {
        EditorView {
            cursor: Cursor { x: least(x, self.len_of(y)) as usize, y: y as usize, ..self.cursor },
            ..self
        }
    }

    /// Where an arrow key takes the cursor, before the column is fitted to
    /// the row: the byte offset and the row.
    ///
    /// Right moves on by the size of the character at the cursor, left
    /// moves back by that same size (one byte at the end of the row); held
    /// with Ctrl both run on over everything but spaces, left by the size of
    /// the character before the cursor each time. At the end of a row right
    /// passes to the start of the row below, at its start left passes to the
    /// end of the row above. Up and down change the row; the cursor never
    /// leaves the rows and the line below them.
    pub open spec fn arrow_target(self, key: ArrowKey, ctrl: bool) -> (int, int) {
        let x = self.cursor.x as int;
        let y = self.cursor.y as int;
        match key {
            ArrowKey::Left => {
                if y < self.rows.len() && x > 0 {
                    let row = self.rows[y];
                    let x1 = back(x, row.size_at(x));
                    (
                        if ctrl {
                            row.word_left(x1)
                        } else {
                            x1
                        },
                        y,
                    )
                } else if y > 0 {
                    (usize::MAX as int, y - 1)
                } else {
                    (x, y)
                }
            },
            ArrowKey::Right => {
                if y < self.rows.len() {
                    let row = self.rows[y];
                    if x < row.chars.len() {
                        let x1 = forth(x, row.size_at(x), row.chars.len() as int);
                        (
                            if ctrl {
                                row.word_right(x1)
                            } else {
                                x1
                            },
                            y,
                        )
                    } else {
                        (0, y + 1)
                    }
                } else {
                    (x, y)
                }
            },
            ArrowKey::Up => {
                if y > 0 {
                    (x, y - 1)
                } else {
                    (x, y)
                }
            },
            ArrowKey::Down => {
                if y < self.rows.len() {
                    (x, y + 1)
                } else {
                    (x, y)
                }
            },
        }
    }

    /// The editor after an arrow key.
    pub open spec fn moved(self, key: ArrowKey, ctrl: bool) -> EditorView {
        let t = self.arrow_target(key, ctrl);
        self.placed(t.0, t.1)
    }

    /// The editor after the page-up key: the cursor goes to the row one
    /// window above the first row shown.
    pub open spec fn paged_up(self) -> EditorView {
        self.placed(
            self.cursor.x as int,
            least(back(self.cursor.row_offset as int, self.text_rows as int), self.rows.len() as int),
        )
    }

    /// The editor after the page-down key: the cursor goes to the row one
    /// less than two windows below the first row shown, and no further than
    /// the line below the last row.
    pub open spec fn paged_down(self) -> EditorView {
        self.placed(
            self.cursor.x as int,
            least(
                back(self.cursor.row_offset + 2 * self.text_rows, 1),
                self.rows.len() as int,
            ),
        )
    }

    /// The editor with the cursor at the start of its row.
    pub open spec fn at_home(self) -> EditorView {
        EditorView { cursor: Cursor { x: 0, ..self.cursor }, ..self }
    }

    /// The editor with the cursor at the end of its row.
    pub open spec fn at_end(self) -> EditorView {
        EditorView { cursor: Cursor { x: self.row_len() as usize, ..self.cursor }, ..self }
    }
}

/// Placing the cursor on a row of the buffer, or on the line below the
/// last, leaves the editor in order.
pub proof fn lemma_placed_wf(e: EditorView, x: int, y: int)
    requires
        e.wf(),
        0 <= x,
        0 <= y <= e.rows.len(),
        y <= usize::MAX,
        e.len_of(y) <= usize::MAX,
    ensures
        e.placed(x, y).wf(),
{
}

impl Editor {
    /// Puts the cursor on row `y` at byte `x`, or at the row's end where
    /// `x` lies beyond it.
    pub fn place(&mut self, x: usize, y: usize)
        ensures
            final(self)@ == old(self)@.placed(x as int, y as int),
    {
        let len = if y < self.rows.len() {
            self.rows[y].chars.len()
        } else {
            0
        };
        self.cursor.x = if x <= len {
            x
        } else {
            len
        };
        self.cursor.y = y;
    }

    /// Moves the cursor as an arrow key asks, with or without Ctrl.
    ///
    /// The rows stay as they are; the cursor goes where
    /// `EditorView::arrow_target` says and is then fitted to its row.
    pub fn move_cursor(&mut self, key: ArrowKey, ctrl: bool)
        requires
            old(self)@.wf(),
        ensures
            final(self)@ == old(self)@.moved(key, ctrl),
            final(self)@.wf(),
    {
        let x = self.cursor.x;
        let y = self.cursor.y;
        let mut nx = x;
        let mut ny = y;
        proof {
            if y < self.rows.len() {
                let row = self.rows[y as int];
                assert(self@.rows[y as int] == row@);
                lemma_laid_out_maps(row@, self@.tab());
                assert(row@.c2r.len() == row.c2r@.len());
            }
        }
        match key {
            ArrowKey::Left => {
                if y < self.rows.len() && x > 0 {
                    let row = &self.rows[y];
                    let n = row.size_at(x);
                    nx = if x >= n {
                        x - n
                    } else {
                        0
                    };
                    if ctrl {
                        nx = row.word_left(nx);
                    }
                } else if y > 0 {
                    nx = usize::MAX;
                    ny = y - 1;
                }
            },
            ArrowKey::Right => {
                if y < self.rows.len() {
                    let row = &self.rows[y];
                    let len = row.chars.len();
                    if x < len {
                        let n = row.size_at(x);
                        nx = if n <= len - x {
                            x + n
                        } else {
                            len
                        };
                        if ctrl {
                            nx = row.word_right(nx);
                        }
                    } else {
                        nx = 0;
                        ny = y + 1;
                    }
                }
            },
            ArrowKey::Up => {
                if y > 0 {
                    ny = y - 1;
                }
            },
            ArrowKey::Down => {
                if y < self.rows.len() {
                    ny = y + 1;
                }
            },
        }
        proof {
            if ny < self.rows.len() {
                assert(self@.rows[ny as int] == self.rows[ny as int]@);
                assert(self@.len_of(ny as int) == self.rows[ny as int].chars.len());
            }
            lemma_placed_wf(self@, nx as int, ny as int);
        }
        self.place(nx, ny);
    }

    /// Moves the cursor one window up.
    pub fn page_up(&mut self)
        requires
            old(self)@.wf(),
        ensures
            final(self)@ == old(self)@.paged_up(),
            final(self)@.wf(),
    {
        let up = if self.cursor.row_offset >= self.text_rows {
            self.cursor.row_offset - self.text_rows
        } else {
            0
        };
        let y = if up <= self.rows.len() {
            up
        } else {
            self.rows.len()
        };
        proof {
            if y < self.rows.len() {
                assert(self@.rows[y as int] == self.rows[y as int]@);
                assert(self@.len_of(y as int) == self.rows[y as int].chars.len());
            }
            lemma_placed_wf(self@, self.cursor.x as int, y as int);
        }
        self.place(self.cursor.x, y);
    }

    /// Moves the cursor one window down.
    pub fn page_down(&mut self)
        requires
            old(self)@.wf(),
        ensures
            final(self)@ == old(self)@.paged_down(),
            final(self)@.wf(),
    {
        let sum: u128 = self.cursor.row_offset as u128 + 2 * (self.text_rows as u128);
        let down: u128 = if sum >= 1 {
            sum - 1
        } else {
            0
        };
        let y = if down <= self.rows.len() as u128 {
            down as usize
        } else {
            self.rows.len()
        };
        proof {
            if y < self.rows.len() {
                assert(self@.rows[y as int] == self.rows[y as int]@);
                assert(self@.len_of(y as int) == self.rows[y as int].chars.len());
            }
            lemma_placed_wf(self@, self.cursor.x as int, y as int);
        }
        self.place(self.cursor.x, y);
    }

    /// Moves the cursor to the start of its row.
    pub fn home(&mut self)
        requires
            old(self)@.wf(),
        ensures
            final(self)@ == old(self)@.at_home(),
            final(self)@.wf(),
    {
        self.cursor.x = 0;
    }

    /// Moves the cursor to the end of its row.
    pub fn end(&mut self)
        requires
            old(self)@.wf(),
        ensures
            final(self)@ == old(self)@.at_end(),
            final(self)@.wf(),
    {
        self.cursor.x = self.row_len();
    }
}

} // verus!
