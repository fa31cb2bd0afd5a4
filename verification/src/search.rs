//! Finding text in the buffer and going to a row and column.

use std::ops::Range;
use vstd::prelude::*;
use crate::edit::raised;
use crate::editor::{Cursor, Editor, EditorView};
use crate::nav::{back, least};
use crate::row::{RowView, lemma_laid_out_maps};
use crate::syntax::utf8;
use crate::text::{IntError, chars_of, find_char, first_at, index_of, lemma_first_from, number_of, parse_usize, find_bytes, trim_bounds, trimmed, lemma_skip_spaces, lemma_drop_spaces, skip_spaces};

verus! {

/// The row at which a search starts to step: the row of the last match,
/// or the last row where there was none.
pub open spec fn start_row(n: int, last: Option<usize>) -> int {
    match last {
        Some(l) => l as int % n,
        None => n - 1,
    }
}

/// The row after `cur` in the direction of the search, around the ends of
/// a buffer of `n` rows.
pub open spec fn next_row(cur: int, n: int, forward: bool) -> int {
    if forward {
        if cur + 1 >= n {
            0
        } else {
            cur + 1
        }
    } else {
        if cur <= 0 {
            n - 1
        } else {
            cur - 1
        }
    }
}

/// The first row that holds `q`, stepping from `cur` in the direction of
/// the search through at most `left` rows.
pub open spec fn scan_rows(rows: Seq<RowView>, q: Seq<u8>, cur: int, forward: bool, left: int) -> Option<int>
    decreases left,
{
    if left <= 0 {
        None
    } else {
        let r = next_row(cur, rows.len() as int, forward);
        if first_at(rows[r].chars, q) is Some {
            Some(r)
        } else {
            scan_rows(rows, q, r, forward, left - 1)
        }
    }
}

/// The row that a search reaches `k` steps after `cur`.
pub open spec fn row_after(cur: int, n: int, forward: bool, k: int) -> int
    decreases k,
{
    if k <= 0 {
        cur
    } else {
        row_after(next_row(cur, n, forward), n, forward, k - 1)
    }
}

/// A search steps through the rows in a circle: `k` steps lead `k` rows
/// on, or back, around the ends of the buffer.
pub proof fn lemma_row_after(cur: int, n: int, forward: bool, k: int)
    requires
        0 <= cur < n,
        0 <= k,
    ensures
        row_after(cur, n, forward, k) == (if forward {
            (cur + k) % n
        } else {
            (cur - k) % n
        }),
        0 <= row_after(cur, n, forward, k) < n,
    decreases k,
{
    if k == 0 {
        vstd::arithmetic::div_mod::lemma_small_mod(cur as nat, n as nat);
    } else {
        let c = next_row(cur, n, forward);
        lemma_row_after(c, n, forward, k - 1);
        if forward {
            if cur + 1 >= n {
                vstd::arithmetic::div_mod::lemma_mod_add_multiples_vanish(k - 1, n);
            }
        } else {
            if cur <= 0 {
                vstd::arithmetic::div_mod::lemma_mod_add_multiples_vanish(-k, n);
            }
        }
    }
}

/// A search that finds nothing has found nothing in any row that it
/// reached.
pub proof fn lemma_scan_none(rows: Seq<RowView>, q: Seq<u8>, cur: int, forward: bool, left: int)
    requires
        0 <= cur < rows.len(),
        scan_rows(rows, q, cur, forward, left) is None,
    ensures
        forall|k: int|
            1 <= k <= left ==> first_at(
                rows[#[trigger] row_after(cur, rows.len() as int, forward, k)].chars,
                q,
            ) is None,
    decreases left,
{
    if left > 0 {
        let n = rows.len() as int;
        let r = next_row(cur, n, forward);
        lemma_scan_none(rows, q, r, forward, left - 1);
        assert forall|k: int| 1 <= k <= left implies first_at(
            rows[#[trigger] row_after(cur, n, forward, k)].chars,
            q,
        ) is None by {
            if k == 1 {
                assert(row_after(r, n, forward, 0) == r);
            } else {
                assert(row_after(cur, n, forward, k) == row_after(r, n, forward, k - 1));
            }
        }
    }
}

/// A search goes through all rows: it finds a row that holds the text,
/// and it finds none only where no row holds the text.
pub proof fn lemma_search_complete(rows: Seq<RowView>, q: Seq<u8>, last: Option<usize>, forward: bool)
    requires
        rows.len() > 0,
    ensures
        match scan_rows(rows, q, start_row(rows.len() as int, last), forward, rows.len() as int) {
            Some(r) => 0 <= r < rows.len() && first_at(rows[r].chars, q) is Some,
            None => forall|r: int| 0 <= r < rows.len() ==> first_at((#[trigger] rows[r]).chars, q) is None,
        },
{
    let n = rows.len() as int;
    let cur = start_row(n, last);
    assert(0 <= cur < n) by {
        if last is Some {
            vstd::arithmetic::div_mod::lemma_mod_bound(last->0 as int, n);
        }
    }
    lemma_scan_some(rows, q, cur, forward, n);
    if scan_rows(rows, q, cur, forward, n) is None {
        lemma_scan_none(rows, q, cur, forward, n);
        assert forall|r: int| 0 <= r < n implies first_at((#[trigger] rows[r]).chars, q) is None by {
            let d = if forward {
                (r - cur) % n
            } else {
                (cur - r) % n
            };
            vstd::arithmetic::div_mod::lemma_mod_bound(r - cur, n);
            vstd::arithmetic::div_mod::lemma_mod_bound(cur - r, n);
            let k = if d == 0 {
                n
            } else {
                d
            };
            lemma_row_after(cur, n, forward, k);
            vstd::arithmetic::div_mod::lemma_small_mod(r as nat, n as nat);
            vstd::arithmetic::div_mod::lemma_small_mod(cur as nat, n as nat);
            if forward {
                vstd::arithmetic::div_mod::lemma_add_mod_noop_right(cur, r - cur, n);
                vstd::arithmetic::div_mod::lemma_mod_add_multiples_vanish(cur, n);
                assert((cur + d) % n == r);
                if d == 0 {
                    assert(cur + n == n + cur);
                }
            } else {
                vstd::arithmetic::div_mod::lemma_sub_mod_noop_right(cur, cur - r, n);
                vstd::arithmetic::div_mod::lemma_mod_add_multiples_vanish(cur - n, n);
                assert((cur - d) % n == r);
                if d == 0 {
                    assert(n + (cur - n) == cur);
                }
            }
            assert(row_after(cur, n, forward, k) == r);
        }
    }
}

/// A found row lies in the buffer and holds the text.
pub proof fn lemma_scan_some(rows: Seq<RowView>, q: Seq<u8>, cur: int, forward: bool, left: int)
    requires
        0 <= cur < rows.len(),
    ensures
        scan_rows(rows, q, cur, forward, left) matches Some(r) ==> 0 <= r < rows.len() && first_at(
            rows[r].chars,
            q,
        ) is Some,
    decreases left,
{
    if left > 0 {
        let r = next_row(cur, rows.len() as int, forward);
        if first_at(rows[r].chars, q) is None {
            lemma_scan_some(rows, q, r, forward, left - 1);
        }
    }
}

/// The text of one field of a position, as a number.
pub open spec fn field(s: Seq<char>) -> Result<usize, IntError> {
    number_of(trimmed(s))
}

/// The row and the column, if one is given, that a position names: two
/// numbers with a colon between them, or one number.
pub open spec fn position_of(text: Seq<char>) -> Result<(usize, Option<usize>), IntError> {
    let k = index_of(text, ':', 0);
    let row = field(text.subrange(0, k));
    if k < text.len() {
        let col = field(text.subrange(k + 1, text.len() as int));
        match (row, col) {
            (Err(e), _) => Err(e),
            (_, Err(e)) => Err(e),
            (Ok(r), Ok(c)) => Ok((r, Some(c))),
        }
    } else {
        match row {
            Err(e) => Err(e),
            Ok(r) => Ok((r, None)),
        }
    }
}

impl EditorView {
    /// The editor after a search for `q` and the row of the match.
    ///
    /// The rows are tried one after the other, from the row after (or
    /// before) the last match, around the ends of the buffer and back to
    /// the row of the last match itself. At the first row that holds `q` the
    /// cursor goes to the first occurrence in that row, the view scrolls to
    /// the first character, and the occurrence becomes the row's search
    /// match. Where no row holds `q` nothing changes.
    pub open spec fn searched(self, q: Seq<u8>, last: Option<usize>, forward: bool) -> (
        EditorView,
        Option<usize>,
    ) {
        let n = self.rows.len() as int;
        if n == 0 {
            (self, None)
        } else {
            match scan_rows(self.rows, q, start_row(n, last), forward, n) {
                None => (self, None),
                Some(r) => {
                    let row = self.rows[r];
                    let cx = first_at(row.chars, q)->0;
                    let rx = row.c2r[cx];
                    (
                        EditorView {
                            cursor: Cursor {
                                x: cx as usize,
                                y: r as usize,
                                col_offset: 0,
                                ..self.cursor
                            },
                            rows: self.rows.update(
                                r,
                                RowView {
                                    match_range: Some((rx, raised(rx as usize, q.len() as int) as int)),
                                    ..row
                                },
                            ),
                            ..self
                        },
                        Some(r as usize),
                    )
                },
            }
        }
    }

    /// The editor after the position named by `text` was gone to.
    ///
    /// The row, counted from 1, is held to the rows of the buffer. The
    /// column, counted from 1 and held to the row's columns, is turned into
    /// a byte offset by the row's map; without a column the cursor keeps
    /// its offset as far as the row reaches. A text that names no position
    /// leaves the cursor where it is and sets a status message.
    pub open spec fn gone_to(self, text: Seq<char>) -> EditorView {
        match position_of(text) {
            Err(e) => self.with_status("GoTo error: "@ + e.message()),
            Ok(p) => {
                let y = least(back(p.0 as int, 1), back(self.rows.len() as int, 1));
                let x = match p.1 {
                    Some(c) => if y < self.rows.len() {
                        let m = self.rows[y].r2c;
                        m[least(back(c as int, 1), m.len() - 1)]
                    } else {
                        0
                    },
                    None => least(self.cursor.x as int, self.len_of(y)),
                };
                EditorView { cursor: Cursor { x: x as usize, y: y as usize, ..self.cursor }, ..self }
            },
        }
    }
}

/// Reads one field of a position from `s` between `from` and `to`.
fn read_field(s: &[char], from: usize, to: usize) -> (r: Result<usize, IntError>)
    requires
        from <= to <= s.len(),
    ensures
        r == field(s@.subrange(from as int, to as int)),
{
    let ghost part = s@.subrange(from as int, to as int);
    proof {
        lemma_skip_spaces(part, 0);
        lemma_drop_spaces(part, skip_spaces(part, 0), part.len() as int);
    }
    let (a, b) = trim_bounds(s, from, to, true, true);
    assert(s@.subrange(a as int, b as int) =~= trimmed(part));
    parse_usize(s, a, b)
}

/// Reads the row and the column that a position names.
pub fn parse_position(text: &str) -> (r: Result<(usize, Option<usize>), IntError>)
    ensures
        r == position_of(text@),
{
    let s = chars_of(text);
    let n = s.len();
    let k = find_char(s.as_slice(), ':', 0, n);
    assert(s@.subrange(0, n as int) =~= s@);
    let row = read_field(s.as_slice(), 0, k);
    if k < n {
        let col = read_field(s.as_slice(), k + 1, n);
        match row {
            Err(e) => Err(e),
            Ok(r) => match col {
                Err(e) => Err(e),
                Ok(c) => Ok((r, Some(c))),
            },
        }
    } else {
        match row {
            Err(e) => Err(e),
            Ok(r) => Ok((r, None)),
        }
    }
}

impl Editor {
    /// Searches the rows for `query`, from the row after the last match
    /// (before it, when searching backwards) around the buffer.
    ///
    /// Returns the row of the match, and `None` where no row holds the
    /// query.
    pub fn find(&mut self, query: &str, last_match: Option<usize>, forward: bool) -> (r: Option<usize>)
        requires
            old(self)@.wf(),
        ensures
            (final(self)@, r) == old(self)@.searched(utf8(query@), last_match, forward),
            final(self)@.wf(),
            r matches Some(y) ==> y < final(self)@.rows.len() && first_at(
                final(self)@.rows[y as int].chars,
                utf8(query@),
            ) is Some,
            r is None ==> forall|y: int|
                0 <= y < final(self)@.rows.len() ==> first_at(
                    (#[trigger] final(self)@.rows[y]).chars,
                    utf8(query@),
                ) is None,
    {
        let q = query.as_bytes();
        let n = self.rows.len();
        if n == 0 {
            return None;
        }
        let start = match last_match {
            Some(l) => l % n,
            None => n - 1,
        };
        let mut cur = start;
        let mut left = n;
        let ghost rows = self@.rows;
        while left > 0
            invariant
                n == self.rows.len(),
                n == rows.len(),
                rows == self@.rows,
                self@ == old(self)@,
                self@.wf(),
                0 <= cur < n,
                q@ == utf8(query@),
                start as int == start_row(n as int, last_match),
                scan_rows(rows, q@, start as int, forward, n as int) == scan_rows(
                    rows,
                    q@,
                    cur as int,
                    forward,
                    left as int,
                ),
            decreases left,
        {
            let ghost prev = cur;
            cur = if forward {
                if cur + 1 >= n {
                    0
                } else {
                    cur + 1
                }
            } else {
                if cur == 0 {
                    n - 1
                } else {
                    cur - 1
                }
            };
            assert(rows[cur as int] == self.rows[cur as int]@);
            match find_bytes(self.rows[cur].chars.as_slice(), q) {
                Some(cx) => {
                    proof {
                        lemma_laid_out_maps(self.rows[cur as int]@, self@.tab());
                        lemma_first_from(rows[cur as int].chars, q@, 0);
                        assert(self.rows[cur as int]@.c2r[cx as int] == self.rows[cur as int].c2r@[cx as int]);
                    }
                    let rx = self.rows[cur].c2r[cx];
                    let end = if q.len() <= usize::MAX - rx {
                        rx + q.len()
                    } else {
                        usize::MAX
                    };
                    self.cursor.x = cx;
                    self.cursor.y = cur;
                    self.cursor.col_offset = 0;
                    self.rows[cur].match_range = Some(Range { start: rx, end });
                    assert(self@.rows =~= rows.update(
                        cur as int,
                        RowView { match_range: Some((rx as int, end as int)), ..rows[cur as int] },
                    ));
                    assert(first_at(rows[cur as int].chars, q@) == Some(cx as int));
                    assert(scan_rows(rows, q@, prev as int, forward, left as int) == Some(cur as int));
                    assert(self@ =~= old(self)@.searched(utf8(query@), last_match, forward).0);
                    return Some(cur);
                },
                None => {},
            }
            left -= 1;
        }
        proof {
            lemma_search_complete(rows, q@, last_match, forward);
        }
        None
    }

    /// Goes to the position that `text` names: a row and, after a colon, a
    /// column, both counted from 1.
    pub fn go_to(&mut self, text: &str)
        requires
            old(self)@.wf(),
        ensures
            final(self)@ == old(self)@.gone_to(text@),
            final(self)@.wf(),
    {
        match parse_position(text) {
            Err(e) => {
                let mut message = String::from_str("GoTo error: ");
                message.append(e.describe());
                self.set_status(message);
            },
            Ok(p) => {
                let last = if self.rows.len() >= 1 {
                    self.rows.len() - 1
                } else {
                    0
                };
                let want = if p.0 >= 1 {
                    p.0 - 1
                } else {
                    0
                };
                let y = if want <= last {
                    want
                } else {
                    last
                };
                let mut x: usize = 0;
                if y < self.rows.len() {
                    assert(self@.rows[y as int] == self.rows[y as int]@);
                    proof {
                        lemma_laid_out_maps(self.rows[y as int]@, self@.tab());
                        assert(self.rows[y as int]@.r2c.len() == self.rows[y as int].r2c@.len());
                    }
                }
                match p.1 {
                    Some(c) => {
                        if y < self.rows.len() {
                            let m = &self.rows[y].r2c;
                            let col = if c >= 1 {
                                c - 1
                            } else {
                                0
                            };
                            let rx = if col <= m.len() - 1 {
                                col
                            } else {
                                m.len() - 1
                            };
                            assert(self.rows[y as int]@.r2c[rx as int] == m@[rx as int]);
                            x = m[rx];
                        }
                    },
                    None => {
                        let len = if y < self.rows.len() {
                            self.rows[y].chars.len()
                        } else {
                            0
                        };
                        x = if self.cursor.x <= len {
                            self.cursor.x
                        } else {
                            len
                        };
                    },
                }
                self.cursor.x = x;
                self.cursor.y = y;
            },
        }
    }
}

} // verus!
