//! The buffer and the file: reading a file's bytes into rows, joining the
//! rows for saving, and what the editor does once the program has read,
//! written or run something for it.

use vstd::prelude::*;
use crate::edit::{raised};
use crate::editor::{Cursor, Editor, EditorView, text_of, lemma_all_updated, texts, views, all_updated};
use crate::row::{Row, RowView};
use crate::syntax::SyntaxConfig;
use crate::text::{format_size, glued, glued_upto, lemma_split_glue, pieces, pieces_upto, size_text};

verus! {

/// The line terminator.
pub const NEWLINE: u8 = 10;

/// The pieces into which the line terminators cut a file's bytes: one more
/// than there are terminators.
pub open spec fn rows_of(bytes: Seq<u8>) -> Seq<Seq<u8>> {
    pieces(bytes, NEWLINE)
}

/// Whether a file ends in a line terminator.
pub open spec fn ends_in_newline(bytes: Seq<u8>) -> bool {
    bytes.len() > 0 && bytes.last() == NEWLINE
}

/// The lines of a file: what stands before each line terminator, and what
/// follows the last one where anything does. An empty file has no line.
pub open spec fn lines_of(bytes: Seq<u8>) -> Seq<Seq<u8>> {
    if bytes.len() == 0 || ends_in_newline(bytes) {
        rows_of(bytes).drop_last()
    } else {
        rows_of(bytes)
    }
}

/// The rows with a line terminator between every two.
pub open spec fn joined(rows: Seq<Seq<u8>>) -> Seq<u8> {
    glued(rows, NEWLINE)
}

/// The bytes of a file that holds the rows: the rows with a line
/// terminator between every two, and one after the last row where the file
/// is to end in one.
pub open spec fn file_of(rows: Seq<Seq<u8>>, final_newline: bool) -> Seq<u8> {
    if final_newline {
        joined(rows).push(NEWLINE)
    } else {
        joined(rows)
    }
}

/// The pieces of a file end in an empty piece exactly where the file is
/// empty or ends in a line terminator, and then there is a piece before it
/// unless the file is empty.
pub proof fn lemma_last_piece(bytes: Seq<u8>)
    ensures
        rows_of(bytes).len() >= 1,
        rows_of(bytes).last().len() == 0 <==> bytes.len() == 0 || ends_in_newline(bytes),
        ends_in_newline(bytes) ==> rows_of(bytes).len() >= 2,
        bytes.len() == 0 ==> rows_of(bytes).len() == 1,
{
    crate::text::lemma_pieces_upto(bytes, NEWLINE, bytes.len() as int);
    if bytes.len() > 0 {
        crate::text::lemma_pieces_upto(bytes, NEWLINE, bytes.len() - 1);
    }
}

/// Reading a file into lines and writing the lines out again gives the
/// file back, byte for byte, whether or not it ends in a line terminator.
pub proof fn lemma_lines_round_trip(bytes: Seq<u8>)
    ensures
        file_of(lines_of(bytes), ends_in_newline(bytes)) == bytes,
{
    lemma_last_piece(bytes);
    lemma_split_glue(bytes, NEWLINE, bytes.len() as int);
    assert(bytes.subrange(0, bytes.len() as int) =~= bytes);
    let p = rows_of(bytes);
    let n = p.len() as int;
    if bytes.len() == 0 {
        assert(joined(p.drop_last()) =~= bytes);
    } else if ends_in_newline(bytes) {
        crate::text::lemma_glued_prefix(p, p.drop_last(), NEWLINE, n - 1);
        assert(glued(p, NEWLINE) =~= glued_upto(p, NEWLINE, n - 1).push(NEWLINE));
    }
}

/// The number of bytes in the first `k` rows, held at the largest machine
/// integer.
pub open spec fn bytes_upto(rows: Seq<Seq<u8>>, k: int) -> usize
    decreases k,
{
    if k <= 0 || k > rows.len() {
        0
    } else {
        raised(bytes_upto(rows, k - 1), rows[k - 1].len() as int)
    }
}

/// Cuts a file's bytes at every line terminator: one piece more than
/// there are terminators.
pub fn split_rows(bytes: &[u8]) -> (rows: Vec<Vec<u8>>)
    ensures
        rows@.map_values(|r: Vec<u8>| r@) == rows_of(bytes@),
        rows@.len() >= 1,
{
    let mut rows: Vec<Vec<u8>> = Vec::new();
    let mut current: Vec<u8> = Vec::new();
    let mut k: usize = 0;
    assert(rows@.map_values(|r: Vec<u8>| r@).push(current@) =~= pieces_upto(bytes@, NEWLINE, 0));
    while k < bytes.len()
        invariant
            k <= bytes.len(),
            rows@.map_values(|r: Vec<u8>| r@).push(current@) == pieces_upto(bytes@, NEWLINE, k as int),
        decreases bytes.len() - k,
    {
        let ghost before = pieces_upto(bytes@, NEWLINE, k as int);
        if bytes[k] == NEWLINE {
            rows.push(current);
            current = Vec::new();
            assert(rows@.map_values(|r: Vec<u8>| r@).push(current@) =~= before.push(Seq::empty()));
        } else {
            current.push(bytes[k]);
            assert(rows@.map_values(|r: Vec<u8>| r@).push(current@) =~= before.update(
                before.len() - 1,
                before.last().push(bytes@[k as int]),
            ));
        }
        k += 1;
    }
    rows.push(current);
    assert(rows@.map_values(|r: Vec<u8>| r@) =~= rows_of(bytes@));
    rows
}

impl EditorView {
    /// The bytes of a file that holds the buffer.
    pub open spec fn contents(self) -> Seq<u8> {
        file_of(texts(self.rows), self.final_newline)
    }

    /// The editor with a buffer of one empty row that belongs to no file.
    pub open spec fn started(self) -> EditorView {
        (EditorView {
            rows: seq![RowView::fresh(Seq::empty())],
            n_bytes: 0,
            cursor: Cursor { x: 0, y: 0, ..self.cursor },
            file_name: None,
            final_newline: false,
            ..self
        }).all_rows_updated().padded()
    }

    /// The editor with the given rules.
    pub open spec fn with_syntax(self, rules: SyntaxConfig) -> EditorView {
        EditorView { syntax: rules, ..self }
    }

    /// The editor after it has taken a file's bytes as its buffer: one
    /// row for each line of the file, all of them laid out and coloured, the
    /// line-number column sized, the bytes counted, the cursor at the start;
    /// and it is remembered whether the file ended in a line terminator.
    pub open spec fn loaded(self, bytes: Seq<u8>) -> EditorView {
        (EditorView {
            rows: lines_of(bytes).map_values(|r: Seq<u8>| RowView::fresh(r)),
            n_bytes: bytes_upto(lines_of(bytes), lines_of(bytes).len() as int),
            cursor: Cursor { x: 0, y: 0, ..self.cursor },
            final_newline: ends_in_newline(bytes),
            ..self
        }).all_rows_updated().padded()
    }

    /// The editor after the program has tried to write the buffer: the
    /// status bar tells the size written or the error, and a buffer that was
    /// written counts as unchanged.
    pub open spec fn saved(self, file_name: Seq<char>, outcome: Result<usize, Seq<char>>) -> EditorView {
        match outcome {
            Ok(n) => EditorView {
                dirty: false,
                ..self.with_status(size_text(n as nat) + " written to "@ + file_name)
            },
            Err(e) => self.with_status("Save I/O error: "@ + e),
        }
    }

    /// The editor after the buffer was written under a new name: the name
    /// is the buffer's own, and all rows are coloured anew.
    pub open spec fn renamed(self, file_name: Seq<char>) -> EditorView {
        (EditorView { file_name: Some(file_name), ..self }).all_rows_updated()
    }

    /// The editor after the first `k` bytes of a command's output were
    /// typed in: a line terminator breaks the row, any other byte is
    /// inserted.
    pub open spec fn output_inserted(self, bytes: Seq<u8>, k: int) -> EditorView
        decreases k,
    {
        if k <= 0 || k > bytes.len() {
            self
        } else {
            let before = self.output_inserted(bytes, k - 1);
            if bytes[k - 1] == NEWLINE {
                before.line_broken()
            } else {
                before.byte_inserted(bytes[k - 1])
            }
        }
    }
}

/// The error text of an outcome.
pub open spec fn outcome_view(outcome: Result<usize, String>) -> Result<usize, Seq<char>> {
    match outcome {
        Ok(n) => Ok(n),
        Err(e) => Err(e@),
    }
}

impl Editor {
    /// The bytes of a file that holds the buffer: the rows with a line
    /// terminator between every two, and one after the last row where the
    /// file that was read ended in one.
    pub fn contents(&self) -> (bytes: Vec<u8>)
        ensures
            bytes@ == self@.contents(),
    {
        let mut bytes: Vec<u8> = Vec::new();
        let mut k: usize = 0;
        let ghost rows = texts(self@.rows);
        assert(bytes@ =~= glued_upto(rows, NEWLINE, 0));
        while k < self.rows.len()
            invariant
                k <= self.rows.len(),
                rows == texts(self@.rows),
                rows.len() == self.rows.len(),
                bytes@ == glued_upto(rows, NEWLINE, k as int),
            decreases self.rows.len() - k,
        {
            if k > 0 {
                bytes.push(NEWLINE);
            }
            assert(rows[k as int] == self.rows[k as int].chars@) by {
                assert(self@.rows[k as int] == self.rows[k as int]@);
            }
            let mut j: usize = 0;
            let ghost head = bytes@;
            let row = &self.rows[k].chars;
            while j < row.len()
                invariant
                    j <= row.len(),
                    bytes@ == head + row@.take(j as int),
                decreases row.len() - j,
            {
                bytes.push(row[j]);
                j += 1;
                assert(bytes@ =~= head + row@.take(j as int));
            }
            assert(row@.take(j as int) =~= row@);
            k += 1;
            assert(bytes@ =~= glued_upto(rows, NEWLINE, k as int));
        }
        if self.final_newline {
            bytes.push(NEWLINE);
        }
        bytes
    }

    /// Starts a buffer of one empty row that belongs to no file.
    pub fn new_file(&mut self)
        requires
            old(self)@.wf(),
        ensures
            final(self)@ == old(self)@.started(),
            final(self)@.wf(),
            final(self)@.rows.len() == 1,
            final(self)@.contents().len() == 0,
    {
        let mut rows: Vec<Row> = Vec::new();
        let row = Row::new(Vec::new());
        assert(row@ =~= RowView::fresh(Seq::empty()));
        rows.push(row);
        assert(views(rows@) =~= seq![RowView::fresh(Seq::empty())]);
        self.rows = rows;
        self.n_bytes = 0;
        self.cursor.x = 0;
        self.cursor.y = 0;
        self.file_name = None;
        self.final_newline = false;
        proof {
            let held = self@;
            lemma_all_updated(held.rows, held.syntax, held.tab(), held.rows.len() as int);
            let out = all_updated(held.rows, held.syntax, held.tab(), held.rows.len() as int);
            assert(texts(out)[0] == out[0].chars);
            assert(texts(held.rows)[0] == held.rows[0].chars);
            assert(texts(out) =~= seq![Seq::<u8>::empty()]);
            reveal_with_fuel(glued_upto, 2);
        }
        self.update_all_rows();
        self.update_padding();
    }

    /// Names the file that the buffer belongs to, or none.
    pub fn set_file_name(&mut self, file_name: Option<String>)
        ensures
            final(self)@ == (EditorView { file_name: text_of(file_name), ..old(self)@ }),
            old(self)@.wf() ==> final(self)@.wf(),
    {
        self.file_name = file_name;
    }

    /// Installs highlighting rules.
    ///
    /// Fails, and leaves the editor as it is, exactly when the rules have
    /// an empty block delimiter.
    pub fn set_syntax(&mut self, rules: SyntaxConfig) -> (r: Result<(), String>)
        ensures
            r is Ok <==> rules.well_formed(),
            r is Ok ==> final(self)@ == old(self)@.with_syntax(rules),
            r is Err ==> final(self)@ == old(self)@,
            old(self)@.wf() ==> final(self)@.wf(),
    {
        if !rules.is_well_formed() {
            return Err(String::from_str("Syntax rules with an empty block delimiter"));
        }
        self.syntax = rules;
        Ok(())
    }

    /// Takes a file's bytes as the buffer.
    ///
    /// Afterwards the buffer holds one row for each line of the file, and
    /// `contents()` gives the file back byte for byte.
    pub fn load(&mut self, bytes: &[u8])
        requires
            old(self)@.wf(),
        ensures
            final(self)@ == old(self)@.loaded(bytes@),
            final(self)@.wf(),
            final(self)@.contents() == bytes@,
    {
        let mut parts = split_rows(bytes);
        let final_newline = bytes.len() > 0 && bytes[bytes.len() - 1] == NEWLINE;
        proof {
            lemma_last_piece(bytes@);
        }
        if bytes.len() == 0 || final_newline {
            let ghost all = parts@.map_values(|r: Vec<u8>| r@);
            parts.pop();
            assert(parts@.map_values(|r: Vec<u8>| r@) =~= all.drop_last());
        }
        let mut rows: Vec<Row> = Vec::new();
        let mut total: usize = 0;
        let ghost wanted = lines_of(bytes@);
        let n = parts.len();
        let mut k: usize = 0;
        assert(views(rows@) =~= wanted.take(0).map_values(|r: Seq<u8>| RowView::fresh(r)));
        assert forall|i: int| 0 <= i < n implies (#[trigger] parts@[i])@ == wanted[i] by {
            assert(parts@.map_values(|r: Vec<u8>| r@)[i] == parts@[i]@);
        }
        while k < n
            invariant
                k <= n,
                n == parts.len(),
                n == wanted.len(),
                wanted == lines_of(bytes@),
                forall|i: int| k <= i < n ==> (#[trigger] parts@[i])@ == wanted[i],
                rows@.len() == k,
                views(rows@) == wanted.take(k as int).map_values(|r: Seq<u8>| RowView::fresh(r)),
                total == bytes_upto(wanted, k as int),
            decreases n - k,
        {
            let mut chars: Vec<u8> = Vec::new();
            assert(parts@[k as int]@ == wanted[k as int]);
            let ghost others = parts@;
            chars.append(&mut parts[k]);
            assert forall|i: int| k < i < n implies (#[trigger] parts@[i])@ == wanted[i] by {
                assert(parts@[i] == others[i]);
            }
            assert(chars@ =~= wanted[k as int]);
            total = if chars.len() <= usize::MAX - total {
                total + chars.len()
            } else {
                usize::MAX
            };
            let row = Row::new(chars);
            assert(row@ =~= RowView::fresh(wanted[k as int]));
            let ghost prior = views(rows@);
            let ghost held = rows@;
            rows.push(row);
            k += 1;
            assert forall|i: int| 0 <= i < k - 1 implies views(rows@)[i] == RowView::fresh(wanted[i]) by {
                assert(rows@[i] == held[i]);
                assert(prior[i] == held[i]@);
                assert(prior[i] == wanted.take(k - 1).map_values(|r: Seq<u8>| RowView::fresh(r))[i]);
            }
            assert(views(rows@) =~= wanted.take(k as int).map_values(|r: Seq<u8>| RowView::fresh(r)));
        }
        assert(wanted.take(n as int) =~= wanted);
        self.rows = rows;
        self.n_bytes = total;
        self.cursor.x = 0;
        self.cursor.y = 0;
        self.final_newline = final_newline;
        proof {
            let held = self@;
            lemma_all_updated(held.rows, held.syntax, held.tab(), held.rows.len() as int);
            lemma_lines_round_trip(bytes@);
            assert(texts(held.rows) =~= wanted);
        }
        self.update_all_rows();
        self.update_padding();
    }

    /// Takes note of how writing the buffer went.
    ///
    /// `outcome` is the number of bytes written, or the error in words.
    /// Returns whether the buffer was written.
    pub fn saved(&mut self, file_name: &str, outcome: Result<usize, String>) -> (ok: bool)
        ensures
            final(self)@ == old(self)@.saved(file_name@, outcome_view(outcome)),
            ok == outcome is Ok,
            old(self)@.wf() ==> final(self)@.wf(),
    {
        match outcome {
            Ok(n) => {
                let mut message = format_size(n);
                message.append(" written to ");
                message.append(file_name);
                self.set_status(message);
                self.dirty = false;
                true
            },
            Err(e) => {
                let mut message = String::from_str("Save I/O error: ");
                message.append(e.as_str());
                self.set_status(message);
                false
            },
        }
    }

    /// Makes the name under which the buffer was written the buffer's own
    /// and colours all rows anew.
    pub fn renamed(&mut self, file_name: String)
        requires
            old(self)@.wf(),
        ensures
            final(self)@ == old(self)@.renamed(file_name@),
            final(self)@.wf(),
    {
        self.file_name = Some(file_name);
        proof {
            let held = self@;
            lemma_all_updated(held.rows, held.syntax, held.tab(), held.rows.len() as int);
            assert forall|i: int| 0 <= i < held.rows.len() implies (#[trigger] all_updated(
                held.rows,
                held.syntax,
                held.tab(),
                held.rows.len() as int,
            )[i]).chars == held.rows[i].chars by {
                let out = all_updated(held.rows, held.syntax, held.tab(), held.rows.len() as int);
                assert(texts(out)[i] == out[i].chars);
                assert(texts(held.rows)[i] == held.rows[i].chars);
            }
        }
        self.update_all_rows();
    }

    /// Types a command's output into the buffer at the cursor.
    pub fn insert_output(&mut self, bytes: &[u8])
        requires
            old(self)@.wf(),
        ensures
            final(self)@ == old(self)@.output_inserted(bytes@, bytes@.len() as int),
            final(self)@.wf(),
    {
        let mut k: usize = 0;
        while k < bytes.len()
            invariant
                k <= bytes.len(),
                self@.wf(),
                self@ == old(self)@.output_inserted(bytes@, k as int),
            decreases bytes.len() - k,
        {
            if bytes[k] == NEWLINE {
                self.insert_new_line();
            } else {
                self.insert_byte(bytes[k]);
            }
            k += 1;
        }
    }
}

} // verus!
