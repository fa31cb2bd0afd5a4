//! The editor's state: the buffer of rows, the cursor and the viewport.
//!
//! The editor owns its rows. Every edit lays the rows it touched out anew
//! and colours them, and goes on colouring the rows below for as long as the
//! state in which a row ends differs from the one it ended in before.

use vstd::prelude::*;
use crate::config::Config;
use crate::row::{Row, RowView, lemma_updated_laid_out};
use crate::syntax::{HlState, SyntaxConfig};
use crate::text::decimal;

verus! {

/// The line shown in the status bar when the editor starts.
pub const HELP_MESSAGE: &'static str =
    "^S save | ^Q quit | ^F find | ^G go to | ^D duplicate | ^E execute | ^C copy | ^X cut | ^V paste";

/// Where the cursor stands and how far the view is scrolled, all counted
/// from 0.
#[derive(Clone, Copy, PartialEq, Eq, Structural, Debug)]
pub struct Cursor {
    /// The byte offset in the current row.
    pub x: usize,
    /// The index of the current row; the number of rows when the cursor
    /// stands below the last one.
    pub y: usize,
    /// The index of the first row shown.
    pub row_offset: usize,
    /// The index of the first character shown of each row.
    pub col_offset: usize,
}

impl Default for Cursor {
    fn default() -> (c: Cursor)
        ensures
            c == (Cursor { x: 0, y: 0, row_offset: 0, col_offset: 0 }),
    {
        Cursor { x: 0, y: 0, row_offset: 0, col_offset: 0 }
    }
}

/// A modal prompt and the line typed into it so far.
#[derive(Debug)]
pub enum CommandMode {
    /// Asks for the name under which to save.
    Save(String),
    /// Asks for a text to find; remembers the cursor from before the search
    /// and the row of the last match.
    Find(String, Cursor, Option<usize>),
    /// Asks for a row and a column to go to.
    GoTo(String),
    /// Asks for a command whose output is inserted.
    Execute(String),
}

/// A modal prompt as mathematical values.
pub enum ModeView {
    Save(Seq<char>),
    Find(Seq<char>, Cursor, Option<usize>),
    GoTo(Seq<char>),
    Execute(Seq<char>),
}

impl View for CommandMode {
    type V = ModeView;

    open spec fn view(&self) -> ModeView {
        match self {
            CommandMode::Save(s) => ModeView::Save(s@),
            CommandMode::Find(s, c, m) => ModeView::Find(s@, *c, *m),
            CommandMode::GoTo(s) => ModeView::GoTo(s@),
            CommandMode::Execute(s) => ModeView::Execute(s@),
        }
    }
}

/// The rows of a buffer as mathematical values.
pub open spec fn views(rows: Seq<Row>) -> Seq<RowView> {
    rows.map_values(|r: Row| r@)
}

/// The text of an optional string.
pub open spec fn text_of(s: Option<String>) -> Option<Seq<char>> {
    match s {
        Some(s) => Some(s@),
        None => None,
    }
}

/// The editor as mathematical values.
#[verifier::ext_equal]
pub struct EditorView {
    pub config: Config,
    pub quit_times: usize,
    pub file_name: Option<Seq<char>>,
    pub syntax: SyntaxConfig,
    pub status_message: Option<(Seq<char>, u64)>,
    pub now: u64,
    pub cursor: Cursor,
    pub mode: Option<ModeView>,
    pub left_padding: usize,
    pub window_width: usize,
    pub rows: Seq<RowView>,
    pub dirty: bool,
    pub text_rows: usize,
    pub text_cols: usize,
    pub n_bytes: usize,
    pub copied_row: Seq<u8>,
    pub final_newline: bool,
}

/// The editor: its settings, its buffer, its cursor and what it shows.
#[derive(Debug)]
pub struct Editor {
    /// The settings.
    pub config: Config,
    /// How many more presses of the quit key leave a modified buffer.
    pub quit_times: usize,
    /// The name of the file that the buffer belongs to.
    pub file_name: Option<String>,
    /// The highlighting rules in force.
    pub syntax: SyntaxConfig,
    /// The status message and the time, in milliseconds, at which it was
    /// set.
    pub status_message: Option<(String, u64)>,
    /// The current time in milliseconds, as the program last told it.
    pub now: u64,
    /// The cursor and the scroll offsets.
    pub cursor: Cursor,
    /// The modal prompt that is open, if one is.
    pub mode: Option<CommandMode>,
    /// The width of the line-number column, 0 when it is hidden.
    pub left_padding: usize,
    /// The width of the window in columns.
    pub window_width: usize,
    /// The rows of the buffer.
    pub rows: Vec<Row>,
    /// Whether the buffer differs from what was last saved.
    pub dirty: bool,
    /// The number of rows of text that the window shows.
    pub text_rows: usize,
    /// The number of columns of text that the window shows.
    pub text_cols: usize,
    /// The number of bytes in the buffer, line terminators aside.
    pub n_bytes: usize,
    /// The row last copied.
    pub copied_row: Vec<u8>,
    /// Whether the file that was read ended in a line terminator, so that
    /// one is written after the last row when the buffer is saved.
    pub final_newline: bool,
}

impl View for Editor {
    type V = EditorView;

    open spec fn view(&self) -> EditorView {
        EditorView {
            config: self.config,
            quit_times: self.quit_times,
            file_name: text_of(self.file_name),
            syntax: self.syntax,
            status_message: match self.status_message {
                Some(m) => Some((m.0@, m.1)),
                None => None,
            },
            now: self.now,
            cursor: self.cursor,
            mode: match self.mode {
                Some(m) => Some(m@),
                None => None,
            },
            left_padding: self.left_padding,
            window_width: self.window_width,
            rows: views(self.rows@),
            dirty: self.dirty,
            text_rows: self.text_rows,
            text_cols: self.text_cols,
            n_bytes: self.n_bytes,
            copied_row: self.copied_row@,
            final_newline: self.final_newline,
        }
    }
}

/// The state in which the highlighter enters row `y`: the state in which
/// the row above ends, `Normal` for the first row.
pub open spec fn incoming(rows: Seq<RowView>, y: int) -> HlState {
    if 0 < y <= rows.len() {
        rows[y - 1].hl_state
    } else {
        HlState::Normal
    }
}

/// The rows after row `y` has been updated with incoming state `st`, and
/// after it the rows below, each with the state in which the one above now
/// ends, up to and including the first row that ends as it ended before.
/// With `once`, only row `y` is updated.
pub open spec fn cascade(
    rows: Seq<RowView>,
    rules: SyntaxConfig,
    tab: int,
    y: int,
    st: HlState,
    once: bool,
) -> Seq<RowView>
    decreases rows.len() - y,
{
    if 0 <= y < rows.len() {
        let r = rows[y].updated(rules, st, tab);
        let next = rows.update(y, r);
        if once || r.hl_state == rows[y].hl_state {
            next
        } else {
            cascade(next, rules, tab, y + 1, r.hl_state, once)
        }
    } else {
        rows
    }
}

/// All rows updated from the first to the last, each entered in the state
/// in which the one above ends.
pub open spec fn all_updated(rows: Seq<RowView>, rules: SyntaxConfig, tab: int, upto: int) -> Seq<RowView>
    decreases upto,
{
    if upto <= 0 || upto > rows.len() {
        rows
    } else {
        let before = all_updated(rows, rules, tab, upto - 1);
        before.update(upto - 1, rows[upto - 1].updated(rules, incoming(before, upto - 1), tab))
    }
}

/// Whether every row is laid out for the tab stop.
pub open spec fn all_laid_out(rows: Seq<RowView>, tab: int) -> bool {
    forall|i: int| 0 <= i < rows.len() ==> (#[trigger] rows[i]).laid_out(tab)
}

/// The bytes of the rows, row by row.
pub open spec fn texts(rows: Seq<RowView>) -> Seq<Seq<u8>> {
    rows.map_values(|r: RowView| r.chars)
}

/// The search matches of the rows, row by row.
pub open spec fn matches_of(rows: Seq<RowView>) -> Seq<Option<(int, int)>> {
    rows.map_values(|r: RowView| r.match_range)
}

/// Re-colouring keeps every row's bytes and search match and the number of
/// rows; it leaves the rows above `y` alone, lays row `y` out, and leaves
/// every row laid out that was laid out before.
pub proof fn lemma_cascade(rows: Seq<RowView>, rules: SyntaxConfig, tab: int, y: int, st: HlState, once: bool)
    requires
        tab > 0,
        rules.well_formed(),
    ensures
        cascade(rows, rules, tab, y, st, once).len() == rows.len(),
        texts(cascade(rows, rules, tab, y, st, once)) == texts(rows),
        matches_of(cascade(rows, rules, tab, y, st, once)) == matches_of(rows),
        forall|i: int| 0 <= i < y && i < rows.len() ==> #[trigger] cascade(rows, rules, tab, y, st, once)[i] == rows[i],
        0 <= y < rows.len() ==> cascade(rows, rules, tab, y, st, once)[y] == rows[y].updated(rules, st, tab),
        forall|i: int| 0 <= i < rows.len() && (#[trigger] rows[i]).laid_out(tab) ==> cascade(rows, rules, tab, y, st, once)[i].laid_out(tab),
        0 <= y < rows.len() ==> cascade(rows, rules, tab, y, st, once)[y].laid_out(tab),
    decreases rows.len() - y,
{
    let out = cascade(rows, rules, tab, y, st, once);
    if 0 <= y < rows.len() {
        let r = rows[y].updated(rules, st, tab);
        let next = rows.update(y, r);
        lemma_updated_laid_out(rows[y], rules, st, tab);
        assert(texts(next) =~= texts(rows));
        assert(matches_of(next) =~= matches_of(rows));
        if !(once || r.hl_state == rows[y].hl_state) {
            lemma_cascade(next, rules, tab, y + 1, r.hl_state, once);
            assert(out == cascade(next, rules, tab, y + 1, r.hl_state, once));
            assert forall|i: int| 0 <= i < rows.len() && (#[trigger] rows[i]).laid_out(tab) implies out[i].laid_out(tab) by {
                assert(next[i].laid_out(tab));
            }
            assert forall|i: int| 0 <= i < y && i < rows.len() implies #[trigger] out[i] == rows[i] by {
                assert(next[i] == rows[i]);
            }
            assert(out[y] == next[y]);
        } else {
            assert(out == next);
        }
    }
}

/// Re-colouring stops at the first row whose end state it leaves as it
/// was: the rows below that one are not touched.
pub proof fn lemma_cascade_stops(rows: Seq<RowView>, rules: SyntaxConfig, tab: int, y: int, st: HlState, once: bool)
    requires
        0 <= y < rows.len(),
        once || rows[y].updated(rules, st, tab).hl_state == rows[y].hl_state,
    ensures
        cascade(rows, rules, tab, y, st, once) == rows.update(y, rows[y].updated(rules, st, tab)),
{
}

/// Re-colouring a row that is up to date changes nothing: where updating
/// row `y` with the state in which the row above ends gives the row as it
/// is, every row stays as it is.
pub proof fn lemma_cascade_unchanged(rows: Seq<RowView>, rules: SyntaxConfig, tab: int, y: int, once: bool)
    requires
        0 <= y < rows.len(),
        rows[y].updated(rules, incoming(rows, y), tab) == rows[y],
    ensures
        cascade(rows, rules, tab, y, incoming(rows, y), once) == rows,
{
    assert(rows.update(y, rows[y]) =~= rows);
}

/// Re-colouring goes on to the next row where a row's end state changes:
/// that row is then entered in the new state.
pub proof fn lemma_cascade_goes_on(rows: Seq<RowView>, rules: SyntaxConfig, tab: int, y: int, st: HlState)
    requires
        tab > 0,
        rules.well_formed(),
        0 <= y,
        y + 1 < rows.len(),
        rows[y].updated(rules, st, tab).hl_state != rows[y].hl_state,
    ensures
        cascade(rows, rules, tab, y, st, false)[y + 1] == rows[y + 1].updated(
            rules,
            rows[y].updated(rules, st, tab).hl_state,
            tab,
        ),
{
    let r = rows[y].updated(rules, st, tab);
    let next = rows.update(y, r);
    lemma_cascade(next, rules, tab, y + 1, r.hl_state, false);
}

/// Colouring all rows keeps every row's bytes and search match and the
/// number of rows; it lays out the rows that it has reached and leaves the
/// others alone.
pub proof fn lemma_all_updated(rows: Seq<RowView>, rules: SyntaxConfig, tab: int, upto: int)
    requires
        tab > 0,
        rules.well_formed(),
        0 <= upto <= rows.len(),
    ensures
        all_updated(rows, rules, tab, upto).len() == rows.len(),
        texts(all_updated(rows, rules, tab, upto)) == texts(rows),
        matches_of(all_updated(rows, rules, tab, upto)) == matches_of(rows),
        forall|i: int| 0 <= i < upto ==> (#[trigger] all_updated(rows, rules, tab, upto)[i]).laid_out(tab),
        forall|i: int| upto <= i < rows.len() ==> all_updated(rows, rules, tab, upto)[i] == rows[i],
    decreases upto,
{
    if upto > 0 {
        lemma_all_updated(rows, rules, tab, upto - 1);
        let before = all_updated(rows, rules, tab, upto - 1);
        lemma_updated_laid_out(rows[upto - 1], rules, incoming(before, upto - 1), tab);
        let after = all_updated(rows, rules, tab, upto);
        assert(texts(after) =~= texts(rows));
        assert(matches_of(after) =~= matches_of(rows));
    }
}

/// The number of decimal digits of a number.
pub fn digits(n: usize) -> (d: usize)
    ensures
        d == decimal(n as nat).len(),
        1 <= d <= 20,
{
    let mut d: usize = 1;
    let mut rest = n;
    proof {
        lemma_digits_bound(n as nat);
    }
    while rest >= 10
        invariant
            decimal(n as nat).len() == (d - 1) + decimal(rest as nat).len(),
            decimal(n as nat).len() <= 20,
            d >= 1,
        decreases rest,
    {
        proof {
            lemma_digits_bound((rest / 10) as nat);
        }
        assert(decimal(rest as nat).len() == decimal((rest / 10) as nat).len() + 1);
        rest = rest / 10;
        d += 1;
    }
    d
}

/// A number has at least one decimal digit, and a machine integer has at
/// most twenty.
pub proof fn lemma_digits_bound(n: nat)
    ensures
        n < 10 ==> decimal(n).len() == 1,
        n <= usize::MAX ==> decimal(n).len() <= 20,
        decimal(n).len() >= 1,
{
    reveal_with_fuel(decimal, 21);
    assert(n <= usize::MAX ==> n <= 0xffff_ffff_ffff_ffff);
}

impl EditorView {
    /// Whether the editor is in order: its settings and rules can drive it,
    /// every row is laid out, and the cursor stands in the buffer.
    pub open spec fn wf(self) -> bool {
        &&& self.config.valid()
        &&& self.quit_times >= 1
        &&& self.syntax.well_formed()
        &&& all_laid_out(self.rows, self.config.tab_stop as int)
        &&& self.cursor.y <= self.rows.len()
        &&& self.cursor.y < self.rows.len() ==> self.cursor.x <= self.rows[self.cursor.y as int].chars.len()
        &&& self.cursor.y == self.rows.len() ==> self.cursor.x == 0
    }

    /// The tab stop.
    pub open spec fn tab(self) -> int {
        self.config.tab_stop as int
    }

    /// The length in bytes of the current row, 0 below the last row.
    pub open spec fn row_len(self) -> int {
        if self.cursor.y < self.rows.len() {
            self.rows[self.cursor.y as int].chars.len() as int
        } else {
            0
        }
    }

    /// The render column of the cursor, 0 below the last row.
    pub open spec fn rx(self) -> int {
        if self.cursor.y < self.rows.len() {
            self.rows[self.cursor.y as int].c2r[self.cursor.x as int]
        } else {
            0
        }
    }

    /// The width of the line-number column for the current number of rows:
    /// the digits of that number and two more, where line numbers are
    /// wanted and that is less than a quarter of the window; else 0.
    pub open spec fn padding(self) -> usize {
        let n = decimal(self.rows.len()).len();
        if self.config.show_line_numbers && n + 2 < self.window_width / 4 {
            (n + 2) as usize
        } else {
            0
        }
    }

    /// The editor with the line-number column sized anew, the text columns
    /// taking the rest of the window.
    pub open spec fn padded(self) -> EditorView {
        EditorView {
            left_padding: self.padding(),
            text_cols: if self.window_width >= self.padding() {
                (self.window_width - self.padding()) as usize
            } else {
                0
            },
            ..self
        }
    }

    /// The editor with the given status message, set now.
    pub open spec fn with_status(self, message: Seq<char>) -> EditorView {
        EditorView { status_message: Some((message, self.now)), ..self }
    }

    /// The editor after row `y` was re-coloured, and the rows below as far
    /// as the end states changed.
    pub open spec fn row_updated(self, y: int, once: bool) -> EditorView {
        EditorView {
            rows: cascade(self.rows, self.syntax, self.tab(), y, incoming(self.rows, y), once),
            ..self
        }
    }

    /// The editor after all rows were coloured from the first to the last.
    pub open spec fn all_rows_updated(self) -> EditorView {
        EditorView {
            rows: all_updated(self.rows, self.syntax, self.tab(), self.rows.len() as int),
            ..self
        }
    }
}

impl Editor {
    /// An editor with an empty buffer, no file, plain highlighting rules
    /// and the help line as status message.
    ///
    /// Fails exactly when the settings cannot drive an editor: a tab stop
    /// or a number of quit presses of 0.
    pub fn new(config: Config) -> (r: Result<Editor, String>)
        ensures
            r is Ok <==> config.valid(),
            r matches Ok(e) ==> {
                &&& e@.wf()
                &&& e.config == config
                &&& e.quit_times == config.quit_times
                &&& e@.file_name is None
                &&& e.syntax.name@.len() == 0
                &&& e@.status_message == Some((HELP_MESSAGE@, 0u64))
                &&& e.now == 0
                &&& e.cursor == (Cursor { x: 0, y: 0, row_offset: 0, col_offset: 0 })
                &&& e@.mode is None
                &&& e.left_padding == 0
                &&& e.window_width == 0
                &&& e@.rows.len() == 0
                &&& !e.dirty
                &&& e.text_rows == 0
                &&& e.text_cols == 0
                &&& e.n_bytes == 0
                &&& e@.copied_row.len() == 0
                &&& !e.final_newline
            },
            r matches Err(m) ==> m@ == (if config.tab_stop == 0 {
                "tab_stop must be greater than 0"@
            } else {
                "quit_times must be greater than 0"@
            }),
    {
        if config.tab_stop == 0 {
            return Err(String::from_str("tab_stop must be greater than 0"));
        }
        if config.quit_times == 0 {
            return Err(String::from_str("quit_times must be greater than 0"));
        }
        let quit_times = config.quit_times;
        let e = Editor {
            config,
            quit_times,
            file_name: None,
            syntax: SyntaxConfig::plain(),
            status_message: Some((String::from_str(HELP_MESSAGE), 0)),
            now: 0,
            cursor: Cursor { x: 0, y: 0, row_offset: 0, col_offset: 0 },
            mode: None,
            left_padding: 0,
            window_width: 0,
            rows: Vec::new(),
            dirty: false,
            text_rows: 0,
            text_cols: 0,
            n_bytes: 0,
            copied_row: Vec::new(),
            final_newline: false,
        };
        Ok(e)
    }

    /// Whether the editor is in order: its settings and rules can drive it,
    /// every row is laid out, and the cursor stands in the buffer. Every
    /// method keeps an editor in order; only a change made to its fields
    /// from outside can put it out of order.
    pub fn is_well_formed(&self) -> (r: bool)
        ensures
            r == self@.wf(),
    {
        if self.config.tab_stop == 0 || self.config.quit_times == 0 || self.quit_times == 0
            || !self.syntax.is_well_formed() {
            return false;
        }
        let n = self.rows.len();
        let mut k: usize = 0;
        while k < n
            invariant
                k <= n,
                n == self.rows.len(),
                self.config.tab_stop > 0,
                forall|i: int| 0 <= i < k ==> (#[trigger] self@.rows[i]).laid_out(self@.tab()),
            decreases n - k,
        {
            assert(self@.rows[k as int] == self.rows[k as int]@);
            if !self.rows[k].is_laid_out(self.config.tab_stop) {
                return false;
            }
            k += 1;
        }
        if self.cursor.y < n {
            assert(self@.rows[self.cursor.y as int] == self.rows[self.cursor.y as int]@);
            self.cursor.x <= self.rows[self.cursor.y].chars.len()
        } else {
            self.cursor.y == n && self.cursor.x == 0
        }
    }

    /// Tells the editor the time, in milliseconds.
    pub fn tick(&mut self, now: u64)
        ensures
            final(self)@ == (EditorView { now, ..old(self)@ }),
    {
        self.now = now;
    }

    /// Sets the status message; it counts as set at the current time.
    pub fn set_status(&mut self, message: String)
        ensures
            final(self)@ == old(self)@.with_status(message@),
    {
        self.status_message = Some((message, self.now));
    }

    /// The row that the cursor stands on, none below the last row.
    pub fn current_row(&self) -> (row: Option<&Row>)
        ensures
            match row {
                Some(r) => self.cursor.y < self.rows.len() && *r == self.rows[self.cursor.y as int],
                None => self.cursor.y >= self.rows.len(),
            },
    {
        if self.cursor.y < self.rows.len() {
            Some(&self.rows[self.cursor.y])
        } else {
            None
        }
    }

    /// The length in bytes of the current row, 0 below the last row.
    pub fn row_len(&self) -> (n: usize)
        ensures
            n == self@.row_len(),
    {
        if self.cursor.y < self.rows.len() {
            self.rows[self.cursor.y].chars.len()
        } else {
            0
        }
    }

    /// The render column of the cursor, 0 below the last row.
    pub fn rx(&self) -> (rx: usize)
        requires
            self@.wf(),
        ensures
            rx == self@.rx(),
            self.cursor.y < self.rows.len() ==> rx < self.rows[self.cursor.y as int].r2c.len(),
    {
        if self.cursor.y < self.rows.len() {
            proof {
                let row = self.rows[self.cursor.y as int];
                assert(self@.rows[self.cursor.y as int] == row@);
                crate::row::lemma_laid_out_maps(row@, self@.tab());
                assert(row@.c2r[self.cursor.x as int] == row.c2r@[self.cursor.x as int]);
                assert(row@.r2c.len() == row.r2c@.len());
            }
            self.rows[self.cursor.y].c2r[self.cursor.x]
        } else {
            0
        }
    }

    /// Sizes the line-number column for the current number of rows.
    pub fn update_padding(&mut self)
        ensures
            final(self)@ == old(self)@.padded(),
    {
        let n = digits(self.rows.len());
        self.left_padding = if self.config.show_line_numbers && n + 2 < self.window_width / 4 {
            n + 2
        } else {
            0
        };
        self.text_cols = if self.window_width >= self.left_padding {
            self.window_width - self.left_padding
        } else {
            0
        };
    }

    /// Takes the size of the window: two of its rows go to the status bar
    /// and the message line, the line-number column is sized anew.
    pub fn set_window_size(&mut self, rows: usize, cols: usize)
        ensures
            final(self)@ == (EditorView {
                text_rows: if rows >= 2 {
                    (rows - 2) as usize
                } else {
                    0
                },
                text_cols: cols,
                window_width: cols,
                ..old(self)@
            }).padded(),
    {
        self.text_rows = if rows >= 2 {
            rows - 2
        } else {
            0
        };
        self.text_cols = cols;
        self.window_width = cols;
        self.update_padding();
    }

    /// Colours row `y` anew and then the rows below it, each entered in the
    /// state in which the row above now ends, until a row ends in the state
    /// in which it ended before. With `ignore_following` only row `y` is
    /// coloured.
    pub fn update_row(&mut self, y: usize, ignore_following: bool)
        requires
            old(self).config.tab_stop > 0,
            old(self).syntax.well_formed(),
            y <= old(self).rows.len(),
        ensures
            final(self)@ == old(self)@.row_updated(y as int, ignore_following),
    {
        let mut st = if y > 0 {
            self.rows[y - 1].hl_state
        } else {
            HlState::Normal
        };
        let ghost goal = old(self)@.row_updated(y as int, ignore_following);
        let mut k = y;
        while k < self.rows.len()
            invariant
                y <= k <= self.rows.len(),
                self.config.tab_stop > 0,
                self.syntax.well_formed(),
                goal == old(self)@.row_updated(y as int, ignore_following),
                goal == (EditorView {
                    rows: cascade(self@.rows, self.syntax, self@.tab(), k as int, st, ignore_following),
                    ..self@
                }),
            decreases self.rows.len() - k,
        {
            let before = self.rows[k].hl_state;
            let ghost rows = self@.rows;
            assert(rows[k as int] == self.rows@[k as int]@);
            let end = self.rows[k].update(&self.syntax, st, self.config.tab_stop);
            assert(self@.rows =~= rows.update(k as int, rows[k as int].updated(self.syntax, st, self@.tab())));
            if ignore_following || end == before {
                proof {
                    let r = rows[k as int].updated(self.syntax, st, self@.tab());
                    assert(r.hl_state == end);
                    assert(rows[k as int].hl_state == before);
                    assert(cascade(rows, self.syntax, self@.tab(), k as int, st, ignore_following)
                        == rows.update(k as int, r));
                    assert(self@ =~= goal);
                }
                return ;
            }
            st = end;
            k += 1;
        }
    }

    /// Colours all rows anew, from the first to the last.
    pub fn update_all_rows(&mut self)
        requires
            old(self).config.tab_stop > 0,
            old(self).syntax.well_formed(),
        ensures
            final(self)@ == old(self)@.all_rows_updated(),
    {
        let mut st = HlState::Normal;
        let mut k: usize = 0;
        let ghost start = self@;
        while k < self.rows.len()
            invariant
                k <= self.rows.len(),
                self.config.tab_stop > 0,
                self.syntax.well_formed(),
                self@ == (EditorView {
                    rows: all_updated(start.rows, start.syntax, start.tab(), k as int),
                    ..start
                }),
                self@.rows.len() == start.rows.len(),
                st == incoming(self@.rows, k as int),
                forall|i: int| k <= i < start.rows.len() ==> self@.rows[i] == start.rows[i],
            decreases self.rows.len() - k,
        {
            let ghost rows = self@.rows;
            st = self.rows[k].update(&self.syntax, st, self.config.tab_stop);
            assert(self@.rows =~= rows.update(k as int, rows[k as int].updated(self.syntax, incoming(rows, k as int), self@.tab())));
            k += 1;
        }
    }
}

} // verus!
