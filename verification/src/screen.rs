//! Drawing the editor: the text rows, the status bar and the message line.
//!
//! Nothing here writes to the terminal. The screen is built as a string of
//! characters and escape sequences that the program sends on.

use vstd::prelude::*;
use crate::ansi_escape::{CLEAR_LINE_RIGHT_OF_CURSOR, HIDE_CURSOR, MOVE_CURSOR_TO_START, RESET_FMT, REVERSE_VIDEO, SHOW_CURSOR};
use crate::edit::{raise, raised};
use crate::editor::{CommandMode, Cursor, Editor, EditorView, ModeView};
use crate::nav::{back};
use crate::syntax::utf8;
use crate::text::{centred, chars_of, clipped, decimal, flush_right, format_size, push_centred, push_char, push_clipped, push_decimal, push_flush_right, size_text};

verus! {

/// The line shown in the middle of an empty buffer.
pub const WELCOME: &'static str = "Rabi - Usagi Peropero Club!";

/// `v` held between `lo` and `hi`.
pub open spec fn held(v: int, lo: int, hi: int) -> int {
    if v < lo {
        lo
    } else if v > hi {
        hi
    } else {
        v
    }
}

impl EditorView {
    /// The line-number column with the given label: the label at the right
    /// edge of the column, a bar, all in grey. Nothing where the column is
    /// hidden.
    pub open spec fn gutter(self, label: Seq<char>) -> Seq<char> {
        if self.left_padding >= 2 {
            "\x1b[38;5;240m"@ + flush_right(label, self.left_padding - 2) + " \u{2502}"@ + RESET_FMT@
        } else {
            Seq::empty()
        }
    }

    /// Whether the welcome line is shown in screen line `i`: the buffer is
    /// empty and the line lies a third down the window.
    pub open spec fn welcomes(self, i: int) -> bool {
        self.rows.len() <= 1 && self.n_bytes == 0 && i == self.text_rows / 3
    }

    /// What is drawn for the `i`-th row of the buffer, or for the empty
    /// line that stands in its place below the last row.
    pub open spec fn line(self, i: int) -> Seq<char> {
        CLEAR_LINE_RIGHT_OF_CURSOR@ + (if 0 <= i < self.rows.len() {
            self.gutter(decimal((i + 1) as nat)) + self.rows[i].drawn(
                self.cursor.col_offset as int,
                self.text_cols as int,
            )
        } else {
            self.gutter(seq!['~']) + (if self.welcomes(i) {
                centred(WELCOME@, self.text_cols as int)
            } else {
                Seq::empty()
            })
        }) + "\r\n"@
    }

    /// What is drawn for the first `k` lines of the window.
    pub open spec fn lines(self, k: int) -> Seq<char>
        decreases k,
    {
        if k <= 0 {
            Seq::empty()
        } else {
            self.lines(k - 1) + self.line(self.cursor.row_offset + k - 1)
        }
    }

    /// The left part of the status bar: the file's name, clipped to 30
    /// characters, and a mark where the buffer was changed.
    pub open spec fn status_left(self) -> Seq<char> {
        clipped(
            match self.file_name {
                Some(name) => name,
                None => "[No Name]"@,
            },
            30,
        ) + (if self.dirty {
            " (modified)"@
        } else {
            Seq::empty()
        })
    }

    /// The size of the buffer as a file: its bytes and its line terminators,
    /// held at the largest machine integer.
    pub open spec fn size(self) -> usize {
        raised(
            raised(self.n_bytes, back(self.rows.len() as int, 1)),
            if self.final_newline {
                1
            } else {
                0
            },
        )
    }

    /// The right part of the status bar: the language, the size of the
    /// buffer, and the cursor's row and column counted from 1.
    pub open spec fn status_right(self) -> Seq<char> {
        self.syntax.name@ + " | "@ + size_text(self.size() as nat) + " | "@ + decimal(raised(self.cursor.y, 1) as nat) + seq![':'] + decimal(
            raised(self.rx() as usize, 1) as nat,
        )
    }

    /// The status bar, in reverse video: the left part, and the right part
    /// at the right edge of what the left part leaves of the window.
    pub open spec fn status_bar(self) -> Seq<char> {
        let room = back(self.window_width as int, utf8(self.status_left()).len() as int);
        REVERSE_VIDEO@ + self.status_left() + flush_right(clipped(self.status_right(), room), room)
            + RESET_FMT@ + "\r\n"@
    }

    /// The message line: the status message, clipped to the window, while
    /// it is younger than the settings let it live.
    pub open spec fn message_line(self) -> Seq<char> {
        CLEAR_LINE_RIGHT_OF_CURSOR@ + (match self.status_message {
            Some(m) => if back(self.now as int, m.1 as int) < self.config.message_duration * 1000 {
                clipped(m.0, self.window_width as int)
            } else {
                Seq::empty()
            },
            None => Seq::empty(),
        })
    }

    /// The editor scrolled so that the cursor is in view.
    pub open spec fn scrolled(self) -> EditorView {
        EditorView {
            cursor: Cursor {
                row_offset: held(
                    self.cursor.row_offset as int,
                    back(self.cursor.y as int, back(self.text_rows as int, 1)),
                    self.cursor.y as int,
                ) as usize,
                col_offset: held(
                    self.cursor.col_offset as int,
                    back(self.rx(), back(self.text_cols as int, 1)),
                    self.rx(),
                ) as usize,
                ..self.cursor
            },
            ..self
        }
    }

    /// The screen row and column, counted from 1, at which the terminal's
    /// cursor is shown: at the cursor of the buffer, or after the message
    /// while a prompt is open.
    pub open spec fn caret(self) -> (usize, usize) {
        if self.mode is None {
            (
                raised(back(self.cursor.y as int, self.cursor.row_offset as int) as usize, 1),
                raised(
                    raised(back(self.rx(), self.cursor.col_offset as int) as usize, 1),
                    self.left_padding as int,
                ),
            )
        } else {
            (
                raised(self.text_rows, 2),
                match self.status_message {
                    Some(m) => raised(utf8(m.0).len() as usize, 1),
                    None => 0,
                },
            )
        }
    }

    /// The whole screen: the text rows, the status bar, the message line,
    /// and the terminal's cursor put in its place.
    pub open spec fn screen(self) -> Seq<char> {
        HIDE_CURSOR@ + MOVE_CURSOR_TO_START@ + self.lines(self.text_rows as int) + self.status_bar()
            + self.message_line() + seq!['\x1b', '['] + decimal(self.caret().0 as nat) + seq![';']
            + decimal(self.caret().1 as nat) + seq!['H'] + SHOW_CURSOR@
    }

    /// The line that a prompt shows in the status bar.
    pub open spec fn prompt_line(mode: ModeView) -> Seq<char> {
        match mode {
            ModeView::Save(s) => "Save as "@ + s,
            ModeView::Find(s, _, _) => "Search (Use ESC/Arrows/Enter): "@ + s,
            ModeView::GoTo(s) => "Enter line number[:column number]: "@ + s,
            ModeView::Execute(s) => "CommandMode to execute: "@ + s,
        }
    }

    /// The editor with the open prompt's line as status message.
    pub open spec fn prompting(self) -> EditorView {
        match self.mode {
            Some(m) => self.with_status(Self::prompt_line(m)),
            None => self,
        }
    }
}

impl Editor {
    /// Draws the line-number column with the given label.
    pub fn draw_padding(&self, buffer: &mut String, label: &str)
        ensures
            final(buffer)@ == old(buffer)@ + self@.gutter(label@),
    {
        if self.left_padding >= 2 {
            buffer.append("\x1b[38;5;240m");
            let text = chars_of(label);
            push_flush_right(buffer, text.as_slice(), false, self.left_padding - 2);
            buffer.append(" \u{2502}");
            buffer.append(RESET_FMT);
            assert(final(buffer)@ =~= old(buffer)@ + self@.gutter(label@));
        } else {
            assert(final(buffer)@ =~= old(buffer)@ + self@.gutter(label@));
        }
    }

    /// Draws one line of the window: the `at`-th row of the buffer, or the
    /// empty line below the last row.
    fn draw_line(&self, buffer: &mut String, at: u128)
        ensures
            final(buffer)@ == old(buffer)@ + self@.line(at as int),
    {
        let ghost start = buffer@;
        buffer.append(CLEAR_LINE_RIGHT_OF_CURSOR);
        if at < self.rows.len() as u128 {
            let i = at as usize;
            let mut label = String::new();
            push_decimal(&mut label, i + 1);
            assert(label@ =~= decimal((i + 1) as nat));
            self.draw_padding(buffer, label.as_str());
            assert(self@.rows[i as int] == self.rows[i as int]@);
            let _ = self.rows[i].draw(self.cursor.col_offset, self.text_cols, buffer);
        } else {
            let ghost tilde = "~"@;
            proof {
                reveal_strlit("~");
                assert(tilde =~= seq!['~']);
            }
            self.draw_padding(buffer, "~");
            if self.rows.len() <= 1 && self.n_bytes == 0 && at == (self.text_rows / 3) as u128 {
                let text = chars_of(WELCOME);
                push_centred(buffer, text.as_slice(), self.text_cols);
            }
        }
        buffer.append("\r\n");
        assert(buffer@ =~= start + self@.line(at as int));
    }

    /// Draws the text rows of the window.
    pub fn draw_rows(&self, buffer: &mut String) -> (r: Result<(), String>)
        ensures
            r is Ok,
            final(buffer)@ == old(buffer)@ + self@.lines(self.text_rows as int),
    {
        let mut k: usize = 0;
        assert(buffer@ =~= old(buffer)@ + self@.lines(0));
        while k < self.text_rows
            invariant
                k <= self.text_rows,
                buffer@ == old(buffer)@ + self@.lines(k as int),
            decreases self.text_rows - k,
        {
            let ghost before = buffer@;
            self.draw_line(buffer, self.cursor.row_offset as u128 + k as u128);
            k += 1;
            assert(buffer@ =~= old(buffer)@ + self@.lines(k as int));
        }
        Ok(())
    }

    /// The left part of the status bar.
    fn status_left(&self) -> (left: String)
        ensures
            left@ == self@.status_left(),
    {
        let mut left = String::new();
        match &self.file_name {
            Some(name) => {
                let text = chars_of(name.as_str());
                push_clipped(&mut left, text.as_slice(), 30);
            },
            None => {
                let text = chars_of("[No Name]");
                push_clipped(&mut left, text.as_slice(), 30);
            },
        }
        if self.dirty {
            left.append(" (modified)");
        }
        assert(left@ =~= self@.status_left());
        left
    }

    /// The right part of the status bar.
    fn status_right(&self) -> (right: String)
        requires
            self@.wf(),
        ensures
            right@ == self@.status_right(),
    {
        let mut right = String::new();
        right.append(self.syntax.name.as_str());
        right.append(" | ");
        let lines = if self.rows.len() >= 1 {
            self.rows.len() - 1
        } else {
            0
        };
        let size = format_size(
            raise(
                raise(self.n_bytes, lines),
                if self.final_newline {
                    1
                } else {
                    0
                },
            ),
        );
        right.append(size.as_str());
        right.append(" | ");
        push_decimal(&mut right, raise(self.cursor.y, 1));
        push_char(&mut right, ':');
        push_decimal(&mut right, raise(self.rx(), 1));
        assert(right@ =~= self@.status_right());
        right
    }

    /// Draws the status bar.
    pub fn draw_status(&self, buffer: &mut String) -> (r: Result<(), String>)
        requires
            self@.wf(),
        ensures
            r is Ok,
            final(buffer)@ == old(buffer)@ + self@.status_bar(),
    {
        let left = self.status_left();
        let right = self.status_right();
        let used = left.as_str().as_bytes().len();
        let room = if self.window_width >= used {
            self.window_width - used
        } else {
            0
        };
        let ghost start = buffer@;
        buffer.append(REVERSE_VIDEO);
        buffer.append(left.as_str());
        let text = chars_of(right.as_str());
        push_flush_right(buffer, text.as_slice(), true, room);
        buffer.append(RESET_FMT);
        buffer.append("\r\n");
        assert(buffer@ =~= start + self@.status_bar());
        Ok(())
    }

    /// Draws the message line.
    pub fn draw_message(&self, buffer: &mut String)
        ensures
            final(buffer)@ == old(buffer)@ + self@.message_line(),
    {
        let ghost start = buffer@;
        buffer.append(CLEAR_LINE_RIGHT_OF_CURSOR);
        match &self.status_message {
            Some(m) => {
                let age = if self.now >= m.1 {
                    self.now - m.1
                } else {
                    0
                };
                if (age as u128) < (self.config.message_duration as u128) * 1000 {
                    let text = chars_of(m.0.as_str());
                    push_clipped(buffer, text.as_slice(), self.window_width);
                }
            },
            None => {},
        }
        assert(buffer@ =~= start + self@.message_line());
    }

    /// Scrolls so that the cursor is in view: the offsets move as little as
    /// need be for the cursor's row and column to lie in the window.
    pub fn scroll(&mut self)
        requires
            old(self)@.wf(),
        ensures
            final(self)@ == old(self)@.scrolled(),
            final(self)@.wf(),
            final(self).cursor.row_offset <= final(self).cursor.y,
            final(self).cursor.col_offset <= final(self)@.rx(),
            final(self).text_rows >= 1 ==> final(self).cursor.y < final(self).cursor.row_offset
                + final(self).text_rows,
            final(self).text_cols >= 1 ==> final(self)@.rx() < final(self).cursor.col_offset
                + final(self).text_cols,
    {
        let y = self.cursor.y;
        let rx = self.rx();
        let rows = if self.text_rows >= 1 {
            self.text_rows - 1
        } else {
            0
        };
        let cols = if self.text_cols >= 1 {
            self.text_cols - 1
        } else {
            0
        };
        let top = if y >= rows {
            y - rows
        } else {
            0
        };
        let first = if rx >= cols {
            rx - cols
        } else {
            0
        };
        if self.cursor.row_offset < top {
            self.cursor.row_offset = top;
        } else if self.cursor.row_offset > y {
            self.cursor.row_offset = y;
        }
        if self.cursor.col_offset < first {
            self.cursor.col_offset = first;
        } else if self.cursor.col_offset > rx {
            self.cursor.col_offset = rx;
        }
    }

    /// Where the terminal's cursor is to be shown: the screen row and
    /// column, counted from 1.
    pub fn caret(&self) -> (r: (usize, usize))
        requires
            self@.wf(),
        ensures
            r == self@.caret(),
    {
        if self.mode.is_none() {
            let rx = self.rx();
            let down = if self.cursor.y >= self.cursor.row_offset {
                self.cursor.y - self.cursor.row_offset
            } else {
                0
            };
            let across = if rx >= self.cursor.col_offset {
                rx - self.cursor.col_offset
            } else {
                0
            };
            (raise(down, 1), raise(raise(across, 1), self.left_padding))
        } else {
            (
                raise(self.text_rows, 2),
                match &self.status_message {
                    Some(m) => raise(m.0.as_str().as_bytes().len(), 1),
                    None => 0,
                },
            )
        }
    }

    /// Scrolls so that the cursor is in view and draws the whole screen.
    ///
    /// Returns what is to be written to the terminal: `screen()` of the
    /// scrolled editor.
    pub fn refresh(&mut self) -> (screen: String)
        requires
            old(self)@.wf(),
        ensures
            final(self)@ == old(self)@.scrolled(),
            final(self)@.wf(),
            screen@ == final(self)@.screen(),
    {
        self.scroll();
        let mut buffer = String::new();
        buffer.append(HIDE_CURSOR);
        buffer.append(MOVE_CURSOR_TO_START);
        let _ = self.draw_rows(&mut buffer);
        let _ = self.draw_status(&mut buffer);
        self.draw_message(&mut buffer);
        let at = self.caret();
        push_char(&mut buffer, '\x1b');
        push_char(&mut buffer, '[');
        push_decimal(&mut buffer, at.0);
        push_char(&mut buffer, ';');
        push_decimal(&mut buffer, at.1);
        push_char(&mut buffer, 'H');
        buffer.append(SHOW_CURSOR);
        assert(buffer@ =~= self@.screen());
        buffer
    }

    /// Shows the open prompt's line in the status bar.
    pub fn show_prompt(&mut self)
        ensures
            final(self)@ == old(self)@.prompting(),
            old(self)@.wf() ==> final(self)@.wf(),
    {
        let mut line = String::new();
        match &self.mode {
            Some(CommandMode::Save(s)) => {
                line.append("Save as ");
                line.append(s.as_str());
            },
            Some(CommandMode::Find(s, _, _)) => {
                line.append("Search (Use ESC/Arrows/Enter): ");
                line.append(s.as_str());
            },
            Some(CommandMode::GoTo(s)) => {
                line.append("Enter line number[:column number]: ");
                line.append(s.as_str());
            },
            Some(CommandMode::Execute(s)) => {
                line.append("CommandMode to execute: ");
                line.append(s.as_str());
            },
            None => {
                return ;
            },
        }
        assert(line@ =~= EditorView::prompt_line(self@.mode->0));
        self.set_status(line);
    }
}

} // verus!
