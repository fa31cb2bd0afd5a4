//! Keys at work: the modal prompts and the key bindings of normal editing.
//!
//! Every key goes either to the prompt that is open or to normal editing.
//! What a key asks of the world outside (writing the file, running a
//! command, leaving) is handed back as an `Action`; the program performs it
//! and tells the editor how it went.

use vstd::prelude::*;
use crate::ctrl_key::{BACKSPACE, COPY, CUT, DELETE_BIS, DUPLICATE, ENTER, EXECUTE, EXIT, FIND, GOTO, PASTE, REFRESH_SCREEN, REMOVE_LINE, SAVE};
use crate::editor::{CommandMode, Cursor, Editor, EditorView, ModeView};
use crate::keys::{ArrowKey, Key};
use crate::nav::{least, lemma_placed_wf};
use crate::row::RowView;
use crate::syntax::utf8;
use crate::text::{decimal, pop_char, push_char, push_decimal};

verus! {

/// What a key has made of the line typed into a prompt.
#[derive(Debug)]
pub enum CommandState {
    /// The prompt stays open with this line.
    Active(String),
    /// The line was entered.
    Completed(String),
    /// The prompt was left.
    Cancelled,
}

/// What a key has made of a prompt's line, as mathematical values.
pub enum StateView {
    Active(Seq<char>),
    Completed(Seq<char>),
    Cancelled,
}

impl View for CommandState {
    type V = StateView;

    open spec fn view(&self) -> StateView {
        match self {
            CommandState::Active(s) => StateView::Active(s@),
            CommandState::Completed(s) => StateView::Completed(s@),
            CommandState::Cancelled => StateView::Cancelled,
        }
    }
}

/// What the editor asks the program around it to do.
#[derive(Debug)]
pub enum Action {
    /// Nothing: go on with the next key.
    Continue,
    /// Leave the editor.
    Quit,
    /// Write the buffer to the file of this name, which is the buffer's own.
    Save(String),
    /// Write the buffer to the file of this name and make it the buffer's
    /// own.
    SaveAs(String),
    /// Run this command and insert what it prints.
    Execute(String),
}

/// What the editor asks for, as mathematical values.
pub enum ActionView {
    Continue,
    Quit,
    Save(Seq<char>),
    SaveAs(Seq<char>),
    Execute(Seq<char>),
}

impl View for Action {
    type V = ActionView;

    open spec fn view(&self) -> ActionView {
        match self {
            Action::Continue => ActionView::Continue,
            Action::Quit => ActionView::Quit,
            Action::Save(s) => ActionView::Save(s@),
            Action::SaveAs(s) => ActionView::SaveAs(s@),
            Action::Execute(s) => ActionView::Execute(s@),
        }
    }
}

/// The prompt that is open after a key, if one is.
pub open spec fn mode_view(m: Option<CommandMode>) -> Option<ModeView> {
    match m {
        Some(m) => Some(m@),
        None => None,
    }
}

/// What a key makes of the line typed into a prompt.
///
/// Enter completes the line. Escape and the quit key cancel. Backspace and
/// Ctrl+H take the last character away. A printable ASCII byte is added at
/// the end. Any other key leaves the line as it is.
pub open spec fn line_edited(buffer: Seq<char>, key: Key) -> StateView {
    match key {
        Key::Char(c) => {
            if c == ENTER {
                StateView::Completed(buffer)
            } else if c == EXIT {
                StateView::Cancelled
            } else if c == BACKSPACE || c == DELETE_BIS {
                StateView::Active(
                    if buffer.len() > 0 {
                        buffer.drop_last()
                    } else {
                        buffer
                    },
                )
            } else if 32 <= c <= 126 {
                StateView::Active(buffer.push(c as char))
            } else {
                StateView::Active(buffer)
            }
        },
        Key::Escape => StateView::Cancelled,
        _ => StateView::Active(buffer),
    }
}

/// Applies a key to the line typed into a prompt.
pub fn process_command_key(buffer: String, key: Key) -> (s: CommandState)
    ensures
        s@ == line_edited(buffer@, key),
{
    let mut buffer = buffer;
    match key {
        Key::Char(c) => {
            if c == ENTER {
                CommandState::Completed(buffer)
            } else if c == EXIT {
                CommandState::Cancelled
            } else if c == BACKSPACE || c == DELETE_BIS {
                pop_char(&mut buffer);
                CommandState::Active(buffer)
            } else if 32 <= c && c <= 126 {
                push_char(&mut buffer, c as char);
                CommandState::Active(buffer)
            } else {
                CommandState::Active(buffer)
            }
        },
        Key::Escape => CommandState::Cancelled,
        _ => CommandState::Active(buffer),
    }
}

/// From where and in which direction a key makes an open search go on: the
/// right and down arrows and the find key forwards from the last match,
/// the left and up arrows backwards from it, any other key forwards from
/// the end of the buffer.
pub open spec fn search_course(key: Key, last: Option<usize>) -> (Option<usize>, bool) {
    match key {
        Key::Arrow(ArrowKey::Right) | Key::Arrow(ArrowKey::Down) => (last, true),
        Key::Char(c) => if c == FIND {
            (last, true)
        } else {
            (None, true)
        },
        Key::Arrow(ArrowKey::Left) | Key::Arrow(ArrowKey::Up) => (last, false),
        _ => (None, true),
    }
}

fn course(key: Key, last: Option<usize>) -> (r: (Option<usize>, bool))
    ensures
        r == search_course(key, last),
{
    match key {
        Key::Arrow(ArrowKey::Right) | Key::Arrow(ArrowKey::Down) => (last, true),
        Key::Char(c) => if c == FIND {
            (last, true)
        } else {
            (None, true)
        },
        Key::Arrow(ArrowKey::Left) | Key::Arrow(ArrowKey::Up) => (last, false),
        _ => (None, true),
    }
}

/// The message that tells how often the quit key is still to be pressed.
pub open spec fn quit_warning(times: usize) -> Seq<char> {
    "Press Ctrl+Q "@ + decimal(times as nat) + " more time(s) to quit."@
}

impl EditorView {
    /// The editor without the search match of row `last`.
    pub open spec fn match_cleared(self, last: Option<usize>) -> EditorView {
        match last {
            Some(r) => if r < self.rows.len() {
                EditorView {
                    rows: self.rows.update(r as int, RowView { match_range: None, ..self.rows[r as int] }),
                    ..self
                }
            } else {
                self
            },
            None => self,
        }
    }

    /// The editor with the cursor and the scroll offsets that were saved,
    /// the cursor held to the buffer.
    pub open spec fn restored(self, saved: Cursor) -> EditorView {
        (EditorView { cursor: saved, ..self }).placed(
            saved.x as int,
            least(saved.y as int, self.rows.len() as int),
        )
    }

    /// What a key does while a prompt is open: the editor afterwards, the
    /// prompt that stays open, and what is asked of the program.
    ///
    /// The status message is cleared first. The key edits the prompt's
    /// line. Then, by prompt:
    /// - save: an entered line asks for the buffer to be written under that
    ///   name; leaving the prompt says so in the status bar;
    /// - find: every key that keeps the prompt open searches anew and
    ///   remembers the row of the match; leaving restores the cursor from
    ///   before the search; an entered line leaves the cursor at the match;
    /// - go to: an entered line is gone to;
    /// - execute: an entered line asks for the command to be run.
    pub open spec fn prompted(self, mode: ModeView, key: Key) -> (EditorView, Option<ModeView>, ActionView) {
        let e = EditorView { status_message: None, ..self };
        match mode {
            ModeView::Save(buffer) => match line_edited(buffer, key) {
                StateView::Active(b) => (e, Some(ModeView::Save(b)), ActionView::Continue),
                StateView::Cancelled => (e.with_status("Save aborted"@), None, ActionView::Continue),
                StateView::Completed(name) => (e, None, ActionView::SaveAs(name)),
            },
            ModeView::Find(buffer, saved, last) => {
                let cleared = e.match_cleared(last);
                match line_edited(buffer, key) {
                    StateView::Active(q) => {
                        let c = search_course(key, last);
                        let s = cleared.searched(utf8(q), c.0, c.1);
                        (s.0, Some(ModeView::Find(q, saved, s.1)), ActionView::Continue)
                    },
                    StateView::Cancelled => (cleared.restored(saved), None, ActionView::Continue),
                    StateView::Completed(_) => (cleared, None, ActionView::Continue),
                }
            },
            ModeView::GoTo(buffer) => match line_edited(buffer, key) {
                StateView::Active(b) => (e, Some(ModeView::GoTo(b)), ActionView::Continue),
                StateView::Cancelled => (e, None, ActionView::Continue),
                StateView::Completed(text) => (e.gone_to(text), None, ActionView::Continue),
            },
            ModeView::Execute(buffer) => match line_edited(buffer, key) {
                StateView::Active(b) => (e, Some(ModeView::Execute(b)), ActionView::Continue),
                StateView::Cancelled => (e, None, ActionView::Continue),
                StateView::Completed(command) => (e, None, ActionView::Execute(command)),
            },
        }
    }

    /// The editor with the number of quit presses as the settings give it.
    pub open spec fn rearmed(self) -> EditorView {
        EditorView { quit_times: self.config.quit_times, ..self }
    }

    /// Where a key that only moves the cursor takes the editor; Delete
    /// moves right and then deletes backwards; Escape does nothing.
    pub open spec fn steered(self, key: Key) -> EditorView {
        match key {
            Key::Arrow(a) => self.moved(a, false),
            Key::CtrlArrow(a) => self.moved(a, true),
            Key::PageUp => self.paged_up(),
            Key::PageDown => self.paged_down(),
            Key::Home => self.at_home(),
            Key::End => self.at_end(),
            Key::Delete => self.moved(ArrowKey::Right, false).char_deleted(),
            _ => self,
        }
    }

    /// What a byte that edits the buffer does: Enter breaks the row,
    /// Backspace and Ctrl+H delete backwards, Ctrl+R deletes the row, Ctrl+D,
    /// Ctrl+X, Ctrl+C and Ctrl+V duplicate, cut, copy and paste it, Ctrl+L
    /// does nothing, and any other byte is typed into the buffer.
    pub open spec fn edited(self, c: u8) -> EditorView {
        if c == 13 || c == 10 {
            self.line_broken()
        } else if c == BACKSPACE || c == DELETE_BIS {
            self.char_deleted()
        } else if c == REMOVE_LINE {
            self.row_deleted()
        } else if c == REFRESH_SCREEN {
            self
        } else if c == DUPLICATE {
            self.row_copied().row_pasted()
        } else if c == CUT {
            self.row_copied().row_deleted()
        } else if c == COPY {
            self.row_copied()
        } else if c == PASTE {
            self.row_pasted()
        } else {
            self.byte_inserted(c)
        }
    }

    /// What the quit key does: it leaves at once where nothing was changed
    /// or this press is the last one asked for; else it counts the press
    /// and says how many are left.
    pub open spec fn quit_pressed(self) -> (EditorView, ActionView, Option<ModeView>) {
        let left = (self.quit_times - 1) as usize;
        if !self.dirty || left == 0 {
            (self, ActionView::Quit, None)
        } else {
            (
                EditorView { quit_times: left, ..self.with_status(quit_warning(left)) },
                ActionView::Continue,
                None,
            )
        }
    }

    /// Whether a byte is bound to a prompt or to saving.
    pub open spec fn opens_prompt(c: u8) -> bool {
        c == SAVE || c == FIND || c == GOTO || c == EXECUTE
    }

    /// What a byte bound to a prompt or to saving asks for: Ctrl+S the
    /// writing of the buffer, or a name first; Ctrl+F, Ctrl+G and Ctrl+E
    /// their prompts.
    pub open spec fn prompt_opened(self, c: u8) -> (ActionView, Option<ModeView>) {
        if c == SAVE {
            match self.file_name {
                Some(name) => (ActionView::Save(name), None),
                None => (ActionView::Continue, Some(ModeView::Save(Seq::empty()))),
            }
        } else if c == FIND {
            (ActionView::Continue, Some(ModeView::Find(Seq::empty(), self.cursor, None)))
        } else if c == GOTO {
            (ActionView::Continue, Some(ModeView::GoTo(Seq::empty())))
        } else {
            (ActionView::Continue, Some(ModeView::Execute(Seq::empty())))
        }
    }

    /// What a key does in normal editing: the editor afterwards, what is
    /// asked of the program, and the prompt that the key opens.
    ///
    /// The quit key is counted; every other key sets the count of quit
    /// presses back to what the settings give. A byte bound to a prompt or
    /// to saving asks for that; any other byte edits the buffer; any other
    /// key moves the cursor.
    pub open spec fn keyed(self, key: Key) -> (EditorView, ActionView, Option<ModeView>) {
        match key {
            Key::Char(c) => {
                if c == EXIT {
                    self.quit_pressed()
                } else if Self::opens_prompt(c) {
                    (self.rearmed(), self.prompt_opened(c).0, self.prompt_opened(c).1)
                } else {
                    (self.edited(c).rearmed(), ActionView::Continue, None)
                }
            },
            _ => (self.steered(key).rearmed(), ActionView::Continue, None),
        }
    }

    /// What a key does: it goes to the prompt that is open, and to normal
    /// editing where none is; the prompt that is open afterwards is kept.
    pub open spec fn handled(self, key: Key) -> (EditorView, ActionView) {
        let closed = EditorView { mode: None, ..self };
        match self.mode {
            Some(mode) => {
                let r = closed.prompted(mode, key);
                (EditorView { mode: r.1, ..r.0 }, r.2)
            },
            None => {
                let r = closed.keyed(key);
                (EditorView { mode: r.2, ..r.0 }, r.1)
            },
        }
    }
}

impl CommandMode {
    /// Applies a key to the open prompt.
    ///
    /// Returns the prompt that stays open, if one does, and what the
    /// program is to do: exactly what `EditorView::prompted` says.
    pub fn process_key(self, editor: &mut Editor, key: Key) -> (r: (Option<CommandMode>, Action))
        requires
            old(editor)@.wf(),
        ensures
            (final(editor)@, mode_view(r.0), r.1@) == old(editor)@.prompted(self@, key),
            final(editor)@.wf(),
    {
        editor.status_message = None;
        match self {
            CommandMode::Save(buffer) => match process_command_key(buffer, key) {
                CommandState::Active(b) => (Some(CommandMode::Save(b)), Action::Continue),
                CommandState::Cancelled => {
                    editor.set_status(String::from_str("Save aborted"));
                    (None, Action::Continue)
                },
                CommandState::Completed(name) => (None, Action::SaveAs(name)),
            },
            CommandMode::Find(buffer, saved, last) => {
                editor.clear_match(last);
                match process_command_key(buffer, key) {
                    CommandState::Active(q) => {
                        let c = course(key, last);
                        let found = editor.find(q.as_str(), c.0, c.1);
                        (Some(CommandMode::Find(q, saved, found)), Action::Continue)
                    },
                    CommandState::Cancelled => {
                        editor.restore(saved);
                        (None, Action::Continue)
                    },
                    CommandState::Completed(_) => (None, Action::Continue),
                }
            },
            CommandMode::GoTo(buffer) => match process_command_key(buffer, key) {
                CommandState::Active(b) => (Some(CommandMode::GoTo(b)), Action::Continue),
                CommandState::Cancelled => (None, Action::Continue),
                CommandState::Completed(text) => {
                    editor.go_to(text.as_str());
                    (None, Action::Continue)
                },
            },
            CommandMode::Execute(buffer) => match process_command_key(buffer, key) {
                CommandState::Active(b) => (Some(CommandMode::Execute(b)), Action::Continue),
                CommandState::Cancelled => (None, Action::Continue),
                CommandState::Completed(command) => (None, Action::Execute(command)),
            },
        }
    }
}

impl Editor {
    /// Takes the search match of row `last` away.
    pub fn clear_match(&mut self, last: Option<usize>)
        ensures
            final(self)@ == old(self)@.match_cleared(last),
            old(self)@.wf() ==> final(self)@.wf(),
    {
        match last {
            Some(r) => {
                if r < self.rows.len() {
                    let ghost rows = self@.rows;
                    assert(rows[r as int] == self.rows[r as int]@);
                    self.rows[r].match_range = None;
                    assert(self@.rows =~= rows.update(
                        r as int,
                        RowView { match_range: None, ..rows[r as int] },
                    ));
                    assert forall|i: int| 0 <= i < self@.rows.len() implies (#[trigger] self@.rows[i]).laid_out(
                        self@.tab(),
                    ) == rows[i].laid_out(self@.tab()) by {}
                }
            },
            None => {},
        }
    }

    /// Puts the cursor and the scroll offsets back to what was saved, the
    /// cursor held to the buffer.
    pub fn restore(&mut self, saved: Cursor)
        requires
            old(self)@.wf(),
        ensures
            final(self)@ == old(self)@.restored(saved),
            final(self)@.wf(),
    {
        self.cursor.row_offset = saved.row_offset;
        self.cursor.col_offset = saved.col_offset;
        let y = if saved.y <= self.rows.len() {
            saved.y
        } else {
            self.rows.len()
        };
        proof {
            if y < self.rows.len() {
                assert(self@.rows[y as int] == self.rows[y as int]@);
                assert(self@.len_of(y as int) == self.rows[y as int].chars.len());
            }
            lemma_placed_wf(self@, saved.x as int, y as int);
        }
        self.place(saved.x, y);
    }

    /// Applies a key that moves the cursor.
    fn steer(&mut self, key: Key)
        requires
            old(self)@.wf(),
        ensures
            final(self)@ == old(self)@.steered(key),
            final(self)@.wf(),
    {
        match key {
            Key::Arrow(a) => self.move_cursor(a, false),
            Key::CtrlArrow(a) => self.move_cursor(a, true),
            Key::PageUp => self.page_up(),
            Key::PageDown => self.page_down(),
            Key::Home => self.home(),
            Key::End => self.end(),
            Key::Delete => {
                self.move_cursor(ArrowKey::Right, false);
                self.delete_char();
            },
            _ => {},
        }
    }

    /// Applies a byte that edits the buffer.
    fn edit(&mut self, c: u8)
        requires
            old(self)@.wf(),
        ensures
            final(self)@ == old(self)@.edited(c),
            final(self)@.wf(),
    {
        if c == 13 || c == 10 {
            self.insert_new_line();
        } else if c == BACKSPACE || c == DELETE_BIS {
            self.delete_char();
        } else if c == REMOVE_LINE {
            self.delete_current_row();
        } else if c == REFRESH_SCREEN {
        } else if c == DUPLICATE {
            self.duplicate_current_row();
        } else if c == CUT {
            self.copy_current_row();
            self.delete_current_row();
        } else if c == COPY {
            self.copy_current_row();
        } else if c == PASTE {
            self.paste_current_row();
        } else {
            self.insert_byte(c);
        }
    }

    /// Applies the quit key.
    fn press_quit(&mut self) -> (r: (Action, Option<CommandMode>))
        requires
            old(self)@.wf(),
        ensures
            (final(self)@, r.0@, mode_view(r.1)) == old(self)@.quit_pressed(),
            final(self)@.wf(),
    {
        let left = self.quit_times - 1;
        if !self.dirty || left == 0 {
            return (Action::Quit, None);
        }
        let mut message = String::from_str("Press Ctrl+Q ");
        push_decimal(&mut message, left);
        message.append(" more time(s) to quit.");
        self.set_status(message);
        self.quit_times = left;
        (Action::Continue, None)
    }

    /// What a byte bound to a prompt or to saving asks for.
    fn open_prompt(&self, c: u8) -> (r: (Action, Option<CommandMode>))
        requires
            EditorView::opens_prompt(c),
        ensures
            (r.0@, mode_view(r.1)) == self@.prompt_opened(c),
    {
        if c == SAVE {
            match &self.file_name {
                Some(name) => (Action::Save(name.clone()), None),
                None => (Action::Continue, Some(CommandMode::Save(String::new()))),
            }
        } else if c == FIND {
            (Action::Continue, Some(CommandMode::Find(String::new(), self.cursor, None)))
        } else if c == GOTO {
            (Action::Continue, Some(CommandMode::GoTo(String::new())))
        } else {
            (Action::Continue, Some(CommandMode::Execute(String::new())))
        }
    }

    /// Applies a key of normal editing.
    ///
    /// Returns what the program is to do and the prompt that the key opens,
    /// if it opens one: exactly what `EditorView::keyed` says.
    pub fn process_key(&mut self, key: Key) -> (r: (Action, Option<CommandMode>))
        requires
            old(self)@.wf(),
        ensures
            (final(self)@, r.0@, mode_view(r.1)) == old(self)@.keyed(key),
            final(self)@.wf(),
    {
        match key {
            Key::Char(c) => {
                if c == EXIT {
                    self.press_quit()
                } else if c == SAVE || c == FIND || c == GOTO || c == EXECUTE {
                    let r = self.open_prompt(c);
                    self.quit_times = self.config.quit_times;
                    r
                } else {
                    self.edit(c);
                    self.quit_times = self.config.quit_times;
                    (Action::Continue, None)
                }
            },
            _ => {
                self.steer(key);
                self.quit_times = self.config.quit_times;
                (Action::Continue, None)
            },
        }
    }

    /// Applies a key: to the prompt that is open, or to normal editing.
    ///
    /// Returns what the program is to do before the next key.
    pub fn handle_key(&mut self, key: Key) -> (action: Action)
        requires
            old(self)@.wf(),
        ensures
            (final(self)@, action@) == old(self)@.handled(key),
            final(self)@.wf(),
    {
        match self.mode.take() {
            Some(mode) => {
                let r = mode.process_key(self, key);
                self.mode = r.0;
                r.1
            },
            None => {
                let r = self.process_key(key);
                self.mode = r.1;
                r.0
            },
        }
    }
}

} // verus!
