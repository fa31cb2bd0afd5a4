use std::path::PathBuf;
use rabi::ctrl_key::{
    BACKSPACE, COPY, CUT, DELETE_BIS, DUPLICATE, EXECUTE, EXIT, FIND, GOTO, PASTE,
    REFRESH_SCREEN, REMOVE_LINE, SAVE,
};
use rabi::{
    process_command_key, Action, ArrowKey, CommandMode, CommandState, Config, Cursor, Editor, Key,
};

fn editor_with(text: &[u8]) -> Editor {
    let mut editor = Editor::new(Config::standard(PathBuf::new())).unwrap();
    editor.load(text);
    editor
}

fn texts(editor: &Editor) -> Vec<String> {
    editor.rows.iter().map(|r| String::from_utf8_lossy(&r.chars).to_string()).collect()
}

fn type_text(editor: &mut Editor, text: &str) {
    for b in text.bytes() {
        let action = editor.handle_key(Key::Char(b));
        assert!(matches!(action, Action::Continue));
    }
}

#[test]
fn printable_bytes_are_added_to_the_line() {
    let state = process_command_key("ab".to_string(), Key::Char(b'c'));
    assert!(matches!(state, CommandState::Active(s) if s == "abc"));
    let state = process_command_key(String::new(), Key::Char(b' '));
    assert!(matches!(state, CommandState::Active(s) if s == " "));
    let state = process_command_key(String::new(), Key::Char(b'~'));
    assert!(matches!(state, CommandState::Active(s) if s == "~"));
}

#[test]
fn backspace_takes_the_last_character_away() {
    let state = process_command_key("ab".to_string(), Key::Char(BACKSPACE));
    assert!(matches!(state, CommandState::Active(s) if s == "a"));
    let state = process_command_key("a\u{e9}".to_string(), Key::Char(DELETE_BIS));
    assert!(matches!(state, CommandState::Active(s) if s == "a"));
    let state = process_command_key(String::new(), Key::Char(BACKSPACE));
    assert!(matches!(state, CommandState::Active(s) if s.is_empty()));
}

#[test]
fn enter_completes_and_escape_cancels() {
    let state = process_command_key("ab".to_string(), Key::Char(b'\r'));
    assert!(matches!(state, CommandState::Completed(s) if s == "ab"));
    assert!(matches!(process_command_key("ab".to_string(), Key::Escape), CommandState::Cancelled));
    assert!(matches!(
        process_command_key("ab".to_string(), Key::Char(EXIT)),
        CommandState::Cancelled
    ));
}

#[test]
fn other_keys_leave_the_line_as_it_is() {
    for key in [
        Key::Arrow(ArrowKey::Left),
        Key::CtrlArrow(ArrowKey::Up),
        Key::PageUp,
        Key::PageDown,
        Key::Home,
        Key::End,
        Key::Delete,
        Key::Char(b'\n'),
        Key::Char(1),
        Key::Char(200),
    ] {
        let state = process_command_key("ab".to_string(), key);
        assert!(matches!(state, CommandState::Active(s) if s == "ab"));
    }
}

#[test]
fn save_prompt_asks_for_the_buffer_to_be_written() {
    let mut editor = editor_with(b"abc");
    let (mode, action) = CommandMode::Save("a.tx".to_string()).process_key(&mut editor, Key::Char(b't'));
    assert!(matches!(mode, Some(CommandMode::Save(s)) if s == "a.txt"));
    assert!(matches!(action, Action::Continue));
    assert!(editor.status_message.is_none());
    let (mode, action) =
        CommandMode::Save("a.txt".to_string()).process_key(&mut editor, Key::Char(b'\r'));
    assert!(mode.is_none());
    assert!(matches!(action, Action::SaveAs(s) if s == "a.txt"));
}

#[test]
fn save_prompt_left_says_so() {
    let mut editor = editor_with(b"abc");
    editor.tick(77);
    let (mode, action) = CommandMode::Save("a".to_string()).process_key(&mut editor, Key::Escape);
    assert!(mode.is_none());
    assert!(matches!(action, Action::Continue));
    assert_eq!(editor.status_message, Some(("Save aborted".to_string(), 77)));
}

#[test]
fn find_prompt_searches_with_every_key() {
    let mut editor = editor_with(b"one\ntwo\nthree two");
    let saved = editor.cursor;
    let mode = CommandMode::Find("t".to_string(), saved, None);
    let (mode, _) = mode.process_key(&mut editor, Key::Char(b'w'));
    assert!(matches!(&mode, Some(CommandMode::Find(s, c, Some(1))) if s == "tw" && *c == saved));
    assert_eq!((editor.cursor.x, editor.cursor.y), (0, 1));
    assert_eq!(editor.rows[1].match_range, Some(0..2));
    let (mode, _) = mode.unwrap().process_key(&mut editor, Key::Arrow(ArrowKey::Down));
    assert!(matches!(&mode, Some(CommandMode::Find(s, _, Some(2))) if s == "tw"));
    assert_eq!((editor.cursor.x, editor.cursor.y), (6, 2));
    assert_eq!(editor.rows[1].match_range, None);
    assert_eq!(editor.rows[2].match_range, Some(6..8));
    let (mode, _) = mode.unwrap().process_key(&mut editor, Key::Arrow(ArrowKey::Up));
    assert!(matches!(&mode, Some(CommandMode::Find(_, _, Some(1)))));
    let (mode, _) = mode.unwrap().process_key(&mut editor, Key::Char(FIND));
    assert!(matches!(&mode, Some(CommandMode::Find(_, _, Some(2)))));
    let (mode, _) = mode.unwrap().process_key(&mut editor, Key::Char(b'x'));
    assert!(matches!(&mode, Some(CommandMode::Find(s, _, None)) if s == "twx"));
    assert_eq!(editor.rows[2].match_range, None);
}

#[test]
fn find_prompt_left_restores_the_cursor() {
    let mut editor = editor_with(b"one\ntwo");
    editor.cursor = Cursor { x: 1, y: 0, row_offset: 0, col_offset: 0 };
    let saved = editor.cursor;
    let (mode, _) =
        CommandMode::Find("tw".to_string(), saved, None).process_key(&mut editor, Key::Char(b'o'));
    assert_eq!((editor.cursor.x, editor.cursor.y), (0, 1));
    let (mode, action) = mode.unwrap().process_key(&mut editor, Key::Escape);
    assert!(mode.is_none());
    assert!(matches!(action, Action::Continue));
    assert_eq!(editor.cursor, saved);
    assert_eq!(editor.rows[1].match_range, None);
}

#[test]
fn find_prompt_entered_leaves_the_cursor_at_the_match() {
    let mut editor = editor_with(b"one\ntwo");
    let saved = editor.cursor;
    let (mode, _) =
        CommandMode::Find("tw".to_string(), saved, None).process_key(&mut editor, Key::Char(b'o'));
    let (mode, _) = mode.unwrap().process_key(&mut editor, Key::Char(b'\r'));
    assert!(mode.is_none());
    assert_eq!((editor.cursor.x, editor.cursor.y), (0, 1));
    assert_eq!(editor.rows[1].match_range, None);
}

#[test]
fn find_prompt_holds_a_saved_cursor_to_the_buffer() {
    let mut editor = editor_with(b"ab");
    let saved = Cursor { x: 9, y: 9, row_offset: 3, col_offset: 4 };
    let (_, _) = CommandMode::Find(String::new(), saved, Some(7)).process_key(&mut editor, Key::Escape);
    assert_eq!(editor.cursor, Cursor { x: 0, y: 1, row_offset: 3, col_offset: 4 });
}

#[test]
fn go_to_prompt_moves_the_cursor() {
    let mut editor = editor_with(b"/* start\nmiddle\nend */");
    let (mode, action) = CommandMode::GoTo("10:".to_string()).process_key(&mut editor, Key::Char(b'5'));
    assert!(matches!(mode, Some(CommandMode::GoTo(s)) if s == "10:5"));
    assert!(matches!(action, Action::Continue));
    assert_eq!((editor.cursor.x, editor.cursor.y), (0, 0));
    let (mode, action) =
        CommandMode::GoTo("10:5".to_string()).process_key(&mut editor, Key::Char(b'\r'));
    assert!(mode.is_none());
    assert!(matches!(action, Action::Continue));
    assert_eq!(editor.cursor.y, 2);
    assert_eq!(editor.cursor.x, 4);
    let (mode, _) = CommandMode::GoTo("1".to_string()).process_key(&mut editor, Key::Escape);
    assert!(mode.is_none());
    assert_eq!(editor.cursor.y, 2);
}

#[test]
fn execute_prompt_asks_for_the_command_to_be_run() {
    let mut editor = editor_with(b"");
    let (mode, action) =
        CommandMode::Execute("ls -".to_string()).process_key(&mut editor, Key::Char(b'l'));
    assert!(matches!(mode, Some(CommandMode::Execute(s)) if s == "ls -l"));
    assert!(matches!(action, Action::Continue));
    let (mode, action) =
        CommandMode::Execute("ls -l".to_string()).process_key(&mut editor, Key::Char(b'\r'));
    assert!(mode.is_none());
    assert!(matches!(action, Action::Execute(s) if s == "ls -l"));
    let (mode, action) = CommandMode::Execute("ls".to_string()).process_key(&mut editor, Key::Escape);
    assert!(mode.is_none());
    assert!(matches!(action, Action::Continue));
}

#[test]
fn typing_and_editing_keys() {
    let mut editor = editor_with(b"");
    type_text(&mut editor, "hello");
    assert_eq!(texts(&editor), vec!["hello"]);
    editor.process_key(Key::Char(b'\r'));
    type_text(&mut editor, "wor");
    editor.process_key(Key::Char(b'\n'));
    assert_eq!(texts(&editor), vec!["hello", "wor", ""]);
    editor.process_key(Key::Char(BACKSPACE));
    editor.process_key(Key::Char(DELETE_BIS));
    assert_eq!(texts(&editor), vec!["hello", "wo"]);
    editor.process_key(Key::Home);
    editor.process_key(Key::Delete);
    assert_eq!(texts(&editor), vec!["hello", "o"]);
    editor.process_key(Key::End);
    assert_eq!((editor.cursor.x, editor.cursor.y), (1, 1));
    editor.process_key(Key::Arrow(ArrowKey::Up));
    assert_eq!((editor.cursor.x, editor.cursor.y), (1, 0));
    editor.process_key(Key::CtrlArrow(ArrowKey::Right));
    assert_eq!(editor.cursor.x, 5);
    editor.process_key(Key::Escape);
    editor.process_key(Key::Char(REFRESH_SCREEN));
    assert_eq!(texts(&editor), vec!["hello", "o"]);
}

#[test]
fn row_keys() {
    let mut editor = editor_with(b"ab\ncd");
    editor.process_key(Key::Char(DUPLICATE));
    assert_eq!(texts(&editor), vec!["ab", "ab", "cd"]);
    editor.process_key(Key::Arrow(ArrowKey::Down));
    editor.process_key(Key::Char(CUT));
    assert_eq!(texts(&editor), vec!["ab", "ab", ""]);
    assert_eq!(editor.copied_row, b"cd".to_vec());
    editor.process_key(Key::Arrow(ArrowKey::Up));
    editor.process_key(Key::Char(REMOVE_LINE));
    assert_eq!(texts(&editor), vec!["ab", ""]);
    editor.process_key(Key::Char(PASTE));
    assert_eq!(texts(&editor), vec!["ab", "", "cd"]);
    editor.process_key(Key::Arrow(ArrowKey::Up));
    editor.process_key(Key::Arrow(ArrowKey::Up));
    editor.process_key(Key::Char(COPY));
    assert_eq!(editor.copied_row, b"ab".to_vec());
}

#[test]
fn page_keys_through_process_key() {
    let mut editor = editor_with(b"a\nb\nc\nd\ne\nf");
    editor.set_window_size(4, 20);
    editor.process_key(Key::PageDown);
    assert_eq!(editor.cursor.y, 3);
    editor.cursor.row_offset = 3;
    editor.process_key(Key::PageUp);
    assert_eq!(editor.cursor.y, 1);
}

#[test]
fn quit_key_leaves_an_unchanged_buffer_at_once() {
    let mut editor = editor_with(b"ab");
    let (action, mode) = editor.process_key(Key::Char(EXIT));
    assert!(matches!(action, Action::Quit));
    assert!(mode.is_none());
}

#[test]
fn quit_key_must_be_pressed_again_for_a_changed_buffer() {
    let mut config = Config::standard(PathBuf::new());
    config.quit_times = 3;
    let mut editor = Editor::new(config).unwrap();
    editor.load(b"ab");
    editor.tick(9);
    editor.process_key(Key::Char(b'x'));
    let (action, _) = editor.process_key(Key::Char(EXIT));
    assert!(matches!(action, Action::Continue));
    assert_eq!(editor.quit_times, 2);
    assert_eq!(
        editor.status_message,
        Some(("Press Ctrl+Q 2 more time(s) to quit.".to_string(), 9))
    );
    let (action, _) = editor.process_key(Key::Char(EXIT));
    assert!(matches!(action, Action::Continue));
    assert_eq!(editor.quit_times, 1);
    assert_eq!(
        editor.status_message,
        Some(("Press Ctrl+Q 1 more time(s) to quit.".to_string(), 9))
    );
    let (action, _) = editor.process_key(Key::Char(EXIT));
    assert!(matches!(action, Action::Quit));
}

#[test]
fn any_other_key_sets_the_quit_count_back() {
    let mut editor = editor_with(b"ab");
    editor.process_key(Key::Char(b'x'));
    let (action, _) = editor.process_key(Key::Char(EXIT));
    assert!(matches!(action, Action::Continue));
    assert_eq!(editor.quit_times, 1);
    editor.process_key(Key::Arrow(ArrowKey::Left));
    assert_eq!(editor.quit_times, 2);
    let (action, _) = editor.process_key(Key::Char(EXIT));
    assert!(matches!(action, Action::Continue));
}

#[test]
fn save_key_asks_for_a_name_or_for_the_writing() {
    let mut editor = editor_with(b"ab");
    let (action, mode) = editor.process_key(Key::Char(SAVE));
    assert!(matches!(action, Action::Continue));
    assert!(matches!(mode, Some(CommandMode::Save(s)) if s.is_empty()));
    editor.file_name = Some("a.txt".to_string());
    let (action, mode) = editor.process_key(Key::Char(SAVE));
    assert!(matches!(action, Action::Save(s) if s == "a.txt"));
    assert!(mode.is_none());
    assert_eq!(editor.file_name, Some("a.txt".to_string()));
}

#[test]
fn prompt_keys_open_their_prompts() {
    let mut editor = editor_with(b"ab");
    editor.cursor.x = 1;
    let (_, mode) = editor.process_key(Key::Char(FIND));
    assert!(
        matches!(mode, Some(CommandMode::Find(s, c, None)) if s.is_empty() && c == editor.cursor)
    );
    let (_, mode) = editor.process_key(Key::Char(GOTO));
    assert!(matches!(mode, Some(CommandMode::GoTo(s)) if s.is_empty()));
    let (_, mode) = editor.process_key(Key::Char(EXECUTE));
    assert!(matches!(mode, Some(CommandMode::Execute(s)) if s.is_empty()));
    assert_eq!(texts(&editor), vec!["ab"]);
}

#[test]
fn keys_go_to_the_open_prompt() {
    let mut editor = editor_with(b"one\ntwo\nthree");
    assert!(matches!(editor.handle_key(Key::Char(GOTO)), Action::Continue));
    assert!(matches!(&editor.mode, Some(CommandMode::GoTo(s)) if s.is_empty()));
    type_text(&mut editor, "3:2");
    assert!(matches!(&editor.mode, Some(CommandMode::GoTo(s)) if s == "3:2"));
    assert_eq!(texts(&editor), vec!["one", "two", "three"]);
    assert!(matches!(editor.handle_key(Key::Char(b'\r')), Action::Continue));
    assert!(editor.mode.is_none());
    assert_eq!((editor.cursor.x, editor.cursor.y), (1, 2));
    type_text(&mut editor, "X");
    assert_eq!(texts(&editor), vec!["one", "two", "tXhree"]);
}

#[test]
fn save_as_through_the_prompt() {
    let mut editor = editor_with(b"ab");
    editor.handle_key(Key::Char(SAVE));
    type_text(&mut editor, "b.c");
    let action = editor.handle_key(Key::Char(b'\r'));
    assert!(matches!(action, Action::SaveAs(s) if s == "b.c"));
    assert!(editor.mode.is_none());
}

#[test]
fn prompt_line_in_the_status_bar() {
    let mut editor = editor_with(b"ab");
    editor.tick(3);
    editor.show_prompt();
    assert_eq!(editor.status_message.as_ref().unwrap().1, 0);
    editor.mode = Some(CommandMode::Save("x".to_string()));
    editor.show_prompt();
    assert_eq!(editor.status_message, Some(("Save as x".to_string(), 3)));
    editor.mode = Some(CommandMode::Find("q".to_string(), editor.cursor, None));
    editor.show_prompt();
    assert_eq!(
        editor.status_message,
        Some(("Search (Use ESC/Arrows/Enter): q".to_string(), 3))
    );
    editor.mode = Some(CommandMode::GoTo("1".to_string()));
    editor.show_prompt();
    assert_eq!(
        editor.status_message,
        Some(("Enter line number[:column number]: 1".to_string(), 3))
    );
    editor.mode = Some(CommandMode::Execute("ls".to_string()));
    editor.show_prompt();
    assert_eq!(editor.status_message, Some(("CommandMode to execute: ls".to_string(), 3)));
}
