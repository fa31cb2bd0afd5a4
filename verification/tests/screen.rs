use std::path::PathBuf;
use rabi::ansi_escape::{
    CLEAR_LINE_RIGHT_OF_CURSOR, HIDE_CURSOR, MOVE_CURSOR_TO_START, RESET_FMT, REVERSE_VIDEO,
    SHOW_CURSOR,
};
use rabi::{CommandMode, Config, Editor, SyntaxConfig};

fn editor_with(text: &[u8], rows: usize, cols: usize) -> Editor {
    let mut editor = Editor::new(Config::standard(PathBuf::new())).unwrap();
    editor.load(text);
    editor.set_window_size(rows, cols);
    editor
}

const GREY: &str = "\x1b[38;5;240m";

#[test]
fn line_number_column() {
    let editor = editor_with(b"a", 5, 40);
    assert_eq!(editor.left_padding, 3);
    let mut buffer = String::new();
    editor.draw_padding(&mut buffer, "7");
    assert_eq!(buffer, format!("{GREY}7 \u{2502}{RESET_FMT}"));
    let mut text = Vec::new();
    for _ in 0..120 {
        text.push(b'\n');
    }
    let editor = editor_with(&text, 5, 80);
    assert_eq!(editor.left_padding, 5);
    let mut buffer = String::new();
    editor.draw_padding(&mut buffer, "7");
    assert_eq!(buffer, format!("{GREY}  7 \u{2502}{RESET_FMT}"));
    let mut buffer = String::new();
    editor.draw_padding(&mut buffer, "12345");
    assert_eq!(buffer, format!("{GREY}12345 \u{2502}{RESET_FMT}"));
}

#[test]
fn line_number_column_hidden() {
    let editor = editor_with(b"a", 5, 8);
    assert_eq!(editor.left_padding, 0);
    let mut buffer = String::from("x");
    editor.draw_padding(&mut buffer, "7");
    assert_eq!(buffer, "x");
}

#[test]
fn text_rows_of_the_window() {
    let mut editor = editor_with(b"ab\ncd\nef", 4, 8);
    let mut buffer = String::new();
    assert_eq!(editor.draw_rows(&mut buffer), Ok(()));
    let k = CLEAR_LINE_RIGHT_OF_CURSOR;
    assert_eq!(buffer, format!("{k}ab{RESET_FMT}\r\n{k}cd{RESET_FMT}\r\n"));
    editor.cursor.row_offset = 2;
    editor.cursor.col_offset = 1;
    let mut buffer = String::new();
    assert_eq!(editor.draw_rows(&mut buffer), Ok(()));
    assert_eq!(buffer, format!("{k}f{RESET_FMT}\r\n{k}\r\n"));
}

#[test]
fn text_rows_with_line_numbers() {
    let editor = editor_with(b"ab", 4, 40);
    let mut buffer = String::new();
    assert_eq!(editor.draw_rows(&mut buffer), Ok(()));
    let k = CLEAR_LINE_RIGHT_OF_CURSOR;
    assert_eq!(
        buffer,
        format!(
            "{k}{GREY}1 \u{2502}{RESET_FMT}ab{RESET_FMT}\r\n{k}{GREY}~ \u{2502}{RESET_FMT}\r\n"
        )
    );
}

#[test]
fn welcome_line_of_an_empty_buffer() {
    let mut editor = Editor::new(Config::standard(PathBuf::new())).unwrap();
    editor.new_file();
    editor.set_window_size(8, 31);
    assert_eq!(editor.text_rows, 6);
    let mut buffer = String::new();
    assert_eq!(editor.draw_rows(&mut buffer), Ok(()));
    let k = CLEAR_LINE_RIGHT_OF_CURSOR;
    let p = format!("{GREY}~ \u{2502}{RESET_FMT}");
    assert_eq!(editor.text_cols, 28);
    let expected = format!(
        "{k}{GREY}1 \u{2502}{RESET_FMT}{RESET_FMT}\r\n{k}{p}\r\n{k}{p}{:^28.28}\r\n{k}{p}\r\n{k}{p}\r\n{k}{p}\r\n",
        "Rabi - Usagi Peropero Club!"
    );
    assert_eq!(buffer, expected);
}

#[test]
fn welcome_line_is_clipped_to_the_window() {
    let editor = editor_with(b"", 5, 10);
    assert!(editor.rows.is_empty());
    let mut buffer = String::new();
    assert_eq!(editor.draw_rows(&mut buffer), Ok(()));
    let k = CLEAR_LINE_RIGHT_OF_CURSOR;
    assert_eq!(buffer, format!("{k}\r\n{k}Rabi - Usa\r\n{k}\r\n"));
}

#[test]
fn status_bar_counts_the_final_line_terminator() {
    let editor = editor_with(b"ab\ncd\n", 5, 40);
    let mut buffer = String::new();
    assert_eq!(editor.draw_status(&mut buffer), Ok(()));
    let left = "[No Name]";
    let right = " | 6B | 1:1";
    assert_eq!(
        buffer,
        format!("{REVERSE_VIDEO}{left}{right:>31.31}{RESET_FMT}\r\n")
    );
}

#[test]
fn status_bar_of_an_unnamed_buffer() {
    let mut editor = editor_with(b"ab\ncd", 5, 40);
    editor.cursor.y = 1;
    editor.cursor.x = 2;
    let mut buffer = String::new();
    assert_eq!(editor.draw_status(&mut buffer), Ok(()));
    let left = "[No Name]";
    let right = " | 5B | 2:3";
    assert_eq!(
        buffer,
        format!("{REVERSE_VIDEO}{left}{right:>31.31}{RESET_FMT}\r\n")
    );
}

#[test]
fn status_bar_of_a_named_and_changed_buffer() {
    let mut editor = editor_with(b"ab", 5, 60);
    let mut rules = SyntaxConfig::plain();
    rules.name = "Rust".to_string();
    editor.set_syntax(rules).unwrap();
    editor.file_name = Some("a-very-long-file-name-that-is-clipped.rs".to_string());
    editor.insert_byte(b'x');
    let mut buffer = String::new();
    assert_eq!(editor.draw_status(&mut buffer), Ok(()));
    let left = "a-very-long-file-name-that-is- (modified)";
    let right = "Rust | 3B | 1:2";
    let room = 60 - left.len();
    assert_eq!(
        buffer,
        format!("{REVERSE_VIDEO}{left}{right:>room$.room$}{RESET_FMT}\r\n")
    );
}

#[test]
fn status_bar_in_a_narrow_window() {
    let editor = editor_with(b"ab", 5, 12);
    let mut buffer = String::new();
    assert_eq!(editor.draw_status(&mut buffer), Ok(()));
    assert_eq!(buffer, format!("{REVERSE_VIDEO}[No Name] | {RESET_FMT}\r\n"));
    let editor = editor_with(b"ab", 5, 4);
    let mut buffer = String::new();
    assert_eq!(editor.draw_status(&mut buffer), Ok(()));
    assert_eq!(buffer, format!("{REVERSE_VIDEO}[No Name]{RESET_FMT}\r\n"));
}

#[test]
fn message_line_shows_a_young_message() {
    let mut editor = editor_with(b"ab", 5, 10);
    editor.tick(1000);
    editor.set_status("hello, world".to_string());
    let k = CLEAR_LINE_RIGHT_OF_CURSOR;
    let mut buffer = String::new();
    editor.draw_message(&mut buffer);
    assert_eq!(buffer, format!("{k}hello, wor"));
    editor.tick(5999);
    let mut buffer = String::new();
    editor.draw_message(&mut buffer);
    assert_eq!(buffer, format!("{k}hello, wor"));
    editor.tick(6000);
    let mut buffer = String::new();
    editor.draw_message(&mut buffer);
    assert_eq!(buffer, k);
    editor.status_message = None;
    let mut buffer = String::new();
    editor.draw_message(&mut buffer);
    assert_eq!(buffer, k);
}

#[test]
fn scrolling_keeps_the_cursor_in_view() {
    let mut text = Vec::new();
    for _ in 0..50 {
        text.extend_from_slice(b"0123456789012345678901234567890123456789\n");
    }
    let mut editor = editor_with(&text, 12, 20);
    assert_eq!((editor.text_rows, editor.text_cols, editor.left_padding), (10, 16, 4));
    editor.cursor.y = 30;
    editor.cursor.x = 25;
    editor.scroll();
    assert_eq!((editor.cursor.row_offset, editor.cursor.col_offset), (21, 10));
    editor.cursor.y = 25;
    editor.cursor.x = 12;
    editor.scroll();
    assert_eq!((editor.cursor.row_offset, editor.cursor.col_offset), (21, 10));
    editor.cursor.y = 3;
    editor.cursor.x = 2;
    editor.scroll();
    assert_eq!((editor.cursor.row_offset, editor.cursor.col_offset), (3, 2));
}

#[test]
fn caret_follows_the_cursor_or_the_prompt() {
    let mut editor = editor_with(b"\tab\ncd", 12, 40);
    editor.cursor.y = 0;
    editor.cursor.x = 2;
    assert_eq!(editor.caret(), (1, 9));
    editor.cursor.y = 1;
    editor.cursor.x = 1;
    assert_eq!(editor.caret(), (2, 5));
    editor.mode = Some(CommandMode::GoTo(String::new()));
    editor.set_status("abc".to_string());
    assert_eq!(editor.caret(), (12, 4));
    editor.status_message = None;
    assert_eq!(editor.caret(), (12, 0));
}

#[test]
fn whole_screen() {
    let mut editor = editor_with(b"ab", 3, 8);
    editor.status_message = None;
    editor.cursor.x = 1;
    let screen = editor.refresh();
    let k = CLEAR_LINE_RIGHT_OF_CURSOR;
    assert_eq!(
        screen,
        format!(
            "{HIDE_CURSOR}{MOVE_CURSOR_TO_START}{k}ab{RESET_FMT}\r\n{REVERSE_VIDEO}[No Name]{RESET_FMT}\r\n{k}\x1b[1;2H{SHOW_CURSOR}"
        )
    );
}
