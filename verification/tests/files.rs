use std::path::PathBuf;
use rabi::config::{parse_ini_line, read_values};
use rabi::file::split_rows;
use rabi::loader::has_extension;
use rabi::text::chars_of;
use rabi::{
    parse_ini_file, parse_value, parse_values, Color, Config, Editor, HlState, IniLine,
    SyntaxConfig,
};

fn editor_with(text: &[u8]) -> Editor {
    let mut editor = Editor::new(Config::standard(PathBuf::new())).unwrap();
    editor.load(text);
    editor
}

fn texts(editor: &Editor) -> Vec<String> {
    editor.rows.iter().map(|r| String::from_utf8_lossy(&r.chars).to_string()).collect()
}

fn loaded(text: &[u8]) -> (Vec<String>, bool) {
    let editor = editor_with(text);
    (texts(&editor), editor.final_newline)
}

#[test]
fn buffer_has_one_row_for_each_line() {
    assert_eq!(loaded(b""), (vec![], false));
    assert_eq!(loaded(b"a"), (vec!["a".to_string()], false));
    assert_eq!(loaded(b"a\n"), (vec!["a".to_string()], true));
    assert_eq!(loaded(b"a\nb"), (vec!["a".to_string(), "b".to_string()], false));
    assert_eq!(loaded(b"a\nb\n"), (vec!["a".to_string(), "b".to_string()], true));
    assert_eq!(loaded(b"\n"), (vec![String::new()], true));
    assert_eq!(loaded(b"\n\n"), (vec![String::new(), String::new()], true));
    assert_eq!(loaded(b"a\n\nb"), (vec!["a".to_string(), String::new(), "b".to_string()], false));
}

#[test]
fn final_line_terminator_is_written_back_after_edits() {
    let mut editor = editor_with(b"a\nb\n");
    editor.cursor.y = 1;
    editor.cursor.x = 1;
    editor.insert_byte(b'c');
    editor.insert_new_line();
    editor.insert_byte(b'd');
    assert_eq!(editor.contents(), b"a\nbc\nd\n".to_vec());
    let mut editor = editor_with(b"a\nb");
    editor.cursor.y = 1;
    editor.cursor.x = 1;
    editor.insert_byte(b'c');
    assert_eq!(editor.contents(), b"a\nbc".to_vec());
}

#[test]
fn new_file_has_one_empty_row() {
    let mut editor = editor_with(b"a\nb\n");
    editor.set_file_name(Some("x".to_string()));
    editor.new_file();
    assert_eq!(texts(&editor), vec![""]);
    assert!(editor.file_name.is_none());
    assert!(!editor.final_newline);
    assert_eq!(editor.n_bytes, 0);
    assert_eq!(editor.contents(), Vec::<u8>::new());
    assert_eq!(editor.rows[0].r2c, vec![0]);
    assert!(editor.is_well_formed());
}

#[test]
fn pieces_start_after_every_line_terminator() {
    assert_eq!(split_rows(b""), vec![Vec::<u8>::new()]);
    assert_eq!(split_rows(b"a"), vec![b"a".to_vec()]);
    assert_eq!(split_rows(b"a\n"), vec![b"a".to_vec(), vec![]]);
    assert_eq!(split_rows(b"a\nb"), vec![b"a".to_vec(), b"b".to_vec()]);
    assert_eq!(split_rows(b"\n\n"), vec![Vec::<u8>::new(), vec![], vec![]]);
    assert_eq!(split_rows(b"a\r\nb"), vec![b"a\r".to_vec(), b"b".to_vec()]);
}

#[test]
fn load_and_contents_give_the_file_back() {
    for text in [&b""[..], b"a", b"a\n", b"a\nb", b"\n", b"\n\na\n\n", b"x\ty\r\n\xff\n"] {
        let editor = editor_with(text);
        assert_eq!(editor.contents(), text.to_vec());
    }
}

#[test]
fn load_lays_all_rows_out_and_counts_the_bytes() {
    let mut editor = Editor::new(Config::standard(PathBuf::new())).unwrap();
    editor.set_window_size(24, 80);
    editor.cursor.y = 0;
    editor.load(b"ab\n\tc\n");
    assert_eq!(texts(&editor), vec!["ab", "\tc"]);
    assert_eq!(editor.rows[1].render, "    c");
    assert_eq!(editor.rows[0].r2c, vec![0, 1, 2]);
    assert!(editor.final_newline);
    assert_eq!(editor.n_bytes, 4);
    assert_eq!(editor.left_padding, 3);
    assert!(!editor.dirty);
    assert_eq!((editor.cursor.x, editor.cursor.y), (0, 0));
}

#[test]
fn saved_tells_the_size_or_the_error() {
    let mut editor = editor_with(b"ab");
    editor.dirty = true;
    editor.tick(11);
    assert!(!editor.saved("a.txt", Err("disk full".to_string())));
    assert!(editor.dirty);
    assert_eq!(
        editor.status_message,
        Some(("Save I/O error: disk full".to_string(), 11))
    );
    assert!(editor.saved("a.txt", Ok(2048)));
    assert!(!editor.dirty);
    assert_eq!(
        editor.status_message,
        Some(("2.00kB written to a.txt".to_string(), 11))
    );
}

#[test]
fn renamed_colours_all_rows_with_the_rules_in_force() {
    let mut editor = editor_with(b"/* a\nb");
    assert_eq!(editor.rows[1].hl, vec![Color::Default]);
    let mut rules = SyntaxConfig::plain();
    rules.mlcomment_delims = Some(("/*".to_string(), "*/".to_string()));
    assert_eq!(editor.set_syntax(rules), Ok(()));
    editor.renamed("a.c".to_string());
    assert_eq!(editor.file_name, Some("a.c".to_string()));
    assert_eq!(editor.rows[0].hl_state, HlState::MlComment);
    assert_eq!(editor.rows[1].hl, vec![Color::Blue]);
}

#[test]
fn rules_with_an_empty_delimiter_are_not_installed() {
    let mut editor = editor_with(b"a");
    let mut rules = SyntaxConfig::plain();
    rules.name = "bad".to_string();
    rules.mlstring_delims = Some(String::new());
    assert!(editor.set_syntax(rules).is_err());
    assert_eq!(editor.syntax.name, "");
}

#[test]
fn output_of_a_command_is_typed_in() {
    let mut editor = editor_with(b"ab");
    editor.cursor.x = 1;
    editor.insert_output(b"x\ny\n");
    assert_eq!(texts(&editor), vec!["ax", "y", "b"]);
    assert_eq!((editor.cursor.x, editor.cursor.y), (0, 2));
    assert!(editor.dirty);
    editor.insert_output(b"");
    assert_eq!(texts(&editor), vec!["ax", "y", "b"]);
}

fn line(text: &str) -> IniLine {
    parse_ini_line(&chars_of(text))
}

#[test]
fn lines_of_a_settings_file() {
    assert!(matches!(line(""), IniLine::Blank));
    assert!(matches!(line("   \t"), IniLine::Blank));
    assert!(matches!(line("# a = b"), IniLine::Blank));
    assert!(matches!(line("  ; note"), IniLine::Blank));
    assert!(matches!(line("#"), IniLine::Blank));
    assert!(matches!(line("key = value"), IniLine::Entry(k, v) if k == "key" && v == " value"));
    assert!(matches!(line(" a=b=c "), IniLine::Entry(k, v) if k == "a" && v == "b=c"));
    assert!(matches!(line("a ="), IniLine::Entry(k, v) if k == "a" && v.is_empty()));
    assert!(matches!(line("=x"), IniLine::Entry(k, v) if k.is_empty() && v == "x"));
    assert!(matches!(line("key"), IniLine::Bad));
    assert!(matches!(line("key value"), IniLine::Bad));
}

#[test]
fn settings_file_has_one_entry_for_each_line() {
    let lines = parse_ini_file("a=1\n\n# c\nbad\r\nb = 2");
    assert_eq!(lines.len(), 5);
    assert!(matches!(&lines[0], IniLine::Entry(k, v) if k == "a" && v == "1"));
    assert!(matches!(&lines[1], IniLine::Blank));
    assert!(matches!(&lines[2], IniLine::Blank));
    assert!(matches!(&lines[3], IniLine::Bad));
    assert!(matches!(&lines[4], IniLine::Entry(k, v) if k == "b" && v == " 2"));
}

#[test]
fn values_of_every_kind() {
    assert_eq!(parse_value::<usize>(" 42 "), Ok(42));
    assert_eq!(parse_value::<bool>("true"), Ok(true));
    assert_eq!(parse_value::<bool>(" false\t"), Ok(false));
    assert_eq!(parse_value::<String>("  a b  "), Ok("a b".to_string()));
    assert_eq!(parse_value::<char>(" \" "), Ok('"'));
    assert_eq!(parse_value::<char>("\u{e9}"), Ok('\u{e9}'));
}

#[test]
fn values_that_are_none_of_their_kind() {
    assert_eq!(
        parse_value::<usize>("x"),
        Err("Parser error: invalid digit found in string".to_string())
    );
    assert_eq!(
        parse_value::<usize>(""),
        Err("Parser error: cannot parse integer from empty string".to_string())
    );
    assert_eq!(
        parse_value::<bool>("yes"),
        Err("Parser error: provided string was not `true` or `false`".to_string())
    );
    assert_eq!(
        parse_value::<bool>("True"),
        Err("Parser error: provided string was not `true` or `false`".to_string())
    );
    assert_eq!(
        parse_value::<char>(""),
        Err("Parser error: cannot parse char from empty string".to_string())
    );
    assert_eq!(
        parse_value::<char>("ab"),
        Err("Parser error: too many characters in string".to_string())
    );
}

#[test]
fn value_errors_are_those_of_the_standard_library() {
    assert_eq!(
        parse_value::<usize>("x").unwrap_err(),
        format!("Parser error: {}", "x".parse::<usize>().unwrap_err())
    );
    assert_eq!(
        parse_value::<usize>("").unwrap_err(),
        format!("Parser error: {}", "".parse::<usize>().unwrap_err())
    );
    assert_eq!(
        parse_value::<usize>("99999999999999999999999").unwrap_err(),
        format!("Parser error: {}", "99999999999999999999999".parse::<usize>().unwrap_err())
    );
    assert_eq!(
        parse_value::<bool>("x").unwrap_err(),
        format!("Parser error: {}", "x".parse::<bool>().unwrap_err())
    );
    assert_eq!(
        parse_value::<char>("").unwrap_err(),
        format!("Parser error: {}", "".parse::<char>().unwrap_err())
    );
    assert_eq!(
        parse_value::<char>("xy").unwrap_err(),
        format!("Parser error: {}", "xy".parse::<char>().unwrap_err())
    );
}

#[test]
fn lists_of_values() {
    assert_eq!(parse_values::<usize>("1, 2,3 "), Ok(vec![1, 2, 3]));
    assert_eq!(
        parse_values::<String>("//, #"),
        Ok(vec!["//".to_string(), "#".to_string()])
    );
    assert_eq!(parse_values::<String>(""), Ok(vec![String::new()]));
    assert_eq!(parse_values::<char>("\", '"), Ok(vec!['"', '\'']));
    assert_eq!(
        parse_values::<usize>("1,,x"),
        Err("Parser error: cannot parse integer from empty string".to_string())
    );
    assert_eq!(
        parse_values::<usize>("1,x,"),
        Err("Parser error: invalid digit found in string".to_string())
    );
    assert_eq!(
        parse_values::<char>("a,bc"),
        Err("Parser error: too many characters in string".to_string())
    );
    assert_eq!(read_values::<bool>(&chars_of("true,false")), Ok(vec![true, false]));
}

#[test]
fn settings_start_out_standard() {
    let config = Config::load(PathBuf::from("cfg"), "").unwrap();
    assert_eq!(config.tab_stop, 4);
    assert_eq!(config.quit_times, 2);
    assert_eq!(config.message_duration, 5);
    assert!(config.show_line_numbers);
    assert_eq!(config.config_folder, PathBuf::from("cfg"));
}

#[test]
fn settings_are_read_entry_by_entry() {
    let text = "# settings\n\ntab_stop = 8\nquit_times=3\n  message_duration = 0 \nshow_line_numbers = false\ntab_stop=2\n";
    let config = Config::load(PathBuf::new(), text).unwrap();
    assert_eq!(config.tab_stop, 2);
    assert_eq!(config.quit_times, 3);
    assert_eq!(config.message_duration, 0);
    assert!(!config.show_line_numbers);
}

#[test]
fn settings_that_are_refused() {
    let load = |text: &str| Config::load(PathBuf::new(), text).unwrap_err();
    assert_eq!(load("tab_stop = 0"), "tab_stop must be greater than 0");
    assert_eq!(load("quit_times = 0"), "quit_times must be greater than 0");
    assert_eq!(load("tab_stop = x"), "Parser error: invalid digit found in string");
    assert_eq!(
        load("show_line_numbers = 1"),
        "Parser error: provided string was not `true` or `false`"
    );
    assert_eq!(load("colour = red"), "Unknown key in configuration file: {key}");
    assert_eq!(load("a=1\n\nnonsense"), "Unknown key in configuration file: {key}");
    assert_eq!(
        load("tab_stop=3\n\nnonsense"),
        "Syntax error on configuration file line 3"
    );
    assert_eq!(load("nonsense\ntab_stop=0"), "Syntax error on configuration file line 1");
    assert_eq!(load("tab_stop=0\nnonsense"), "tab_stop must be greater than 0");
}

#[test]
fn rules_are_read_from_a_rule_file() {
    let text = "\
; rules for C
name = C
extensions = c, h
highlight_numbers = true
singleline_comment_start = //
singleline_string_quotes = \", '
multiline_comment_delims = /*, */
multiline_string_delim = \"\"\"
keywords_1 = if, else, while
keywords_2 = int, char
extensions = cc
";
    let (rules, extensions) = SyntaxConfig::from_file(text).unwrap();
    assert_eq!(rules.name, "C");
    assert!(rules.highlight_numbers);
    assert_eq!(rules.slcomment_start, vec!["//".to_string()]);
    assert_eq!(rules.slstring_quotes, vec!['"', '\'']);
    assert_eq!(rules.mlcomment_delims, Some(("/*".to_string(), "*/".to_string())));
    assert_eq!(rules.mlstring_delims, Some("\"\"\"".to_string()));
    assert_eq!(
        rules.keywords,
        vec![
            (
                Color::Yellow,
                vec!["if".to_string(), "else".to_string(), "while".to_string()]
            ),
            (Color::Magenta, vec!["int".to_string(), "char".to_string()]),
        ]
    );
    assert_eq!(extensions, vec!["c".to_string(), "h".to_string(), "cc".to_string()]);
    assert!(rules.is_well_formed());
    assert!(has_extension(&extensions, "h"));
    assert!(!has_extension(&extensions, "hh"));
    assert!(!has_extension(&Vec::new(), ""));
}

#[test]
fn empty_rule_file_gives_plain_rules() {
    let (rules, extensions) = SyntaxConfig::from_file("").unwrap();
    assert_eq!(rules.name, "");
    assert!(!rules.highlight_numbers);
    assert!(rules.slcomment_start.is_empty());
    assert!(rules.slstring_quotes.is_empty());
    assert!(rules.mlcomment_delims.is_none());
    assert!(rules.mlstring_delims.is_none());
    assert!(rules.keywords.is_empty());
    assert!(extensions.is_empty());
}

#[test]
fn rule_files_that_are_refused() {
    let load = |text: &str| SyntaxConfig::from_file(text).unwrap_err();
    assert_eq!(load("colour = red"), "Unknown key: colour");
    assert_eq!(
        load("multiline_comment_delims = /*"),
        "mlcomment_delims must have two values"
    );
    assert_eq!(
        load("multiline_comment_delims = a, b, c"),
        "mlcomment_delims must have two values"
    );
    assert_eq!(
        load("highlight_numbers = maybe"),
        "Parser error: provided string was not `true` or `false`"
    );
    assert_eq!(
        load("singleline_string_quotes = ab"),
        "Parser error: too many characters in string"
    );
    assert_eq!(
        load("singleline_string_quotes = a,"),
        "Parser error: cannot parse char from empty string"
    );
    assert_eq!(load("name = C\nwhat"), "Syntax error on configuration file line 2");
}

#[test]
fn rule_file_may_give_an_empty_delimiter() {
    let (rules, _) = SyntaxConfig::from_file("multiline_string_delim =").unwrap();
    assert_eq!(rules.mlstring_delims, Some(String::new()));
    assert!(!rules.is_well_formed());
}
