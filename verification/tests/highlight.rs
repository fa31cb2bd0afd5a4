use rabi::highlight::{highlight, is_sep, stroke};
use rabi::{Color, HlState, SyntaxConfig};

fn rules() -> SyntaxConfig {
    let mut rules = SyntaxConfig::plain();
    rules.highlight_numbers = true;
    rules.slcomment_start = vec!["//".to_string(), "#".to_string()];
    rules.slstring_quotes = vec!['"', '\''];
    rules.mlcomment_delims = Some(("/*".to_string(), "*/".to_string()));
    rules.mlstring_delims = Some("\"\"\"".to_string());
    rules.keywords = vec![
        (Color::Yellow, vec!["if".to_string(), "in".to_string(), "int".to_string()]),
        (Color::Magenta, vec!["int".to_string(), "char".to_string()]),
    ];
    rules
}

fn colors(text: &str) -> String {
    let (hl, _) = highlight(text.as_bytes(), &rules(), HlState::Normal);
    hl.iter()
        .map(|c| match c {
            Color::Default => '.',
            Color::Blue => 'c',
            Color::Green => 's',
            Color::Red => 'n',
            Color::Yellow => 'k',
            Color::Magenta => 'm',
            _ => '?',
        })
        .collect()
}

fn end_state(text: &str, state: HlState) -> HlState {
    highlight(text.as_bytes(), &rules(), state).1
}

#[test]
fn every_byte_gets_one_colour() {
    for text in ["", "x", "int x = 1; // done", "/* a", "\"abc", "if", "a\u{e9}\u{4e2d}"] {
        let (hl, _) = highlight(text.as_bytes(), &rules(), HlState::Normal);
        assert_eq!(hl.len(), text.len());
    }
}

#[test]
fn line_comment_takes_the_rest_of_the_row() {
    assert_eq!(colors("x // if 1"), "..ccccccc");
    assert_eq!(colors("# all"), "ccccc");
    assert_eq!(end_state("x // y", HlState::Normal), HlState::Normal);
}

#[test]
fn line_comment_marker_inside_a_block_comment_is_part_of_it() {
    assert_eq!(end_state("// */ x", HlState::MlComment), HlState::Normal);
    let (hl, _) = highlight(b"// */ x", &rules(), HlState::MlComment);
    assert_eq!(
        hl,
        vec![
            Color::Blue,
            Color::Blue,
            Color::Blue,
            Color::Blue,
            Color::Blue,
            Color::Default,
            Color::Default
        ]
    );
}

#[test]
fn block_comment_opens_and_closes() {
    assert_eq!(colors("a /* b */ c"), "..ccccccc..");
    assert_eq!(end_state("a /* b", HlState::Normal), HlState::MlComment);
    assert_eq!(end_state("b", HlState::MlComment), HlState::MlComment);
    assert_eq!(end_state("b */", HlState::MlComment), HlState::Normal);
    assert_eq!(end_state("b */ /*", HlState::MlComment), HlState::MlComment);
}

#[test]
fn block_string_opens_and_closes() {
    assert_eq!(colors("x \"\"\"ab\"\"\" y"), "..ssssssss..");
    assert_eq!(end_state("x \"\"\"ab", HlState::Normal), HlState::MlString);
    assert_eq!(end_state("ab\"\"\"", HlState::MlString), HlState::Normal);
    assert_eq!(end_state("/* ab", HlState::MlString), HlState::MlString);
}

#[test]
fn single_line_string_ends_at_its_quote_and_with_its_row() {
    assert_eq!(colors("a \"b'c\" d"), "..sssss..");
    assert_eq!(colors("'a\"b' \"c"), "sssss.ss");
    assert_eq!(end_state("\"abc", HlState::Normal), HlState::Normal);
    assert_eq!(end_state("abc", HlState::String(b'"')), HlState::Normal);
}

#[test]
fn backslash_in_a_string_takes_the_next_byte_along() {
    assert_eq!(colors("\"a\\\"b\" 1"), "ssssss.n");
    assert_eq!(colors("\"a\\"), "sss");
}

#[test]
fn numbers_start_after_a_separator_and_run_to_the_next() {
    assert_eq!(colors("12 a1 3.5 0x1f"), "nn....n.n.nnnn");
    assert_eq!(colors("x=42;"), "..nn.");
    let mut off = rules();
    off.highlight_numbers = false;
    let (hl, _) = highlight(b"12", &off, HlState::Normal);
    assert_eq!(hl, vec![Color::Default, Color::Default]);
}

#[test]
fn keywords_need_separators_around_them() {
    assert_eq!(colors("if x"), "kk..");
    assert_eq!(colors("if"), "kk");
    assert_eq!(colors("iffy"), "....");
    assert_eq!(colors("xif"), "...");
    assert_eq!(colors("a if(b)"), "..kk...");
}

#[test]
fn first_keyword_in_declaration_order_wins() {
    assert_eq!(colors("int"), "kkk");
    assert_eq!(colors("in int char"), "kk.kkk.mmmm");
}

#[test]
fn byte_after_a_keyword_is_scanned_as_any_other() {
    assert_eq!(colors("if\"a\""), "kksss");
    assert_eq!(colors("if//x"), "kkccc");
}

#[test]
fn stroke_at_a_given_position() {
    let r = rules();
    let s = stroke(b"a /* b", &r, 2, HlState::Normal, Color::Default);
    assert_eq!((s.color, s.count, s.state), (Color::Blue, 2, HlState::MlComment));
    let s = stroke(b"a /* b", &r, 4, HlState::MlComment, Color::Blue);
    assert_eq!((s.color, s.count, s.state), (Color::Blue, 1, HlState::MlComment));
    let s = stroke(b"x // y", &r, 2, HlState::Normal, Color::Default);
    assert_eq!((s.color, s.count, s.state), (Color::Blue, 4, HlState::Normal));
    let s = stroke(b"a1", &r, 1, HlState::Normal, Color::Red);
    assert_eq!((s.color, s.count, s.state), (Color::Red, 1, HlState::Normal));
    let s = stroke(b"a1", &r, 1, HlState::Normal, Color::Default);
    assert_eq!((s.color, s.count, s.state), (Color::Default, 1, HlState::Normal));
}

#[test]
fn empty_markers_and_keywords() {
    let mut r = SyntaxConfig::plain();
    r.keywords = vec![(Color::Yellow, vec!["".to_string(), "a".to_string()])];
    let (hl, _) = highlight(b"a b", &r, HlState::Normal);
    assert_eq!(hl, vec![Color::Yellow, Color::Default, Color::Default]);
    r.slcomment_start = vec!["".to_string()];
    let (hl, _) = highlight(b"a b", &r, HlState::Normal);
    assert_eq!(hl, vec![Color::Blue, Color::Blue, Color::Blue]);
}

#[test]
fn rules_with_an_empty_block_delimiter_are_not_well_formed() {
    let mut r = SyntaxConfig::plain();
    assert!(r.is_well_formed());
    r.mlstring_delims = Some(String::new());
    assert!(!r.is_well_formed());
    r.mlstring_delims = Some("'''".to_string());
    assert!(r.is_well_formed());
    r.mlcomment_delims = Some(("/*".to_string(), String::new()));
    assert!(!r.is_well_formed());
    r.mlcomment_delims = Some((String::new(), "*/".to_string()));
    assert!(!r.is_well_formed());
}

#[test]
fn separator_bytes() {
    assert!(is_sep(b' '));
    assert!(is_sep(0));
    assert!(is_sep(b'.'));
    assert!(!is_sep(b'_'));
    assert!(!is_sep(b'a'));
    assert!(!is_sep(0x0B));
    assert!(!is_sep(0x80));
}
