use rabi::terminal::{parse_cursor_report, raw_modes, window_size};

#[test]
fn raw_modes_switch_the_console_bits() {
    assert_eq!(raw_modes(0, 0), (0x0200, 0x000D));
    assert_eq!(raw_modes(0x0007, 0x0001), (0x0200, 0x000D));
    assert_eq!(raw_modes(0x01F7, 0x0002), (0x03F0, 0x000F));
    assert_eq!(raw_modes(u32::MAX, u32::MAX), (u32::MAX & !0x0007, u32::MAX));
}

#[test]
fn window_size_counts_both_edges() {
    assert_eq!(window_size(0, 23, 0, 79), Ok((24, 80)));
    assert_eq!(window_size(5, 5, 7, 7), Ok((1, 1)));
    assert_eq!(window_size(5, 4, 0, 9), Ok((0, 10)));
    assert_eq!(window_size(i16::MIN, i16::MAX, 0, 0), Ok((65536, 1)));
}

#[test]
fn window_size_of_a_rectangle_turned_inside_out() {
    assert_eq!(window_size(5, 3, 0, 9), Err("Invalid window size".to_string()));
    assert_eq!(window_size(0, 9, 5, 3), Err("Invalid window size".to_string()));
}

#[test]
fn cursor_report_names_row_and_column() {
    assert_eq!(parse_cursor_report(b"\x1b[24;80R"), Ok((24, 80)));
    assert_eq!(parse_cursor_report(b"\x1b[1;1Rrest"), Ok((1, 1)));
    assert_eq!(parse_cursor_report(b"\x1b[+3;007R"), Ok((3, 7)));
}

#[test]
fn cursor_report_that_is_none() {
    let error = Err("Cursor error.".to_string());
    assert_eq!(parse_cursor_report(b""), error);
    assert_eq!(parse_cursor_report(b"\x1b"), error);
    assert_eq!(parse_cursor_report(b"24;80R"), error);
    assert_eq!(parse_cursor_report(b"\x1bO24;80R"), error);
    assert_eq!(parse_cursor_report(b"\x1b[24;80"), error);
    assert_eq!(parse_cursor_report(b"\x1b[2480R"), error);
    assert_eq!(parse_cursor_report(b"\x1b[;80R"), error);
    assert_eq!(parse_cursor_report(b"\x1b[24;R"), error);
    assert_eq!(parse_cursor_report(b"\x1b[2 4;80R"), error);
    assert_eq!(parse_cursor_report(b"\x1b[24;8\xff0R"), error);
    assert_eq!(parse_cursor_report(b"\x1b[24R;80"), error);
}
