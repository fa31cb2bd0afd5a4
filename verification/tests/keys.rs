use rabi::ctrl_key::{
    ctrl_key, BACKSPACE, COPY, CUT, DELETE_BIS, DUPLICATE, EXECUTE, EXIT, FIND, GOTO, PASTE,
    REFRESH_SCREEN, REMOVE_LINE, SAVE,
};
use rabi::keys::Pending;
use rabi::{decode_key, ArrowKey, Key, KeyDecoder};

fn feed_all(bytes: &[u8]) -> Vec<Key> {
    let mut decoder = KeyDecoder::new();
    let mut keys = Vec::new();
    for b in bytes {
        if let Some(key) = decoder.feed(Some(*b)) {
            keys.push(key);
        }
    }
    if let Some(key) = decoder.feed(None) {
        keys.push(key);
    }
    keys
}

#[test]
fn page_up_sequence() {
    assert_eq!(decode_key(&[0x1B, b'[', b'5', b'~']), (Some(Key::PageUp), 4));
}

#[test]
fn arrow_up_sequence() {
    assert_eq!(decode_key(&[0x1B, b'[', b'A']), (Some(Key::Arrow(ArrowKey::Up)), 3));
}

#[test]
fn unknown_sequence_is_escape() {
    assert_eq!(decode_key(&[0x1B, b'[', b'Z']), (Some(Key::Escape), 3));
}

#[test]
fn arrows_home_and_end() {
    assert_eq!(decode_key(b"\x1b[B").0, Some(Key::Arrow(ArrowKey::Down)));
    assert_eq!(decode_key(b"\x1b[C").0, Some(Key::Arrow(ArrowKey::Right)));
    assert_eq!(decode_key(b"\x1b[D").0, Some(Key::Arrow(ArrowKey::Left)));
    assert_eq!(decode_key(b"\x1b[H").0, Some(Key::Home));
    assert_eq!(decode_key(b"\x1b[F").0, Some(Key::End));
    assert_eq!(decode_key(b"\x1bOH").0, Some(Key::Home));
    assert_eq!(decode_key(b"\x1bOF").0, Some(Key::End));
}

#[test]
fn tilde_sequences() {
    assert_eq!(decode_key(b"\x1b[1~").0, Some(Key::Home));
    assert_eq!(decode_key(b"\x1b[7~").0, Some(Key::Home));
    assert_eq!(decode_key(b"\x1b[4~").0, Some(Key::End));
    assert_eq!(decode_key(b"\x1b[8~").0, Some(Key::End));
    assert_eq!(decode_key(b"\x1b[3~").0, Some(Key::Delete));
    assert_eq!(decode_key(b"\x1b[6~").0, Some(Key::PageDown));
    assert_eq!(decode_key(b"\x1b[2~"), (Some(Key::Escape), 4));
    assert_eq!(decode_key(b"\x1b[0~"), (Some(Key::Escape), 4));
}

#[test]
fn arrows_with_ctrl() {
    assert_eq!(decode_key(b"\x1b[1;5A"), (Some(Key::CtrlArrow(ArrowKey::Up)), 6));
    assert_eq!(decode_key(b"\x1b[1;5B").0, Some(Key::CtrlArrow(ArrowKey::Down)));
    assert_eq!(decode_key(b"\x1b[1;5C").0, Some(Key::CtrlArrow(ArrowKey::Right)));
    assert_eq!(decode_key(b"\x1b[1;5D").0, Some(Key::CtrlArrow(ArrowKey::Left)));
    assert_eq!(decode_key(b"\x1b[5A"), (Some(Key::CtrlArrow(ArrowKey::Up)), 4));
    assert_eq!(decode_key(b"\x1bOa").0, Some(Key::CtrlArrow(ArrowKey::Up)));
    assert_eq!(decode_key(b"\x1bOb").0, Some(Key::CtrlArrow(ArrowKey::Down)));
    assert_eq!(decode_key(b"\x1bOc").0, Some(Key::CtrlArrow(ArrowKey::Right)));
    assert_eq!(decode_key(b"\x1bOd").0, Some(Key::CtrlArrow(ArrowKey::Left)));
    assert_eq!(decode_key(b"\x1b[1;2A"), (Some(Key::Escape), 6));
    assert_eq!(decode_key(b"\x1b[1;3~"), (Some(Key::Delete), 6));
}

#[test]
fn short_reads_are_escape() {
    assert_eq!(decode_key(&[0x1B]), (Some(Key::Escape), 1));
    assert_eq!(decode_key(b"\x1b["), (Some(Key::Escape), 2));
    assert_eq!(decode_key(b"\x1bO"), (Some(Key::Escape), 2));
    assert_eq!(decode_key(b"\x1b[5"), (Some(Key::Escape), 3));
    assert_eq!(decode_key(b"\x1b[1;"), (Some(Key::Escape), 4));
    assert_eq!(decode_key(b"\x1b[1;5"), (Some(Key::Escape), 5));
}

#[test]
fn bytes_outside_a_sequence_are_keys_of_their_own() {
    assert_eq!(decode_key(b"a"), (Some(Key::Char(b'a')), 1));
    assert_eq!(decode_key(b"ab"), (Some(Key::Char(b'a')), 1));
    assert_eq!(decode_key(&[0x7F]), (Some(Key::Char(127)), 1));
    assert_eq!(decode_key(&[17]), (Some(Key::Char(EXIT)), 1));
    assert_eq!(decode_key(&[0xC3, 0xA9]), (Some(Key::Char(0xC3)), 1));
    assert_eq!(decode_key(&[]), (None, 0));
}

#[test]
fn escape_followed_by_another_byte_takes_it_along() {
    assert_eq!(decode_key(b"\x1bx"), (Some(Key::Escape), 2));
    assert_eq!(decode_key(b"\x1b\x1b"), (Some(Key::Escape), 2));
}

#[test]
fn decoder_takes_one_byte_at_a_time() {
    let mut decoder = KeyDecoder::new();
    assert_eq!(decoder.feed(None), None);
    assert_eq!(decoder.state, Pending::Idle);
    assert_eq!(decoder.feed(Some(0x1B)), None);
    assert_eq!(decoder.state, Pending::Esc);
    assert_eq!(decoder.feed(Some(b'[')), None);
    assert_eq!(decoder.state, Pending::Csi);
    assert_eq!(decoder.feed(Some(b'5')), None);
    assert_eq!(decoder.state, Pending::Param(b'5'));
    assert_eq!(decoder.feed(Some(b'~')), Some(Key::PageUp));
    assert_eq!(decoder.state, Pending::Idle);
    assert_eq!(decoder.feed(Some(b'q')), Some(Key::Char(b'q')));
}

#[test]
fn decoder_reads_keys_in_a_row() {
    assert_eq!(
        feed_all(b"a\x1b[A\x1b[5~\x1b[Zb\x1b"),
        vec![
            Key::Char(b'a'),
            Key::Arrow(ArrowKey::Up),
            Key::PageUp,
            Key::Escape,
            Key::Char(b'b'),
            Key::Escape
        ]
    );
}

#[test]
fn control_bytes_are_the_low_bits_of_their_letters() {
    assert_eq!(ctrl_key(b'Q'), EXIT);
    assert_eq!(ctrl_key(b'q'), EXIT);
    assert_eq!(ctrl_key(b'H'), DELETE_BIS);
    assert_eq!(ctrl_key(b'L'), REFRESH_SCREEN);
    assert_eq!(ctrl_key(b'S'), SAVE);
    assert_eq!(ctrl_key(b'F'), FIND);
    assert_eq!(ctrl_key(b'G'), GOTO);
    assert_eq!(ctrl_key(b'X'), CUT);
    assert_eq!(ctrl_key(b'C'), COPY);
    assert_eq!(ctrl_key(b'V'), PASTE);
    assert_eq!(ctrl_key(b'D'), DUPLICATE);
    assert_eq!(ctrl_key(b'E'), EXECUTE);
    assert_eq!(ctrl_key(b'R'), REMOVE_LINE);
    assert_eq!(BACKSPACE, 127);
}
