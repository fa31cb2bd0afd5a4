use rabi::glyph::{columns_of, decode, width_or_one, Glyph};
use rabi::layout::layout;

fn decoded(bytes: &[u8]) -> String {
    decode(bytes).iter().map(|g| g.ch).collect()
}

#[test]
fn decode_reads_well_formed_text() {
    let text = "a\u{e9}\u{4e2d}\u{1f600}";
    let glyphs = decode(text.as_bytes());
    assert_eq!(glyphs.len(), 4);
    assert_eq!(glyphs[0], Glyph { ch: 'a', len: 1, width: 1 });
    assert_eq!(glyphs[1], Glyph { ch: '\u{e9}', len: 2, width: 1 });
    assert_eq!(glyphs[2], Glyph { ch: '\u{4e2d}', len: 3, width: 2 });
    assert_eq!(glyphs[3], Glyph { ch: '\u{1f600}', len: 4, width: 2 });
}

#[test]
fn decode_replaces_each_ill_formed_prefix_by_one_character() {
    let lone = decode(&[0xFF]);
    assert_eq!(lone, vec![Glyph { ch: '\u{FFFD}', len: 1, width: 1 }]);
    let cut = decode(&[0xE4, 0xB8]);
    assert_eq!(cut, vec![Glyph { ch: '\u{FFFD}', len: 2, width: 1 }]);
    let cut4 = decode(&[0xF0, 0x9F, 0x98, b'a']);
    assert_eq!(
        cut4,
        vec![Glyph { ch: '\u{FFFD}', len: 3, width: 1 }, Glyph { ch: 'a', len: 1, width: 1 }]
    );
    let surrogate = decode(&[0xED, 0xA0, 0x80]);
    assert_eq!(surrogate.len(), 3);
    let overlong = decode(&[0xC0, 0x80]);
    assert_eq!(overlong.len(), 2);
}

#[test]
fn decode_agrees_with_lossy_decoding_of_the_standard_library() {
    let samples: Vec<Vec<u8>> = vec![
        vec![],
        b"plain ascii".to_vec(),
        "h\u{e9}llo w\u{f6}rld \u{4e2d}\u{6587} \u{1f600}".as_bytes().to_vec(),
        vec![0x80],
        vec![0xC2],
        vec![0xC2, 0x41],
        vec![0xE0, 0x80, 0x80],
        vec![0xE0, 0xA0],
        vec![0xE0, 0xA0, 0x41],
        vec![0xED, 0x9F, 0xBF],
        vec![0xED, 0xA0, 0x80],
        vec![0xEF, 0xBF, 0xBD],
        vec![0xF0, 0x80, 0x80, 0x80],
        vec![0xF0, 0x90, 0x80],
        vec![0xF0, 0x90, 0x80, 0x41],
        vec![0xF4, 0x8F, 0xBF, 0xBF],
        vec![0xF4, 0x90, 0x80, 0x80],
        vec![0xF5, 0x80, 0x80, 0x80],
        vec![0x61, 0xFF, 0x62, 0xFE, 0x63],
        vec![0xC3, 0xA9, 0xC3],
    ];
    for bytes in samples {
        assert_eq!(decoded(&bytes), String::from_utf8_lossy(&bytes), "{:?}", bytes);
        let total: usize = decode(&bytes).iter().map(|g| g.len).sum();
        assert_eq!(total, bytes.len(), "{:?}", bytes);
    }
}

#[test]
fn decode_agrees_with_the_standard_library_on_all_byte_pairs() {
    for a in 0u16..=255 {
        for b in 0u16..=255 {
            let bytes = [a as u8, b as u8, 0x80];
            assert_eq!(decoded(&bytes), String::from_utf8_lossy(&bytes), "{:?}", bytes);
        }
    }
}

#[test]
fn columns_follow_the_width_tables() {
    assert_eq!(columns_of('a'), 1);
    assert_eq!(columns_of(' '), 1);
    assert_eq!(columns_of('\u{4e2d}'), 2);
    assert_eq!(columns_of('\u{ff21}'), 2);
}

#[test]
fn columns_are_one_where_the_tables_give_none_or_zero() {
    assert_eq!(columns_of('\u{1}'), 1);
    assert_eq!(columns_of('\u{7f}'), 1);
    assert_eq!(columns_of('\u{301}'), 1);
}

#[test]
fn layout_of_given_glyphs() {
    let glyphs = [
        Glyph { ch: 'a', len: 1, width: 1 },
        Glyph { ch: '\t', len: 1, width: 1 },
        Glyph { ch: '\u{4e2d}', len: 3, width: 2 },
    ];
    let laid = layout(&glyphs, 8);
    assert_eq!(laid.render, "a       \u{4e2d}");
    assert_eq!(laid.c2r, vec![0, 1, 8, 8, 8, 10]);
    assert_eq!(laid.r2c, vec![0, 1, 1, 1, 1, 1, 1, 1, 2, 2, 5]);
    assert_eq!(laid.cols, vec![0, 1, 2, 3, 4, 5, 6, 7, 8]);
}

#[test]
fn layout_of_nothing() {
    let laid = layout(&[], 4);
    assert_eq!(laid.render, "");
    assert_eq!(laid.c2r, vec![0]);
    assert_eq!(laid.r2c, vec![0]);
    assert!(laid.cols.is_empty());
}

#[test]
fn tab_at_a_tab_stop_takes_a_whole_stop() {
    let glyphs = [
        Glyph { ch: 'a', len: 1, width: 1 },
        Glyph { ch: 'b', len: 1, width: 1 },
        Glyph { ch: '\t', len: 1, width: 1 },
        Glyph { ch: '\t', len: 1, width: 1 },
    ];
    let laid = layout(&glyphs, 2);
    assert_eq!(laid.render, "ab    ");
    assert_eq!(laid.c2r, vec![0, 1, 2, 4, 6]);
}

#[test]
fn width_of_a_table_entry() {
    assert_eq!(width_or_one(None), 1);
    assert_eq!(width_or_one(Some(0)), 1);
    assert_eq!(width_or_one(Some(1)), 1);
    assert_eq!(width_or_one(Some(2)), 2);
    assert_eq!(width_or_one(Some(3)), 3);
}

#[test]
fn decode_agrees_with_the_standard_library_on_many_byte_strings() {
    let mut seed: u64 = 0x2545F4914F6CDD1D;
    let mut next = || {
        seed ^= seed << 13;
        seed ^= seed >> 7;
        seed ^= seed << 17;
        seed
    };
    let interesting: [u8; 24] = [
        0x00, 0x41, 0x7F, 0x80, 0x8F, 0x90, 0x9F, 0xA0, 0xBF, 0xC0, 0xC1, 0xC2, 0xDF, 0xE0, 0xE1,
        0xEC, 0xED, 0xEE, 0xEF, 0xF0, 0xF1, 0xF3, 0xF4, 0xF5,
    ];
    for _ in 0..20000 {
        let len = (next() % 7) as usize;
        let bytes: Vec<u8> = (0..len)
            .map(|_| {
                let r = next();
                if r % 3 == 0 {
                    (r >> 8) as u8
                } else {
                    interesting[((r >> 8) % 24) as usize]
                }
            })
            .collect();
        assert_eq!(decoded(&bytes), String::from_utf8_lossy(&bytes), "{:?}", bytes);
    }
}
