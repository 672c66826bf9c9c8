use clipwin::wide::{clipboard_text, clipboard_units, utf16_units, wide_str, wide_text};

#[test]
fn units_agree_with_std() {
    for s in ["", "abc", "中文", "😀x", "\u{ffff}\u{10000}\u{10ffff}", "a\0b"] {
        let want: Vec<u16> = s.encode_utf16().collect();
        assert_eq!(utf16_units(s), want);
        assert_eq!(wide_text(&want), s);
        let mut with_nul = want.clone();
        with_nul.push(0);
        assert_eq!(clipboard_units(s), with_nul);
    }
}

#[test]
fn the_clipboard_gives_back_what_was_put_on_it() {
    for s in ["", "abc", "中文😀"] {
        let mut units = clipboard_units(s);
        assert_eq!(clipboard_text(&units), s);
        // the memory block may be longer than the text
        units.extend_from_slice(&[65, 0, 66]);
        assert_eq!(clipboard_text(&units), s);
    }
    assert_eq!(clipboard_text(&[]), "");
    assert_eq!(clipboard_text(&[97, 98]), "ab");
    assert_eq!(clipboard_text(&clipboard_units("a\0b")), "a");
}

#[test]
fn lone_surrogates_are_replaced() {
    assert_eq!(wide_text(&[0x61, 0xd800, 0x62]), "a\u{fffd}b");
    assert_eq!(clipboard_text(&[0xdc00, 0, 0x62]), "\u{fffd}");
}

#[test]
fn a_buffer_is_filled_and_terminated() {
    assert_eq!(wide_str("ab", 4), vec![97, 98, 0, 0]);
    assert_eq!(wide_str("abcd", 4), vec![97, 98, 99, 0]);
    assert_eq!(wide_str("abcde", 4), vec![97, 98, 99, 0]);
    assert_eq!(wide_str("x", 1), vec![0]);
    assert_eq!(wide_str("HTML Format", 32).len(), 32);
}
