use clipwin::text::{
    blank, chars_of, contains_str, copy_range, find_chars, fold_whitespace, has_text, join_strings,
    matches_at, split_chars, str_eq, string_of, text_precedes, trim_chars, trim_start_chars,
    CharClass,
};

fn folded(s: &str) -> String {
    string_of(&fold_whitespace(&chars_of(s)))
}

#[test]
fn characters_make_up_the_string_again() {
    assert_eq!(chars_of("a中😀"), vec!['a', '中', '😀']);
    assert_eq!(string_of(&chars_of("a中😀")), "a中😀");
    assert_eq!(chars_of("").len(), 0);
}

#[test]
fn whitespace_is_what_unicode_says() {
    for u in 0..0x11_0000u32 {
        if let Some(c) = char::from_u32(u) {
            assert_eq!(CharClass::White.has(c), c.is_whitespace(), "{u:x}");
        }
    }
}

#[test]
fn trimming_agrees_with_std() {
    for s in ["", " ", " a ", "\u{3000}中 \t", "a b", "\r\n x \u{85}", "\u{200b}a"] {
        assert_eq!(string_of(&trim_chars(&chars_of(s), CharClass::White)), s.trim());
        assert_eq!(blank(s), s.trim().is_empty());
        assert_eq!(string_of(&trim_start_chars(&chars_of(s), CharClass::White)), s.trim_start());
    }
    assert_eq!(string_of(&trim_chars(&chars_of("  \ta "), CharClass::Blank)), "\ta");
    assert_eq!(string_of(&trim_start_chars(&chars_of("##a#"), CharClass::Hash)), "a#");
}

#[test]
fn folding_agrees_with_std() {
    for s in ["", "  ", "a", " a  b ", "会议\n纪要\t 1", "x\u{3000}y"] {
        let want = s.split_whitespace().collect::<Vec<_>>().join(" ");
        assert_eq!(folded(s), want);
    }
}

#[test]
fn splitting_agrees_with_std() {
    for s in ["", ",", "a", "a,b", ",a,,b,", "工作,急"] {
        let got: Vec<String> =
            split_chars(&chars_of(s), ',').iter().map(|p| string_of(p)).collect();
        let want: Vec<String> = s.split(',').map(|p| p.to_string()).collect();
        assert_eq!(got, want);
    }
}

#[test]
fn joining_agrees_with_std() {
    for list in [vec![], vec!["a"], vec!["a", "", "b"]] {
        let list: Vec<String> = list.iter().map(|s| s.to_string()).collect();
        assert_eq!(join_strings(&list, "\r\n"), list.join("\r\n"));
    }
}

#[test]
fn searching_finds_the_first_occurrence() {
    let hay = chars_of("abcabc");
    assert_eq!(find_chars(&hay, &chars_of("bc")), Some(1));
    assert_eq!(find_chars(&hay, &chars_of("")), Some(0));
    assert_eq!(find_chars(&hay, &chars_of("x")), None);
    assert_eq!(find_chars(&chars_of(""), &chars_of("")), Some(0));
    assert!(matches_at(&hay, &chars_of("cab"), 2));
    assert!(!matches_at(&hay, &chars_of("cab"), 5));
    assert!(!matches_at(&hay, &chars_of("a"), 7));
    assert!(contains_str("命令行终端", "终端"));
    assert!(!contains_str("终", "终端"));
}

#[test]
fn equality_and_ranges() {
    assert!(str_eq("中", "中"));
    assert!(!str_eq("中", "中中"));
    assert!(!str_eq("a", "A"));
    assert_eq!(copy_range(&chars_of("abcd"), 1, 3), vec!['b', 'c']);
}

#[test]
fn texts_are_found_in_lists() {
    let list = vec!["a".to_string(), "b".to_string()];
    assert!(has_text(&list, "b"));
    assert!(!has_text(&list, "c"));
    assert!(!has_text(&list, ""));
}

#[test]
fn texts_are_ordered_by_code_points() {
    let texts = ["", "a", "ab", "b", "A", "é", "\u{ffff}", "\u{10000}", "中"];
    for a in texts {
        for b in texts {
            assert_eq!(text_precedes(&chars_of(a), &chars_of(b)), a < b, "{a:?} {b:?}");
        }
    }
}
