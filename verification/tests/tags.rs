use clipwin::tags::{holds_tag, parse_tags, stored_tags, tags_json, tally};

fn strings(list: &[&str]) -> Vec<String> {
    list.iter().map(|s| s.to_string()).collect()
}

#[test]
fn tags_are_entered_with_commas() {
    assert_eq!(parse_tags("工作, #急 ,, ##a b#,# ,"), strings(&["工作", "急", "a b#"]));
    assert_eq!(parse_tags(""), strings(&[]));
    assert_eq!(parse_tags(" # x"), strings(&[" x"]));
    assert_eq!(tags_json("工作,#急"), r#"["工作","急"]"#);
    assert_eq!(tags_json(""), "[]");
}

#[test]
fn stored_tags_read_back() {
    for list in [
        strings(&[]),
        strings(&["a"]),
        strings(&["工作", "a\"b\\c", "\u{1}\u{8}\t\n\u{c}\r\u{1f}\u{7f}/", "é😀"]),
    ] {
        let text = serde_json::to_string(&list).unwrap();
        assert_eq!(stored_tags(&text), Some(list));
    }
    assert_eq!(stored_tags(" [ \"a\" , \"\\u4e2d\" ] "), Some(strings(&["a", "中"])));
    assert_eq!(stored_tags("junk"), None);
    assert_eq!(stored_tags("[1]"), None);
    assert_eq!(stored_tags(""), None);
}

#[test]
fn entered_tags_are_stored_as_json() {
    let text = tags_json("a\"b,c\\d,\te\u{1}f");
    assert_eq!(text, serde_json::to_string(&parse_tags("a\"b,c\\d,\te\u{1}f")).unwrap());
    assert_eq!(stored_tags(&text), Some(parse_tags("a\"b,c\\d,\te\u{1}f")));
}

#[test]
fn a_tag_is_held_as_it_is() {
    let list = Some(strings(&["工作", "急", "a\"b"]));
    assert!(holds_tag(&list, "工作"));
    assert!(holds_tag(&list, "a\"b"));
    assert!(!holds_tag(&list, "工"));
    assert!(!holds_tag(&list, "b"));
    assert!(!holds_tag(&Some(strings(&["Work"])), "work"));
    assert!(!holds_tag(&None, "工作"));
}

#[test]
fn tags_are_counted_in_the_order_of_texts() {
    let counts: Vec<(String, usize)> = tally(&strings(&["b", "a", "工", "b", "", "B", "a", "b"]))
        .into_iter()
        .map(|c| (c.tag, c.count))
        .collect();
    let mut want = std::collections::BTreeMap::new();
    for t in ["b", "a", "工", "b", "", "B", "a", "b"] {
        *want.entry(t.to_string()).or_insert(0) += 1;
    }
    assert_eq!(counts, want.into_iter().collect::<Vec<(String, usize)>>());
    assert_eq!(tally(&strings(&[])).len(), 0);
}
