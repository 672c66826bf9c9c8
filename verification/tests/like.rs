use clipwin::like::{containing_pattern, cut_at_nul, sql_like_chars};
use clipwin::text::{chars_of, string_of};
use rusqlite::Connection;

fn ours(pattern: &str, text: &str, esc: Option<char>) -> bool {
    sql_like_chars(&chars_of(pattern), &chars_of(text), esc)
}

const TEXTS: [&str; 14] = [
    "", "a", "A", "abc", "aBc", "a%c", "a_c", "a\\c", "中文", "É", "é", "x\u{fffe}y", "aXbXc",
    "%_\\",
];

#[test]
fn matching_agrees_with_sqlite() {
    let db = Connection::open_in_memory().unwrap();
    let patterns = [
        "", "%", "_", "a", "A%", "%c", "%b%", "a_c", "a\\_c", "a\\%c", "%%", "_%_", "%X%X%",
        "中_", "é", "É", "x\u{fffd}y", "\\%\\_\\\\", "%\\", "a\\", "%_%_%_", "aXb%c",
    ];
    for p in patterns {
        for t in TEXTS {
            let plain: bool =
                db.query_row("SELECT ?1 LIKE ?2", (t, p), |r| r.get(0)).unwrap();
            assert_eq!(ours(p, t, None), plain, "{t:?} LIKE {p:?}");
            let escaped: bool = db
                .query_row("SELECT ?1 LIKE ?2 ESCAPE '\\'", (t, p), |r| r.get(0))
                .unwrap();
            assert_eq!(ours(p, t, Some('\\')), escaped, "{t:?} LIKE {p:?} ESCAPE");
        }
    }
}

#[test]
fn texts_end_at_a_nul() {
    let db = Connection::open_in_memory().unwrap();
    for (t, p) in [("a\0b", "a"), ("a\0b", "%b"), ("\0", ""), ("ab", "a\0b"), ("a", "a\0b")] {
        let want: bool = db.query_row("SELECT ?1 LIKE ?2", (t, p), |r| r.get(0)).unwrap();
        assert_eq!(ours(p, t, None), want, "{t:?} LIKE {p:?}");
    }
    assert_eq!(string_of(&cut_at_nul(&chars_of("ab\0c\0"))), "ab");
}

#[test]
fn a_query_is_taken_literally() {
    assert_eq!(string_of(&containing_pattern(&chars_of("50%"))), "%50\\%%");
    assert_eq!(string_of(&containing_pattern(&chars_of("a_\\"))), "%a\\_\\\\%");
    for q in ["%", "_", "\\", "b", "B", "中", "a%"] {
        let p = string_of(&containing_pattern(&chars_of(q)));
        for t in TEXTS {
            let want = t.to_ascii_lowercase().contains(&q.to_ascii_lowercase());
            assert_eq!(ours(&p, t, Some('\\')), want, "{t:?} contains {q:?}");
        }
    }
}
