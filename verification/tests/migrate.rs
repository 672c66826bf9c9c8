use clipwin::rows::TodoRow;
use clipwin::store::migrate::{clip_migration, todo_migration};
use clipwin::store::{Setting, Store};
use rusqlite::Connection;

fn strings(list: &[&str]) -> Vec<String> {
    list.iter().map(|s| s.to_string()).collect()
}

fn columns(db: &Connection, table: &str) -> Vec<String> {
    let mut stmt = db.prepare(&format!("PRAGMA table_info({table})")).unwrap();
    let rows = stmt.query_map([], |r| r.get::<_, String>(1)).unwrap();
    rows.map(|x| x.unwrap()).collect()
}

fn todo(id: i64, title: Option<&str>, text: Option<&str>) -> TodoRow {
    TodoRow {
        id,
        ts: 0,
        done: false,
        kind: "text".to_string(),
        title: title.map(|t| t.to_string()),
        content: None,
        text: text.map(|t| t.to_string()),
        image_path: None,
        files_json: None,
        size: 0,
        priority: 0,
        due_at: None,
        tags: "[]".to_string(),
        pinned: false,
        done_at: None,
    }
}

#[test]
fn old_tables_gain_their_columns() {
    let db = Connection::open_in_memory().unwrap();
    db.execute_batch(
        "CREATE TABLE clips(id INTEGER PRIMARY KEY, ts INTEGER NOT NULL);
         CREATE TABLE todos(id INTEGER PRIMARY KEY, ts INTEGER NOT NULL, due_at INTEGER);",
    )
    .unwrap();
    let ddl = todo_migration(&columns(&db, "todos"));
    assert_eq!(ddl.len(), 6);
    assert_eq!(ddl[0], "ALTER TABLE todos ADD COLUMN priority INTEGER NOT NULL DEFAULT 0");
    assert_eq!(ddl[1], "ALTER TABLE todos ADD COLUMN tags TEXT NOT NULL DEFAULT '[]'");
    for sql in ddl {
        db.execute(&sql, []).unwrap();
    }
    assert_eq!(todo_migration(&columns(&db, "todos")), Vec::<String>::new());
    for sql in clip_migration(&columns(&db, "clips")) {
        db.execute(&sql, []).unwrap();
    }
    assert_eq!(columns(&db, "clips"), strings(&["id", "ts", "pinned", "html_path"]));
    assert_eq!(clip_migration(&columns(&db, "clips")), Vec::<String>::new());
}

#[test]
fn titles_are_filled_in_as_sqlite_does() {
    let long = "字".repeat(60);
    let cases: Vec<(Option<&str>, Option<&str>)> = vec![
        (None, None),
        (None, Some("")),
        (None, Some("   ")),
        (None, Some("text")),
        (Some(""), Some("  a\r\nb  ")),
        (Some("  "), Some("\n\n")),
        (Some("\n"), Some("text")),
        (Some("kept"), Some("text")),
        (Some(" kept "), None),
        (None, Some(&long)),
        (None, Some("a\0b")),
        (Some("\0"), Some("x")),
        (None, Some("\ttab")),
    ];
    let db = Connection::open_in_memory().unwrap();
    db.execute_batch("CREATE TABLE todos(id INTEGER PRIMARY KEY, title TEXT, text TEXT)").unwrap();
    let mut rows = Vec::new();
    for (i, (title, text)) in cases.iter().enumerate() {
        let id = i as i64 + 1;
        db.execute("INSERT INTO todos VALUES(?1, ?2, ?3)", (id, title, text)).unwrap();
        rows.push(todo(id, *title, *text));
    }
    db.execute(
        "UPDATE todos SET title = COALESCE(NULLIF(TRIM(title), ''),
            CASE WHEN text IS NOT NULL AND TRIM(text) != ''
                 THEN SUBSTR(TRIM(REPLACE(REPLACE(text, CHAR(13), ' '), CHAR(10), ' ')), 1, 50)
                 ELSE '待办' END)
         WHERE title IS NULL OR TRIM(title) = ''",
        [],
    )
    .unwrap();
    let store = Store::open("b/".to_string(), vec![], rows, vec![]).unwrap();
    for id in 1..=cases.len() as i64 {
        let want: Option<String> =
            db.query_row("SELECT title FROM todos WHERE id = ?1", [id], |r| r.get(0)).unwrap();
        assert_eq!(store.todos_get(id).unwrap().title, want, "{:?}", cases[id as usize - 1]);
    }
}

#[test]
fn settings_are_read_and_written() {
    let setting = |k: &str, v: &str| Setting { key: k.to_string(), value: v.to_string() };
    let mut s =
        Store::open("b/".to_string(), vec![], vec![], vec![setting("a", "1"), setting("b", "2")])
            .unwrap();
    assert_eq!(s.get_setting("a").as_deref(), Some("1"));
    assert_eq!(s.get_setting("c"), None);
    s.set_setting("a", "3");
    s.set_setting("c", "4");
    assert_eq!(s.get_setting("a").as_deref(), Some("3"));
    assert_eq!(s.get_setting("b").as_deref(), Some("2"));
    assert_eq!(s.get_setting("c").as_deref(), Some("4"));
    assert!(Store::open("b/".to_string(), vec![], vec![], vec![setting("a", "1"), setting("a", "2")])
        .is_none());
}

#[test]
fn todos_need_rising_ids() {
    assert!(Store::open("b/".to_string(), vec![], vec![todo(2, None, None), todo(2, None, None)], vec![])
        .is_none());
}

#[test]
fn titles_are_filled_in_once() {
    let rows = vec![todo(1, None, Some("text")), todo(2, None, Some("\n")), todo(3, Some("t"), None)];
    let store = Store::open("b/".to_string(), vec![], rows, vec![]).unwrap();
    let again: Vec<TodoRow> = (1..=3).map(|id| store.todos_get(id).unwrap()).collect();
    let titles: Vec<Option<String>> = again.iter().map(|t| t.title.clone()).collect();
    let store = Store::open("b/".to_string(), vec![], again, vec![]).unwrap();
    for id in 1..=3 {
        assert_eq!(store.todos_get(id).unwrap().title, titles[id as usize - 1]);
    }
    assert_eq!(titles[1].as_deref(), Some(""));
}
