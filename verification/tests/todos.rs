use clipwin::rows::{TodoInput, TodoRow};
use clipwin::store::todos::auto_title;
use clipwin::store::{Store, StoreError};
use rusqlite::Connection;

fn input(kind: &str) -> TodoInput {
    TodoInput {
        kind: kind.to_string(),
        title: None,
        content: None,
        text: None,
        image_path: None,
        files_json: None,
        size: 0,
        priority: None,
        due_at: None,
        tags: None,
    }
}

fn todo(id: i64, ts: i64) -> TodoRow {
    TodoRow {
        id,
        ts,
        done: false,
        kind: "text".to_string(),
        title: Some("t".to_string()),
        content: None,
        text: None,
        image_path: None,
        files_json: None,
        size: 0,
        priority: 0,
        due_at: None,
        tags: "[]".to_string(),
        pinned: false,
        done_at: None,
    }
}

fn store(todos: Vec<TodoRow>) -> Store {
    Store::open("b/".to_string(), vec![], todos, vec![]).unwrap()
}

fn ids(rows: Vec<TodoRow>) -> Vec<i64> {
    rows.iter().map(|r| r.id).collect()
}

/// Todos of every sort around the day from 1000 to 2000.
fn mixed() -> Vec<TodoRow> {
    let mut out = Vec::new();
    let mut id = 0;
    for pinned in [false, true] {
        for done in [false, true] {
            for priority in [0, 2] {
                for due_at in [None, Some(999), Some(1000), Some(1999), Some(2000)] {
                    id += 1;
                    out.push(TodoRow {
                        pinned,
                        done,
                        priority,
                        due_at,
                        tags: match id % 5 {
                            0 => "[\"工作\",\"急\"]".to_string(),
                            1 => "[\"Work\"]".to_string(),
                            2 => "[\"work it\"]".to_string(),
                            3 => "junk \"work\"".to_string(),
                            _ => "[]".to_string(),
                        },
                        ..todo(id, 100 - (id % 3))
                    });
                }
            }
        }
    }
    out
}

#[test]
fn titles_come_from_the_text() {
    let title = |t: Option<&str>, kind: &str| auto_title(&t.map(|t| t.to_string()), kind);
    assert_eq!(title(Some("  买  菜\n明天 "), "text"), "买 菜 明天");
    assert_eq!(title(Some(&"字".repeat(60)), "text"), "字".repeat(50));
    assert_eq!(title(Some(&"字".repeat(50)), "text"), "字".repeat(50));
    assert_eq!(title(Some(" \n"), "text"), "待办");
    assert_eq!(title(None, "image"), "图片待办");
    assert_eq!(title(None, "files"), "文件待办");
    assert_eq!(title(None, "text"), "待办");
    assert_eq!(title(Some("x"), "image"), "x");
}

#[test]
fn a_new_todo_has_defaults() {
    let mut s = store(vec![]);
    let mut i = input("text");
    i.text = Some("写 报告".to_string());
    i.size = 10;
    assert_eq!(s.todos_add_at(&i, 77), Ok(1));
    let t = s.todos_get(1).unwrap();
    assert_eq!((t.id, t.ts, t.done, t.pinned, t.priority), (1, 77, false, false, 0));
    assert_eq!((t.tags.as_str(), t.size, t.due_at, t.done_at), ("[]", 10, None, None));
    assert_eq!(t.title.as_deref(), Some("写 报告"));
    i.title = Some(String::new());
    i.priority = Some(3);
    i.due_at = Some(5);
    i.tags = Some("[\"a\"]".to_string());
    assert_eq!(s.todos_add(&i), Ok(2));
    let t = s.todos_get(2).unwrap();
    assert_eq!(t.title.as_deref(), Some(""));
    assert_eq!((t.priority, t.due_at, t.tags.as_str()), (3, Some(5), "[\"a\"]"));
    assert!(t.ts > 1_600_000_000_000);
    assert!(s.todos_get(3).is_none());
}

#[test]
fn a_full_table_takes_no_todo() {
    let mut s = store(vec![todo(i64::MAX, 1)]);
    assert_eq!(s.todos_add_at(&input("text"), 1), Err(StoreError::Full));
    assert_eq!(s.todos_count_open(), 1);
}

#[test]
fn lists_agree_with_sqlite() {
    let rows = mixed();
    let db = Connection::open_in_memory().unwrap();
    db.execute_batch(
        "CREATE TABLE todos(id INTEGER PRIMARY KEY, ts INTEGER, done INTEGER, priority INTEGER,
             due_at INTEGER, tags TEXT, pinned INTEGER);",
    )
    .unwrap();
    for r in &rows {
        db.execute(
            "INSERT INTO todos VALUES(?1, ?2, ?3, ?4, ?5, ?6, ?7)",
            (r.id, r.ts, r.done, r.priority, r.due_at, &r.tags, r.pinned),
        )
        .unwrap();
    }
    let s = store(rows);
    for filter in ["open", "all", "done", "today", "overdue", "other"] {
        for tag in ["", "工作", "急", "Work", "work", "work it", "wor_", "%", "none"] {
            for include_done in [false, true] {
                let mut conds: Vec<String> = Vec::new();
                match filter {
                    "all" => {}
                    "done" => conds.push("done = 1".to_string()),
                    "today" => conds
                        .push("due_at IS NOT NULL AND due_at >= 1000 AND due_at < 2000".to_string()),
                    "overdue" => conds
                        .push("done = 0 AND due_at IS NOT NULL AND due_at < 1000".to_string()),
                    _ => {
                        if !include_done {
                            conds.push("done = 0".to_string());
                        }
                    }
                }
                if !tag.is_empty() {
                    conds.push(format!(
                        "json_valid(tags) AND EXISTS(SELECT 1 FROM json_each(tags) WHERE value = '{tag}')"
                    ));
                }
                let mut sql = "SELECT id FROM todos".to_string();
                if !conds.is_empty() {
                    sql.push_str(" WHERE ");
                    sql.push_str(&conds.join(" AND "));
                }
                sql.push_str(
                    " ORDER BY pinned DESC, done ASC, priority DESC, due_at IS NULL, due_at ASC, ts DESC",
                );
                let mut stmt = db.prepare(&sql).unwrap();
                let want: Vec<i64> =
                    stmt.query_map([], |r| r.get(0)).unwrap().map(|x| x.unwrap()).collect();
                let got = s.todos_list_for_day(filter, tag, include_done, (1000, 2000));
                assert_eq!(ids(got), want, "{filter} {tag} {include_done}");
            }
        }
    }
}

#[test]
fn a_tag_is_found_as_a_whole() {
    let mut s = store(vec![]);
    for tags in [
        r#"["axb"]"#,
        r#"["a_b","%"]"#,
        r#"["AXB","x\"axb"]"#,
        r#"["it's","back\\slash",","]"#,
        r#"["nul\u0000"]"#,
        "axb",
    ] {
        let mut i = input("text");
        i.tags = Some(tags.to_string());
        s.todos_add_at(&i, 1).unwrap();
    }
    let find = |tag: &str| ids(s.todos_list("all", tag, true));
    assert_eq!(find("axb"), vec![1]);
    assert_eq!(find("a_b"), vec![2]);
    assert_eq!(find("%"), vec![2]);
    assert_eq!(find("AXB"), vec![3]);
    assert_eq!(find("x\"axb"), vec![3]);
    assert_eq!(find("it's"), vec![4]);
    assert_eq!(find("back\\slash"), vec![4]);
    assert_eq!(find(","), vec![4]);
    assert_eq!(find("nul\0"), vec![5]);
    assert_eq!(find("ax"), Vec::<i64>::new());
    assert_eq!(find("").len(), 6);
}

#[test]
fn the_local_day_counts() {
    let now = clipwin::clock::now_ts_ms();
    let mut late = todo(1, 1);
    late.due_at = Some(now - 3 * 86_400_000);
    let mut today = todo(2, 1);
    today.due_at = Some(clipwin::clock::local_day_bounds().0 + 1);
    let s = store(vec![late, today]);
    assert_eq!(ids(s.todos_list("today", "", false)), vec![2]);
    assert_eq!(ids(s.todos_list("overdue", "", false)), vec![1]);
    let stats = s.todos_stats();
    assert_eq!((stats.open, stats.today, stats.overdue, stats.done), (2, 1, 1, 0));
}

#[test]
fn numbers_are_those_of_the_lists() {
    let rows = mixed();
    let s = store(rows);
    let stats = s.todos_stats_for_day((1000, 2000));
    assert_eq!((stats.open, stats.today, stats.overdue, stats.done), (20, 8, 4, 20));
    assert_eq!(s.todos_count_open(), 20);
    let tags: Vec<(String, usize)> = stats.tags.into_iter().map(|t| (t.tag, t.count)).collect();
    // tags that are no list of texts count for nothing
    assert_eq!(
        tags,
        vec![
            ("Work".to_string(), 4),
            ("work it".to_string(), 4),
            ("工作".to_string(), 4),
            ("急".to_string(), 4),
        ]
    );
}

#[test]
fn toggling_sets_and_clears_the_time_of_completion() {
    let mut s = store(vec![todo(1, 1)]);
    assert_eq!(s.todos_toggle_at(1, 500), Ok(true));
    assert_eq!(s.todos_get(1).unwrap().done_at, Some(500));
    assert_eq!(s.todos_toggle_at(1, 600), Ok(false));
    let t = s.todos_get(1).unwrap();
    assert_eq!((t.done, t.done_at), (false, None));
    assert_eq!(s.todos_toggle(1), Ok(true));
    assert!(s.todos_get(1).unwrap().done_at.unwrap() > 1_600_000_000_000);
    assert_eq!(s.todos_toggle(9), Err(StoreError::NoRow));
    assert_eq!(s.todos_toggle_at(9, 1), Err(StoreError::NoRow));
}

#[test]
fn pins_of_todos_flip() {
    let mut s = store(vec![todo(1, 1), todo(2, 2)]);
    assert_eq!(s.todos_toggle_pin(1), Ok(true));
    assert_eq!(ids(s.todos_list("open", "", false)), vec![1, 2]);
    assert_eq!(s.todos_toggle_pin(1), Ok(false));
    assert_eq!(ids(s.todos_list("open", "", false)), vec![2, 1]);
    assert_eq!(s.todos_toggle_pin(3), Err(StoreError::NoRow));
}

#[test]
fn fields_are_set_one_by_one() {
    let mut s = store(vec![todo(1, 1), todo(2, 2)]);
    s.todos_set_priority(1, 9);
    s.todos_set_due(1, Some(4));
    s.todos_set_tags(1, "[\"x\"]");
    let t = s.todos_get(1).unwrap();
    assert_eq!((t.priority, t.due_at, t.tags.as_str()), (9, Some(4), "[\"x\"]"));
    s.todos_set_due(1, None);
    assert_eq!(s.todos_get(1).unwrap().due_at, None);
    let other = s.todos_get(2).unwrap();
    assert_eq!((other.priority, other.due_at, other.tags.as_str()), (0, None, "[]"));
    s.todos_set_priority(7, 1);
    s.todos_set_due(7, None);
    s.todos_set_tags(7, "");
    assert_eq!(s.todos_count_open(), 2);
}

#[test]
fn editing_keeps_the_text_where_none_is_given() {
    let mut t = todo(1, 1);
    t.text = Some("old".to_string());
    t.size = 3;
    t.content = Some("<p>old</p>".to_string());
    let mut s = store(vec![t]);
    s.todos_update_full(1, "new", &None, &None);
    let t = s.todos_get(1).unwrap();
    assert_eq!((t.title.as_deref(), t.content, t.text.as_deref(), t.size), (Some("new"), None, Some("old"), 3));
    s.todos_update_full(1, "新", &Some("<b>".to_string()), &Some("文本".to_string()));
    let t = s.todos_get(1).unwrap();
    assert_eq!(t.content.as_deref(), Some("<b>"));
    assert_eq!((t.text.as_deref(), t.size), (Some("文本"), 6));
    s.todos_update_full(5, "x", &None, &None);
    assert!(s.todos_get(5).is_none());
}
