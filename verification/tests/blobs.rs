use clipwin::rows::{ClipRow, TodoRow};
use clipwin::store::Store;

fn clip(id: i64, ts: i64, image: Option<&str>, html: Option<&str>, pinned: bool) -> ClipRow {
    ClipRow {
        id,
        ts,
        kind: "image".to_string(),
        text: None,
        image_path: image.map(|p| p.to_string()),
        files_json: None,
        html_path: html.map(|p| p.to_string()),
        hash: format!("h{id}"),
        size: 0,
        pinned,
    }
}

fn todo(id: i64, image: Option<&str>) -> TodoRow {
    TodoRow {
        id,
        ts: 0,
        done: false,
        kind: "image".to_string(),
        title: Some("t".to_string()),
        content: None,
        text: None,
        image_path: image.map(|p| p.to_string()),
        files_json: None,
        size: 0,
        priority: 0,
        due_at: None,
        tags: "[]".to_string(),
        pinned: false,
        done_at: None,
    }
}

fn store(clips: Vec<ClipRow>, todos: Vec<TodoRow>) -> Store {
    Store::open("b/".to_string(), clips, todos, vec![]).unwrap()
}

fn left(s: &Store) -> Vec<i64> {
    let mut ids: Vec<i64> = s.search("", -1, &vec![]).iter().map(|r| r.id).collect();
    ids.sort();
    ids
}

#[test]
fn references_are_counted_over_both_tables() {
    let s = store(
        vec![
            clip(1, 1, Some("b/aa.dib"), None, false),
            clip(2, 2, None, Some("b/aa.html"), false),
            clip(3, 3, Some("b/bb.dib"), Some("b/bb.html"), false),
        ],
        vec![todo(1, Some("b/AA.dib")), todo(2, None)],
    );
    assert_eq!(s.references("aa"), 3);
    assert_eq!(s.image_references("aa"), 2);
    assert_eq!(s.references("bb"), 1);
    assert_eq!(s.references("cc"), 0);
    assert_eq!(s.references(""), 4);
    // the stem stands in a pattern, and wildcards are not taken literally
    assert_eq!(s.references("a_"), 3);
}

#[test]
fn deleting_the_last_reference_gives_the_files_up() {
    let mut s = store(vec![clip(1, 1, Some("b/aa.dib"), Some("b/cc.html"), true)], vec![]);
    assert_eq!(s.clip_delete(1), vec!["b/aa.dib", "b/cc.html"]);
    assert_eq!(s.count(), 0);
    assert_eq!(s.clip_delete(1), Vec::<String>::new());
}

#[test]
fn a_file_that_others_refer_to_stays() {
    let mut s = store(
        vec![
            clip(1, 1, Some("b/aa.dib"), Some("b/cc.html"), false),
            clip(2, 2, None, Some("b/cc.html"), false),
        ],
        vec![todo(1, Some("b/aa.dib"))],
    );
    assert_eq!(s.clip_delete(1), Vec::<String>::new());
    assert_eq!(left(&s), vec![2]);
    assert_eq!(s.clip_delete(2), vec!["b/cc.html"]);
    assert_eq!(s.todos_delete(1).as_deref(), Some("b/aa.dib"));
}

#[test]
fn deletion_goes_by_the_given_stems() {
    let mut s = store(vec![clip(1, 1, Some("b/aa.dib"), Some("b/cc.html"), false)], vec![]);
    assert_eq!(s.clip_delete_by_stems(1, &None, &Some("cc".to_string())), vec!["b/cc.html"]);
    let mut s = store(vec![clip(1, 1, Some("b/aa.dib"), Some("b/aa.html"), false)], vec![]);
    assert_eq!(
        s.garbage_of(&s.get(1).unwrap(), &Some("aa".to_string()), &Some("aa".to_string()), 0),
        Vec::<String>::new()
    );
    assert_eq!(
        s.clip_delete_by_stems(1, &Some("aa".to_string()), &Some("aa".to_string())),
        vec!["b/aa.dib", "b/aa.html"]
    );
}

#[test]
fn a_path_without_a_name_is_left_alone() {
    let mut s = store(vec![clip(1, 1, Some(".."), Some(""), false)], vec![]);
    assert_eq!(s.clip_delete(1), Vec::<String>::new());
    let mut s = store(vec![clip(1, 1, Some(".hidden"), None, false)], vec![]);
    assert_eq!(s.clip_delete(1), vec![".hidden"]);
}

#[test]
fn trimming_keeps_the_latest_and_the_pinned() {
    let clips = || {
        vec![
            clip(1, 10, Some("b/11.dib"), None, false),
            clip(2, 40, Some("b/22.dib"), Some("b/2h.html"), false),
            clip(3, 20, Some("b/33.dib"), None, true),
            clip(4, 30, Some("b/44.dib"), None, false),
            clip(5, 10, Some("b/55.dib"), Some("b/5h.html"), false),
        ]
    };
    let mut s = store(clips(), vec![]);
    let victims: Vec<i64> = s.trim_victims(2).iter().map(|r| r.id).collect();
    assert_eq!(victims, vec![1, 5]);
    let swept = s.trim(2);
    assert_eq!(swept.ids, vec![1, 5]);
    assert_eq!(swept.files, vec!["b/11.dib", "b/55.dib", "b/5h.html"]);
    assert_eq!(left(&s), vec![2, 3, 4]);
    assert_eq!(s.trim(2).ids, Vec::<i64>::new());
    assert_eq!(s.trim(i64::MAX).ids, Vec::<i64>::new());
    for keep in [0, -5] {
        let mut s = store(clips(), vec![]);
        assert_eq!(s.trim(keep).ids, vec![2, 4, 1, 5]);
        assert_eq!(left(&s), vec![3]);
    }
}

#[test]
fn trimming_spares_files_that_are_still_needed() {
    let mut s = store(
        vec![
            clip(1, 10, Some("b/aa.dib"), None, false),
            clip(2, 20, Some("b/aa.dib"), None, false),
            clip(3, 30, Some("b/bb.dib"), Some("b/cc.html"), false),
            clip(4, 40, Some("b/dd.dib"), Some("b/cc.html"), true),
        ],
        vec![todo(1, Some("b/bb.dib"))],
    );
    let swept = s.trim(0);
    assert_eq!(swept.ids, vec![3, 2, 1]);
    // the first of the two clips with one image still leaves the other
    assert_eq!(swept.files, vec!["b/aa.dib"]);
    assert_eq!(left(&s), vec![4]);
}

#[test]
fn clearing_keeps_the_pinned() {
    let mut s = store(
        vec![
            clip(1, 10, Some("b/aa.dib"), Some("b/hh.html"), false),
            clip(2, 20, Some("b/bb.dib"), None, true),
            clip(3, 30, Some("b/bb.dib"), None, false),
            clip(4, 40, Some("b/cc.dib"), None, false),
            clip(5, 50, Some("b/aa.dib"), None, false),
        ],
        vec![todo(1, Some("b/cc.dib"))],
    );
    let swept = s.clips_clear();
    assert_eq!(swept.ids, vec![1, 3, 4, 5]);
    // a file of two victims is named twice; it is gone by the second time
    assert_eq!(swept.files, vec!["b/aa.dib", "b/hh.html", "b/aa.dib"]);
    assert_eq!(left(&s), vec![2]);
    assert_eq!(s.clips_clear().ids, Vec::<i64>::new());
}

#[test]
fn deleting_a_todo_spares_images_of_clips() {
    let mut s = store(
        vec![clip(1, 10, Some("b/aa.dib"), None, false), clip(2, 10, None, Some("b/bb.html"), false)],
        vec![todo(1, Some("b/aa.dib")), todo(2, Some("b/bb.dib")), todo(3, None)],
    );
    assert_eq!(s.todos_delete(1), None);
    // documents do not count here
    assert_eq!(s.todos_delete(2).as_deref(), Some("b/bb.dib"));
    assert_eq!(s.todos_delete(3), None);
    assert_eq!(s.todos_delete(3), None);
    assert_eq!(s.todos_count_open(), 0);
    let mut s = store(vec![], vec![todo(1, Some("b/aa.dib"))]);
    assert_eq!(s.todos_delete_by_stem(1, &None), None);
    assert!(s.todos_get(1).is_none());
}

#[test]
fn files_behind_backslashes_are_given_up() {
    let image = "C:\\Users\\a\\blobs\\11aa.dib";
    let html = "C:\\Users\\a\\blobs\\22bb.html";
    let mut s = store(vec![clip(1, 1, Some(image), Some(html), false)], vec![]);
    assert_eq!(s.clip_delete(1), vec![image, html]);
    let mut s = store(vec![clip(1, 1, Some(image), Some(html), false)], vec![todo(1, Some(image))]);
    assert_eq!(s.trim(0).files, vec![html]);
    assert_eq!(s.todos_delete(1).as_deref(), Some(image));
    let mut s = store(vec![clip(1, 1, Some(image), None, false)], vec![]);
    assert_eq!(s.clips_clear().files, vec![image]);
}

#[test]
fn files_on_other_machines_are_given_up() {
    for dir in [
        r"\\server\share\",
        r"\\server\share\users\a\blobs\",
        r"\\?\C:\Users\a\blobs\",
        r"\\?\UNC\server\share\blobs\",
        r"\\.\device\blobs\",
        "//server/share/blobs/",
    ] {
        let image = format!("{dir}11aa.dib");
        let mut s = store(vec![clip(1, 1, Some(&image), None, false)], vec![]);
        assert_eq!(s.clip_delete(1), vec![image.clone()]);
        let mut s = store(vec![clip(1, 1, Some(&image), None, false)], vec![todo(1, Some(&image))]);
        assert_eq!(s.clips_clear().files, Vec::<String>::new());
        assert_eq!(s.todos_delete(1), Some(image));
    }
}
