use clipwin::rows::{ClipEvent, ClipRow};
use clipwin::store::clips::needs_ranking;
use clipwin::store::{Store, StoreError};
use rusqlite::Connection;
use sha2::{Digest, Sha256};

fn sha(data: &[u8]) -> String {
    Sha256::digest(data).iter().map(|b| format!("{b:02x}")).collect()
}

fn event(ts: i64) -> ClipEvent {
    ClipEvent { seq: 1, ts, text: None, html: None, dib: None, files: None }
}

fn text_event(text: &str, ts: i64) -> ClipEvent {
    ClipEvent { text: Some(text.to_string()), ..event(ts) }
}

fn empty() -> Store {
    Store::open("blobs/".to_string(), vec![], vec![], vec![]).unwrap()
}

fn row(id: i64, ts: i64, text: Option<&str>, pinned: bool) -> ClipRow {
    ClipRow {
        id,
        ts,
        kind: "text".to_string(),
        text: text.map(|t| t.to_string()),
        image_path: None,
        files_json: None,
        html_path: None,
        hash: format!("hash{id}"),
        size: 0,
        pinned,
    }
}

fn ids(rows: &[ClipRow]) -> Vec<i64> {
    rows.iter().map(|r| r.id).collect()
}

const HTML: &[u8] = b"StartHtml:26\r\nEndHtml:39\r\n<html></html>";

#[test]
fn a_text_becomes_a_clip() {
    let mut store = empty();
    assert_eq!(store.insert(&text_event("你好 hi", 100), &None), Ok(1));
    let c = store.get(1).unwrap();
    assert_eq!((c.id, c.ts, c.kind.as_str(), c.size, c.pinned), (1, 100, "text", 9, false));
    assert_eq!(c.text.as_deref(), Some("你好 hi"));
    assert_eq!(c.hash, sha("你好 hi".as_bytes()));
    assert!(c.image_path.is_none() && c.files_json.is_none() && c.html_path.is_none());
    assert_eq!(store.count(), 1);
}

#[test]
fn a_document_goes_with_its_text() {
    let mut store = empty();
    let ev = ClipEvent { html: Some(HTML.to_vec()), ..text_event("t", 1) };
    let blobs = store.event_blobs(&ev);
    let html = blobs.html.unwrap();
    assert_eq!(html.body, "<html></html>");
    assert_eq!(html.name, format!("{}.html", sha(b"<html></html>")));
    assert_eq!(html.path, format!("blobs/{}", html.name));
    assert!(blobs.image.is_none());
    assert_eq!(store.insert(&ev, &Some(b"on disk".to_vec())), Ok(1));
    let c = store.get(1).unwrap();
    assert_eq!(c.html_path.as_deref(), Some(html.path.as_str()));
    assert_eq!(c.hash, sha(b"ton disk"));
    // the same text without a document is another clip, whatever is on disk
    assert_eq!(store.insert(&text_event("t", 2), &Some(b"on disk".to_vec())), Ok(2));
    assert_eq!(store.get(2).unwrap().hash, sha(b"t"));
}

#[test]
fn a_bitmap_becomes_a_clip() {
    let mut store = empty();
    let ev = ClipEvent { dib: Some(vec![1, 2, 3]), files: Some(vec![]), ..event(5) };
    let image = store.event_blobs(&ev).image.unwrap();
    assert_eq!(image.dib_name, format!("{}.dib", sha(&[1, 2, 3])));
    assert_eq!(image.dib_path, format!("blobs/{}", image.dib_name));
    assert_eq!(image.png_name, format!("{}.png", sha(&[1, 2, 3])));
    assert_eq!(store.insert(&ev, &None), Ok(1));
    let c = store.get(1).unwrap();
    assert_eq!((c.kind.as_str(), c.size), ("image", 3));
    assert_eq!(c.image_path, Some(image.dib_path));
    assert_eq!(c.hash, sha(&[1, 2, 3]));
    assert!(c.text.is_none());
}

#[test]
fn files_become_a_clip() {
    let mut store = empty();
    let files = vec!["C:\\a \"x\".txt".to_string(), "D:\\中".to_string()];
    let ev = ClipEvent { files: Some(files.clone()), ..event(5) };
    assert_eq!(store.insert(&ev, &None), Ok(1));
    let c = store.get(1).unwrap();
    let json = serde_json::to_string(&files).unwrap();
    assert_eq!((c.kind.as_str(), c.size), ("files", 2));
    assert_eq!(c.files_json.as_deref(), Some(json.as_str()));
    assert_eq!(c.hash, sha(json.as_bytes()));
}

#[test]
fn nothing_and_blank_text_are_skipped() {
    let mut store = empty();
    assert_eq!(store.insert(&event(1), &None), Ok(0));
    let blank = ClipEvent { dib: Some(vec![1]), html: Some(HTML.to_vec()), ..text_event(" \r\n\u{3000}", 1) };
    assert_eq!(store.insert(&blank, &None), Ok(0));
    assert_eq!(store.count(), 0);
    // the document of a blank text is written all the same
    assert!(store.event_blobs(&blank).html.is_some());
    assert!(store.event_blobs(&blank).image.is_none());
}

#[test]
fn the_same_content_again_moves_its_clip_up() {
    let mut store = empty();
    assert_eq!(store.insert(&text_event("a", 100), &None), Ok(1));
    assert_eq!(store.insert(&text_event("b", 200), &None), Ok(2));
    assert_eq!(store.insert(&text_event("a", 300), &None), Ok(1));
    assert_eq!(store.count(), 2);
    assert_eq!(store.get(1).unwrap().ts, 300);
    assert_eq!(ids(&store.search("", 10, &vec![])), vec![1, 2]);
}

#[test]
fn ids_go_on_from_the_largest() {
    let mut store =
        Store::open("b/".to_string(), vec![row(7, 1, None, false)], vec![], vec![]).unwrap();
    assert_eq!(store.insert(&text_event("x", 1), &None), Ok(8));
    let mut full =
        Store::open("b/".to_string(), vec![row(i64::MAX, 1, None, false)], vec![], vec![]).unwrap();
    assert_eq!(full.insert(&text_event("x", 1), &None), Err(StoreError::Full));
    assert_eq!(full.count(), 1);
}

#[test]
fn listing_agrees_with_sqlite() {
    let rows = vec![
        row(1, 50, Some("Alpha"), false),
        row(2, 50, Some("beta 100%"), true),
        row(3, 70, None, false),
        row(4, 50, Some("会议 alpha"), false),
        row(5, 10, Some("a_b"), true),
        row(9, 90, Some("a\\b\0hidden"), false),
        row(12, 50, Some("AL"), true),
    ];
    let db = Connection::open_in_memory().unwrap();
    db.execute_batch(
        "CREATE TABLE clips(id INTEGER PRIMARY KEY, ts INTEGER, text TEXT, pinned INTEGER);
         CREATE INDEX idx_clips_ts ON clips(ts DESC);",
    )
    .unwrap();
    for r in &rows {
        db.execute("INSERT INTO clips VALUES(?1, ?2, ?3, ?4)", (r.id, r.ts, &r.text, r.pinned))
            .unwrap();
    }
    let store = Store::open("b/".to_string(), rows, vec![], vec![]).unwrap();
    let from_db = |sql: &str, like: Option<String>, limit: i64| -> Vec<i64> {
        let mut stmt = db.prepare(sql).unwrap();
        let map = |r: &rusqlite::Row| r.get::<_, i64>(0);
        let rows = match like {
            Some(l) => stmt.query_map((l, limit), map).unwrap(),
            None => stmt.query_map((limit,), map).unwrap(),
        };
        rows.map(|x| x.unwrap()).collect()
    };
    for limit in [-1, 0, 1, 3, 7, 100] {
        let want =
            from_db("SELECT id FROM clips ORDER BY pinned DESC, ts DESC LIMIT ?1", None, limit);
        assert_eq!(ids(&store.search("", limit, &vec![])), want);
        for q in ["a", "AL", "al", "%", "_", "\\", "议", "0%", "id", "x"] {
            let esc = q.replace('\\', "\\\\").replace('%', "\\%").replace('_', "\\_");
            let want = from_db(
                "SELECT id FROM clips WHERE text LIKE ?1 ESCAPE '\\'
                 ORDER BY pinned DESC, ts DESC LIMIT ?2",
                Some(format!("%{esc}%")),
                limit,
            );
            assert_eq!(ids(&store.search(q, limit, &vec![])), want, "{q}");
        }
    }
}

#[test]
fn longer_queries_go_by_the_ranking() {
    let rows = vec![
        row(1, 1, Some("alpha"), false),
        row(2, 2, Some("beta"), true),
        row(3, 3, Some("gamma"), false),
    ];
    let store = Store::open("b/".to_string(), rows, vec![], vec![]).unwrap();
    assert!(!needs_ranking(""));
    assert!(!needs_ranking("会议"));
    assert!(needs_ranking("会议纪"));
    assert_eq!(ids(&store.search("any", -1, &vec![3, 1, 99, 2])), vec![2, 3, 1]);
    assert_eq!(ids(&store.search("any", 2, &vec![3, 1, 99, 2])), vec![2, 3]);
    assert_eq!(ids(&store.search("any", -1, &vec![])), Vec::<i64>::new());
}

#[test]
fn a_touched_clip_comes_first() {
    let rows = vec![row(1, 1, None, false), row(2, 2, None, false), row(3, 3, None, true)];
    let mut store = Store::open("b/".to_string(), rows, vec![], vec![]).unwrap();
    store.touch_at(1, 10);
    assert_eq!(ids(&store.search("", -1, &vec![])), vec![3, 1, 2]);
    store.touch(2);
    assert_eq!(ids(&store.search("", -1, &vec![])), vec![3, 2, 1]);
    assert!(store.get(2).unwrap().ts > 1_600_000_000_000);
    store.touch_at(99, 10);
    assert_eq!(store.count(), 3);
}

#[test]
fn pins_flip_back_and_forth() {
    let mut store =
        Store::open("b/".to_string(), vec![row(1, 1, None, false)], vec![], vec![]).unwrap();
    assert_eq!(store.clip_toggle_pin(1), Ok(true));
    assert!(store.get(1).unwrap().pinned);
    assert_eq!(store.clip_toggle_pin(1), Ok(false));
    assert!(!store.get(1).unwrap().pinned);
    assert_eq!(store.clip_toggle_pin(2), Err(StoreError::NoRow));
}

#[test]
fn rows_are_found_by_id() {
    let rows: Vec<ClipRow> = (0..20).map(|i| row(i * 3 - 5, i, None, false)).collect();
    let store = Store::open("b/".to_string(), rows, vec![], vec![]).unwrap();
    for id in -10..70 {
        let there = (id + 5) % 3 == 0 && (-5..=52).contains(&id);
        assert_eq!(store.get(id).map(|r| r.id), if there { Some(id) } else { None });
    }
    assert_eq!(store.blob_dir(), "b/");
}

#[test]
fn a_store_needs_rising_ids() {
    assert!(Store::open("b/".to_string(), vec![row(2, 1, None, false), row(1, 1, None, false)], vec![], vec![]).is_none());
    assert!(Store::open("b/".to_string(), vec![row(1, 1, None, false), row(1, 1, None, false)], vec![], vec![]).is_none());
    assert!(Store::open("b/".to_string(), vec![], vec![], vec![]).is_some());
}

#[test]
fn a_store_needs_different_content_addresses() {
    let rows: Vec<ClipRow> = (1..200).map(|i| row(i, i, None, false)).collect();
    assert!(Store::open("b/".to_string(), rows.clone(), vec![], vec![]).is_some());
    for (i, j) in [(0, 1), (0, 198), (57, 58), (3, 150), (197, 198)] {
        let mut rows = rows.clone();
        rows[j].hash = rows[i].hash.clone();
        assert!(Store::open("b/".to_string(), rows, vec![], vec![]).is_none());
    }
}

#[test]
fn content_addresses_stay_apart() {
    let mut store = empty();
    for text in ["a", "b", "a", "c", "b", "a "] {
        store.insert(&text_event(text, 1), &None).unwrap();
    }
    store.clip_toggle_pin(1).unwrap();
    store.touch_at(2, 9);
    store.clip_delete(3);
    store.insert(&text_event("c", 5), &None).unwrap();
    let mut hashes: Vec<String> =
        store.search("", -1, &vec![]).into_iter().map(|r| r.hash).collect();
    assert_eq!(hashes.len(), 4);
    hashes.sort();
    hashes.dedup();
    assert_eq!(hashes.len(), 4);
}

#[test]
fn the_latest_event_comes_first() {
    let mut store = empty();
    for (text, ts) in [("a", 1), ("b", 2), ("c", 3)] {
        let id = store.insert(&text_event(text, ts), &None).unwrap();
        assert_eq!(store.search("", -1, &vec![])[0].id, id);
    }
    store.clip_toggle_pin(2).unwrap();
    assert_eq!(store.insert(&text_event("a", 4), &None), Ok(1));
    assert_eq!(ids(&store.search("", -1, &vec![])), vec![2, 1, 3]);
    // and it is the last to be trimmed
    assert_eq!(store.trim(1).ids, vec![3]);
    assert_eq!(ids(&store.search("", -1, &vec![])), vec![2, 1]);
}
