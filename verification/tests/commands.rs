use clipwin::commands::{
    clip_to_todo, clip_to_todo_at, enforce_limit, history_limit, hotkey, migrate_hotkeys,
    paste_back, paste_back_at, remember_paused, roll_back_hotkey, search, set_history_limit,
    set_hotkey, settings_all, take_in, todo_input_of, todo_paste_at, todo_paste_from_clipboard,
    todos_add, todos_add_at, todos_list, todos_list_for_day, todos_set_tags, todos_update_full,
    was_paused, HotkeySlot, TodoError,
};
use clipwin::paste::{PasteError, PastePlan};
use clipwin::rows::{ClipEvent, ClipRow, TodoInput, TodoRow};
use clipwin::store::{Setting, Store, StoreError};

fn clip(id: i64, ts: i64, text: &str) -> ClipRow {
    ClipRow {
        id,
        ts,
        kind: "text".to_string(),
        text: Some(text.to_string()),
        image_path: None,
        files_json: None,
        html_path: None,
        hash: format!("h{id}"),
        size: text.len() as i64,
        pinned: false,
    }
}

fn todo(id: i64) -> TodoRow {
    TodoRow {
        id,
        ts: id,
        done: false,
        kind: "text".to_string(),
        title: Some("t".to_string()),
        content: None,
        text: None,
        image_path: None,
        files_json: None,
        size: 0,
        priority: 0,
        due_at: None,
        tags: "[]".to_string(),
        pinned: false,
        done_at: None,
    }
}

fn input(kind: &str) -> TodoInput {
    TodoInput {
        kind: kind.to_string(),
        title: None,
        content: None,
        text: None,
        image_path: None,
        files_json: None,
        size: 0,
        priority: None,
        due_at: None,
        tags: None,
    }
}

fn event() -> ClipEvent {
    ClipEvent { seq: 1, ts: 9, text: None, html: None, dib: None, files: None }
}

fn store(clips: Vec<ClipRow>, todos: Vec<TodoRow>, settings: &[(&str, &str)]) -> Store {
    let settings = settings
        .iter()
        .map(|(k, v)| Setting { key: k.to_string(), value: v.to_string() })
        .collect();
    Store::open("blobs/".to_string(), clips, todos, settings).unwrap()
}

#[test]
fn a_search_gives_five_hundred_clips() {
    let clips: Vec<ClipRow> = (1..=600).map(|i| clip(i, i, "x")).collect();
    let s = store(clips, vec![], &[]);
    assert_eq!(search(&s, "", None, &vec![]).len(), 500);
    assert_eq!(search(&s, "", Some(3), &vec![]).len(), 3);
    assert_eq!(search(&s, "x", Some(-1), &vec![]).len(), 600);
}

#[test]
fn pasting_brings_the_clip_up() {
    let mut odd = clip(3, 5, "x");
    odd.kind = "odd".to_string();
    let mut s = store(vec![clip(1, 1, "a"), clip(2, 2, "b"), odd], vec![], &[]);
    assert!(matches!(paste_back_at(&mut s, 1, 50), Ok(PastePlan::Text(t)) if t == "a"));
    assert_eq!(s.get(1).unwrap().ts, 50);
    // the clip comes up even where it cannot be pasted
    assert!(matches!(paste_back_at(&mut s, 3, 60), Err(PasteError::UnknownKind)));
    assert_eq!(s.get(3).unwrap().ts, 60);
    assert!(matches!(paste_back_at(&mut s, 9, 70), Err(PasteError::NoRow)));
    assert!(matches!(paste_back(&mut s, 2), Ok(PastePlan::Text(t)) if t == "b"));
    assert_eq!(search(&s, "", None, &vec![])[0].id, 2);
}

#[test]
fn a_new_todo_is_given_back() {
    let mut s = store(vec![], vec![todo(4)], &[]);
    let t = todos_add_at(&mut s, &input("image"), 33).unwrap();
    assert_eq!((t.id, t.ts, t.title.as_deref()), (5, 33, Some("图片待办")));
    assert_eq!(todos_add(&mut s, &input("files")).unwrap().id, 6);
    let mut full = store(vec![], vec![todo(i64::MAX)], &[]);
    assert_eq!(todos_add_at(&mut full, &input("x"), 1).err(), Some(TodoError::Full));
}

#[test]
fn lists_show_open_todos_by_default() {
    let mut done = todo(2);
    done.done = true;
    done.tags = "[\"a\"]".to_string();
    let s = store(vec![], vec![todo(1), done], &[]);
    let n = |f: Option<&str>, t: Option<&str>, d: Option<bool>| {
        let f = f.map(|x| x.to_string());
        let t = t.map(|x| x.to_string());
        todos_list_for_day(&s, &f, &t, d, (0, 1)).len()
    };
    assert_eq!(n(None, None, None), 1);
    assert_eq!(n(None, None, Some(true)), 2);
    assert_eq!(n(None, None, Some(false)), 1);
    assert_eq!(n(Some("all"), None, None), 2);
    assert_eq!(n(Some("all"), Some("a"), None), 1);
    assert_eq!(todos_list(&s, &None, &None, None).len(), 1);
}

#[test]
fn an_edited_title_is_trimmed() {
    let mut s = store(vec![], vec![todo(1)], &[]);
    todos_update_full(&mut s, 1, "  新 标题\n", &None, &Some("x".to_string()));
    let t = s.todos_get(1).unwrap();
    assert_eq!((t.title.as_deref(), t.text.as_deref(), t.size), (Some("新 标题"), Some("x"), 1));
    todos_update_full(&mut s, 1, " \u{3000}", &None, &None);
    assert_eq!(s.todos_get(1).unwrap().title.as_deref(), Some("待办"));
}

#[test]
fn tags_are_stored_as_json() {
    let mut s = store(vec![], vec![todo(1)], &[]);
    todos_set_tags(&mut s, 1, "工作, #急,,");
    assert_eq!(s.todos_get(1).unwrap().tags, "[\"工作\",\"急\"]");
    assert_eq!(s.todos_list("all", "急", false).len(), 1);
    let stats = s.todos_stats_for_day((0, 1));
    assert_eq!(stats.tags.len(), 2);
}

#[test]
fn a_clip_becomes_a_todo() {
    let mut c = clip(1, 1, "写 报告");
    c.html_path = Some("blobs/h.html".to_string());
    let mut img = clip(2, 2, "");
    img.kind = "image".to_string();
    img.text = None;
    img.image_path = Some("blobs/aa.dib".to_string());
    let mut s = store(vec![c, img], vec![], &[]);
    let html = Some("<html>".to_string());
    let t = clip_to_todo_at(&mut s, 1, &html, 44).unwrap();
    assert_eq!((t.id, t.ts, t.kind.as_str(), t.size), (1, 44, "text", 10));
    assert_eq!((t.title.as_deref(), t.content.as_deref()), (Some("写 报告"), Some("<html>")));
    // a clip without a document has no content, whatever is at hand
    let t = clip_to_todo(&mut s, 2, &html).unwrap();
    assert_eq!((t.content, t.image_path.as_deref()), (None, Some("blobs/aa.dib")));
    // the todo protects the image
    assert_eq!(s.clip_delete(2), Vec::<String>::new());
    assert_eq!(clip_to_todo_at(&mut s, 2, &None, 1).err(), Some(TodoError::NoClip));
}

#[test]
fn the_clipboard_becomes_a_todo() {
    let mut s = store(vec![], vec![], &[]);
    let ev = ClipEvent { text: Some("买菜".to_string()), dib: Some(vec![1]), ..event() };
    let t = todo_paste_at(&mut s, &Some(ev), 5).unwrap();
    assert_eq!((t.kind.as_str(), t.size, t.text.as_deref()), ("text", 6, Some("买菜")));
    // blank text does not count
    let ev = ClipEvent { text: Some(" ".to_string()), dib: Some(b"abc".to_vec()), ..event() };
    let t = todo_paste_at(&mut s, &Some(ev), 5).unwrap();
    assert_eq!((t.kind.as_str(), t.size), ("image", 3));
    assert_eq!(
        t.image_path.as_deref(),
        Some("blobs/ba7816bf8f01cfea414140de5dae2223b00361a396177a9cb410ff61f20015ad.dib")
    );
    let ev = ClipEvent { files: Some(vec!["a".to_string()]), ..event() };
    let t = todo_paste_from_clipboard(&mut s, &Some(ev)).unwrap();
    assert_eq!((t.kind.as_str(), t.files_json.as_deref(), t.size), ("files", Some("[\"a\"]"), 1));
    assert_eq!(t.title.as_deref(), Some("文件待办"));
    assert_eq!(todo_paste_at(&mut s, &Some(event()), 5).err(), Some(TodoError::Nothing));
    assert_eq!(todo_paste_at(&mut s, &None, 5).err(), Some(TodoError::Unreadable));
    assert!(todo_input_of("d/", &event()).is_none());
    assert_eq!(TodoError::NoClip.message(), "记录不存在");
    assert_eq!(TodoError::Unreadable.message(), "剪贴板为空或不可读");
    assert_eq!(TodoError::Nothing.message(), "剪贴板无可保存内容");
    assert_eq!(TodoError::Full.message(), "插入后读取失败");
}

#[test]
fn hotkeys_have_defaults() {
    let s = store(vec![], vec![], &[("hotkey_todos", "f9")]);
    assert_eq!(hotkey(&s, HotkeySlot::Clips), "ctrl+alt+q");
    assert_eq!(hotkey(&s, HotkeySlot::Todos), "f9");
    assert_eq!(HotkeySlot::Todos.default_accelerator(), "ctrl+alt+w");
    assert_eq!(HotkeySlot::Clips.setting(), "hotkey");
}

#[test]
fn former_defaults_move() {
    let mut s = store(vec![], vec![], &[("hotkey", "alt+v"), ("hotkey_todos", "alt+x")]);
    migrate_hotkeys(&mut s);
    assert_eq!(s.get_setting("hotkey").as_deref(), Some("ctrl+alt+q"));
    assert_eq!(s.get_setting("hotkey_todos").as_deref(), Some("alt+x"));
    let mut s = store(vec![], vec![], &[("hotkey_todos", "alt+t")]);
    migrate_hotkeys(&mut s);
    assert_eq!(s.get_setting("hotkey"), None);
    assert_eq!(s.get_setting("hotkey_todos").as_deref(), Some("ctrl+alt+w"));
}

#[test]
fn a_failed_hotkey_is_rolled_back() {
    let mut s = store(vec![], vec![], &[]);
    let previous = set_hotkey(&mut s, HotkeySlot::Clips, "f8");
    assert_eq!(hotkey(&s, HotkeySlot::Clips), "f8");
    roll_back_hotkey(&mut s, HotkeySlot::Clips, &previous);
    assert_eq!(hotkey(&s, HotkeySlot::Clips), "ctrl+alt+q");
    assert_eq!(hotkey(&s, HotkeySlot::Todos), "ctrl+alt+w");
}

#[test]
fn the_limit_is_a_setting() {
    assert_eq!(history_limit(&store(vec![], vec![], &[])), 10000);
    assert_eq!(history_limit(&store(vec![], vec![], &[("history_limit", "12")])), 12);
    assert_eq!(history_limit(&store(vec![], vec![], &[("history_limit", "x")])), 10000);
    let mut s = store(vec![clip(1, 1, "a"), clip(2, 2, "b"), clip(3, 3, "c")], vec![], &[]);
    assert_eq!(set_history_limit(&mut s, 2).ids, vec![1]);
    assert_eq!(history_limit(&s), 2);
    assert_eq!(set_history_limit(&mut s, 0).ids, Vec::<i64>::new());
    assert_eq!(history_limit(&s), 0);
    assert_eq!(s.count(), 2);
    assert_eq!(set_history_limit(&mut s, -3).ids, Vec::<i64>::new());
    assert_eq!(enforce_limit(&mut s, 1).ids, vec![2]);
    assert_eq!(s.count(), 1);
}

#[test]
fn the_history_stays_within_its_limit() {
    let mut s = store(vec![clip(1, 1, "a"), clip(2, 2, "b")], vec![], &[("history_limit", "2")]);
    let ev = ClipEvent { text: Some("c".to_string()), ..event() };
    let (id, swept) = take_in(&mut s, &ev, &None);
    assert_eq!((id, swept.ids), (Ok(3), vec![1]));
    assert_eq!(s.count(), 2);
    let (id, swept) = take_in(&mut s, &event(), &None);
    assert_eq!((id, swept.ids), (Ok(0), vec![]));
    s.set_setting("history_limit", "0");
    let ev = ClipEvent { text: Some("d".to_string()), ..event() };
    assert_eq!(take_in(&mut s, &ev, &None).0, Ok(4));
    assert_eq!(s.count(), 3);
    let mut full = store(vec![clip(i64::MAX, 1, "a")], vec![], &[]);
    assert_eq!(take_in(&mut full, &ev, &None).0, Err(StoreError::Full));
}

#[test]
fn the_page_shows_the_settings() {
    let s = store(vec![], vec![], &[("hotkey", "f7"), ("history_limit", "9")]);
    let page = settings_all(&s, true);
    assert_eq!((page.hotkey.as_str(), page.hotkey_todos.as_str()), ("f7", "ctrl+alt+w"));
    assert_eq!((page.history_limit, page.paused, page.autostart), (9, true, false));
}

#[test]
fn a_pause_is_remembered() {
    let mut s = store(vec![], vec![], &[]);
    assert!(!was_paused(&s));
    remember_paused(&mut s, true);
    assert_eq!(s.get_setting("paused").as_deref(), Some("1"));
    assert!(was_paused(&s));
    remember_paused(&mut s, false);
    assert!(!was_paused(&s));
}
