use clipwin::paste::{
    exe_name, paste_keys, paste_plan, paste_target, plan_with_files, remembered_window,
    target_wants_shift_insert, title_names_terminal, wants_shift_insert, PasteError, PastePlan,
};
use clipwin::rows::ClipRow;

fn row(kind: &str) -> ClipRow {
    ClipRow {
        id: 1,
        ts: 2,
        kind: kind.to_string(),
        text: None,
        image_path: None,
        files_json: None,
        html_path: None,
        hash: "h".to_string(),
        size: 0,
        pinned: false,
    }
}

/// The verdict on sample windows: program, title, and whether it takes Shift+Insert.
#[test]
fn dump_detection_matrix() {
    let windows = [
        (r"C:\Program Files\WindowsApps\WindowsTerminal.exe", "PowerShell", true),
        (r"C:\Windows\System32\conhost.exe", "cmd", true),
        (r"C:\Users\a\AppData\Local\Programs\Microsoft VS Code\Code.exe", "main.rs", true),
        (r"C:\VS\Code - Insiders.exe", "main.rs", true),
        (r"D:\JetBrains\idea64.exe", "project", true),
        (r"C:\Program Files\Google\Chrome\Application\chrome.exe", "ttyd | bash", true),
        (r"C:\Program Files\Google\Chrome\Application\chrome.exe", "Web 终端 - 控制台", true),
        (r"C:\Program Files\Google\Chrome\Application\chrome.exe", "News", false),
        (r"C:\Program Files\Mozilla Firefox\firefox.exe", "Visual Studio Code - code-server", true),
        (r"C:\Windows\explorer.exe", "terminal", false),
        (r"C:\Windows\notepad.exe", "无标题 - 记事本", false),
    ];
    println!("判定矩阵（终端类→Shift+Insert / 其余→Ctrl+V）：");
    for (path, title, want) in windows {
        let hit = target_wants_shift_insert(&Some(path.to_string()), title);
        let exe = exe_name(path).to_lowercase();
        println!("  [{}] {:<24} | {}", if hit { "X" } else { " " }, exe, title);
        assert_eq!(hit, want, "{path} | {title}");
    }
}

#[test]
fn an_unknown_program_takes_ctrl_v() {
    assert!(!target_wants_shift_insert(&None, "terminal"));
    assert!(!target_wants_shift_insert(&Some(String::new()), "terminal"));
}

#[test]
fn names_follow_the_last_backslash() {
    assert_eq!(exe_name(r"C:\a\b.exe"), "b.exe");
    assert_eq!(exe_name("b.exe"), "b.exe");
    assert_eq!(exe_name(r"C:\a\"), "");
    assert_eq!(exe_name("c:/a/b.exe"), "c:/a/b.exe");
}

#[test]
fn lists_hold_lower_case_names() {
    assert!(wants_shift_insert("x\\warp.exe", ""));
    assert!(!wants_shift_insert("x\\WARP.exe", ""));
    assert!(wants_shift_insert("msedge.exe", "my ssh box"));
    assert!(!wants_shift_insert("msedge.exe", "SSH"));
    assert!(title_names_terminal("命令提示符"));
    assert!(!title_names_terminal("命令"));
}

#[test]
fn keys_go_down_and_up() {
    let keys = |si: bool| -> Vec<(u16, bool, bool)> {
        paste_keys(si).iter().map(|k| (k.key, k.up, k.extended)).collect()
    };
    assert_eq!(
        keys(true),
        vec![(0x10, false, false), (0x2d, false, true), (0x2d, true, true), (0x10, true, false)]
    );
    assert_eq!(
        keys(false),
        vec![(0x11, false, false), (0x56, false, false), (0x56, true, false), (0x11, true, false)]
    );
}

#[test]
fn a_text_is_pasted_with_its_document() {
    let mut r = row("text");
    assert!(matches!(paste_plan(&r), Err(PasteError::NoText)));
    r.text = Some("会议纪要".to_string());
    assert!(matches!(paste_plan(&r), Ok(PastePlan::Text(t)) if t == "会议纪要"));
    r.html_path = Some("b/h.html".to_string());
    match paste_plan(&r) {
        Ok(PastePlan::Rich { text, html_path }) => {
            assert_eq!((text.as_str(), html_path.as_str()), ("会议纪要", "b/h.html"));
        }
        other => panic!("{other:?}"),
    }
}

#[test]
fn an_image_is_pasted_from_its_file() {
    let mut r = row("image");
    assert!(matches!(paste_plan(&r), Ok(PastePlan::Image(p)) if p.is_empty()));
    r.image_path = Some("b/h.dib".to_string());
    assert!(matches!(paste_plan(&r), Ok(PastePlan::Image(p)) if p == "b/h.dib"));
}

#[test]
fn files_are_pasted_line_by_line() {
    let mut r = row("files");
    assert!(matches!(paste_plan(&r), Ok(PastePlan::Text(t)) if t.is_empty()));
    r.files_json = Some(r#"["C:\\a b.txt","D:\\中.png"]"#.to_string());
    assert!(matches!(paste_plan(&r), Ok(PastePlan::Text(t)) if t == "C:\\a b.txt\r\nD:\\中.png"));
    r.files_json = Some("junk".to_string());
    assert!(matches!(paste_plan(&r), Ok(PastePlan::Text(t)) if t.is_empty()));
    let files = Some(vec!["x".to_string(), "y".to_string()]);
    assert!(matches!(plan_with_files(&r, &files), Ok(PastePlan::Text(t)) if t == "x\r\ny"));
}

#[test]
fn other_kinds_cannot_be_pasted() {
    assert!(matches!(paste_plan(&row("video")), Err(PasteError::UnknownKind)));
    assert_eq!(PasteError::UnknownKind.message(), "未知条目类型");
    assert_eq!(PasteError::NoRow.message(), "记录不存在");
    assert_eq!(PasteError::NoText.message(), "文本条目无内容");
    assert_eq!(PasteError::NoTarget.message(), "无回贴目标窗口");
}

#[test]
fn a_target_is_needed() {
    assert_eq!(remembered_window(0), None);
    assert_eq!(remembered_window(7), Some(7));
    assert_eq!(paste_target(Some(7)), Ok(7));
    assert_eq!(paste_target(None), Err(PasteError::NoTarget));
}
