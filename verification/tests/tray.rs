use clipwin::tray::{menu_action, tooltip, MenuAction};
use clipwin::window::Tab;

#[test]
fn menu_items_are_known_by_name() {
    assert_eq!(menu_action("show"), Some(MenuAction::Toggle(Tab::Clips)));
    assert_eq!(menu_action("todos"), Some(MenuAction::Toggle(Tab::Todos)));
    assert_eq!(menu_action("pause"), Some(MenuAction::Pause));
    assert_eq!(menu_action("clear"), Some(MenuAction::Clear));
    assert_eq!(menu_action("about"), Some(MenuAction::About));
    assert_eq!(menu_action("quit"), Some(MenuAction::Quit));
    assert_eq!(menu_action("Show"), None);
    assert_eq!(menu_action(""), None);
}

#[test]
fn the_icon_says_whether_watching_is_paused() {
    assert_eq!(tooltip(true), "clipwin · 已暂停监听");
    assert_eq!(tooltip(false), "clipwin · Ctrl+Alt+Q 唤出");
}
