use clipwin::store::Store;
use clipwin::window::{
    hides_on_blur, is_own_foreground, parse_rect, popup_position, rect_setting, save_win_rect,
    toggle, validated_rect, validated_win_rect, Tab, VirtualScreen, WinRect, WindowAction,
};

const SCREEN: VirtualScreen = VirtualScreen { x: -1920, y: 0, w: 3840, h: 1080 };

fn rect(x: i32, y: i32, w: u32, h: u32) -> WinRect {
    WinRect { x, y, w, h }
}

#[test]
fn a_rectangle_is_written_as_position_and_size() {
    assert_eq!(rect_setting(10, -20, 470, 700), "10,-20,460,720");
    assert_eq!(parse_rect("10,-20,460,720"), Some(rect(10, -20, 460, 720)));
    assert_eq!(
        rect_setting(i32::MIN, i32::MIN, i32::MAX, i32::MAX),
        "-2147483648,-2147483648,4294967295,4294967295"
    );
}

#[test]
fn what_follows_the_fourth_number_is_ignored() {
    assert_eq!(parse_rect("1,2,3,4,x"), Some(rect(1, 2, 3, 4)));
    for s in ["", "1,2,3", "1,2,3,", "1,2,-3,4", "1,2,3,x", " 1,2,3,4", "1,2,3,4294967296"] {
        assert_eq!(parse_rect(s), None, "{s}");
    }
}

#[test]
fn a_rectangle_off_the_screen_is_not_restored() {
    assert_eq!(validated_rect("0,0,460,720", SCREEN), Some(rect(0, 0, 460, 720)));
    assert_eq!(validated_rect("1860,1020,460,720", SCREEN), Some(rect(1860, 1020, 460, 720)));
    assert_eq!(validated_rect("1861,0,460,720", SCREEN), None);
    assert_eq!(validated_rect("0,1021,460,720", SCREEN), None);
    assert_eq!(validated_rect("-2320,-660,460,720", SCREEN), Some(rect(-2320, -660, 460, 720)));
    assert_eq!(validated_rect("-2321,0,460,720", SCREEN), None);
    assert_eq!(validated_rect("0,-661,460,720", SCREEN), None);
    assert_eq!(validated_rect("0,0,460,720", VirtualScreen { w: 0, ..SCREEN }), None);
    assert_eq!(validated_rect("0,0,460,720", VirtualScreen { h: 0, ..SCREEN }), None);
    assert_eq!(validated_rect("-1900,0,4294967295,720", SCREEN), None);
    assert!(validated_rect("-1900,0,460,720", SCREEN).is_some());
    assert_eq!(validated_rect("junk", SCREEN), None);
}

#[test]
fn a_hidden_window_comes_back_where_it_was() {
    let mut store = Store::open("b/".to_string(), vec![], vec![], vec![]).unwrap();
    assert_eq!(validated_win_rect(&store, SCREEN), None);
    save_win_rect(&mut store, 100, 200, 560, 920);
    assert_eq!(store.get_setting("win_rect").as_deref(), Some("100,200,460,720"));
    assert_eq!(validated_win_rect(&store, SCREEN), Some(rect(100, 200, 460, 720)));
}

#[test]
fn a_window_appears_at_the_cursor_but_on_the_screen() {
    assert_eq!(popup_position((100, 100), (1920, 1080), (460, 720)), (112, 118));
    assert_eq!(popup_position((1900, 1000), (1920, 1080), (460, 720)), (1460, 360));
    assert_eq!(popup_position((-500, -500), (1920, 1080), (460, 720)), (0, 0));
    assert_eq!(popup_position((100, 100), (400, 400), (460, 720)), (0, 0));
}

#[test]
fn losing_the_focus_hides_after_a_while() {
    assert!(!hides_on_blur(1600, 1000, false));
    assert!(hides_on_blur(1601, 1000, false));
    assert!(!hides_on_blur(9999, 1000, true));
    assert!(!hides_on_blur(1000, 2000, false));
}

#[test]
fn own_windows_are_known_by_root_or_process() {
    assert!(!is_own_foreground(0, Some(0), 1, 1));
    assert!(is_own_foreground(5, Some(5), 1, 2));
    assert!(is_own_foreground(5, Some(6), 2, 2));
    assert!(is_own_foreground(5, None, 2, 2));
    assert!(!is_own_foreground(5, Some(6), 1, 2));
}

#[test]
fn toggling_hides_or_shows() {
    assert_eq!(toggle(true, Tab::Todos), WindowAction::Hide);
    assert_eq!(toggle(false, Tab::Todos), WindowAction::Popup(Tab::Todos));
    assert_eq!(toggle(false, Tab::Clips), WindowAction::Popup(Tab::Clips));
    assert_eq!(Tab::Clips.name(), "clips");
    assert_eq!(Tab::Todos.name(), "todos");
}
