//! Laws of the main window and the tray icon.

use crate::tray::{menu_action, tooltip, MenuAction};
use crate::window::{
    hides_on_blur, is_own_foreground, parse_rect, popup_position, rect_setting, save_win_rect,
    toggle, validated_rect, validated_win_rect, Tab, VirtualScreen, WinRect, WindowAction,
};
use crate::store::Store;
use vstd::prelude::*;

verus! {

/// A window is remembered by its left and top edge, its width and its height.
pub proof fn law_rect_reads_back(
    left: i32,
    top: i32,
    right: i32,
    bottom: i32,
    text: String,
    s: &str,
    res: Option<WinRect>,
)
    requires
        left <= right,
        top <= bottom,
        call_ensures(rect_setting, (left, top, right, bottom), text),
        s@ == text@,
        call_ensures(parse_rect, (s,), res),
    ensures
        res is Some,
        res->0.x == left,
        res->0.y == top,
        res->0.w == right - left,
        res->0.h == bottom - top,
{
    crate::window::law_rect_round_trip(left, top, right, bottom);
}

/// What is remembered of a window are four numbers between commas: the left and the upper edge,
/// the width and the height.
pub proof fn law_rect_written(left: i32, top: i32, right: i32, bottom: i32, text: String)
    requires
        call_ensures(rect_setting, (left, top, right, bottom), text),
    ensures
        ({
            let parts = crate::text::split_on(text@, ',');
            &&& parts.len() == 4
            &&& crate::decimal::parsed_int(parts[0], i64::MIN as int, i64::MAX as int) == Some(
                left as int,
            )
            &&& crate::decimal::parsed_int(parts[1], i64::MIN as int, i64::MAX as int) == Some(
                top as int,
            )
            &&& crate::decimal::parsed_int(parts[2], i64::MIN as int, i64::MAX as int) == Some(
                right - left,
            )
            &&& crate::decimal::parsed_int(parts[3], i64::MIN as int, i64::MAX as int) == Some(
                bottom - top,
            )
        }),
{
    let (lo, hi) = (i64::MIN as int, i64::MAX as int);
    let a = crate::decimal::decimal_int(left as int);
    let b = crate::decimal::decimal_int(top as int);
    let c = crate::decimal::decimal_int(right - left);
    let d = crate::decimal::decimal_int(bottom - top);
    crate::window::lemma_number_no_comma(left as int);
    crate::window::lemma_number_no_comma(top as int);
    crate::window::lemma_number_no_comma(right - left);
    crate::window::lemma_number_no_comma(bottom - top);
    crate::laws::texts::law_one_part(a, ',');
    crate::laws::texts::law_one_part(b, ',');
    crate::laws::texts::law_one_part(c, ',');
    crate::laws::texts::law_one_part(d, ',');
    let ab = a + seq![','] + b;
    let abc = ab + seq![','] + c;
    crate::laws::texts::law_parts_meet(a, ',', b);
    crate::laws::texts::law_parts_meet(ab, ',', c);
    crate::laws::texts::law_parts_meet(abc, ',', d);
    assert(text@ =~= abc + seq![','] + d);
    crate::decimal::law_decimal_round_trip(left as int, lo, hi);
    crate::decimal::law_decimal_round_trip(top as int, lo, hi);
    crate::decimal::law_decimal_round_trip(right - left, lo, hi);
    crate::decimal::law_decimal_round_trip(bottom - top, lo, hi);
}

/// Four numbers between commas make a rectangle, whatever follows a further comma; where one of
/// the four is no number that fits, there is none.
pub proof fn law_rect_parts(
    s: &str,
    x: Seq<char>,
    y: Seq<char>,
    w: Seq<char>,
    h: Seq<char>,
    rest: Seq<char>,
    res: Option<WinRect>,
)
    requires
        call_ensures(parse_rect, (s,), res),
        !x.contains(','),
        !y.contains(','),
        !w.contains(','),
        !h.contains(','),
        s@ == x + seq![','] + (y + seq![','] + (w + seq![','] + h)) || s@ == x + seq![','] + (y
            + seq![','] + (w + seq![','] + (h + seq![','] + rest))),
    ensures
        ({
            let a = crate::decimal::parsed_int(x, i32::MIN as int, i32::MAX as int);
            let b = crate::decimal::parsed_int(y, i32::MIN as int, i32::MAX as int);
            let c = crate::decimal::parsed_int(w, 0, u32::MAX as int);
            let d = crate::decimal::parsed_int(h, 0, u32::MAX as int);
            &&& res is Some <==> a is Some && b is Some && c is Some && d is Some
            &&& res is Some ==> res->0.x == a->0 && res->0.y == b->0 && res->0.w == c->0
                && res->0.h == d->0
        }),
{
    crate::laws::texts::law_one_part(x, ',');
    crate::laws::texts::law_one_part(y, ',');
    crate::laws::texts::law_one_part(w, ',');
    crate::laws::texts::law_one_part(h, ',');
    let hr = h + seq![','] + rest;
    crate::laws::texts::law_parts_meet(h, ',', rest);
    crate::laws::texts::law_parts_meet(w, ',', h);
    crate::laws::texts::law_parts_meet(w, ',', hr);
    let wh = w + seq![','] + h;
    let whr = w + seq![','] + hr;
    crate::laws::texts::law_parts_meet(y, ',', wh);
    crate::laws::texts::law_parts_meet(y, ',', whr);
    let ywh = y + seq![','] + wh;
    let ywhr = y + seq![','] + whr;
    crate::laws::texts::law_parts_meet(x, ',', ywh);
    crate::laws::texts::law_parts_meet(x, ',', ywhr);
    let parts = crate::text::split_on(s@, ',');
    assert(parts.len() >= 4 && parts[0] == x && parts[1] == y && parts[2] == w && parts[3] == h);
    let a = crate::decimal::parsed_int(x, i32::MIN as int, i32::MAX as int);
    let b = crate::decimal::parsed_int(y, i32::MIN as int, i32::MAX as int);
    let c = crate::decimal::parsed_int(w, 0, u32::MAX as int);
    let d = crate::decimal::parsed_int(h, 0, u32::MAX as int);
    if a is Some && b is Some && c is Some && d is Some {
        crate::laws::numbers::law_number_shape(x, i32::MIN as int, i32::MAX as int);
        crate::laws::numbers::law_number_shape(y, i32::MIN as int, i32::MAX as int);
        crate::laws::numbers::law_number_shape(w, 0, u32::MAX as int);
        crate::laws::numbers::law_number_shape(h, 0, u32::MAX as int);
    }
}

/// Fewer than four parts make no rectangle.
pub proof fn law_rect_too_short(
    s: &str,
    x: Seq<char>,
    y: Seq<char>,
    w: Seq<char>,
    res: Option<WinRect>,
)
    requires
        call_ensures(parse_rect, (s,), res),
        !x.contains(','),
        !y.contains(','),
        !w.contains(','),
        s@ == x || s@ == x + seq![','] + y || s@ == x + seq![','] + (y + seq![','] + w),
    ensures
        res is None,
{
    crate::laws::texts::law_one_part(x, ',');
    crate::laws::texts::law_one_part(y, ',');
    crate::laws::texts::law_one_part(w, ',');
    crate::laws::texts::law_parts_meet(x, ',', y);
    crate::laws::texts::law_parts_meet(y, ',', w);
    crate::laws::texts::law_parts_meet(x, ',', y + seq![','] + w);
}

/// A remembered rectangle is used as it is, or not at all. It is used where there is a screen,
/// and sixty pixels of it or more, from each of its edges, can be on the screen. An extent of
/// more than 31 bits counts as one below zero.
pub proof fn law_rect_on_screen(
    s: &str,
    screen: VirtualScreen,
    parsed: Option<WinRect>,
    res: Option<WinRect>,
)
    requires
        call_ensures(parse_rect, (s,), parsed),
        call_ensures(validated_rect, (s, screen), res),
    ensures
        parsed is None ==> res is None,
        res is Some ==> res == parsed,
        parsed is Some ==> (res is Some <==> {
            let r = parsed->0;
            let right = screen.x + screen.w;
            let bottom = screen.y + screen.h;
            let w = if r.w < 0x8000_0000 {
                r.w as int
            } else {
                r.w - 0x1_0000_0000
            };
            let h = if r.h < 0x8000_0000 {
                r.h as int
            } else {
                r.h - 0x1_0000_0000
            };
            &&& screen.w != 0
            &&& screen.h != 0
            &&& right - r.x >= 60
            &&& bottom - r.y >= 60
            &&& r.x + w - screen.x >= 60
            &&& r.y + h - screen.y >= 60
        }),
{
}

/// The store remembers the rectangle under the name `win_rect`.
pub proof fn law_rect_stored(
    store: &Store,
    screen: VirtualScreen,
    key: &str,
    text: Option<String>,
    s: &str,
    read: Option<WinRect>,
    res: Option<WinRect>,
)
    requires
        store.wf(),
        key@ == "win_rect"@,
        call_ensures(Store::get_setting, (store, key), text),
        text matches Some(t) ==> s@ == t@,
        call_ensures(validated_rect, (s, screen), read),
        call_ensures(validated_win_rect, (store, screen), res),
    ensures
        text is None ==> res is None,
        text is Some ==> res == read,
{
}

/// A window that is remembered while it is on the screen, and not smaller than sixty pixels,
/// comes back where it was.
pub proof fn law_window_remembered(
    s: &mut Store,
    left: i32,
    top: i32,
    right: i32,
    bottom: i32,
    after: &Store,
    screen: VirtualScreen,
    res: Option<WinRect>,
)
    requires
        old(s).wf(),
        call_ensures(save_win_rect, (s, left, top, right, bottom), ()),
        after.wf(),
        after@ == final(s)@,
        call_ensures(validated_win_rect, (after, screen), res),
        screen.x <= left,
        screen.y <= top,
        left + 60 <= right <= screen.x + screen.w,
        top + 60 <= bottom <= screen.y + screen.h,
        right - left <= i32::MAX,
        bottom - top <= i32::MAX,
    ensures
        res is Some,
        res->0.x == left,
        res->0.y == top,
        res->0.w == right - left,
        res->0.h == bottom - top,
        final(s)@.clips == old(s)@.clips,
        final(s)@.todos == old(s)@.todos,
        final(s)@.blob_dir == old(s)@.blob_dir,
        forall|k: Seq<char>|
            k != "win_rect"@ ==> #[trigger] final(s)@.settings.contains_key(k)
                == old(s)@.settings.contains_key(k),
        forall|k: Seq<char>|
            k != "win_rect"@ && old(s)@.settings.contains_key(k) ==> #[trigger] final(s)@.settings[k]
                == old(s)@.settings[k],
{
    crate::window::law_window_comes_back(left, top, right, bottom, screen);
}

/// A window appears twelve pixels right of the cursor and eighteen below it where it fits there;
/// else it is moved back as far as the edge of the screen, but never beyond the left or upper
/// edge.
pub proof fn law_popup(
    cursor: (i32, i32),
    screen: (i32, i32),
    size: (i32, i32),
    res: (i32, i32),
)
    requires
        call_ensures(popup_position, (cursor, screen, size), res),
    ensures
        res.0 >= 0,
        res.1 >= 0,
        cursor.0 + 12 >= 0 && cursor.0 + 12 + size.0 <= screen.0 ==> res.0 == cursor.0 + 12,
        cursor.1 + 18 >= 0 && cursor.1 + 18 + size.1 <= screen.1 ==> res.1 == cursor.1 + 18,
        cursor.0 + 12 + size.0 > screen.0 && size.0 <= screen.0 ==> res.0 + size.0 == screen.0,
        cursor.1 + 18 + size.1 > screen.1 && size.1 <= screen.1 ==> res.1 + size.1 == screen.1,
        size.0 > screen.0 || cursor.0 + 12 < 0 ==> res.0 == 0,
        size.1 > screen.1 || cursor.1 + 18 < 0 ==> res.1 == 0,
{
}

/// A window that loses the focus hides more than six hundred milliseconds after it appeared,
/// unless one of the program's own windows is in front.
pub proof fn law_hiding(now: u64, popup_at: u64, own: bool, res: bool)
    requires
        call_ensures(hides_on_blur, (now, popup_at, own), res),
    ensures
        own ==> !res,
        now <= popup_at + 600 ==> !res,
        !own && now > popup_at + 600 ==> res,
{
}

/// The window in front is the program's own where it is the main window, or belongs to the same
/// process. No window is nobody's.
pub proof fn law_own_window(
    front: isize,
    main_root: Option<isize>,
    front_pid: u32,
    own_pid: u32,
    res: bool,
)
    requires
        call_ensures(is_own_foreground, (front, main_root, front_pid, own_pid), res),
    ensures
        front == 0 ==> !res,
        front != 0 && main_root == Some(front) ==> res,
        front != 0 && front_pid == own_pid ==> res,
        main_root != Some(front) && front_pid != own_pid ==> !res,
{
}

/// A visible window hides and a hidden one appears on the side that was asked for.
pub proof fn law_toggle(visible: bool, tab: Tab, res: WindowAction)
    requires
        call_ensures(toggle, (visible, tab), res),
    ensures
        visible ==> res == WindowAction::Hide,
        !visible ==> res == WindowAction::Popup(tab),
{
}

/// The names of the two sides.
pub proof fn law_tab_names(tab: Tab, res: &'static str)
    requires
        call_ensures(Tab::name, (tab,), res),
    ensures
        tab == Tab::Clips ==> res@ == "clips"@,
        tab == Tab::Todos ==> res@ == "todos"@,
{
}

/// Each menu item does its own thing, and no other name does anything.
pub proof fn law_menu(id: &str, res: Option<MenuAction>)
    requires
        call_ensures(menu_action, (id,), res),
    ensures
        res == Some(MenuAction::Toggle(Tab::Clips)) <==> id@ == "show"@,
        res == Some(MenuAction::Toggle(Tab::Todos)) <==> id@ == "todos"@,
        res == Some(MenuAction::Pause) <==> id@ == "pause"@,
        res == Some(MenuAction::Clear) <==> id@ == "clear"@,
        res == Some(MenuAction::About) <==> id@ == "about"@,
        res == Some(MenuAction::Quit) <==> id@ == "quit"@,
{
    reveal_strlit("show");
    reveal_strlit("todos");
    reveal_strlit("pause");
    reveal_strlit("clear");
    reveal_strlit("about");
    reveal_strlit("quit");
    assert("show"@[0] == 's' && "todos"@[0] == 't' && "pause"@[0] == 'p' && "clear"@[0] == 'c'
        && "about"@[0] == 'a' && "quit"@[0] == 'q');
}

/// The icon says whether watching is paused, and else how to bring the window up.
pub proof fn law_tooltip(paused: bool, res: &'static str)
    requires
        call_ensures(tooltip, (paused,), res),
    ensures
        paused ==> res@ == "clipwin · 已暂停监听"@,
        !paused ==> res@ == "clipwin · Ctrl+Alt+Q 唤出"@,
{
}

} // verus!
