//! The main window: where it appears, and when it hides.

use crate::decimal::{decimal_i64, parse_i32, parse_u32};
use crate::store::Store;
use crate::text::{chars_of, split_chars, string_of};
use vstd::prelude::*;

verus! {

/// A rectangle in physical pixels.
#[derive(Debug, Clone, Copy, PartialEq, Eq, Structural)]
pub struct WinRect {
    pub x: i32,
    pub y: i32,
    pub w: u32,
    pub h: u32,
}

/// The screen that all monitors make up together.
#[derive(Debug, Clone, Copy, PartialEq, Eq, Structural)]
pub struct VirtualScreen {
    pub x: i32,
    pub y: i32,
    pub w: i32,
    pub h: i32,
}

/// How much of the window has to be on the screen, in pixels.
pub const MARGIN: i64 = 60;

/// The text of a remembered rectangle: position, width and height.
pub open spec fn rect_text(x: int, y: int, w: int, h: int) -> Seq<char> {
    crate::decimal::decimal_int(x) + seq![','] + crate::decimal::decimal_int(y) + seq![',']
        + crate::decimal::decimal_int(w) + seq![','] + crate::decimal::decimal_int(h)
}

/// The text that remembers where a window is, given by its edges.
pub fn rect_setting(left: i32, top: i32, right: i32, bottom: i32) -> (res: String)
    ensures
        res@ == rect_text(left as int, top as int, right - left, bottom - top),
{
    let mut out = decimal_i64(left as i64);
    out.push(',');
    let mut y = decimal_i64(top as i64);
    out.append(&mut y);
    out.push(',');
    let mut w = decimal_i64(right as i64 - left as i64);
    out.append(&mut w);
    out.push(',');
    let mut h = decimal_i64(bottom as i64 - top as i64);
    out.append(&mut h);
    assert(out@ =~= rect_text(left as int, top as int, right - left, bottom - top));
    string_of(&out)
}

/// The rectangle that a text remembers: its first four parts between commas, each a number.
pub open spec fn parsed_rect(s: Seq<char>) -> Option<WinRect> {
    let parts = crate::text::split_on(s, ',');
    if parts.len() < 4 {
        None
    } else {
        match (
            crate::decimal::parsed_int(parts[0], i32::MIN as int, i32::MAX as int),
            crate::decimal::parsed_int(parts[1], i32::MIN as int, i32::MAX as int),
            crate::decimal::parsed_int(parts[2], 0, u32::MAX as int),
            crate::decimal::parsed_int(parts[3], 0, u32::MAX as int),
        ) {
            (Some(x), Some(y), Some(w), Some(h)) => Some(
                WinRect { x: x as i32, y: y as i32, w: w as u32, h: h as u32 },
            ),
            _ => None,
        }
    }
}

/// The rectangle that a text remembers.
pub fn parse_rect(s: &str) -> (res: Option<WinRect>)
    ensures
        res == parsed_rect(s@),
{
    let parts = split_chars(&chars_of(s), ',');
    let ghost view = |p: Vec<char>| p@;
    let ghost pv = parts@.map_values(view);
    if parts.len() < 4 {
        return None;
    }
    assert(pv[0] == parts@[0]@ && pv[1] == parts@[1]@ && pv[2] == parts@[2]@ && pv[3] == parts@[3]@);
    match (parse_i32(&parts[0]), parse_i32(&parts[1]), parse_u32(&parts[2]), parse_u32(&parts[3])) {
        (Some(x), Some(y), Some(w), Some(h)) => Some(WinRect { x, y, w, h }),
        _ => None,
    }
}

/// An extent as a signed number of 32 bits.
pub open spec fn signed(extent: u32) -> int {
    if extent <= i32::MAX {
        extent as int
    } else {
        extent - 0x1_0000_0000
    }
}

fn signed_of(extent: u32) -> (res: i64)
    ensures
        res == signed(extent),
{
    if extent <= 0x7fff_ffff {
        extent as i64
    } else {
        extent as i64 - 0x1_0000_0000
    }
}

/// Whether enough of a remembered rectangle is on the screen.
pub open spec fn on_screen(r: WinRect, screen: VirtualScreen) -> bool {
    &&& screen.w != 0
    &&& screen.h != 0
    &&& r.x + MARGIN <= screen.x + screen.w
    &&& r.y + MARGIN <= screen.y + screen.h
    &&& r.x + signed(r.w) - MARGIN >= screen.x
    &&& r.y + signed(r.h) - MARGIN >= screen.y
}

/// The rectangle that a text remembers, where enough of it is on the screen.
pub open spec fn restored(setting: Seq<char>, screen: VirtualScreen) -> Option<WinRect> {
    match parsed_rect(setting) {
        Some(r) => if on_screen(r, screen) {
            Some(r)
        } else {
            None
        },
        None => None,
    }
}

/// The rectangle that a text remembers, where enough of it is on the screen.
pub fn validated_rect(setting: &str, screen: VirtualScreen) -> (res: Option<WinRect>)
    ensures
        res == restored(setting@, screen),
{
    let r = match parse_rect(setting) {
        Some(r) => r,
        None => {
            return None;
        },
    };
    if screen.w == 0 || screen.h == 0 {
        return None;
    }
    let (x, y, sx, sy) = (r.x as i64, r.y as i64, screen.x as i64, screen.y as i64);
    if x + MARGIN > sx + screen.w as i64 || y + MARGIN > sy + screen.h as i64 || x + signed_of(r.w)
        - MARGIN < sx || y + signed_of(r.h) - MARGIN < sy {
        return None;
    }
    Some(r)
}

/// The rectangle that the store remembers, where enough of it is on the screen.
pub fn validated_win_rect(store: &Store, screen: VirtualScreen) -> (res: Option<WinRect>)
    requires
        store.wf(),
    ensures
        res == if store@.settings.contains_key("win_rect"@) {
            restored(store@.settings["win_rect"@], screen)
        } else {
            None
        },
{
    match store.get_setting("win_rect") {
        Some(s) => validated_rect(s.as_str(), screen),
        None => None,
    }
}

/// Remembers where the window is, given by its edges.
pub fn save_win_rect(store: &mut Store, left: i32, top: i32, right: i32, bottom: i32)
    requires
        old(store).wf(),
    ensures
        final(store).wf(),
        final(store)@ == (crate::store::StoreView {
            settings: old(store)@.settings.insert(
                "win_rect"@,
                rect_text(left as int, top as int, right - left, bottom - top),
            ),
            ..old(store)@
        }),
{
    let rect = rect_setting(left, top, right, bottom);
    store.set_setting("win_rect", rect.as_str());
}

proof fn lemma_digits_no_comma(n: nat)
    ensures
        !crate::decimal::decimal(n).contains(','),
    decreases n,
{
    let d = crate::decimal::decimal(n);
    if n >= 10 {
        lemma_digits_no_comma(n / 10);
        let h = crate::decimal::decimal(n / 10);
        if d.contains(',') {
            let k = choose|k: int| 0 <= k < d.len() && d[k] == ',';
            if k < h.len() {
                assert(h[k] == ',');
            }
        }
    }
}

/// A number has no comma in it.
pub proof fn lemma_number_no_comma(n: int)
    ensures
        !crate::decimal::decimal_int(n).contains(','),
{
    let d = crate::decimal::decimal_int(n);
    let m = if n < 0 {
        (-n) as nat
    } else {
        n as nat
    };
    lemma_digits_no_comma(m);
    if d.contains(',') {
        let k = choose|k: int| 0 <= k < d.len() && d[k] == ',';
        if n < 0 {
            assert(crate::decimal::decimal(m)[k - 1] == ',');
        }
    }
}

/// A part without separator at the end of a text is the last of its parts.
proof fn lemma_split_end(s: Seq<char>, part: Seq<char>)
    requires
        !part.contains(','),
    ensures
        crate::text::split_on(s + seq![','] + part, ',') == crate::text::split_on(s, ',').push(part),
    decreases part.len(),
{
    let t = s + seq![','] + part;
    if part.len() == 0 {
        assert(t.drop_last() =~= s);
        assert(part =~= seq![]);
    } else {
        let init = part.drop_last();
        assert(t.drop_last() =~= s + seq![','] + init);
        assert(!init.contains(',')) by {
            if init.contains(',') {
                let k = choose|k: int| 0 <= k < init.len() && init[k] == ',';
                assert(part[k] == ',');
            }
        }
        lemma_split_end(s, init);
        assert(part.contains(part.last()));
        assert(init.push(part.last()) =~= part);
        let parts = crate::text::split_on(s, ',');
        assert(parts.push(init).drop_last() =~= parts);
    }
}

proof fn lemma_split_single(part: Seq<char>)
    requires
        !part.contains(','),
    ensures
        crate::text::split_on(part, ',') == seq![part],
    decreases part.len(),
{
    if part.len() == 0 {
        assert(part =~= seq![]);
    } else {
        let init = part.drop_last();
        assert(!init.contains(',')) by {
            if init.contains(',') {
                let k = choose|k: int| 0 <= k < init.len() && init[k] == ',';
                assert(part[k] == ',');
            }
        }
        lemma_split_single(init);
        assert(part.contains(part.last()));
        assert(init.push(part.last()) =~= part);
        assert(seq![init].drop_last().push(part) =~= seq![part]);
    }
}

/// A remembered rectangle reads back as it was written.
pub proof fn law_rect_round_trip(left: i32, top: i32, right: i32, bottom: i32)
    requires
        left <= right,
        top <= bottom,
    ensures
        parsed_rect(rect_text(left as int, top as int, right - left, bottom - top)) == Some(
            WinRect {
                x: left,
                y: top,
                w: (right - left) as u32,
                h: (bottom - top) as u32,
            },
        ),
{
    let a = crate::decimal::decimal_int(left as int);
    let b = crate::decimal::decimal_int(top as int);
    let c = crate::decimal::decimal_int(right - left);
    let d = crate::decimal::decimal_int(bottom - top);
    lemma_number_no_comma(left as int);
    lemma_number_no_comma(top as int);
    lemma_number_no_comma(right - left);
    lemma_number_no_comma(bottom - top);
    lemma_split_single(a);
    lemma_split_end(a, b);
    let ab = a + seq![','] + b;
    lemma_split_end(ab, c);
    let abc = ab + seq![','] + c;
    lemma_split_end(abc, d);
    assert(rect_text(left as int, top as int, right - left, bottom - top) =~= abc + seq![','] + d);
    let parts = crate::text::split_on(abc + seq![','] + d, ',');
    assert(parts =~= seq![a, b, c, d]);
    crate::decimal::law_decimal_round_trip(left as int, i32::MIN as int, i32::MAX as int);
    crate::decimal::law_decimal_round_trip(top as int, i32::MIN as int, i32::MAX as int);
    crate::decimal::law_decimal_round_trip(right - left, 0, u32::MAX as int);
    crate::decimal::law_decimal_round_trip(bottom - top, 0, u32::MAX as int);
}

/// A window that was hidden while it was on the screen, and not smaller than the margin, comes
/// back where it was.
pub proof fn law_window_comes_back(
    left: i32,
    top: i32,
    right: i32,
    bottom: i32,
    screen: VirtualScreen,
)
    requires
        screen.x <= left,
        screen.y <= top,
        left + MARGIN <= right <= screen.x + screen.w,
        top + MARGIN <= bottom <= screen.y + screen.h,
        right - left <= i32::MAX,
        bottom - top <= i32::MAX,
    ensures
        restored(rect_text(left as int, top as int, right - left, bottom - top), screen) == Some(
            WinRect {
                x: left,
                y: top,
                w: (right - left) as u32,
                h: (bottom - top) as u32,
            },
        ),
{
    law_rect_round_trip(left, top, right, bottom);
}

/// `a` limited to the range from 0 to `top`, where 0 wins.
pub open spec fn clamped(a: int, top: int) -> int {
    let m = if a < top {
        a
    } else {
        top
    };
    if m < 0 {
        0
    } else {
        m
    }
}

/// Where a window of the given size appears: right below the cursor, on the screen.
pub fn popup_position(cursor: (i32, i32), screen: (i32, i32), size: (i32, i32)) -> (res: (i32, i32))
    requires
        cursor.0 + 12 <= i32::MAX,
        cursor.1 + 18 <= i32::MAX,
        i32::MIN <= screen.0 - size.0 <= i32::MAX,
        i32::MIN <= screen.1 - size.1 <= i32::MAX,
    ensures
        res.0 == clamped(cursor.0 + 12, screen.0 - size.0),
        res.1 == clamped(cursor.1 + 18, screen.1 - size.1),
{
    let x = min(cursor.0 + 12, screen.0 - size.0);
    let y = min(cursor.1 + 18, screen.1 - size.1);
    (max(x, 0), max(y, 0))
}

fn min(a: i32, b: i32) -> (res: i32)
    ensures
        res == if a < b {
            a
        } else {
            b
        },
{
    if a < b {
        a
    } else {
        b
    }
}

fn max(a: i32, b: i32) -> (res: i32)
    ensures
        res == if a < b {
            b
        } else {
            a
        },
{
    if a < b {
        b
    } else {
        a
    }
}

/// A window that fits on the screen appears wholly on it.
pub proof fn law_popup_on_screen(cursor: int, screen: int, size: int)
    requires
        0 <= size <= screen,
    ensures
        0 <= clamped(cursor, screen - size),
        clamped(cursor, screen - size) + size <= screen,
{
}

/// How long after it appeared a window keeps quiet about losing the focus, in milliseconds.
pub const SETTLE_MS: u64 = 600;

/// Whether the window hides when it loses the focus: it appeared long enough ago, and none of the
/// program's windows is in front.
pub open spec fn hides(now: u64, popup_at: u64, own_in_front: bool) -> bool {
    now - popup_at > SETTLE_MS && !own_in_front
}

/// Whether the window hides when it loses the focus.
pub fn hides_on_blur(now: u64, popup_at: u64, own_in_front: bool) -> (res: bool)
    ensures
        res == hides(now, popup_at, own_in_front),
{
    now.saturating_sub(popup_at) > SETTLE_MS && !own_in_front
}

/// Whether the window in front is one of the program's: the main window, or any window of the
/// same process. A handle of 0 stands for no window.
pub open spec fn own_in_front(front: isize, main_root: Option<isize>, front_pid: u32, own_pid: u32) -> bool {
    front != 0 && (main_root == Some(front) || front_pid == own_pid)
}

/// Whether the window in front is one of the program's.
pub fn is_own_foreground(front: isize, main_root: Option<isize>, front_pid: u32, own_pid: u32) -> (res:
    bool)
    ensures
        res == own_in_front(front, main_root, front_pid, own_pid),
{
    if front == 0 {
        return false;
    }
    if let Some(root) = main_root {
        if root == front {
            return true;
        }
    }
    front_pid == own_pid
}

/// The two sides of the main window.
#[derive(Debug, Clone, Copy, PartialEq, Eq, Structural)]
pub enum Tab {
    Clips,
    Todos,
}

impl Tab {
    pub open spec fn text(self) -> Seq<char> {
        match self {
            Tab::Clips => "clips"@,
            Tab::Todos => "todos"@,
        }
    }

    /// The name of the side in the message to the page.
    pub fn name(self) -> (res: &'static str)
        ensures
            res@ == self.text(),
    {
        match self {
            Tab::Clips => "clips",
            Tab::Todos => "todos",
        }
    }
}

/// What becomes of the main window.
#[derive(Debug, Clone, Copy, PartialEq, Eq, Structural)]
pub enum WindowAction {
    Hide,
    Popup(Tab),
}

/// What a hotkey or the tray does to the window: a visible window hides, a hidden one appears.
pub fn toggle(visible: bool, tab: Tab) -> (res: WindowAction)
    ensures
        res == if visible {
            WindowAction::Hide
        } else {
            WindowAction::Popup(tab)
        },
{
    if visible {
        WindowAction::Hide
    } else {
        WindowAction::Popup(tab)
    }
}

} // verus!
