//! Laws of the settings: the hotkeys, the limit of the history, and the pause.

use crate::commands::{
    autostart_enabled, enforce_limit, history_limit, hotkey, migrate_hotkeys, remember_paused,
    roll_back_hotkey, set_history_limit, set_hotkey, settings_all, take_in, was_paused, HotkeySlot,
    SettingsPage, TodoError,
};
use crate::paste::PasteError;
use crate::rows::ClipEvent;
use crate::store::deletion::Swept;
use crate::store::{Store, StoreError};
use vstd::prelude::*;

verus! {

/// A setting reads as it was written, and writing it changes nothing else.
pub proof fn law_setting_written(
    s: &mut Store,
    key: &str,
    value: &str,
    before: &Store,
    after: &Store,
    other: &str,
    read: Option<String>,
    was: Option<String>,
    is: Option<String>,
)
    requires
        old(s).wf(),
        call_ensures(Store::set_setting, (s, key, value), ()),
        before.wf(),
        before@ == old(s)@,
        after.wf(),
        after@ == final(s)@,
        other@ != key@,
        call_ensures(Store::get_setting, (after, key), read),
        call_ensures(Store::get_setting, (before, other), was),
        call_ensures(Store::get_setting, (after, other), is),
    ensures
        read is Some,
        read->0@ == value@,
        crate::rows::opt_view(is) == crate::rows::opt_view(was),
        final(s)@.clips == old(s)@.clips,
        final(s)@.todos == old(s)@.todos,
        final(s)@.blob_dir == old(s)@.blob_dir,
{
}

/// Where the two hotkeys are kept, and what they are where nothing is.
pub proof fn law_hotkey(store: &Store, slot: HotkeySlot, key: &str, kept: Option<String>, res: String)
    requires
        store.wf(),
        key@ == match slot {
            HotkeySlot::Clips => "hotkey"@,
            HotkeySlot::Todos => "hotkey_todos"@,
        },
        call_ensures(Store::get_setting, (store, key), kept),
        call_ensures(hotkey, (store, slot), res),
    ensures
        kept is Some ==> res@ == kept->0@,
        kept is None && slot == HotkeySlot::Clips ==> res@ == "ctrl+alt+q"@,
        kept is None && slot == HotkeySlot::Todos ==> res@ == "ctrl+alt+w"@,
{
}

/// The names and defaults of the two slots.
pub proof fn law_slots(slot: HotkeySlot, name: &'static str, keys: &'static str)
    requires
        call_ensures(HotkeySlot::setting, (slot,), name),
        call_ensures(HotkeySlot::default_accelerator, (slot,), keys),
    ensures
        slot == HotkeySlot::Clips ==> name@ == "hotkey"@ && keys@ == "ctrl+alt+q"@,
        slot == HotkeySlot::Todos ==> name@ == "hotkey_todos"@ && keys@ == "ctrl+alt+w"@,
{
}

/// Setting a hotkey puts it in force, leaves the other one as it is, and gives the one that was
/// in force.
pub proof fn law_hotkey_set(
    s: &mut Store,
    slot: HotkeySlot,
    keys: &str,
    previous: String,
    before: &Store,
    after: &Store,
    other: HotkeySlot,
    was: String,
    is: String,
    other_was: String,
    other_is: String,
)
    requires
        old(s).wf(),
        call_ensures(set_hotkey, (s, slot, keys), previous),
        before.wf(),
        before@ == old(s)@,
        after.wf(),
        after@ == final(s)@,
        other != slot,
        call_ensures(hotkey, (before, slot), was),
        call_ensures(hotkey, (after, slot), is),
        call_ensures(hotkey, (before, other), other_was),
        call_ensures(hotkey, (after, other), other_is),
    ensures
        is@ == keys@,
        previous@ == was@,
        other_is@ == other_was@,
        final(s)@.clips == old(s)@.clips,
        final(s)@.todos == old(s)@.todos,
{
    crate::commands::lemma_slots_differ();
}

/// Going back after a hotkey that could not be registered puts the one in force that was.
pub proof fn law_hotkey_rolled_back(
    s: &mut Store,
    slot: HotkeySlot,
    keys: &str,
    given: String,
    t: &mut Store,
    previous: &str,
    before: &Store,
    after: &Store,
    asked: HotkeySlot,
    was: String,
    is: String,
)
    requires
        old(s).wf(),
        call_ensures(set_hotkey, (s, slot, keys), given),
        old(t).wf(),
        old(t)@ == final(s)@,
        previous@ == given@,
        call_ensures(roll_back_hotkey, (t, slot, previous), ()),
        before.wf(),
        before@ == old(s)@,
        after.wf(),
        after@ == final(t)@,
        call_ensures(hotkey, (before, asked), was),
        call_ensures(hotkey, (after, asked), is),
    ensures
        is@ == was@,
        final(t)@.clips == old(s)@.clips,
        final(t)@.todos == old(s)@.todos,
{
    crate::commands::lemma_slots_differ();
}

/// The hotkeys of earlier versions, `alt+v` and `alt+t`, move to the present ones; any other that
/// was set stays, and none is set that was not.
pub proof fn law_hotkeys_migrated(
    s: &mut Store,
    key: &str,
    before: &Store,
    after: &Store,
    was: Option<String>,
    is: Option<String>,
)
    requires
        old(s).wf(),
        call_ensures(migrate_hotkeys, (s,), ()),
        before.wf(),
        before@ == old(s)@,
        after.wf(),
        after@ == final(s)@,
        call_ensures(Store::get_setting, (before, key), was),
        call_ensures(Store::get_setting, (after, key), is),
    ensures
        ({
            let moved = key@ == "hotkey"@ && crate::rows::opt_view(was) == Some("alt+v"@);
            let moved_todos = key@ == "hotkey_todos"@ && crate::rows::opt_view(was) == Some(
                "alt+t"@,
            );
            &&& moved ==> crate::rows::opt_view(is) == Some("ctrl+alt+q"@)
            &&& moved_todos ==> crate::rows::opt_view(is) == Some("ctrl+alt+w"@)
            &&& !moved && !moved_todos ==> crate::rows::opt_view(is) == crate::rows::opt_view(was)
        }),
        final(s)@.clips == old(s)@.clips,
        final(s)@.todos == old(s)@.todos,
        final(s)@.blob_dir == old(s)@.blob_dir,
{
    crate::commands::lemma_slots_differ();
}

/// The limit of the history is the number under its name; without a number there, it is ten
/// thousand.
pub proof fn law_limit_read(
    store: &Store,
    key: &str,
    kept: Option<String>,
    res: i64,
)
    requires
        store.wf(),
        key@ == "history_limit"@,
        call_ensures(Store::get_setting, (store, key), kept),
        call_ensures(history_limit, (store,), res),
    ensures
        kept is None ==> res == 10_000,
        kept is Some && crate::decimal::parsed_int(
            kept->0@,
            i64::MIN as int,
            i64::MAX as int,
        ) is None ==> res == 10_000,
        kept is Some && crate::decimal::parsed_int(
            kept->0@,
            i64::MIN as int,
            i64::MAX as int,
        ) is Some ==> Some(res as int) == crate::decimal::parsed_int(
            kept->0@,
            i64::MIN as int,
            i64::MAX as int,
        ),
{
    if let Some(k) = kept {
        if crate::decimal::parsed_int(k@, i64::MIN as int, i64::MAX as int) is Some {
            crate::laws::numbers::law_number_shape(k@, i64::MIN as int, i64::MAX as int);
        }
    }
}

/// A limit that is set is in force, and the history is held to it at once.
pub proof fn law_limit_set(
    s: &mut Store,
    limit: i64,
    swept: Swept,
    after: &Store,
    res: i64,
    t: &mut Store,
    same: Swept,
)
    requires
        old(s).wf(),
        call_ensures(set_history_limit, (s, limit), swept),
        after.wf(),
        after@ == final(s)@,
        call_ensures(history_limit, (after,), res),
        old(t).wf(),
        old(t)@ == old(s)@,
        call_ensures(enforce_limit, (t, limit), same),
    ensures
        res == limit,
        final(s)@.clips == final(t)@.clips,
        swept.ids@ == same.ids@,
        final(s)@.todos == old(s)@.todos,
        final(s)@.blob_dir == old(s)@.blob_dir,
        forall|k: Seq<char>|
            k != "history_limit"@ ==> #[trigger] final(s)@.settings.contains_key(k)
                == old(s)@.settings.contains_key(k),
        forall|k: Seq<char>|
            k != "history_limit"@ && old(s)@.settings.contains_key(k)
                ==> #[trigger] final(s)@.settings[k] == old(s)@.settings[k],
{
    crate::commands::law_limit_reads_back(old(s)@.settings, limit);
}

/// A limit above zero trims the history to it; one of zero or less takes nothing out.
pub proof fn law_limit_enforced(
    s: &mut Store,
    limit: i64,
    res: Swept,
    t: &mut Store,
    trimmed: Swept,
)
    requires
        old(s).wf(),
        call_ensures(enforce_limit, (s, limit), res),
        old(t).wf(),
        old(t)@ == old(s)@,
        call_ensures(Store::trim, (t, limit), trimmed),
    ensures
        limit > 0 ==> final(s)@ == final(t)@ && res.ids@ == trimmed.ids@,
        limit <= 0 ==> final(s)@ == old(s)@ && res.ids@.len() == 0 && res.files@.len() == 0,
{
    if limit <= 0 {
        let none = Seq::<crate::rows::ClipView>::empty();
        crate::seqs::lemma_filter_all(
            old(s)@.clips,
            crate::store::deletion::not_among(none),
        );
        assert(crate::text::views(res.files@).len() == res.files@.len());
    }
}

/// An event is taken in as it is inserted, and then the history is held to its limit.
pub proof fn law_event_taken_in(
    s: &mut Store,
    ev: &ClipEvent,
    on_disk: &Option<Vec<u8>>,
    res: (Result<i64, StoreError>, Swept),
    before: &Store,
    limit: i64,
    t: &mut Store,
    id: Result<i64, StoreError>,
    u: &mut Store,
    swept: Swept,
)
    requires
        old(s).wf(),
        call_ensures(take_in, (s, ev, on_disk), res),
        before.wf(),
        before@ == old(s)@,
        call_ensures(history_limit, (before,), limit),
        old(t).wf(),
        old(t)@ == old(s)@,
        call_ensures(Store::insert, (t, ev, on_disk), id),
        old(u).wf(),
        old(u)@ == final(t)@,
        call_ensures(enforce_limit, (u, limit), swept),
    ensures
        res.0 == id,
        res.1.ids@ == swept.ids@,
        final(s)@ == final(u)@,
{
}

/// Whatever comes in, no more clips without a pin are left than the limit says, where it says so.
pub proof fn law_within_limit(
    s: &mut Store,
    ev: &ClipEvent,
    on_disk: &Option<Vec<u8>>,
    res: (Result<i64, StoreError>, Swept),
    before: &Store,
    limit: i64,
)
    requires
        old(s).wf(),
        call_ensures(take_in, (s, ev, on_disk), res),
        before.wf(),
        before@ == old(s)@,
        call_ensures(history_limit, (before,), limit),
        limit > 0,
    ensures
        final(s)@.clips.filter(|c: crate::rows::ClipView| !c.pinned).len() <= limit,
{
    old(s).lemma_valid();
    crate::commands::law_history_within_limit(
        old(s)@,
        ev@,
        crate::content::opt_bytes(*on_disk),
    );
    crate::seqs::lemma_filter_same(
        final(s)@.clips,
        crate::store::clips::with_pin(false),
        |c: crate::rows::ClipView| !c.pinned,
    );
}

/// A pause outlasts the program: it is remembered as `1`, and its end as something else.
pub proof fn law_pause(
    s: &mut Store,
    paused: bool,
    after: &Store,
    res: bool,
    key: &str,
    kept: Option<String>,
    store: &Store,
    asked: bool,
)
    requires
        old(s).wf(),
        call_ensures(remember_paused, (s, paused), ()),
        after.wf(),
        after@ == final(s)@,
        call_ensures(was_paused, (after,), res),
        key@ == "paused"@,
        store.wf(),
        call_ensures(Store::get_setting, (store, key), kept),
        call_ensures(was_paused, (store,), asked),
    ensures
        res == paused,
        asked <==> crate::rows::opt_view(kept) == Some("1"@),
        final(s)@.clips == old(s)@.clips,
        final(s)@.todos == old(s)@.todos,
        final(s)@.blob_dir == old(s)@.blob_dir,
        forall|k: Seq<char>|
            k != "paused"@ ==> #[trigger] final(s)@.settings.contains_key(k)
                == old(s)@.settings.contains_key(k),
        forall|k: Seq<char>|
            k != "paused"@ && old(s)@.settings.contains_key(k) ==> #[trigger] final(s)@.settings[k]
                == old(s)@.settings[k],
{
    crate::commands::law_pause_reads_back(old(s)@.settings, paused);
}

/// The page shows what is in force.
pub proof fn law_settings_page(
    store: &Store,
    paused: bool,
    page: SettingsPage,
    clips: String,
    todos: String,
    limit: i64,
    autostart: bool,
)
    requires
        store.wf(),
        call_ensures(settings_all, (store, paused), page),
        call_ensures(hotkey, (store, HotkeySlot::Clips), clips),
        call_ensures(hotkey, (store, HotkeySlot::Todos), todos),
        call_ensures(history_limit, (store,), limit),
        call_ensures(autostart_enabled, (), autostart),
    ensures
        page.hotkey@ == clips@,
        page.hotkey_todos@ == todos@,
        page.history_limit == limit,
        page.paused == paused,
        page.autostart == autostart,
        !autostart,
{
}

/// What the user is told where something cannot be done.
pub proof fn law_messages(
    p: PasteError,
    t: TodoError,
    paste: &'static str,
    todo: &'static str,
)
    requires
        call_ensures(PasteError::message, (p,), paste),
        call_ensures(TodoError::message, (t,), todo),
    ensures
        p == PasteError::NoRow ==> paste@ == "记录不存在"@,
        p == PasteError::NoText ==> paste@ == "文本条目无内容"@,
        p == PasteError::UnknownKind ==> paste@ == "未知条目类型"@,
        p == PasteError::NoTarget ==> paste@ == "无回贴目标窗口"@,
        t == TodoError::NoClip ==> todo@ == "记录不存在"@,
        t == TodoError::Unreadable ==> todo@ == "剪贴板为空或不可读"@,
        t == TodoError::Nothing ==> todo@ == "剪贴板无可保存内容"@,
        t == TodoError::Full ==> todo@ == "插入后读取失败"@,
{
}

} // verus!
