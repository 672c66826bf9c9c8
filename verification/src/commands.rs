//! What the page and the tray ask for, in terms of the store.

use crate::clock::{local_day_bounds, now_ts_ms};
use crate::content::image_blob;
use crate::decimal::{decimal_i64, parse_i64};
use crate::json::to_json;
use crate::paste::{paste_plan, PasteError, PastePlan};
use crate::rows::{copy_opt, ClipEvent, ClipRow, TodoInput, TodoRow};
use crate::store::deletion::Swept;
use crate::store::{Store, StoreError};
use crate::tags::tags_json;
use crate::text::{blank, chars_of, str_eq, string_of, trim_chars, CharClass};
use vstd::prelude::*;
use vstd::string::*;
use vstd::utf8::*;

verus! {

/// How many clips a search gives where no limit is asked for.
pub const SEARCH_LIMIT: i64 = 500;

/// Searches the history, with a limit of its own where none is given.
pub fn search(store: &Store, query: &str, limit: Option<i64>, ranked: &Vec<i64>) -> (res: Vec<
    ClipRow,
>)
    requires
        store.wf(),
    ensures
        crate::order::row_views(res@) == crate::store::clips::limited(
            crate::store::clips::found(store@.clips, query@, ranked@),
            match limit {
                Some(n) => n,
                None => SEARCH_LIMIT,
            },
        ),
{
    let n = match limit {
        Some(n) => n,
        None => SEARCH_LIMIT,
    };
    store.search(query, n, ranked)
}

/// Brings clip `id` to the time `now` and gives what pasting it puts on the clipboard. The clip
/// is brought up even where it cannot be pasted.
pub fn paste_back_at(store: &mut Store, id: i64, now: i64) -> (res: Result<PastePlan, PasteError>)
    requires
        old(store).wf(),
    ensures
        final(store).wf(),
        final(store)@ == (crate::store::StoreView {
            clips: crate::store::clips::retimed(old(store)@.clips, id, now),
            ..old(store)@
        }),
        match crate::store::clips::clip_at(old(store)@.clips, id) {
            Some(c) => match (
                res,
                crate::paste::plan_of(
                    c,
                    crate::json::json_strings(crate::paste::files_json_of(c)),
                ),
            ) {
                (Ok(p), Ok(v)) => p@ == v,
                (Err(e), Err(f)) => e == f,
                _ => false,
            },
            None => res == Err::<PastePlan, PasteError>(PasteError::NoRow),
        },
{
    match store.get(id) {
        Some(row) => {
            store.touch_at(id, now);
            paste_plan(&row)
        },
        None => {
            proof {
                crate::store::clips::lemma_retimed_nowhere(store@.clips, id, now);
            }
            Err(PasteError::NoRow)
        },
    }
}

/// Brings clip `id` to the current time and gives what pasting it puts on the clipboard.
pub fn paste_back(store: &mut Store, id: i64) -> (res: Result<PastePlan, PasteError>)
    requires
        old(store).wf(),
    ensures
        final(store).wf(),
        exists|now: i64|
            crate::clock::is_now(now) && final(store)@ == (crate::store::StoreView {
                clips: #[trigger] crate::store::clips::retimed(old(store)@.clips, id, now),
                ..old(store)@
            }),
        match crate::store::clips::clip_at(old(store)@.clips, id) {
            Some(c) => match (
                res,
                crate::paste::plan_of(
                    c,
                    crate::json::json_strings(crate::paste::files_json_of(c)),
                ),
            ) {
                (Ok(p), Ok(v)) => p@ == v,
                (Err(e), Err(f)) => e == f,
                _ => false,
            },
            None => res == Err::<PastePlan, PasteError>(PasteError::NoRow),
        },
{
    let now = now_ts_ms();
    paste_back_at(store, id, now)
}

/// Why a todo cannot be made.
#[derive(Debug, Clone, Copy, PartialEq, Eq, Structural)]
pub enum TodoError {
    /// The clip does not exist.
    NoClip,
    /// The clipboard cannot be read.
    Unreadable,
    /// The clipboard has nothing that could be kept.
    Nothing,
    /// The table has a row with the largest id there is.
    Full,
}

impl TodoError {
    /// What the user is told.
    pub open spec fn text(self) -> Seq<char> {
        match self {
            TodoError::NoClip => "记录不存在"@,
            TodoError::Unreadable => "剪贴板为空或不可读"@,
            TodoError::Nothing => "剪贴板无可保存内容"@,
            TodoError::Full => "插入后读取失败"@,
        }
    }

    /// What the user is told.
    pub fn message(self) -> (res: &'static str)
        ensures
            res@ == self.text(),
    {
        match self {
            TodoError::NoClip => "记录不存在",
            TodoError::Unreadable => "剪贴板为空或不可读",
            TodoError::Nothing => "剪贴板无可保存内容",
            TodoError::Full => "插入后读取失败",
        }
    }
}

/// What adding a todo at the time `now` does: the todos afterwards and the new one.
pub open spec fn added(
    todos: Seq<crate::rows::TodoView>,
    input: crate::rows::TodoInputView,
    now: i64,
) -> Result<(Seq<crate::rows::TodoView>, crate::rows::TodoView), TodoError> {
    match crate::store::todos::next_todo_id(todos) {
        Some(id) => {
            let t = crate::store::todos::new_todo(input, now, id);
            Ok((todos.push(t), t))
        },
        None => Err(TodoError::Full),
    }
}

/// Whether a command that adds a todo did what `expected` says.
pub open spec fn did_add(
    before: crate::store::StoreView,
    after: crate::store::StoreView,
    res: Result<TodoRow, TodoError>,
    expected: Result<(Seq<crate::rows::TodoView>, crate::rows::TodoView), TodoError>,
) -> bool {
    match expected {
        Ok((todos, t)) => res is Ok && res->Ok_0@ == t && after == (crate::store::StoreView {
            todos,
            ..before
        }),
        Err(e) => res == Err::<TodoRow, TodoError>(e) && after == before,
    }
}

/// Adds a todo at the time `now` and gives its row.
pub fn todos_add_at(store: &mut Store, input: &TodoInput, now: i64) -> (res: Result<
    TodoRow,
    TodoError,
>)
    requires
        old(store).wf(),
    ensures
        final(store).wf(),
        did_add(old(store)@, final(store)@, res, added(old(store)@.todos, input@, now)),
{
    let ghost v = store@;
    match store.todos_add_at(input, now) {
        Ok(id) => {
            proof {
                store.lemma_valid();
                let after = store@.todos;
                let k = after.len() - 1;
                assert(after[k].id == id);
                crate::store::todos::lemma_todo_index(after, k);
            }
            match store.todos_get(id) {
                Some(row) => Ok(row),
                None => Err(TodoError::Full),
            }
        },
        Err(_) => Err(TodoError::Full),
    }
}

/// Adds a todo and gives its row.
pub fn todos_add(store: &mut Store, input: &TodoInput) -> (res: Result<TodoRow, TodoError>)
    requires
        old(store).wf(),
    ensures
        final(store).wf(),
        exists|now: i64|
            crate::clock::is_now(now) && did_add(
                old(store)@,
                final(store)@,
                res,
                #[trigger] added(old(store)@.todos, input@, now),
            ),
{
    let now = now_ts_ms();
    todos_add_at(store, input, now)
}

pub open spec fn or_default(s: Option<Seq<char>>, default: Seq<char>) -> Seq<char> {
    match s {
        Some(s) => s,
        None => default,
    }
}

/// Whether an optional flag is set.
pub open spec fn is_asked(flag: Option<bool>) -> bool {
    flag == Some(true)
}

fn or_else(s: &Option<String>, default: &str) -> (res: String)
    ensures
        res@ == or_default(crate::rows::opt_view(*s), default@),
{
    match s {
        Some(s) => s.clone(),
        None => default.to_owned(),
    }
}

/// The todos that a list shows on a given day; the open ones, whatever their tags, where nothing
/// else is asked for.
pub fn todos_list_for_day(
    store: &Store,
    filter: &Option<String>,
    tag: &Option<String>,
    include_done: Option<bool>,
    day: (i64, i64),
) -> (res: Vec<TodoRow>)
    requires
        store.wf(),
    ensures
        crate::order::row_views(res@) == crate::store::todos::listed_todos(
            store@.todos,
            or_default(crate::rows::opt_view(*filter), "open"@),
            or_default(crate::rows::opt_view(*tag), ""@),
            is_asked(include_done),
            day,
        ),
        crate::store::todos::finds_whole_tags(
            crate::order::row_views(res@),
            store@.todos,
            or_default(crate::rows::opt_view(*filter), "open"@),
            or_default(crate::rows::opt_view(*tag), ""@),
            is_asked(include_done),
            day,
        ),
{
    let filter = or_else(filter, "open");
    let tag = or_else(tag, "");
    let include_done = match include_done {
        Some(b) => b,
        None => false,
    };
    store.todos_list_for_day(filter.as_str(), tag.as_str(), include_done, day)
}

/// The todos that a list shows. The day that counts is the current local day.
pub fn todos_list(
    store: &Store,
    filter: &Option<String>,
    tag: &Option<String>,
    include_done: Option<bool>,
) -> (res: Vec<TodoRow>)
    requires
        store.wf(),
    ensures
        exists|day: (i64, i64)|
            crate::clock::is_local_day(day) && crate::order::row_views(res@)
                == #[trigger] crate::store::todos::listed_todos(
                store@.todos,
                or_default(crate::rows::opt_view(*filter), "open"@),
                or_default(crate::rows::opt_view(*tag), ""@),
                is_asked(include_done),
                day,
            ) && crate::store::todos::finds_whole_tags(
                crate::order::row_views(res@),
                store@.todos,
                or_default(crate::rows::opt_view(*filter), "open"@),
                or_default(crate::rows::opt_view(*tag), ""@),
                is_asked(include_done),
                day,
            ),
{
    let day = local_day_bounds();
    todos_list_for_day(store, filter, tag, include_done, day)
}

/// The title that is kept of an edited one: without the whitespace around it, and a word for
/// "todo" where nothing is left.
pub open spec fn kept_title(title: Seq<char>) -> Seq<char> {
    let t = crate::text::trimmed(title, CharClass::White);
    if t.len() == 0 {
        "待办"@
    } else {
        t
    }
}

/// Saves what was edited of a todo: its title, its content, and its text where one is given.
pub fn todos_update_full(
    store: &mut Store,
    id: i64,
    title: &str,
    content_html: &Option<String>,
    text: &Option<String>,
)
    requires
        old(store).wf(),
    ensures
        final(store).wf(),
        final(store)@ == (crate::store::StoreView {
            todos: crate::store::todos::amended(
                old(store)@.todos,
                id,
                crate::store::todos::rewritten(
                    kept_title(title@),
                    crate::rows::opt_view(*content_html),
                    crate::rows::opt_view(*text),
                ),
            ),
            ..old(store)@
        }),
{
    let t = trim_chars(&chars_of(title), CharClass::White);
    let kept = if t.len() == 0 {
        "待办".to_owned()
    } else {
        string_of(&t)
    };
    store.todos_update_full(id, kept.as_str(), content_html, text);
}

/// Sets the tags of a todo from a text that separates them with commas.
pub fn todos_set_tags(store: &mut Store, id: i64, tags: &str)
    requires
        old(store).wf(),
    ensures
        final(store).wf(),
        final(store)@ == (crate::store::StoreView {
            todos: crate::store::todos::amended(
                old(store)@.todos,
                id,
                crate::store::todos::tagged(
                    crate::json::json_array(crate::tags::entered_tags(tags@)),
                ),
            ),
            ..old(store)@
        }),
{
    let json = tags_json(tags);
    store.todos_set_tags(id, json.as_str());
}

/// The todo that is made of a clip. It refers to the clip's image; its content is what the file
/// of the clip's document holds, where there is one that can be read.
pub open spec fn todo_of_clip(
    c: crate::rows::ClipView,
    html_on_disk: Option<Seq<char>>,
) -> crate::rows::TodoInputView {
    crate::rows::TodoInputView {
        kind: c.kind,
        title: None,
        content: if c.html_path is Some {
            html_on_disk
        } else {
            None
        },
        text: c.text,
        image_path: c.image_path,
        files_json: c.files_json,
        size: c.size,
        priority: None,
        due_at: None,
        tags: None,
    }
}

/// What making a todo of clip `id` does.
pub open spec fn todo_from_clip(
    v: crate::store::StoreView,
    id: i64,
    html_on_disk: Option<Seq<char>>,
    now: i64,
) -> Result<(Seq<crate::rows::TodoView>, crate::rows::TodoView), TodoError> {
    match crate::store::clips::clip_at(v.clips, id) {
        Some(c) => added(v.todos, todo_of_clip(c, html_on_disk), now),
        None => Err(TodoError::NoClip),
    }
}

/// Makes a todo of clip `id` at the time `now` and gives its row. `html_on_disk` is what the file
/// of the clip's document holds, where it can be read.
pub fn clip_to_todo_at(store: &mut Store, id: i64, html_on_disk: &Option<String>, now: i64) -> (res:
    Result<TodoRow, TodoError>)
    requires
        old(store).wf(),
    ensures
        final(store).wf(),
        did_add(
            old(store)@,
            final(store)@,
            res,
            todo_from_clip(old(store)@, id, crate::rows::opt_view(*html_on_disk), now),
        ),
{
    match store.get(id) {
        Some(row) => {
            let content = match &row.html_path {
                Some(_) => copy_opt(html_on_disk),
                None => None,
            };
            let input = TodoInput {
                kind: row.kind,
                title: None,
                content,
                text: row.text,
                image_path: row.image_path,
                files_json: row.files_json,
                size: row.size,
                priority: None,
                due_at: None,
                tags: None,
            };
            todos_add_at(store, &input, now)
        },
        None => Err(TodoError::NoClip),
    }
}

/// Makes a todo of clip `id` and gives its row.
pub fn clip_to_todo(store: &mut Store, id: i64, html_on_disk: &Option<String>) -> (res: Result<
    TodoRow,
    TodoError,
>)
    requires
        old(store).wf(),
    ensures
        final(store).wf(),
        exists|now: i64|
            crate::clock::is_now(now) && did_add(
                old(store)@,
                final(store)@,
                res,
                #[trigger] todo_from_clip(
                    old(store)@,
                    id,
                    crate::rows::opt_view(*html_on_disk),
                    now,
                ),
            ),
{
    let now = now_ts_ms();
    clip_to_todo_at(store, id, html_on_disk, now)
}

/// A new todo of the given kind with nothing in it.
pub open spec fn bare_input(kind: Seq<char>, size: i64) -> crate::rows::TodoInputView {
    crate::rows::TodoInputView {
        kind,
        title: None,
        content: None,
        text: None,
        image_path: None,
        files_json: None,
        size,
        priority: None,
        due_at: None,
        tags: None,
    }
}

/// The todo that is made of what is on the clipboard: of its text, unless that is blank, else of
/// its bitmap, else of its files.
pub open spec fn todo_of_event(dir: Seq<char>, ev: crate::rows::EventView) -> Option<
    crate::rows::TodoInputView,
> {
    if ev.text is Some && !crate::text::is_blank(ev.text->0) {
        Some(
            crate::rows::TodoInputView {
                text: ev.text,
                ..bare_input("text"@, encode_utf8(ev.text->0).len() as i64)
            },
        )
    } else if let Some(d) = ev.dib {
        Some(
            crate::rows::TodoInputView {
                image_path: Some(dir + crate::content::blob_name(d, ".dib"@)),
                ..bare_input("image"@, d.len() as i64)
            },
        )
    } else if let Some(f) = ev.files {
        Some(
            crate::rows::TodoInputView {
                files_json: Some(crate::json::json_array(f)),
                ..bare_input("files"@, f.len() as i64)
            },
        )
    } else {
        None
    }
}

fn bare(kind: &str, size: i64) -> (res: TodoInput)
    ensures
        res@ == bare_input(kind@, size),
{
    TodoInput {
        kind: kind.to_owned(),
        title: None,
        content: None,
        text: None,
        image_path: None,
        files_json: None,
        size,
        priority: None,
        due_at: None,
        tags: None,
    }
}

/// The todo that is made of what is on the clipboard.
pub fn todo_input_of(dir: &str, ev: &ClipEvent) -> (res: Option<TodoInput>)
    ensures
        match res {
            Some(input) => todo_of_event(dir@, ev@) == Some(input@),
            None => todo_of_event(dir@, ev@) is None,
        },
{
    if let Some(t) = &ev.text {
        if !blank(t.as_str()) {
            let mut input = bare("text", t.as_str().as_bytes().len() as i64);
            input.text = Some(t.clone());
            return Some(input);
        }
    }
    if let Some(d) = &ev.dib {
        let mut input = bare("image", d.len() as i64);
        input.image_path = Some(image_blob(dir, d).dib_path);
        return Some(input);
    }
    if let Some(f) = &ev.files {
        let mut input = bare("files", f.len() as i64);
        input.files_json = Some(to_json(f));
        return Some(input);
    }
    None
}

/// What making a todo of the clipboard does; `ev` is missing where the clipboard cannot be read.
pub open spec fn todo_from_event(
    v: crate::store::StoreView,
    ev: Option<crate::rows::EventView>,
    now: i64,
) -> Result<(Seq<crate::rows::TodoView>, crate::rows::TodoView), TodoError> {
    match ev {
        Some(ev) => match todo_of_event(v.blob_dir, ev) {
            Some(input) => added(v.todos, input, now),
            None => Err(TodoError::Nothing),
        },
        None => Err(TodoError::Unreadable),
    }
}

pub open spec fn opt_event(ev: Option<ClipEvent>) -> Option<crate::rows::EventView> {
    match ev {
        Some(ev) => Some(ev@),
        None => None,
    }
}

/// Makes a todo of what is on the clipboard at the time `now` and gives its row.
pub fn todo_paste_at(store: &mut Store, ev: &Option<ClipEvent>, now: i64) -> (res: Result<
    TodoRow,
    TodoError,
>)
    requires
        old(store).wf(),
    ensures
        final(store).wf(),
        did_add(
            old(store)@,
            final(store)@,
            res,
            todo_from_event(old(store)@, opt_event(*ev), now),
        ),
{
    match ev {
        Some(ev) => match todo_input_of(store.blob_dir(), ev) {
            Some(input) => todos_add_at(store, &input, now),
            None => Err(TodoError::Nothing),
        },
        None => Err(TodoError::Unreadable),
    }
}

/// Makes a todo of what is on the clipboard and gives its row.
pub fn todo_paste_from_clipboard(store: &mut Store, ev: &Option<ClipEvent>) -> (res: Result<
    TodoRow,
    TodoError,
>)
    requires
        old(store).wf(),
    ensures
        final(store).wf(),
        exists|now: i64|
            crate::clock::is_now(now) && did_add(
                old(store)@,
                final(store)@,
                res,
                #[trigger] todo_from_event(old(store)@, opt_event(*ev), now),
            ),
{
    let now = now_ts_ms();
    todo_paste_at(store, ev, now)
}

/// The two hotkeys: one for each side of the main window.
#[derive(Debug, Clone, Copy, PartialEq, Eq, Structural)]
pub enum HotkeySlot {
    Clips,
    Todos,
}

impl HotkeySlot {
    /// The setting that holds the hotkey.
    pub open spec fn key(self) -> Seq<char> {
        match self {
            HotkeySlot::Clips => "hotkey"@,
            HotkeySlot::Todos => "hotkey_todos"@,
        }
    }

    /// The hotkey where none has been set.
    pub open spec fn default_keys(self) -> Seq<char> {
        match self {
            HotkeySlot::Clips => "ctrl+alt+q"@,
            HotkeySlot::Todos => "ctrl+alt+w"@,
        }
    }

    /// The default of earlier versions.
    pub open spec fn former_keys(self) -> Seq<char> {
        match self {
            HotkeySlot::Clips => "alt+v"@,
            HotkeySlot::Todos => "alt+t"@,
        }
    }

    /// The setting that holds the hotkey.
    pub fn setting(self) -> (res: &'static str)
        ensures
            res@ == self.key(),
    {
        match self {
            HotkeySlot::Clips => "hotkey",
            HotkeySlot::Todos => "hotkey_todos",
        }
    }

    /// The hotkey where none has been set.
    pub fn default_accelerator(self) -> (res: &'static str)
        ensures
            res@ == self.default_keys(),
    {
        match self {
            HotkeySlot::Clips => "ctrl+alt+q",
            HotkeySlot::Todos => "ctrl+alt+w",
        }
    }

    fn former_accelerator(self) -> (res: &'static str)
        ensures
            res@ == self.former_keys(),
    {
        match self {
            HotkeySlot::Clips => "alt+v",
            HotkeySlot::Todos => "alt+t",
        }
    }
}

/// The value of a setting, or a default where it has not been set.
pub open spec fn setting_or(
    settings: Map<Seq<char>, Seq<char>>,
    key: Seq<char>,
    default: Seq<char>,
) -> Seq<char> {
    if settings.contains_key(key) {
        settings[key]
    } else {
        default
    }
}

/// The hotkey in force.
pub open spec fn hotkey_in(settings: Map<Seq<char>, Seq<char>>, slot: HotkeySlot) -> Seq<char> {
    setting_or(settings, slot.key(), slot.default_keys())
}

/// The hotkey in force.
pub fn hotkey(store: &Store, slot: HotkeySlot) -> (res: String)
    requires
        store.wf(),
    ensures
        res@ == hotkey_in(store@.settings, slot),
{
    match store.get_setting(slot.setting()) {
        Some(v) => v,
        None => slot.default_accelerator().to_owned(),
    }
}

/// The settings after a hotkey that still is the default of earlier versions has moved to the
/// present default.
pub open spec fn hotkey_moved(
    settings: Map<Seq<char>, Seq<char>>,
    slot: HotkeySlot,
) -> Map<Seq<char>, Seq<char>> {
    if settings.contains_key(slot.key()) && settings[slot.key()] == slot.former_keys() {
        settings.insert(slot.key(), slot.default_keys())
    } else {
        settings
    }
}

fn move_hotkey(store: &mut Store, slot: HotkeySlot)
    requires
        old(store).wf(),
    ensures
        final(store).wf(),
        final(store)@ == (crate::store::StoreView {
            settings: hotkey_moved(old(store)@.settings, slot),
            ..old(store)@
        }),
{
    if let Some(v) = store.get_setting(slot.setting()) {
        if str_eq(v.as_str(), slot.former_accelerator()) {
            store.set_setting(slot.setting(), slot.default_accelerator());
        }
    }
}

/// Moves hotkeys that still are the defaults of earlier versions to the present defaults.
pub fn migrate_hotkeys(store: &mut Store)
    requires
        old(store).wf(),
    ensures
        final(store).wf(),
        final(store)@ == (crate::store::StoreView {
            settings: hotkey_moved(
                hotkey_moved(old(store)@.settings, HotkeySlot::Clips),
                HotkeySlot::Todos,
            ),
            ..old(store)@
        }),
{
    move_hotkey(store, HotkeySlot::Clips);
    move_hotkey(store, HotkeySlot::Todos);
}

/// Sets a hotkey and gives the one that was in force, for the case that the new one cannot be
/// registered.
pub fn set_hotkey(store: &mut Store, slot: HotkeySlot, accelerator: &str) -> (res: String)
    requires
        old(store).wf(),
    ensures
        final(store).wf(),
        final(store)@ == (crate::store::StoreView {
            settings: old(store)@.settings.insert(slot.key(), accelerator@),
            ..old(store)@
        }),
        res@ == hotkey_in(old(store)@.settings, slot),
{
    let previous = hotkey(store, slot);
    store.set_setting(slot.setting(), accelerator);
    previous
}

/// Goes back to the hotkey that was in force before the last change.
pub fn roll_back_hotkey(store: &mut Store, slot: HotkeySlot, previous: &str)
    requires
        old(store).wf(),
    ensures
        final(store).wf(),
        final(store)@ == (crate::store::StoreView {
            settings: old(store)@.settings.insert(slot.key(), previous@),
            ..old(store)@
        }),
{
    store.set_setting(slot.setting(), previous);
}

/// The two slots have settings of their own, and defaults that differ from the former ones.
pub proof fn lemma_slots_differ()
    ensures
        HotkeySlot::Clips.key() != HotkeySlot::Todos.key(),
        forall|slot: HotkeySlot| slot.former_keys() != #[trigger] slot.default_keys(),
{
    reveal_strlit("hotkey");
    reveal_strlit("hotkey_todos");
    reveal_strlit("ctrl+alt+q");
    reveal_strlit("ctrl+alt+w");
    reveal_strlit("alt+v");
    reveal_strlit("alt+t");
    assert("hotkey"@.len() != "hotkey_todos"@.len());
    assert("alt+v"@.len() != "ctrl+alt+q"@.len());
    assert("alt+t"@.len() != "ctrl+alt+w"@.len());
}

/// A hotkey that could not be registered leaves the ones in force as they were.
pub proof fn law_failed_hotkey_changes_nothing(
    settings: Map<Seq<char>, Seq<char>>,
    slot: HotkeySlot,
    accelerator: Seq<char>,
    asked: HotkeySlot,
)
    ensures
        hotkey_in(
            settings.insert(slot.key(), accelerator).insert(
                slot.key(),
                hotkey_in(settings, slot),
            ),
            asked,
        ) == hotkey_in(settings, asked),
{
    lemma_slots_differ();
}

/// Moving hotkeys leaves no default of earlier versions in force, keeps what the user chose, and
/// once is enough.
pub proof fn law_hotkeys_moved(settings: Map<Seq<char>, Seq<char>>, slot: HotkeySlot)
    ensures
        ({
            let after = hotkey_moved(
                hotkey_moved(settings, HotkeySlot::Clips),
                HotkeySlot::Todos,
            );
            &&& hotkey_in(after, slot) != slot.former_keys()
            &&& hotkey_in(settings, slot) != slot.former_keys() ==> hotkey_in(after, slot)
                == hotkey_in(settings, slot)
            &&& hotkey_in(settings, slot) == slot.former_keys() ==> hotkey_in(after, slot)
                == slot.default_keys()
            &&& hotkey_moved(hotkey_moved(after, HotkeySlot::Clips), HotkeySlot::Todos) == after
        }),
{
    lemma_slots_differ();
    assert(HotkeySlot::Clips.former_keys() != HotkeySlot::Clips.default_keys());
    assert(HotkeySlot::Todos.former_keys() != HotkeySlot::Todos.default_keys());
}

/// How many clips that are not pinned the history keeps where nothing is set.
pub const HISTORY_LIMIT: i64 = 10000;

/// How many clips that are not pinned the history keeps. A setting that is not a number counts as
/// none.
pub open spec fn history_limit_in(settings: Map<Seq<char>, Seq<char>>) -> i64 {
    if settings.contains_key("history_limit"@) {
        match crate::decimal::parsed_int(
            settings["history_limit"@],
            i64::MIN as int,
            i64::MAX as int,
        ) {
            Some(n) => n as i64,
            None => HISTORY_LIMIT,
        }
    } else {
        HISTORY_LIMIT
    }
}

/// How many clips that are not pinned the history keeps; none go where it is 0 or less.
pub fn history_limit(store: &Store) -> (res: i64)
    requires
        store.wf(),
    ensures
        res == history_limit_in(store@.settings),
{
    match store.get_setting("history_limit") {
        Some(v) => match parse_i64(&chars_of(v.as_str())) {
            Some(n) => n,
            None => HISTORY_LIMIT,
        },
        None => HISTORY_LIMIT,
    }
}

/// The clips that a limit takes out of the history: none where it is 0 or less.
pub open spec fn over_limit(clips: Seq<crate::rows::ClipView>, limit: i64) -> Seq<
    crate::rows::ClipView,
> {
    if limit > 0 {
        crate::store::deletion::trim_victims(clips, limit)
    } else {
        seq![]
    }
}

/// Takes what is over a limit out of the history and gives the files that become garbage with
/// it. No row that is left has the path of such a file.
pub fn enforce_limit(store: &mut Store, limit: i64) -> (res: Swept)
    requires
        old(store).wf(),
    ensures
        final(store).wf(),
        final(store)@ == (crate::store::StoreView {
            clips: crate::store::deletion::kept(
                old(store)@.clips,
                over_limit(old(store)@.clips, limit),
            ),
            ..old(store)@
        }),
        crate::store::deletion::is_sweep(
            res,
            old(store)@.clips,
            old(store)@.todos,
            over_limit(old(store)@.clips, limit),
        ),
        crate::store::deletion::all_unreferenced(final(store)@, res.files@),
{
    if limit > 0 {
        store.trim(limit)
    } else {
        let res = Swept { ids: Vec::new(), files: Vec::new() };
        proof {
            let none = over_limit(store@.clips, limit);
            crate::seqs::lemma_filter_all(
                store@.clips,
                crate::store::deletion::not_among(none),
            );
            assert(crate::store::deletion::are_all_given_stems(none, seq![]));
            assert(crate::text::views(res.files@) =~= seq![]);
            assert(res.ids@ =~= crate::store::deletion::clip_ids(none));
        }
        res
    }
}

/// Sets how many clips that are not pinned the history keeps, and takes out what is over it.
pub fn set_history_limit(store: &mut Store, limit: i64) -> (res: Swept)
    requires
        old(store).wf(),
    ensures
        final(store).wf(),
        final(store)@ == (crate::store::StoreView {
            clips: crate::store::deletion::kept(
                old(store)@.clips,
                over_limit(old(store)@.clips, limit),
            ),
            settings: old(store)@.settings.insert(
                "history_limit"@,
                crate::decimal::decimal_int(limit as int),
            ),
            ..old(store)@
        }),
        crate::store::deletion::is_sweep(
            res,
            old(store)@.clips,
            old(store)@.todos,
            over_limit(old(store)@.clips, limit),
        ),
        crate::store::deletion::all_unreferenced(final(store)@, res.files@),
{
    let text = string_of(&decimal_i64(limit));
    store.set_setting("history_limit", text.as_str());
    enforce_limit(store, limit)
}

/// The limit that was set is the limit in force.
pub proof fn law_limit_reads_back(settings: Map<Seq<char>, Seq<char>>, limit: i64)
    ensures
        history_limit_in(
            settings.insert("history_limit"@, crate::decimal::decimal_int(limit as int)),
        ) == limit,
{
    crate::decimal::law_decimal_round_trip(limit as int, i64::MIN as int, i64::MAX as int);
}

/// The clips after an event, before the limit counts, and what the event's insertion gave.
pub open spec fn after_event(
    v: crate::store::StoreView,
    ev: crate::rows::EventView,
    html_on_disk: Option<Seq<u8>>,
) -> (Seq<crate::rows::ClipView>, Result<i64, StoreError>) {
    match crate::store::clips::inserted(v, ev, html_on_disk) {
        Ok((clips, id)) => (clips, Ok(id)),
        Err(e) => (v.clips, Err(e)),
    }
}

/// Whether what is over the limit went once an event was in.
pub open spec fn taken_in(
    before: crate::store::StoreView,
    after: crate::store::StoreView,
    event: (Seq<crate::rows::ClipView>, Result<i64, StoreError>),
    id: Result<i64, StoreError>,
    swept: Swept,
) -> bool {
    let victims = over_limit(event.0, history_limit_in(before.settings));
    &&& id == event.1
    &&& after == (crate::store::StoreView {
        clips: crate::store::deletion::kept(event.0, victims),
        ..before
    })
    &&& crate::store::deletion::is_sweep(swept, event.0, before.todos, victims)
}

/// Whatever comes in, the history keeps no more clips that are not pinned than its limit, where it
/// has one.
pub proof fn law_history_within_limit(
    v: crate::store::StoreView,
    ev: crate::rows::EventView,
    html_on_disk: Option<Seq<u8>>,
)
    requires
        v.valid(),
        history_limit_in(v.settings) > 0,
    ensures
        ({
            let clips = after_event(v, ev, html_on_disk).0;
            let limit = history_limit_in(v.settings);
            crate::store::deletion::kept(clips, over_limit(clips, limit)).filter(
                crate::store::clips::with_pin(false),
            ).len() <= limit
        }),
{
    crate::store::laws::law_insert_keeps_order(v, ev, html_on_disk);
    crate::store::laws::law_trim_keeps_latest(
        after_event(v, ev, html_on_disk).0,
        history_limit_in(v.settings),
    );
}

/// Takes an event into the history, then takes out what is over the limit. Gives the id of the
/// event's clip and what was taken out. `html_on_disk` is what the blob file of the event's
/// document holds, where it can be read.
pub fn take_in(store: &mut Store, ev: &ClipEvent, html_on_disk: &Option<Vec<u8>>) -> (res: (
    Result<i64, StoreError>,
    Swept,
))
    requires
        old(store).wf(),
    ensures
        final(store).wf(),
        taken_in(
            old(store)@,
            final(store)@,
            after_event(old(store)@, ev@, crate::content::opt_bytes(*html_on_disk)),
            res.0,
            res.1,
        ),
        crate::store::deletion::all_unreferenced(final(store)@, res.1.files@),
{
    let id = store.insert(ev, html_on_disk);
    let limit = history_limit(store);
    let swept = enforce_limit(store, limit);
    (id, swept)
}

/// The settings that the page shows.
#[derive(Debug)]
pub struct SettingsPage {
    pub hotkey: String,
    pub hotkey_todos: String,
    pub history_limit: i64,
    pub paused: bool,
    pub autostart: bool,
}

/// Whether the program starts with the system, as the settings show it. The page manages that by
/// itself, so it is shown as off.
pub fn autostart_enabled() -> (res: bool)
    ensures
        !res,
{
    false
}

/// The settings that the page shows.
pub fn settings_all(store: &Store, paused: bool) -> (res: SettingsPage)
    requires
        store.wf(),
    ensures
        res.hotkey@ == hotkey_in(store@.settings, HotkeySlot::Clips),
        res.hotkey_todos@ == hotkey_in(store@.settings, HotkeySlot::Todos),
        res.history_limit == history_limit_in(store@.settings),
        res.paused == paused,
        !res.autostart,
{
    SettingsPage {
        hotkey: hotkey(store, HotkeySlot::Clips),
        hotkey_todos: hotkey(store, HotkeySlot::Todos),
        history_limit: history_limit(store),
        paused,
        autostart: autostart_enabled(),
    }
}

/// Whether watching was paused when the program last ran.
pub open spec fn paused_in(settings: Map<Seq<char>, Seq<char>>) -> bool {
    settings.contains_key("paused"@) && settings["paused"@] == "1"@
}

/// Whether watching was paused when the program last ran.
pub fn was_paused(store: &Store) -> (res: bool)
    requires
        store.wf(),
    ensures
        res == paused_in(store@.settings),
{
    match store.get_setting("paused") {
        Some(v) => str_eq(v.as_str(), "1"),
        None => false,
    }
}

pub open spec fn paused_text(paused: bool) -> Seq<char> {
    if paused {
        "1"@
    } else {
        "0"@
    }
}

/// Remembers whether watching is paused.
pub fn remember_paused(store: &mut Store, paused: bool)
    requires
        old(store).wf(),
    ensures
        final(store).wf(),
        final(store)@ == (crate::store::StoreView {
            settings: old(store)@.settings.insert("paused"@, paused_text(paused)),
            ..old(store)@
        }),
{
    store.set_setting(
        "paused",
        if paused {
            "1"
        } else {
            "0"
        },
    );
}

/// A pause outlasts the program.
pub proof fn law_pause_reads_back(settings: Map<Seq<char>, Seq<char>>, paused: bool)
    ensures
        paused_in(settings.insert("paused"@, paused_text(paused))) == paused,
{
    reveal_strlit("1");
    reveal_strlit("0");
    assert("1"@[0] != "0"@[0]);
}

} // verus!
