//! Laws of the todo list: what a new todo is made of, and what the operations on single todos
//! change.

use crate::commands::{
    clip_to_todo, clip_to_todo_at, todo_paste_at, todo_paste_from_clipboard, todos_add,
    todos_add_at, todos_set_tags, todos_update_full, TodoError,
};
use crate::rows::{ClipEvent, TodoInput, TodoRow};
use crate::store::todos::{auto_title, TodoStats};
use crate::store::{Store, StoreError};
use crate::tags::{parse_tags, tags_json, TagCount};
use vstd::prelude::*;
use vstd::utf8::*;

verus! {

/// A text that is not blank gives its title: its words with one space between, as many of their
/// characters as fit fifty. Otherwise the kind gives it.
pub proof fn law_title(text: &Option<String>, kind: &str, res: String)
    requires
        call_ensures(auto_title, (text, kind), res),
    ensures
        (text matches Some(t) && crate::laws::history::has_ink(t@)) ==> {
            let line = crate::text::joined(crate::text::words(text->0@), seq![' ']);
            &&& 0 < res@.len() <= 50
            &&& res@.is_prefix_of(line)
            &&& res@.len() < 50 ==> res@ == line
        },
        !(text matches Some(t) && crate::laws::history::has_ink(t@)) ==> {
            &&& kind@ == "image"@ ==> res@ == "图片待办"@
            &&& kind@ == "files"@ ==> res@ == "文件待办"@
            &&& kind@ != "image"@ && kind@ != "files"@ ==> res@ == "待办"@
        },
{
    if let Some(t) = text {
        lemma_line(t@);
        let line = crate::text::joined(crate::text::words(t@), seq![' ']);
        if line.len() > 0 {
            assert(line.take(res@.len() as int) =~= res@);
        }
    }
    crate::laws::pasting::lemma_kinds_differ();
}

proof fn lemma_line(t: Seq<char>)
    ensures
        crate::text::joined(crate::text::words(t), seq![' ']).len() > 0
            <==> crate::laws::history::has_ink(t),
    decreases t.len(),
{
    let w = crate::text::words(t);
    lemma_some_word(t);
    if w.len() > 0 {
        lemma_joined_len(w, seq![' ']);
    }
}

proof fn lemma_some_word(t: Seq<char>)
    ensures
        crate::text::words(t).len() > 0 <==> crate::laws::history::has_ink(t),
        crate::text::words(t).len() > 0 ==> crate::text::words(t)[0].len() > 0,
    decreases t.len(),
{
    if t.len() > 0 {
        if crate::text::is_white(t[0]) {
            let r = t.drop_first();
            lemma_some_word(r);
            if crate::laws::history::has_ink(r) {
                let i = choose|i: int| 0 <= i < r.len() && !crate::text::is_white(#[trigger] r[i]);
                assert(!crate::text::is_white(t[i + 1]));
            }
            if crate::laws::history::has_ink(t) {
                let i = choose|i: int| 0 <= i < t.len() && !crate::text::is_white(#[trigger] t[i]);
                assert(!crate::text::is_white(r[i - 1]));
            }
        } else {
            crate::text::lemma_word_len_bound(t);
            assert(crate::laws::history::has_ink(t));
        }
    }
}

proof fn lemma_joined_len(parts: Seq<Seq<char>>, sep: Seq<char>)
    requires
        parts.len() > 0,
        parts[0].len() > 0,
    ensures
        crate::text::joined(parts, sep).len() > 0,
    decreases parts.len(),
{
    if parts.len() > 1 {
        lemma_joined_len(parts.drop_last(), sep);
    }
}

/// Whether a todo can still be added: the largest id is not in use.
pub open spec fn has_room(todos: Seq<crate::rows::TodoView>) -> bool {
    todos.len() == 0 || todos.last().id < i64::MAX
}

/// Whether `b` is `a` with one row more in the list of todos, behind the others and with the id
/// behind the largest one; the first is 1.
pub open spec fn one_todo_more(a: crate::store::StoreView, b: crate::store::StoreView) -> bool {
    &&& b.todos.len() == a.todos.len() + 1
    &&& b.todos.drop_last() == a.todos
    &&& forall|i: int|
        0 <= i < a.todos.len() ==> (#[trigger] a.todos[i]).id < b.todos.last().id
    &&& b.todos.last().id == if a.todos.len() == 0 {
        1
    } else {
        a.todos.last().id + 1
    }
    &&& b.clips == a.clips
    &&& b.settings == a.settings
    &&& b.blob_dir == a.blob_dir
}

proof fn lemma_one_more(
    a: crate::store::StoreView,
    b: crate::store::StoreView,
    t: crate::rows::TodoView,
)
    requires
        a.valid(),
        has_room(a.todos),
        b == (crate::store::StoreView { todos: a.todos.push(t), ..a }),
        crate::store::todos::next_todo_id(a.todos) == Some(t.id),
    ensures
        one_todo_more(a, b),
{
    assert(b.todos.drop_last() =~= a.todos);
    assert forall|i: int| 0 <= i < a.todos.len() implies (#[trigger] a.todos[i]).id
        < b.todos.last().id by {
        let k = a.todos.len() - 1;
        if i < k {
            assert(a.todos[i].id < a.todos[k].id);
        }
    }
}

/// What a new todo starts with: open, not pinned, and without a time of completion.
pub open spec fn is_fresh(t: crate::rows::TodoView, now: i64) -> bool {
    !t.done && !t.pinned && t.done_at is None && t.ts == now
}

/// A todo that is added has what it was given, field by field; without a priority it has the
/// priority zero, and without tags the empty list. Without a title it has that of its text and
/// kind.
pub proof fn law_todo_added(
    s: &mut Store,
    input: &TodoInput,
    now: i64,
    res: Result<i64, StoreError>,
    kind: &str,
    title: String,
)
    requires
        old(s).wf(),
        call_ensures(Store::todos_add_at, (s, input, now), res),
        has_room(old(s)@.todos),
        kind@ == input.kind@,
        call_ensures(auto_title, (&input.text, kind), title),
    ensures
        one_todo_more(old(s)@, final(s)@),
        ({
            let t = final(s)@.todos.last();
            &&& is_fresh(t, now)
            &&& res == Ok::<i64, StoreError>(t.id)
            &&& t.kind == input.kind@
            &&& t.title == Some(
                match input.title {
                    Some(given) => given@,
                    None => title@,
                },
            )
            &&& t.content == crate::rows::opt_view(input.content)
            &&& t.text == crate::rows::opt_view(input.text)
            &&& t.image_path == crate::rows::opt_view(input.image_path)
            &&& t.files_json == crate::rows::opt_view(input.files_json)
            &&& t.size == input.size
            &&& t.due_at == input.due_at
            &&& t.priority == match input.priority {
                Some(p) => p,
                None => 0,
            }
            &&& t.tags == match input.tags {
                Some(x) => x@,
                None => crate::json::json_array(seq![]),
            }
        }),
{
    old(s).lemma_valid();
    lemma_no_tags();
    lemma_one_more(old(s)@, final(s)@, final(s)@.todos.last());
}

proof fn lemma_no_tags()
    ensures
        "[]"@ == crate::json::json_array(seq![]),
{
    reveal_strlit("[]");
    let none = Seq::<Seq<char>>::empty();
    assert(Seq::new(none.len(), |i: int| crate::json::json_string(none[i])).len() == 0);
    assert("[]"@ =~= crate::json::json_array(none));
}

/// A todo without room for its id is refused without a change.
pub proof fn law_no_room(
    s: &mut Store,
    input: &TodoInput,
    now: i64,
    res: Result<i64, StoreError>,
    t: &mut Store,
    row: Result<TodoRow, TodoError>,
)
    requires
        old(s).wf(),
        old(t).wf(),
        !has_room(old(s)@.todos),
        !has_room(old(t)@.todos),
        call_ensures(Store::todos_add_at, (s, input, now), res),
        call_ensures(todos_add_at, (t, input, now), row),
    ensures
        res == Err::<i64, StoreError>(StoreError::Full),
        final(s)@ == old(s)@,
        row == Err::<TodoRow, TodoError>(TodoError::Full),
        final(t)@ == old(t)@,
{
}

/// The command that adds a todo does the same and answers with the new row.
pub proof fn law_add_answers(
    s: &mut Store,
    t: &mut Store,
    input: &TodoInput,
    now: i64,
    id: Result<i64, StoreError>,
    res: Result<TodoRow, TodoError>,
)
    requires
        old(s).wf(),
        old(t).wf(),
        old(s)@ == old(t)@,
        call_ensures(Store::todos_add_at, (s, input, now), id),
        call_ensures(todos_add_at, (t, input, now), res),
    ensures
        final(t)@ == final(s)@,
        id is Ok <==> res is Ok,
        res is Ok ==> res->Ok_0@ == final(t)@.todos.last() && res->Ok_0.id == id->Ok_0,
{
    assert(res is Ok ==> res->Ok_0@.id == res->Ok_0.id);
}

/// A todo that is made of a clip has the clip's kind, text, image, list of files and size. Its
/// content is that of the clip's document, where the clip has one that could be read.
pub proof fn law_todo_of_clip(
    s: &mut Store,
    id: i64,
    on_disk: &Option<String>,
    now: i64,
    res: Result<TodoRow, TodoError>,
    k: int,
)
    requires
        old(s).wf(),
        call_ensures(clip_to_todo_at, (s, id, on_disk, now), res),
        0 <= k < old(s)@.clips.len(),
        old(s)@.clips[k].id == id,
        has_room(old(s)@.todos),
    ensures
        one_todo_more(old(s)@, final(s)@),
        res is Ok,
        res->Ok_0@ == final(s)@.todos.last(),
        ({
            let t = final(s)@.todos.last();
            let c = old(s)@.clips[k];
            &&& is_fresh(t, now)
            &&& t.kind == c.kind
            &&& t.text == c.text
            &&& t.image_path == c.image_path
            &&& t.files_json == c.files_json
            &&& t.size == c.size
            &&& c.html_path is Some ==> t.content == crate::rows::opt_view(*on_disk)
            &&& c.html_path is None ==> t.content is None
            &&& t.priority == 0
            &&& t.due_at is None
            &&& t.tags == crate::json::json_array(seq![])
        }),
{
    old(s).lemma_valid();
    lemma_no_tags();
    crate::laws::history::lemma_clip_found(old(s)@.clips, k);
    lemma_one_more(old(s)@, final(s)@, final(s)@.todos.last());
}

/// The title of a todo that is made of a clip is that of the clip's text and kind.
pub proof fn law_title_of_clip(
    s: &mut Store,
    id: i64,
    on_disk: &Option<String>,
    now: i64,
    res: Result<TodoRow, TodoError>,
    k: int,
    text: &Option<String>,
    kind: &str,
    title: String,
)
    requires
        old(s).wf(),
        call_ensures(clip_to_todo_at, (s, id, on_disk, now), res),
        0 <= k < old(s)@.clips.len(),
        old(s)@.clips[k].id == id,
        has_room(old(s)@.todos),
        crate::rows::opt_view(*text) == old(s)@.clips[k].text,
        kind@ == old(s)@.clips[k].kind,
        call_ensures(auto_title, (text, kind), title),
    ensures
        final(s)@.todos.last().title == Some(title@),
{
    old(s).lemma_valid();
    crate::laws::history::lemma_clip_found(old(s)@.clips, k);
}

/// A todo that would be made of a clip or of the clipboard, but finds no id, is refused without a
/// change.
pub proof fn law_no_room_for_clip(
    s: &mut Store,
    id: i64,
    on_disk: &Option<String>,
    now: i64,
    res: Result<TodoRow, TodoError>,
    k: int,
    t: &mut Store,
    ev: &Option<ClipEvent>,
    pasted: Result<TodoRow, TodoError>,
)
    requires
        old(s).wf(),
        old(t).wf(),
        !has_room(old(s)@.todos),
        !has_room(old(t)@.todos),
        call_ensures(clip_to_todo_at, (s, id, on_disk, now), res),
        0 <= k < old(s)@.clips.len(),
        old(s)@.clips[k].id == id,
        call_ensures(todo_paste_at, (t, ev, now), pasted),
        ev matches Some(e) && (e.dib is Some || e.files is Some || (e.text matches Some(x)
            && crate::laws::history::has_ink(x@))),
    ensures
        res == Err::<TodoRow, TodoError>(TodoError::Full),
        final(s)@ == old(s)@,
        pasted == Err::<TodoRow, TodoError>(TodoError::Full),
        final(t)@ == old(t)@,
{
    old(s).lemma_valid();
    crate::laws::history::lemma_clip_found(old(s)@.clips, k);
    if let Some(x) = ev->0.text {
        crate::laws::history::lemma_ink(x@);
    }
}

/// No todo is made of a clip that is not there.
pub proof fn law_no_todo_of_absent_clip(
    s: &mut Store,
    id: i64,
    on_disk: &Option<String>,
    now: i64,
    res: Result<TodoRow, TodoError>,
)
    requires
        old(s).wf(),
        call_ensures(clip_to_todo_at, (s, id, on_disk, now), res),
        forall|i: int| 0 <= i < old(s)@.clips.len() ==> (#[trigger] old(s)@.clips[i]).id != id,
    ensures
        res == Err::<TodoRow, TodoError>(TodoError::NoClip),
        final(s)@ == old(s)@,
{
}

/// A todo that is made of the clipboard has its text, character for character, unless that is
/// blank; else it refers to the file of the bitmap; else it has the list of files.
pub proof fn law_todo_of_clipboard(
    s: &mut Store,
    ev: &Option<ClipEvent>,
    now: i64,
    res: Result<TodoRow, TodoError>,
)
    requires
        old(s).wf(),
        call_ensures(todo_paste_at, (s, ev, now), res),
        has_room(old(s)@.todos),
        ev is Some,
    ensures
        ({
            let e = ev->0;
            let t = final(s)@.todos.last();
            let has_text = e.text matches Some(x) && crate::laws::history::has_ink(x@);
            let has_any = has_text || e.dib is Some || e.files is Some;
            &&& !has_any ==> res == Err::<TodoRow, TodoError>(TodoError::Nothing) && final(s)@
                == old(s)@
            &&& has_any ==> {
                &&& one_todo_more(old(s)@, final(s)@)
                &&& res is Ok
                &&& res->Ok_0@ == t
                &&& is_fresh(t, now)
                &&& t.priority == 0
                &&& t.due_at is None
                &&& t.content is None
                &&& t.tags == crate::json::json_array(seq![])
            }
            &&& has_text ==> {
                &&& t.kind == "text"@
                &&& t.text == Some(e.text->0@)
                &&& t.image_path is None
                &&& t.files_json is None
                &&& t.size == encode_utf8(e.text->0@).len() as i64
            }
            &&& !has_text && e.dib is Some ==> {
                &&& t.kind == "image"@
                &&& t.text is None
                &&& t.image_path == Some(
                    old(s)@.blob_dir + crate::digest::hex_text(
                        crate::digest::sha256_of(e.dib->0@),
                    ) + ".dib"@,
                )
                &&& t.files_json is None
                &&& t.size == e.dib->0@.len() as i64
            }
            &&& !has_text && e.dib is None && e.files is Some ==> {
                &&& t.kind == "files"@
                &&& t.text is None
                &&& t.image_path is None
                &&& t.files_json == Some(
                    crate::json::json_array(crate::text::views(e.files->0@)),
                )
                &&& t.size == e.files->0@.len() as i64
            }
        }),
{
    old(s).lemma_valid();
    lemma_no_tags();
    let e = ev->0;
    if let Some(x) = e.text {
        crate::laws::history::lemma_ink(x@);
    }
    if let Some(d) = e.dib {
        let dir = old(s)@.blob_dir;
        let name = crate::digest::hex_text(crate::digest::sha256_of(d@));
        assert(dir + name + ".dib"@ =~= dir + (name + ".dib"@));
    }
    if res is Ok {
        lemma_one_more(old(s)@, final(s)@, final(s)@.todos.last());
    }
}

/// No todo is made of a clipboard that cannot be read.
pub proof fn law_unreadable_clipboard(
    s: &mut Store,
    ev: &Option<ClipEvent>,
    now: i64,
    res: Result<TodoRow, TodoError>,
)
    requires
        old(s).wf(),
        call_ensures(todo_paste_at, (s, ev, now), res),
        ev is None,
    ensures
        res == Err::<TodoRow, TodoError>(TodoError::Unreadable),
        final(s)@ == old(s)@,
{
}

/// Whether two stores became the same but for the time of the todo that was added last to each.
pub open spec fn same_but_time(a: crate::store::StoreView, b: crate::store::StoreView) -> bool {
    &&& a.todos.len() == b.todos.len()
    &&& a.todos.len() > 0
    &&& a.todos.drop_last() == b.todos.drop_last()
    &&& a.todos.last() == (crate::rows::TodoView { ts: a.todos.last().ts, ..b.todos.last() })
    &&& a.clips == b.clips
    &&& a.settings == b.settings
    &&& a.blob_dir == b.blob_dir
}

/// A todo that is added now is the one that would be added at a given time, but for its time,
/// which is the current one.
pub proof fn law_todo_added_now(
    s: &mut Store,
    input: &TodoInput,
    res: Result<i64, StoreError>,
    t: &mut Store,
    ts: i64,
    given: Result<i64, StoreError>,
    u: &mut Store,
    row: Result<TodoRow, TodoError>,
)
    requires
        old(s).wf(),
        old(t).wf(),
        old(u).wf(),
        old(t)@ == old(s)@,
        old(u)@ == old(s)@,
        call_ensures(Store::todos_add, (s, input), res),
        call_ensures(Store::todos_add_at, (t, input, ts), given),
        call_ensures(todos_add, (u, input), row),
    ensures
        res == given,
        given is Ok ==> same_but_time(final(s)@, final(t)@) && crate::clock::is_now(
            final(s)@.todos.last().ts,
        ),
        given is Err ==> final(s)@ == old(s)@,
        given is Ok ==> same_but_time(final(u)@, final(t)@) && crate::clock::is_now(
            final(u)@.todos.last().ts,
        ) && row is Ok && row->Ok_0@ == final(u)@.todos.last(),
        given is Err ==> final(u)@ == old(u)@ && row == Err::<TodoRow, TodoError>(
            TodoError::Full,
        ),
{
    if given is Ok {
        assert(final(s)@.todos.drop_last() =~= old(s)@.todos);
        assert(final(t)@.todos.drop_last() =~= old(s)@.todos);
        assert(final(u)@.todos.drop_last() =~= old(s)@.todos);
    }
}

/// The same of a todo that is made of a clip.
pub proof fn law_todo_of_clip_now(
    s: &mut Store,
    id: i64,
    on_disk: &Option<String>,
    res: Result<TodoRow, TodoError>,
    t: &mut Store,
    ts: i64,
    given: Result<TodoRow, TodoError>,
)
    requires
        old(s).wf(),
        old(t).wf(),
        old(t)@ == old(s)@,
        call_ensures(clip_to_todo, (s, id, on_disk), res),
        call_ensures(clip_to_todo_at, (t, id, on_disk, ts), given),
    ensures
        given is Ok ==> same_but_time(final(s)@, final(t)@) && crate::clock::is_now(
            final(s)@.todos.last().ts,
        ) && res is Ok && res->Ok_0@ == final(s)@.todos.last(),
        given is Err ==> final(s)@ == old(s)@ && res == given,
{
    if given is Ok {
        assert(final(s)@.todos.drop_last() =~= old(s)@.todos);
        assert(final(t)@.todos.drop_last() =~= old(s)@.todos);
    }
}

/// The same of a todo that is made of the clipboard.
pub proof fn law_todo_of_clipboard_now(
    s: &mut Store,
    ev: &Option<ClipEvent>,
    res: Result<TodoRow, TodoError>,
    t: &mut Store,
    ts: i64,
    given: Result<TodoRow, TodoError>,
)
    requires
        old(s).wf(),
        old(t).wf(),
        old(t)@ == old(s)@,
        call_ensures(todo_paste_from_clipboard, (s, ev), res),
        call_ensures(todo_paste_at, (t, ev, ts), given),
    ensures
        given is Ok ==> same_but_time(final(s)@, final(t)@) && crate::clock::is_now(
            final(s)@.todos.last().ts,
        ) && res is Ok && res->Ok_0@ == final(s)@.todos.last(),
        given is Err ==> final(s)@ == old(s)@ && res == given,
{
    if given is Ok {
        assert(final(s)@.todos.drop_last() =~= old(s)@.todos);
        assert(final(t)@.todos.drop_last() =~= old(s)@.todos);
    }
}

/// The title of a todo that is made of the clipboard is that of its text and kind.
pub proof fn law_title_of_clipboard(
    s: &mut Store,
    ev: &Option<ClipEvent>,
    now: i64,
    row: TodoRow,
    text: &Option<String>,
    kind: &str,
    title: String,
)
    requires
        old(s).wf(),
        call_ensures(todo_paste_at, (s, ev, now), Ok::<TodoRow, TodoError>(row)),
        *text == row.text,
        kind@ == row.kind@,
        call_ensures(auto_title, (text, kind), title),
    ensures
        row.title is Some,
        row.title->0@ == title@,
{
    assert(row@.text == crate::rows::opt_view(row.text));
    assert(row@.kind == row.kind@);
    assert(row@.title == crate::rows::opt_view(row.title));
}

/// Whether everything but todo `k` is as it was.
pub open spec fn only_todo_changed(
    a: crate::store::StoreView,
    b: crate::store::StoreView,
    k: int,
) -> bool {
    &&& b.todos.len() == a.todos.len()
    &&& forall|i: int| 0 <= i < a.todos.len() && i != k ==> #[trigger] b.todos[i] == a.todos[i]
    &&& b.clips == a.clips
    &&& b.settings == a.settings
    &&& b.blob_dir == a.blob_dir
}

/// No two todos have the same id.
pub proof fn lemma_ids_apart(todos: Seq<crate::rows::TodoView>, k: int)
    requires
        crate::rows::todo_ids_rise(todos),
        0 <= k < todos.len(),
    ensures
        forall|i: int| 0 <= i < todos.len() && i != k ==> (#[trigger] todos[i]).id != todos[k].id,
{
    assert forall|i: int| 0 <= i < todos.len() && i != k implies (#[trigger] todos[i]).id
        != todos[k].id by {
        if i < k {
            assert(todos[i].id < todos[k].id);
        } else {
            assert(todos[k].id < todos[i].id);
        }
    }
}

/// Setting the priority of a todo changes that and nothing else.
pub proof fn law_priority_set(s: &mut Store, id: i64, priority: i64, k: int)
    requires
        old(s).wf(),
        call_ensures(Store::todos_set_priority, (s, id, priority), ()),
        0 <= k < old(s)@.todos.len(),
        old(s)@.todos[k].id == id,
    ensures
        only_todo_changed(old(s)@, final(s)@, k),
        final(s)@.todos[k] == (crate::rows::TodoView { priority, ..old(s)@.todos[k] }),
{
    old(s).lemma_valid();
    lemma_ids_apart(old(s)@.todos, k);
}

/// Setting the due date of a todo, or clearing it, changes that and nothing else.
pub proof fn law_due_set(s: &mut Store, id: i64, due: Option<i64>, k: int)
    requires
        old(s).wf(),
        call_ensures(Store::todos_set_due, (s, id, due), ()),
        0 <= k < old(s)@.todos.len(),
        old(s)@.todos[k].id == id,
    ensures
        only_todo_changed(old(s)@, final(s)@, k),
        final(s)@.todos[k] == (crate::rows::TodoView { due_at: due, ..old(s)@.todos[k] }),
{
    old(s).lemma_valid();
    lemma_ids_apart(old(s)@.todos, k);
}

/// Setting the tags of a todo changes those and nothing else. They are stored as a list.
pub proof fn law_tags_set(s: &mut Store, id: i64, tags: &str, k: int, list: Vec<String>)
    requires
        old(s).wf(),
        call_ensures(todos_set_tags, (s, id, tags), ()),
        0 <= k < old(s)@.todos.len(),
        old(s)@.todos[k].id == id,
        call_ensures(parse_tags, (tags,), list),
    ensures
        only_todo_changed(old(s)@, final(s)@, k),
        final(s)@.todos[k] == (crate::rows::TodoView {
            tags: crate::json::json_array(crate::text::views(list@)),
            ..old(s)@.todos[k]
        }),
{
    old(s).lemma_valid();
    lemma_ids_apart(old(s)@.todos, k);
}

/// The store keeps tags as they are handed to it.
pub proof fn law_tags_stored(s: &mut Store, id: i64, tags: &str, k: int)
    requires
        old(s).wf(),
        call_ensures(Store::todos_set_tags, (s, id, tags), ()),
        0 <= k < old(s)@.todos.len(),
        old(s)@.todos[k].id == id,
    ensures
        only_todo_changed(old(s)@, final(s)@, k),
        final(s)@.todos[k] == (crate::rows::TodoView { tags: tags@, ..old(s)@.todos[k] }),
{
    old(s).lemma_valid();
    lemma_ids_apart(old(s)@.todos, k);
}

/// Saving an edited todo sets its title and content, and its text and size where a text is given.
pub proof fn law_todo_rewritten(
    s: &mut Store,
    id: i64,
    title: &str,
    content: &Option<String>,
    text: &Option<String>,
    k: int,
)
    requires
        old(s).wf(),
        call_ensures(Store::todos_update_full, (s, id, title, content, text), ()),
        0 <= k < old(s)@.todos.len(),
        old(s)@.todos[k].id == id,
    ensures
        only_todo_changed(old(s)@, final(s)@, k),
        text is None ==> final(s)@.todos[k] == (crate::rows::TodoView {
            title: Some(title@),
            content: crate::rows::opt_view(*content),
            ..old(s)@.todos[k]
        }),
        text is Some ==> final(s)@.todos[k] == (crate::rows::TodoView {
            title: Some(title@),
            content: crate::rows::opt_view(*content),
            text: Some(text->0@),
            size: encode_utf8(text->0@).len() as i64,
            ..old(s)@.todos[k]
        }),
{
    old(s).lemma_valid();
    lemma_ids_apart(old(s)@.todos, k);
}

/// The title of an edited todo is kept without the white space around it; a blank one gives way
/// to a word for "todo". All else is saved as it was handed over.
pub proof fn law_edited_title(
    s: &mut Store,
    t: &mut Store,
    id: i64,
    title: &str,
    kept: &str,
    content: &Option<String>,
    text: &Option<String>,
)
    requires
        old(s).wf(),
        old(t).wf(),
        old(s)@ == old(t)@,
        call_ensures(todos_update_full, (s, id, title, content, text), ()),
        call_ensures(Store::todos_update_full, (t, id, kept, content, text), ()),
        crate::laws::history::has_ink(title@) ==> crate::laws::html::is_core(title@, kept@),
        !crate::laws::history::has_ink(title@) ==> kept@ == "待办"@,
    ensures
        final(s)@ == final(t)@,
{
    crate::laws::history::lemma_ink(title@);
    if crate::laws::history::has_ink(title@) {
        crate::laws::html::lemma_core(title@, kept@);
    }
}

/// Ticking a todo off sets its time of completion, and opening it again clears it; the answer is
/// whether it is done now.
pub proof fn law_toggled(
    s: &mut Store,
    id: i64,
    now: i64,
    res: Result<bool, StoreError>,
    k: int,
)
    requires
        old(s).wf(),
        call_ensures(Store::todos_toggle_at, (s, id, now), res),
        0 <= k < old(s)@.todos.len(),
        old(s)@.todos[k].id == id,
    ensures
        only_todo_changed(old(s)@, final(s)@, k),
        old(s)@.todos[k].done ==> final(s)@.todos[k] == (crate::rows::TodoView {
            done: false,
            done_at: None,
            ..old(s)@.todos[k]
        }) && res == Ok::<bool, StoreError>(false),
        !old(s)@.todos[k].done ==> final(s)@.todos[k] == (crate::rows::TodoView {
            done: true,
            done_at: Some(now),
            ..old(s)@.todos[k]
        }) && res == Ok::<bool, StoreError>(true),
{
    old(s).lemma_valid();
    lemma_ids_apart(old(s)@.todos, k);
    crate::store::todos::lemma_todo_index(old(s)@.todos, k);
}

/// The same at the current time.
pub proof fn law_toggled_now(s: &mut Store, id: i64, res: Result<bool, StoreError>, k: int)
    requires
        old(s).wf(),
        call_ensures(Store::todos_toggle, (s, id), res),
        0 <= k < old(s)@.todos.len(),
        old(s)@.todos[k].id == id,
    ensures
        only_todo_changed(old(s)@, final(s)@, k),
        ({
            let was = old(s)@.todos[k];
            let is = final(s)@.todos[k];
            &&& is == (crate::rows::TodoView { done: !was.done, done_at: is.done_at, ..was })
            &&& was.done ==> is.done_at is None
            &&& !was.done ==> is.done_at is Some && crate::clock::is_now(is.done_at->0)
            &&& res == Ok::<bool, StoreError>(is.done)
        }),
{
    old(s).lemma_valid();
    lemma_ids_apart(old(s)@.todos, k);
    crate::store::todos::lemma_todo_index(old(s)@.todos, k);
}

/// Flipping the pin of a todo changes its pin, which is also the answer, and nothing else.
pub proof fn law_todo_pin(s: &mut Store, id: i64, res: Result<bool, StoreError>, k: int)
    requires
        old(s).wf(),
        call_ensures(Store::todos_toggle_pin, (s, id), res),
        0 <= k < old(s)@.todos.len(),
        old(s)@.todos[k].id == id,
    ensures
        only_todo_changed(old(s)@, final(s)@, k),
        res == Ok::<bool, StoreError>(!old(s)@.todos[k].pinned),
        final(s)@.todos[k] == (crate::rows::TodoView {
            pinned: !old(s)@.todos[k].pinned,
            ..old(s)@.todos[k]
        }),
{
    old(s).lemma_valid();
    lemma_ids_apart(old(s)@.todos, k);
    crate::store::todos::lemma_todo_index(old(s)@.todos, k);
}

/// What is asked of a todo that is not there changes nothing and is answered so.
pub proof fn law_absent_todo(
    a: &mut Store,
    b: &mut Store,
    c: &mut Store,
    id: i64,
    now: i64,
    toggled: Result<bool, StoreError>,
    pinned: Result<bool, StoreError>,
    d: &mut Store,
    now_toggled: Result<bool, StoreError>,
)
    requires
        old(a).wf(),
        old(b).wf(),
        old(c).wf(),
        old(d).wf(),
        call_ensures(Store::todos_toggle, (d, id), now_toggled),
        forall|i: int| 0 <= i < old(d)@.todos.len() ==> (#[trigger] old(d)@.todos[i]).id != id,
        call_ensures(Store::todos_toggle_at, (a, id, now), toggled),
        call_ensures(Store::todos_toggle_pin, (b, id), pinned),
        call_ensures(Store::todos_set_priority, (c, id, now), ()),
        forall|i: int| 0 <= i < old(a)@.todos.len() ==> (#[trigger] old(a)@.todos[i]).id != id,
        forall|i: int| 0 <= i < old(b)@.todos.len() ==> (#[trigger] old(b)@.todos[i]).id != id,
        forall|i: int| 0 <= i < old(c)@.todos.len() ==> (#[trigger] old(c)@.todos[i]).id != id,
    ensures
        final(a)@ == old(a)@,
        final(b)@ == old(b)@,
        final(c)@ == old(c)@,
        final(d)@ == old(d)@,
        now_toggled == Err::<bool, StoreError>(StoreError::NoRow),
        toggled == Err::<bool, StoreError>(StoreError::NoRow),
        pinned == Err::<bool, StoreError>(StoreError::NoRow),
{
    assert(final(a)@.todos =~= old(a)@.todos);
    assert(final(b)@.todos =~= old(b)@.todos);
    assert(final(c)@.todos =~= old(c)@.todos);
    assert(final(d)@.todos =~= old(d)@.todos);
}

/// A todo that is asked for by its id is the row that has the id; where none has it, there is
/// none.
pub proof fn law_todo_get(s: &Store, id: i64, res: Option<TodoRow>)
    requires
        s.wf(),
        call_ensures(Store::todos_get, (s, id), res),
    ensures
        res is None <==> forall|i: int|
            0 <= i < s@.todos.len() ==> (#[trigger] s@.todos[i]).id != id,
        res is Some ==> s@.todos.contains(res->0@) && res->0.id == id,
{
    if exists|i: int| 0 <= i < s@.todos.len() && (#[trigger] s@.todos[i]).id == id {
        let i = choose|i: int| 0 <= i < s@.todos.len() && (#[trigger] s@.todos[i]).id == id;
        s.lemma_valid();
        crate::store::todos::lemma_todo_index(s@.todos, i);
        assert(res->0@.id == res->0.id);
    }
}

/// The numbers of a day: every todo is open or done; due on the day are the open ones whose date
/// is in it, overdue the open ones whose date is before it. The open ones are also counted by
/// themselves.
pub proof fn law_numbers(s: &Store, day: (i64, i64), res: TodoStats, open: usize)
    requires
        call_ensures(Store::todos_stats_for_day, (s, day), res),
        call_ensures(Store::todos_count_open, (s,), open),
    ensures
        open == res.open,
        res.open + res.done == s@.todos.len(),
        res.done == s@.todos.filter(|t: crate::rows::TodoView| t.done).len(),
        res.today == s@.todos.filter(
            |t: crate::rows::TodoView|
                !t.done && (t.due_at matches Some(d) && day.0 <= d && d < day.1),
        ).len(),
        res.overdue == s@.todos.filter(
            |t: crate::rows::TodoView| !t.done && (t.due_at matches Some(d) && d < day.0),
        ).len(),
{
    crate::seqs::lemma_filter_opposite(
        s@.todos,
        crate::store::todos::is_open(),
        crate::store::todos::is_done(),
    );
    crate::seqs::lemma_filter_same(
        s@.todos,
        crate::store::todos::is_done(),
        |t: crate::rows::TodoView| t.done,
    );
    crate::seqs::lemma_filter_same(
        s@.todos,
        crate::store::todos::is_due(day),
        |t: crate::rows::TodoView|
            !t.done && (t.due_at matches Some(d) && day.0 <= d && d < day.1),
    );
    crate::seqs::lemma_filter_same(
        s@.todos,
        crate::store::todos::is_overdue(day),
        |t: crate::rows::TodoView| !t.done && (t.due_at matches Some(d) && d < day.0),
    );
}

/// Whether `tags` are the tags of the open todos, each once, in the order of texts, with how often
/// it occurs.
pub open spec fn counts_tags(tags: Seq<TagCount>, todos: Seq<crate::rows::TodoView>) -> bool {
    &&& forall|i: int, j: int|
        0 <= i < j < tags.len() ==> crate::text::text_before(
            (#[trigger] tags[i]).tag@,
            (#[trigger] tags[j]).tag@,
        )
    &&& forall|i: int|
        0 <= i < tags.len() ==> (#[trigger] tags[i]).count == times_tagged(todos, tags[i].tag@)
            && tags[i].count > 0
    &&& forall|t: Seq<char>| #[trigger]
        times_tagged(todos, t) > 0 ==> exists|i: int|
            0 <= i < tags.len() && (#[trigger] tags[i]).tag@ == t
}

proof fn lemma_counts_tags(tags: Seq<TagCount>, todos: Seq<crate::rows::TodoView>)
    requires
        crate::tags::is_tally(tags, crate::store::todos::open_tags(todos)),
    ensures
        counts_tags(tags, todos),
{
    let all = crate::store::todos::open_tags(todos);
    assert forall|i: int| 0 <= i < tags.len() implies (#[trigger] tags[i]).count == times_tagged(
        todos,
        tags[i].tag@,
    ) && tags[i].count > 0 by {
        lemma_times_tagged(todos, tags[i].tag@);
    }
    assert forall|t: Seq<char>| #[trigger] times_tagged(todos, t) > 0 implies exists|i: int|
        0 <= i < tags.len() && (#[trigger] tags[i]).tag@ == t by {
        lemma_times_tagged(todos, t);
        if !all.contains(t) {
            crate::tags::lemma_no_occurrence(all, t);
        }
    }
}

/// The tags in the numbers of a day are those of the open todos.
pub proof fn law_tags_counted(s: &Store, day: (i64, i64), res: TodoStats, now: TodoStats)
    requires
        call_ensures(Store::todos_stats_for_day, (s, day), res),
        call_ensures(Store::todos_stats, (s,), now),
    ensures
        counts_tags(res.tags@, s@.todos),
        counts_tags(now.tags@, s@.todos),
{
    lemma_counts_tags(res.tags@, s@.todos);
    lemma_counts_tags(now.tags@, s@.todos);
}

/// The current numbers are those of the current local day.
pub proof fn law_numbers_now(s: &Store, res: TodoStats)
    requires
        call_ensures(Store::todos_stats, (s,), res),
    ensures
        exists|day: (i64, i64)| #[trigger]
            crate::clock::is_local_day(day) && forall|same: TodoStats| #[trigger]
                call_ensures(Store::todos_stats_for_day, (s, day), same) ==> same.open == res.open
                    && same.done == res.done && same.today == res.today && same.overdue
                    == res.overdue,
{
    let day = choose|day: (i64, i64)|
        crate::clock::is_local_day(day) && #[trigger] crate::store::todos::are_stats(
            res,
            s@.todos,
            day,
        );
    assert(crate::clock::is_local_day(day));
}

/// How often `tag` occurs in the lists of tags of the open todos.
pub open spec fn times_tagged(todos: Seq<crate::rows::TodoView>, tag: Seq<char>) -> nat
    decreases todos.len(),
{
    if todos.len() == 0 {
        0
    } else {
        let t = todos.last();
        times_tagged(todos.drop_last(), tag) + if t.done {
            0
        } else {
            match crate::json::json_strings(t.tags) {
                Some(list) => list.filter(|x: Seq<char>| x == tag).len(),
                None => 0,
            }
        }
    }
}

proof fn lemma_filter_concat(
    a: Seq<Seq<char>>,
    b: Seq<Seq<char>>,
    keep: spec_fn(Seq<char>) -> bool,
)
    ensures
        (a + b).filter(keep).len() == a.filter(keep).len() + b.filter(keep).len(),
    decreases b.len(),
{
    reveal(Seq::filter);
    if b.len() == 0 {
        assert(a + b =~= a);
    } else {
        lemma_filter_concat(a, b.drop_last(), keep);
        assert((a + b).drop_last() =~= a + b.drop_last());
        assert((a + b).last() == b.last());
    }
}

proof fn lemma_times_tagged(todos: Seq<crate::rows::TodoView>, tag: Seq<char>)
    ensures
        crate::tags::occurrences(crate::store::todos::open_tags(todos), tag) == times_tagged(
            todos,
            tag,
        ),
    decreases todos.len(),
{
    let same = crate::tags::same_text(tag);
    if todos.len() == 0 {
        reveal(Seq::filter);
    } else {
        lemma_times_tagged(todos.drop_last(), tag);
        let t = todos.last();
        let a = crate::store::todos::open_tags(todos.drop_last());
        let none = Seq::<Seq<char>>::empty();
        assert(none.filter(same).len() == 0) by {
            reveal(Seq::filter);
        }
        match crate::json::json_strings(t.tags) {
            Some(list) => {
                let b = if t.done {
                    none
                } else {
                    list
                };
                lemma_filter_concat(a, b, same);
                crate::seqs::lemma_filter_same(list, same, |x: Seq<char>| x == tag);
            },
            None => {
                lemma_filter_concat(a, none, same);
            },
        }
    }
}

/// Tags that are entered on both sides of a comma are those of the one side, then those of the
/// other.
pub proof fn law_tags_meet(a: &str, b: &str, both: &str, x: Vec<String>, y: Vec<String>, z: Vec<
    String,
>)
    requires
        both@ == a@ + seq![','] + b@,
        call_ensures(parse_tags, (a,), x),
        call_ensures(parse_tags, (b,), y),
        call_ensures(parse_tags, (both,), z),
    ensures
        crate::text::views(z@) == crate::text::views(x@) + crate::text::views(y@),
{
    crate::laws::texts::law_parts_meet(a@, ',', b@);
    lemma_parts_meet(crate::text::split_on(a@, ','), crate::text::split_on(b@, ','));
}

proof fn lemma_parts_meet(a: Seq<Seq<char>>, b: Seq<Seq<char>>)
    ensures
        crate::tags::tags_of_parts(a + b) == crate::tags::tags_of_parts(a)
            + crate::tags::tags_of_parts(b),
    decreases b.len(),
{
    if b.len() == 0 {
        assert(a + b =~= a);
        assert(crate::tags::tags_of_parts(a) + crate::tags::tags_of_parts(b)
            =~= crate::tags::tags_of_parts(a));
    } else {
        lemma_parts_meet(a, b.drop_last());
        assert((a + b).drop_last() =~= a + b.drop_last());
        assert((a + b).last() == b.last());
        assert(crate::tags::tags_of_parts(a + b) =~= crate::tags::tags_of_parts(a)
            + crate::tags::tags_of_parts(b));
    }
}

/// A tag that is entered by itself is kept without the white space around it and without the `#`
/// signs that then stand in front; where nothing is left, there is no tag.
pub proof fn law_one_tag(
    s: &str,
    a: Seq<char>,
    signs: Seq<char>,
    tag: Seq<char>,
    b: Seq<char>,
    res: Vec<String>,
)
    requires
        call_ensures(parse_tags, (s,), res),
        !s@.contains(','),
        s@ == a + (signs + tag) + b,
        crate::laws::texts::all_in(a, crate::text::CharClass::White),
        crate::laws::texts::all_in(b, crate::text::CharClass::White),
        forall|i: int| 0 <= i < signs.len() ==> #[trigger] signs[i] == '#',
        tag.len() > 0 ==> tag[0] != '#' && !crate::text::is_white(tag.last()),
        tag.len() > 0 && signs.len() == 0 ==> !crate::text::is_white(tag[0]),
    ensures
        tag.len() == 0 ==> res@.len() == 0,
        tag.len() > 0 ==> res@.len() == 1 && res@[0]@ == tag,
{
    let part = signs + tag;
    let white = crate::text::CharClass::White;
    let hash = crate::text::CharClass::Hash;
    crate::laws::texts::law_one_part(s@, ',');
    if signs.len() > 0 {
        assert(part[0] == signs[0]);
        assert(part.last() == if tag.len() > 0 {
            tag.last()
        } else {
            signs[signs.len() - 1]
        });
    } else {
        assert(part =~= tag);
    }
    crate::laws::texts::law_stripped(a, part, b, white);
    let n = signs.len() as int;
    assert forall|k: int| 0 <= k < n implies hash.contains(part[k]) by {
        assert(part[k] == signs[k]);
    }
    crate::text::lemma_trim_start(part, hash, n);
    assert(part.skip(n) =~= tag);
    let parts = seq![s@];
    assert(parts.drop_last() =~= seq![]);
    reveal_with_fuel(crate::tags::tags_of_parts, 2);
    assert(crate::tags::entered_tag(parts.last()) == tag);
    assert(crate::text::views(res@).len() == res@.len());
    if tag.len() > 0 {
        assert(crate::tags::entered_tags(s@) =~= seq![tag]);
        assert(crate::text::views(res@)[0] == res@[0]@);
    }
}

/// The stored form of entered tags is their list.
pub proof fn law_tags_as_text(s: &str, list: Vec<String>, res: String)
    requires
        call_ensures(parse_tags, (s,), list),
        call_ensures(tags_json, (s,), res),
    ensures
        res@ == crate::json::json_array(crate::text::views(list@)),
{
}

} // verus!
