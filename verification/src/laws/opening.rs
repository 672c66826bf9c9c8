//! Laws of opening a store, and of bringing an older database up to date.

use crate::rows::{ClipRow, TodoRow};
use crate::store::migrate::{clip_migration, todo_migration};
use crate::store::{Setting, Store};
use vstd::prelude::*;

verus! {

/// The statement, unless the column is there.
pub open spec fn unless_present(
    present: Seq<Seq<char>>,
    column: Seq<char>,
    statement: Seq<char>,
) -> Seq<Seq<char>> {
    if present.contains(column) {
        seq![]
    } else {
        seq![statement]
    }
}

proof fn lemma_missing(
    columns: Seq<(Seq<char>, Seq<char>)>,
    name: Seq<char>,
    ddl: Seq<char>,
    present: Seq<Seq<char>>,
)
    ensures
        crate::store::migrate::missing(columns.push((name, ddl)), present)
            == crate::store::migrate::missing(columns, present) + unless_present(
            present,
            name,
            ddl,
        ),
{
    let more = columns.push((name, ddl));
    assert(more.drop_last() =~= columns);
    let rest = crate::store::migrate::missing(columns, present);
    assert(crate::store::migrate::missing(more, present) =~= rest + unless_present(
        present,
        name,
        ddl,
    ));
}

/// A todo table gets a column for each of the seven that it lacks, in this order, and a clip
/// table for each of its two.
pub proof fn law_migrations(present: &Vec<String>, todos: Vec<String>, clips: Vec<String>)
    requires
        call_ensures(todo_migration, (present,), todos),
        call_ensures(clip_migration, (present,), clips),
    ensures
        ({
            let have = crate::text::views(present@);
            &&& crate::text::views(todos@) == unless_present(
                have,
                "priority"@,
                "ALTER TABLE todos ADD COLUMN priority INTEGER NOT NULL DEFAULT 0"@,
            ) + unless_present(
                have,
                "due_at"@,
                "ALTER TABLE todos ADD COLUMN due_at INTEGER"@,
            ) + unless_present(
                have,
                "tags"@,
                "ALTER TABLE todos ADD COLUMN tags TEXT NOT NULL DEFAULT '[]'"@,
            ) + unless_present(
                have,
                "pinned"@,
                "ALTER TABLE todos ADD COLUMN pinned INTEGER NOT NULL DEFAULT 0"@,
            ) + unless_present(
                have,
                "done_at"@,
                "ALTER TABLE todos ADD COLUMN done_at INTEGER"@,
            ) + unless_present(
                have,
                "title"@,
                "ALTER TABLE todos ADD COLUMN title TEXT"@,
            ) + unless_present(have, "content"@, "ALTER TABLE todos ADD COLUMN content TEXT"@)
            &&& crate::text::views(clips@) == unless_present(
                have,
                "pinned"@,
                "ALTER TABLE clips ADD COLUMN pinned INTEGER NOT NULL DEFAULT 0"@,
            ) + unless_present(
                have,
                "html_path"@,
                "ALTER TABLE clips ADD COLUMN html_path TEXT"@,
            )
        }),
{
    let have = crate::text::views(present@);
    let c0 = Seq::<(Seq<char>, Seq<char>)>::empty();
    let n1 = "priority"@;
    let d1 = "ALTER TABLE todos ADD COLUMN priority INTEGER NOT NULL DEFAULT 0"@;
    let n2 = "due_at"@;
    let d2 = "ALTER TABLE todos ADD COLUMN due_at INTEGER"@;
    let n3 = "tags"@;
    let d3 = "ALTER TABLE todos ADD COLUMN tags TEXT NOT NULL DEFAULT '[]'"@;
    let n4 = "pinned"@;
    let d4 = "ALTER TABLE todos ADD COLUMN pinned INTEGER NOT NULL DEFAULT 0"@;
    let n5 = "done_at"@;
    let d5 = "ALTER TABLE todos ADD COLUMN done_at INTEGER"@;
    let n6 = "title"@;
    let d6 = "ALTER TABLE todos ADD COLUMN title TEXT"@;
    let n7 = "content"@;
    let d7 = "ALTER TABLE todos ADD COLUMN content TEXT"@;
    let c1 = c0.push((n1, d1));
    let c2 = c1.push((n2, d2));
    let c3 = c2.push((n3, d3));
    let c4 = c3.push((n4, d4));
    let c5 = c4.push((n5, d5));
    let c6 = c5.push((n6, d6));
    lemma_missing(c0, n1, d1, have);
    lemma_missing(c1, n2, d2, have);
    lemma_missing(c2, n3, d3, have);
    lemma_missing(c3, n4, d4, have);
    lemma_missing(c4, n5, d5, have);
    lemma_missing(c5, n6, d6, have);
    lemma_missing(c6, n7, d7, have);
    assert(crate::store::migrate::todo_column_list() =~= c6.push((n7, d7)));
    let none = crate::store::migrate::missing(c0, have);
    assert(none + unless_present(have, n1, d1) =~= unless_present(have, n1, d1));
    let e1 = "ALTER TABLE clips ADD COLUMN pinned INTEGER NOT NULL DEFAULT 0"@;
    let m2 = "html_path"@;
    let e2 = "ALTER TABLE clips ADD COLUMN html_path TEXT"@;
    let k1 = c0.push((n4, e1));
    lemma_missing(c0, n4, e1, have);
    lemma_missing(k1, m2, e2, have);
    assert(crate::store::migrate::clip_column_list() =~= k1.push((m2, e2)));
    assert(none + unless_present(have, n4, e1) =~= unless_present(have, n4, e1));
}

/// A store is opened where the ids of clips and of todos rise, no two clips have the same content
/// address, and no two settings the same name. It then has the clips as they are, every setting
/// with its value and no other, and the directory.
pub proof fn law_opened(
    dir: String,
    clips: Vec<ClipRow>,
    todos: Vec<TodoRow>,
    settings: Vec<Setting>,
    res: Option<Store>,
)
    requires
        call_ensures(Store::open, (dir, clips, todos, settings), res),
    ensures
        res is Some <==> {
            &&& forall|i: int, j: int|
                0 <= i < j < clips@.len() ==> (#[trigger] clips@[i]).id < (#[trigger] clips@[j]).id
                    && clips@[i].hash@ != clips@[j].hash@
            &&& forall|i: int, j: int|
                0 <= i < j < todos@.len() ==> (#[trigger] todos@[i]).id < (#[trigger] todos@[j]).id
            &&& forall|i: int, j: int|
                0 <= i < j < settings@.len() ==> (#[trigger] settings@[i]).key@ != (
                #[trigger] settings@[j]).key@
        },
        res is Some ==> {
            let v = res->0@;
            &&& res->0.wf()
            &&& v.blob_dir == dir@
            &&& v.clips.len() == clips@.len()
            &&& forall|i: int| 0 <= i < clips@.len() ==> #[trigger] v.clips[i] == clips@[i]@
            &&& forall|i: int|
                0 <= i < settings@.len() ==> v.settings.contains_key(
                    (#[trigger] settings@[i]).key@,
                ) && v.settings[settings@[i].key@] == settings@[i].value@
            &&& forall|k: Seq<char>| #[trigger]
                v.settings.contains_key(k) ==> exists|i: int|
                    0 <= i < settings@.len() && (#[trigger] settings@[i]).key@ == k
        },
{
    let cv = crate::order::row_views(clips@);
    let tv = crate::order::row_views(todos@);
    assert(cv.len() == clips@.len() && tv.len() == todos@.len());
    assert forall|i: int| 0 <= i < clips@.len() implies cv[i].id == (#[trigger] clips@[i]).id
        && cv[i].hash == clips@[i].hash@ by {}
    assert forall|i: int| 0 <= i < todos@.len() implies tv[i].id == (
    #[trigger] todos@[i]).id by {}
    if crate::rows::clip_ids_rise(cv) && crate::rows::hashes_differ(cv) {
        assert forall|i: int, j: int| 0 <= i < j < clips@.len() implies (#[trigger] clips@[i]).id
            < (#[trigger] clips@[j]).id && clips@[i].hash@ != clips@[j].hash@ by {
            assert(cv[i].id < cv[j].id && cv[i].hash != cv[j].hash);
        }
    }
    if crate::rows::todo_ids_rise(tv) {
        assert forall|i: int, j: int| 0 <= i < j < todos@.len() implies (#[trigger] todos@[i]).id
            < (#[trigger] todos@[j]).id by {
            assert(tv[i].id < tv[j].id);
        }
    }
    if forall|i: int, j: int|
        0 <= i < j < clips@.len() ==> (#[trigger] clips@[i]).id < (#[trigger] clips@[j]).id
            && clips@[i].hash@ != clips@[j].hash@ {
        assert forall|i: int, j: int| 0 <= i < j < cv.len() implies (#[trigger] cv[i]).id < (
        #[trigger] cv[j]).id && cv[i].hash != cv[j].hash by {
            assert(clips@[i].id < clips@[j].id);
        }
    }
    if forall|i: int, j: int|
        0 <= i < j < todos@.len() ==> (#[trigger] todos@[i]).id < (#[trigger] todos@[j]).id {
        assert forall|i: int, j: int| 0 <= i < j < tv.len() implies (#[trigger] tv[i]).id < (
        #[trigger] tv[j]).id by {
            assert(todos@[i].id < todos@[j].id);
        }
    }
    if res is Some {
        lemma_settings(settings@);
    }
}

proof fn lemma_settings(s: Seq<Setting>)
    requires
        crate::store::migrate::keys_differ(s),
    ensures
        ({
            let m = crate::store::settings_map(s);
            &&& forall|i: int|
                0 <= i < s.len() ==> m.contains_key((#[trigger] s[i]).key@) && m[s[i].key@]
                    == s[i].value@
            &&& forall|k: Seq<char>| #[trigger]
                m.contains_key(k) ==> exists|i: int|
                    0 <= i < s.len() && (#[trigger] s[i]).key@ == k
        }),
    decreases s.len(),
{
    if s.len() > 0 {
        let t = s.drop_last();
        assert forall|i: int, j: int| 0 <= i < j < t.len() implies (#[trigger] t[i]).key@ != (
        #[trigger] t[j]).key@ by {
            assert(s[i].key@ != s[j].key@);
        }
        lemma_settings(t);
        let m = crate::store::settings_map(s);
        let h = crate::store::settings_map(t);
        assert forall|i: int| 0 <= i < s.len() implies m.contains_key((#[trigger] s[i]).key@)
            && m[s[i].key@] == s[i].value@ by {
            if i < t.len() {
                assert(t[i].key@ == s[i].key@);
                assert(s[i].key@ != s[s.len() - 1].key@);
            }
        }
        assert forall|k: Seq<char>| #[trigger] m.contains_key(k) implies exists|i: int|
            0 <= i < s.len() && (#[trigger] s[i]).key@ == k by {
            if k == s.last().key@ {
                assert(s[s.len() - 1].key@ == k);
            } else {
                assert(h.contains_key(k));
                let i = choose|i: int| 0 <= i < t.len() && (#[trigger] t[i]).key@ == k;
                assert(s[i].key@ == k);
            }
        }
    }
}

/// Whether a text has a character other than a space.
pub open spec fn has_letter(t: Seq<char>) -> bool {
    exists|i: int| 0 <= i < t.len() && #[trigger] t[i] != ' '
}

/// The same of a text that may be missing.
pub open spec fn has_letters(t: Option<Seq<char>>) -> bool {
    t is Some && has_letter(t->0)
}

proof fn lemma_has_letter(t: Seq<char>)
    ensures
        has_letter(t) <==> crate::text::trimmed(
            t,
            crate::text::CharClass::Blank,
        ).len() > 0,
{
    let class = crate::text::CharClass::Blank;
    let u = crate::text::trimmed(t, class);
    crate::laws::texts::law_stripping(t, class);
    let (a, b) = choose|a: Seq<char>, b: Seq<char>|
        t == #[trigger] (a + u + b) && crate::laws::texts::all_in(a, class)
            && crate::laws::texts::all_in(b, class);
    if u.len() > 0 {
        let k = a.len() as int;
        assert(t[k] == u[0]);
        assert(!class.contains(u[0]));
        assert(0 <= k < t.len() && t[k] != ' ');
    } else if has_letter(t) {
        let i = choose|i: int| 0 <= i < t.len() && #[trigger] t[i] != ' ';
        if i < a.len() {
            assert(t[i] == a[i]);
            assert(class.contains(a[i]));
        } else {
            assert(t[i] == b[i - a.len()]);
            assert(class.contains(b[i - a.len()]));
        }
    }
}

/// Whether `line` is a text on one line: line ends are spaces, and there are no spaces around it.
pub open spec fn is_line_of(text: Seq<char>, line: Seq<char>) -> bool {
    &&& line.len() > 0 ==> line[0] != ' ' && line.last() != ' '
    &&& exists|a: Seq<char>, b: Seq<char>|
        is_flat(text, #[trigger] (a + line + b)) && crate::laws::texts::all_in(
            a,
            crate::text::CharClass::Blank,
        ) && crate::laws::texts::all_in(b, crate::text::CharClass::Blank)
}

/// Whether `flat` is the text with spaces in the place of line ends.
pub open spec fn is_flat(text: Seq<char>, flat: Seq<char>) -> bool {
    flat.len() == text.len() && forall|i: int|
        0 <= i < text.len() ==> flat[i] == if text[i] == '\r' || #[trigger] text[i] == '\n' {
            ' '
        } else {
            text[i]
        }
}

/// Opening a store changes nothing of a todo but a title that is missing, or of spaces alone. Such
/// a todo gets the start of its text on one line for its title: what precedes the first NUL, as
/// much as fits fifty characters. Without a text, or with one of spaces alone, it gets a word for
/// "todo".
pub proof fn law_opened_todos(
    dir: String,
    clips: Vec<ClipRow>,
    todos: Vec<TodoRow>,
    settings: Vec<Setting>,
    res: Option<Store>,
    i: int,
    line: Seq<char>,
)
    requires
        call_ensures(Store::open, (dir, clips, todos, settings), res),
        res is Some,
        0 <= i < todos@.len(),
        todos@[i]@.text matches Some(t) ==> is_line_of(t, line),
    ensures
        res->0@.todos.len() == todos@.len(),
        ({
            let was = todos@[i]@;
            let is = res->0@.todos[i];
            let head = crate::like::c_str(line);
            &&& is == (crate::rows::TodoView { title: is.title, ..was })
            &&& has_letters(was.title) ==> is.title == was.title
            &&& !has_letters(was.title) && !has_letters(was.text) ==> is.title == Some("待办"@)
            &&& !has_letters(was.title) && has_letters(was.text) ==> {
                &&& is.title is Some
                &&& is.title->0.len() <= 50
                &&& is.title->0.is_prefix_of(head)
                &&& is.title->0.len() < 50 ==> is.title->0 == head
            }
        }),
{
    let was = todos@[i]@;
    let tv = crate::order::row_views(todos@);
    assert(tv[i] == was);
    let is = res->0@.todos[i];
    assert(is == crate::store::migrate::titled(was));
    if let Some(t) = was.title {
        lemma_has_letter(t);
    }
    if let Some(t) = was.text {
        lemma_has_letter(t);
        let blank = crate::text::CharClass::Blank;
        let (a, b) = choose|a: Seq<char>, b: Seq<char>|
            is_flat(t, #[trigger] (a + line + b)) && crate::laws::texts::all_in(a, blank)
                && crate::laws::texts::all_in(b, blank);
        assert(crate::store::migrate::one_line(t) =~= a + line + b);
        crate::laws::texts::law_stripped(a, line, b, blank);
        let head = crate::like::c_str(line);
        if !has_letters(was.title) && has_letters(was.text) {
            assert(head.take(is.title->0.len() as int) =~= is.title->0);
        }
    }
}

} // verus!
