//! Opening a store, and bringing an older database up to date.

use super::{Setting, Store};
use crate::like::cut_at_nul;
use crate::rows::{ClipRow, TodoRow};
use crate::text::{
    chars_of, copy_range, has_text, str_eq, string_of, text_precedes, trim_chars, CharClass,
};
use vstd::prelude::*;
use vstd::string::*;

verus! {

/// A column that a table gained over time, and the statement that adds it.
#[derive(Debug)]
pub struct Column {
    pub name: String,
    pub ddl: String,
}

pub open spec fn column_views(columns: Seq<Column>) -> Seq<(Seq<char>, Seq<char>)> {
    Seq::new(columns.len(), |i: int| (columns[i].name@, columns[i].ddl@))
}

/// The columns that the todo table gained over time, with the statements that add them.
pub open spec fn todo_column_list() -> Seq<(Seq<char>, Seq<char>)> {
    seq![
        ("priority"@, "ALTER TABLE todos ADD COLUMN priority INTEGER NOT NULL DEFAULT 0"@),
        ("due_at"@, "ALTER TABLE todos ADD COLUMN due_at INTEGER"@),
        ("tags"@, "ALTER TABLE todos ADD COLUMN tags TEXT NOT NULL DEFAULT '[]'"@),
        ("pinned"@, "ALTER TABLE todos ADD COLUMN pinned INTEGER NOT NULL DEFAULT 0"@),
        ("done_at"@, "ALTER TABLE todos ADD COLUMN done_at INTEGER"@),
        ("title"@, "ALTER TABLE todos ADD COLUMN title TEXT"@),
        ("content"@, "ALTER TABLE todos ADD COLUMN content TEXT"@),
    ]
}

/// The columns that the clip table gained over time, with the statements that add them.
pub open spec fn clip_column_list() -> Seq<(Seq<char>, Seq<char>)> {
    seq![
        ("pinned"@, "ALTER TABLE clips ADD COLUMN pinned INTEGER NOT NULL DEFAULT 0"@),
        ("html_path"@, "ALTER TABLE clips ADD COLUMN html_path TEXT"@),
    ]
}

/// The statements for the columns that a table with the columns `present` lacks, in order.
pub open spec fn missing(
    columns: Seq<(Seq<char>, Seq<char>)>,
    present: Seq<Seq<char>>,
) -> Seq<Seq<char>>
    decreases columns.len(),
{
    if columns.len() == 0 {
        seq![]
    } else {
        let rest = missing(columns.drop_last(), present);
        if present.contains(columns.last().0) {
            rest
        } else {
            rest.push(columns.last().1)
        }
    }
}

fn column(name: &str, ddl: &str) -> (res: Column)
    ensures
        res.name@ == name@,
        res.ddl@ == ddl@,
{
    Column { name: name.to_owned(), ddl: ddl.to_owned() }
}

fn todo_columns() -> (res: Vec<Column>)
    ensures
        column_views(res@) == todo_column_list(),
{
    let mut out: Vec<Column> = Vec::new();
    out.push(
        column("priority", "ALTER TABLE todos ADD COLUMN priority INTEGER NOT NULL DEFAULT 0"),
    );
    out.push(column("due_at", "ALTER TABLE todos ADD COLUMN due_at INTEGER"));
    out.push(column("tags", "ALTER TABLE todos ADD COLUMN tags TEXT NOT NULL DEFAULT '[]'"));
    out.push(column("pinned", "ALTER TABLE todos ADD COLUMN pinned INTEGER NOT NULL DEFAULT 0"));
    out.push(column("done_at", "ALTER TABLE todos ADD COLUMN done_at INTEGER"));
    out.push(column("title", "ALTER TABLE todos ADD COLUMN title TEXT"));
    out.push(column("content", "ALTER TABLE todos ADD COLUMN content TEXT"));
    assert(column_views(out@) =~= todo_column_list());
    out
}

fn clip_columns() -> (res: Vec<Column>)
    ensures
        column_views(res@) == clip_column_list(),
{
    let mut out: Vec<Column> = Vec::new();
    out.push(column("pinned", "ALTER TABLE clips ADD COLUMN pinned INTEGER NOT NULL DEFAULT 0"));
    out.push(column("html_path", "ALTER TABLE clips ADD COLUMN html_path TEXT"));
    assert(column_views(out@) =~= clip_column_list());
    out
}

fn missing_of(columns: &Vec<Column>, present: &Vec<String>) -> (res: Vec<String>)
    ensures
        crate::text::views(res@) == missing(
            column_views(columns@),
            crate::text::views(present@),
        ),
{
    let ghost all = column_views(columns@);
    let ghost have = crate::text::views(present@);
    let mut out: Vec<String> = Vec::new();
    assert(crate::text::views(out@) =~= missing(all.take(0), have));
    for i in 0..columns.len()
        invariant
            all == column_views(columns@),
            have == crate::text::views(present@),
            crate::text::views(out@) == missing(all.take(i as int), have),
    {
        let ghost before = crate::text::views(out@);
        assert(all.take(i + 1).drop_last() =~= all.take(i as int));
        if !has_text(present, columns[i].name.as_str()) {
            out.push(columns[i].ddl.clone());
            assert(crate::text::views(out@) =~= before.push(columns@[i as int].ddl@));
        }
    }
    assert(all.take(all.len() as int) =~= all);
    out
}

/// The statements that bring a todo table with the columns `present` up to date.
pub fn todo_migration(present: &Vec<String>) -> (res: Vec<String>)
    ensures
        crate::text::views(res@) == missing(todo_column_list(), crate::text::views(present@)),
{
    missing_of(&todo_columns(), present)
}

/// The statements that bring a clip table with the columns `present` up to date.
pub fn clip_migration(present: &Vec<String>) -> (res: Vec<String>)
    ensures
        crate::text::views(res@) == missing(clip_column_list(), crate::text::views(present@)),
{
    missing_of(&clip_columns(), present)
}

/// `s` with its line ends replaced by spaces.
pub open spec fn one_line(s: Seq<char>) -> Seq<char> {
    s.map_values(
        |c: char|
            if c == '\r' || c == '\n' {
                ' '
            } else {
                c
            },
    )
}

fn one_line_of(s: &Vec<char>) -> (out: Vec<char>)
    ensures
        out@ == one_line(s@),
{
    let mut out: Vec<char> = Vec::new();
    for i in 0..s.len()
        invariant
            out@ == one_line(s@.take(i as int)),
    {
        let c = s[i];
        out.push(
            if c == '\r' || c == '\n' {
                ' '
            } else {
                c
            },
        );
        assert(out@ =~= one_line(s@.take(i + 1)));
    }
    assert(s@.take(s@.len() as int) =~= s@);
    out
}

/// The title that a todo without one gets: the start of its text on one line, up to a NUL.
pub open spec fn late_title(text: Option<Seq<char>>) -> Seq<char> {
    match text {
        Some(s) => if crate::text::trimmed(s, CharClass::Blank).len() > 0 {
            let line = crate::like::c_str(crate::text::trimmed(one_line(s), CharClass::Blank));
            if line.len() > super::todos::TITLE_CHARS {
                line.take(super::todos::TITLE_CHARS as int)
            } else {
                line
            }
        } else {
            "待办"@
        },
        None => "待办"@,
    }
}

/// A todo whose title is filled in where it is missing or blank.
pub open spec fn titled(t: crate::rows::TodoView) -> crate::rows::TodoView {
    if t.title is Some && crate::text::trimmed(t.title->0, CharClass::Blank).len() > 0 {
        t
    } else {
        crate::rows::TodoView { title: Some(late_title(t.text)), ..t }
    }
}

fn late_title_of(text: &Option<String>) -> (res: String)
    ensures
        res@ == late_title(crate::rows::opt_view(*text)),
{
    if let Some(t) = text {
        let s = chars_of(t.as_str());
        if trim_chars(&s, CharClass::Blank).len() > 0 {
            let line = cut_at_nul(&trim_chars(&one_line_of(&s), CharClass::Blank));
            if line.len() > super::todos::TITLE_CHARS {
                let cut = copy_range(&line, 0, super::todos::TITLE_CHARS);
                assert(cut@ =~= line@.take(super::todos::TITLE_CHARS as int));
                return string_of(&cut);
            }
            return string_of(&line);
        }
    }
    "待办".to_owned()
}

fn give_title(row: &TodoRow) -> (res: TodoRow)
    ensures
        res@ == titled(row@),
{
    let mut out = row.clone();
    let blank = match &row.title {
        Some(t) => trim_chars(&chars_of(t.as_str()), CharClass::Blank).len() == 0,
        None => true,
    };
    if blank {
        out.title = Some(late_title_of(&row.text));
    }
    out
}

pub open spec fn keys_differ(settings: Seq<Setting>) -> bool {
    forall|i: int, j: int|
        0 <= i < j < settings.len() ==> (#[trigger] settings[i]).key@ != (
        #[trigger] settings[j]).key@
}

fn clips_rise(clips: &Vec<ClipRow>) -> (res: bool)
    ensures
        res == crate::rows::clip_ids_rise(crate::order::row_views(clips@)),
{
    let ghost v = crate::order::row_views(clips@);
    let mut i: usize = 1;
    while i < clips.len()
        invariant
            v == crate::order::row_views(clips@),
            1 <= i,
            forall|a: int, b: int|
                0 <= a < b < i && b < v.len() ==> (#[trigger] v[a]).id < (#[trigger] v[b]).id,
        decreases clips@.len() - i,
    {
        assert(v[i - 1].id == clips@[i - 1].id && v[i as int].id == clips@[i as int].id);
        if clips[i - 1].id >= clips[i].id {
            return false;
        }
        assert forall|a: int, b: int| 0 <= a < b < i + 1 && b < v.len() implies (#[trigger] v[a]).id
            < (#[trigger] v[b]).id by {
            if b == i && a < i - 1 {
                assert(v[a].id < v[i - 1].id);
            }
        }
        i += 1;
    }
    true
}

/// Whether the indices lead through the clips by rising content address.
spec fn by_hash(idx: Seq<usize>, clips: Seq<ClipRow>) -> bool {
    &&& forall|i: int| 0 <= i < idx.len() ==> #[trigger] idx[i] < clips.len()
    &&& forall|i: int, j: int|
        0 <= i < j < idx.len() ==> crate::text::text_before(
            clips[#[trigger] idx[i] as int].hash@,
            clips[#[trigger] idx[j] as int].hash@,
        )
}

/// The first place in the indices whose clip does not come before `hash`.
fn hash_place(idx: &Vec<usize>, clips: &Vec<ClipRow>, hash: &Vec<char>) -> (res: usize)
    requires
        by_hash(idx@, clips@),
    ensures
        res <= idx@.len(),
        forall|k: int|
            0 <= k < res ==> crate::text::text_before(clips@[#[trigger] idx@[k] as int].hash@, hash@),
        forall|k: int|
            res <= k < idx@.len() ==> !crate::text::text_before(
                clips@[#[trigger] idx@[k] as int].hash@,
                hash@,
            ),
{
    let mut lo: usize = 0;
    let mut hi: usize = idx.len();
    while lo < hi
        invariant
            by_hash(idx@, clips@),
            lo <= hi <= idx@.len(),
            forall|k: int|
                0 <= k < lo ==> crate::text::text_before(
                    clips@[#[trigger] idx@[k] as int].hash@,
                    hash@,
                ),
            forall|k: int|
                hi <= k < idx@.len() ==> !crate::text::text_before(
                    clips@[#[trigger] idx@[k] as int].hash@,
                    hash@,
                ),
        decreases hi - lo,
    {
        let mid = lo + (hi - lo) / 2;
        let ghost here = clips@[idx@[mid as int] as int].hash@;
        if text_precedes(&chars_of(clips[idx[mid]].hash.as_str()), hash) {
            assert forall|k: int| 0 <= k < mid + 1 implies crate::text::text_before(
                clips@[#[trigger] idx@[k] as int].hash@,
                hash@,
            ) by {
                if k < mid {
                    crate::text::lemma_text_transitive(
                        clips@[idx@[k] as int].hash@,
                        here,
                        hash@,
                    );
                }
            }
            lo = mid + 1;
        } else {
            assert forall|k: int| mid <= k < idx@.len() implies !crate::text::text_before(
                clips@[#[trigger] idx@[k] as int].hash@,
                hash@,
            ) by {
                if k > mid && crate::text::text_before(clips@[idx@[k] as int].hash@, hash@) {
                    assert(crate::text::text_before(here, clips@[idx@[k] as int].hash@));
                    crate::text::lemma_text_transitive(
                        here,
                        clips@[idx@[k] as int].hash@,
                        hash@,
                    );
                }
            }
            hi = mid;
        }
    }
    lo
}

fn hashes_all_differ(clips: &Vec<ClipRow>) -> (res: bool)
    ensures
        res == crate::rows::hashes_differ(crate::order::row_views(clips@)),
{
    let ghost v = crate::order::row_views(clips@);
    let mut idx: Vec<usize> = Vec::new();
    for i in 0..clips.len()
        invariant
            v == crate::order::row_views(clips@),
            by_hash(idx@, clips@),
            forall|k: int| 0 <= k < idx@.len() ==> #[trigger] idx@[k] < i,
            forall|m: int|
                0 <= m < i ==> exists|k: int|
                    0 <= k < idx@.len() && idx@[k] as int == m && (#[trigger] v[m]).hash
                        == clips@[#[trigger] idx@[k] as int].hash@,
            forall|a: int, b: int|
                0 <= a < b < i ==> (#[trigger] v[a]).hash != (#[trigger] v[b]).hash,
    {
        let hash = chars_of(clips[i].hash.as_str());
        let p = hash_place(&idx, clips, &hash);
        if p < idx.len() && str_eq(clips[idx[p]].hash.as_str(), clips[i].hash.as_str()) {
            assert(v[idx@[p as int] as int].hash == v[i as int].hash);
            return false;
        }
        let ghost old_idx = idx@;
        proof {
            // every clip so far comes before this one or after it
            assert forall|k: int| p <= k < old_idx.len() implies crate::text::text_before(
                hash@,
                clips@[#[trigger] old_idx[k] as int].hash@,
            ) by {
                let at_p = clips@[old_idx[p as int] as int].hash@;
                crate::text::lemma_text_total(at_p, hash@);
                if k > p {
                    assert(crate::text::text_before(at_p, clips@[old_idx[k] as int].hash@));
                    crate::text::lemma_text_transitive(
                        hash@,
                        at_p,
                        clips@[old_idx[k] as int].hash@,
                    );
                }
            }
            crate::text::lemma_text_total(hash@, hash@);
            assert forall|a: int| 0 <= a < i implies (#[trigger] v[a]).hash != v[i as int].hash by {
                let k = choose|k: int|
                    0 <= k < old_idx.len() && old_idx[k] as int == a && v[a].hash
                        == clips@[#[trigger] old_idx[k] as int].hash@;
                assert(crate::text::text_before(v[a].hash, hash@) || crate::text::text_before(
                    hash@,
                    v[a].hash,
                ));
            }
        }
        idx.insert(p, i);
        proof {
            assert forall|k: int| 0 <= k < idx@.len() implies #[trigger] idx@[k] == (if k < p {
                old_idx[k]
            } else if k == p {
                i
            } else {
                old_idx[k - 1]
            }) by {}
            assert forall|a: int, b: int| 0 <= a < b < idx@.len() implies crate::text::text_before(
                clips@[#[trigger] idx@[a] as int].hash@,
                clips@[#[trigger] idx@[b] as int].hash@,
            ) by {
                let x = if a < p {
                    a
                } else {
                    a - 1
                };
                let y = if b < p {
                    b
                } else {
                    b - 1
                };
                if a != p && b != p {
                    assert(idx@[a] == old_idx[x] && idx@[b] == old_idx[y]);
                } else if a == p {
                    assert(idx@[b] == old_idx[y]);
                } else {
                    assert(idx@[a] == old_idx[x]);
                }
            }
            assert forall|m: int| 0 <= m < i + 1 implies exists|k: int|
                0 <= k < idx@.len() && idx@[k] as int == m && (#[trigger] v[m]).hash
                    == clips@[#[trigger] idx@[k] as int].hash@ by {
                if m == i {
                    assert(idx@[p as int] as int == m);
                } else {
                    let k = choose|k: int|
                        0 <= k < old_idx.len() && old_idx[k] as int == m && v[m].hash
                            == clips@[#[trigger] old_idx[k] as int].hash@;
                    let n = if k < p {
                        k
                    } else {
                        k + 1
                    };
                    assert(idx@[n] == old_idx[k]);
                }
            }
        }
    }
    true
}

fn todos_rise(todos: &Vec<TodoRow>) -> (res: bool)
    ensures
        res == crate::rows::todo_ids_rise(crate::order::row_views(todos@)),
{
    let ghost v = crate::order::row_views(todos@);
    let mut i: usize = 1;
    while i < todos.len()
        invariant
            v == crate::order::row_views(todos@),
            1 <= i,
            forall|a: int, b: int|
                0 <= a < b < i && b < v.len() ==> (#[trigger] v[a]).id < (#[trigger] v[b]).id,
        decreases todos@.len() - i,
    {
        assert(v[i - 1].id == todos@[i - 1].id && v[i as int].id == todos@[i as int].id);
        if todos[i - 1].id >= todos[i].id {
            return false;
        }
        assert forall|a: int, b: int| 0 <= a < b < i + 1 && b < v.len() implies (#[trigger] v[a]).id
            < (#[trigger] v[b]).id by {
            if b == i && a < i - 1 {
                assert(v[a].id < v[i - 1].id);
            }
        }
        i += 1;
    }
    true
}

fn keys_all_differ(settings: &Vec<Setting>) -> (res: bool)
    ensures
        res == keys_differ(settings@),
{
    for j in 0..settings.len()
        invariant
            keys_differ(settings@.take(j as int)),
    {
        for i in 0..j
            invariant
                j < settings@.len(),
                forall|k: int| 0 <= k < i ==> (#[trigger] settings@[k]).key@
                    != settings@[j as int].key@,
        {
            if str_eq(settings[i].key.as_str(), settings[j].key.as_str()) {
                assert(settings@[i as int].key@ == settings@[j as int].key@);
                return false;
            }
        }
        assert forall|a: int, b: int| 0 <= a < b < j + 1 implies (#[trigger] settings@.take(
            j + 1,
        )[a]).key@ != (#[trigger] settings@.take(j + 1)[b]).key@ by {
            if b < j {
                assert(settings@.take(j as int)[a].key@ != settings@.take(j as int)[b].key@);
            }
        }
    }
    assert(settings@.take(settings@.len() as int) =~= settings@);
    true
}

impl Store {
    /// A store with the given rows, which come by rising id, and settings. No two clips may have
    /// the same content address, and no two settings the same name. Todos without a title get one. `blob_dir` is what stands before the name of a blob file in its path.
    pub fn open(
        blob_dir: String,
        clips: Vec<ClipRow>,
        todos: Vec<TodoRow>,
        settings: Vec<Setting>,
    ) -> (res: Option<Store>)
        ensures
            res is Some <==> crate::rows::clip_ids_rise(crate::order::row_views(clips@))
                && crate::rows::hashes_differ(crate::order::row_views(clips@))
                && crate::rows::todo_ids_rise(crate::order::row_views(todos@)) && keys_differ(
                settings@,
            ),
            res matches Some(store) ==> store.wf() && store@ == (super::StoreView {
                clips: crate::order::row_views(clips@),
                todos: crate::order::row_views(todos@).map_values(
                    |t: crate::rows::TodoView| titled(t),
                ),
                settings: super::settings_map(settings@),
                blob_dir: blob_dir@,
            }),
    {
        if !clips_rise(&clips) || !hashes_all_differ(&clips) || !todos_rise(&todos)
            || !keys_all_differ(&settings) {
            return None;
        }
        let ghost tv = crate::order::row_views(todos@);
        let ghost f = |t: crate::rows::TodoView| titled(t);
        let mut out: Vec<TodoRow> = Vec::new();
        for i in 0..todos.len()
            invariant
                tv == crate::order::row_views(todos@),
                f == (|t: crate::rows::TodoView| titled(t)),
                crate::order::row_views(out@) == tv.take(i as int).map_values(f),
        {
            let ghost before = crate::order::row_views(out@);
            out.push(give_title(&todos[i]));
            assert(crate::order::row_views(out@) =~= before.push(titled(tv[i as int])));
            assert(tv.take(i + 1).map_values(f) =~= before.push(f(tv[i as int])));
        }
        assert(tv.take(tv.len() as int) =~= tv);
        let store = Store { clips, todos: out, settings, blob_dir };
        assert(crate::rows::todo_ids_rise(store@.todos)) by {
            assert forall|i: int, j: int| 0 <= i < j < store@.todos.len() implies (
            #[trigger] store@.todos[i]).id < (#[trigger] store@.todos[j]).id by {
                assert(tv[i].id < tv[j].id);
            }
        }
        Some(store)
    }
}

} // verus!
