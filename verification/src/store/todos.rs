//! The todo list.

use super::{Store, StoreError};
use crate::clock::{local_day_bounds, now_ts_ms};
use crate::order::list_where;
use crate::rows::{copy_opt, TodoInput, TodoRow};
use crate::tags::{holds_tag, stored_tags, tally, TagCount};
use crate::text::{chars_of, copy_range, fold_whitespace, str_eq, string_of};
use vstd::prelude::*;
use vstd::string::*;
use vstd::utf8::*;

verus! {

/// How many characters of its text a todo has for a title.
pub const TITLE_CHARS: usize = 50;

/// The title of a todo that was not given one: the start of its text with whitespace folded, or
/// what kind of todo it is.
pub open spec fn default_title(text: Option<Seq<char>>, kind: Seq<char>) -> Seq<char> {
    let folded = match text {
        Some(t) => crate::text::joined(crate::text::words(t), seq![' ']),
        None => seq![],
    };
    if folded.len() > TITLE_CHARS {
        folded.take(TITLE_CHARS as int)
    } else if folded.len() > 0 {
        folded
    } else if kind == "image"@ {
        "图片待办"@
    } else if kind == "files"@ {
        "文件待办"@
    } else {
        "待办"@
    }
}

/// The title of a todo that was not given one.
pub fn auto_title(text: &Option<String>, kind: &str) -> (res: String)
    ensures
        res@ == default_title(crate::rows::opt_view(*text), kind@),
{
    if let Some(t) = text {
        let folded = fold_whitespace(&chars_of(t.as_str()));
        if folded.len() > TITLE_CHARS {
            let cut = copy_range(&folded, 0, TITLE_CHARS);
            assert(cut@ =~= folded@.take(TITLE_CHARS as int));
            return string_of(&cut);
        }
        if folded.len() > 0 {
            return string_of(&folded);
        }
    }
    if str_eq(kind, "image") {
        "图片待办".to_owned()
    } else if str_eq(kind, "files") {
        "文件待办".to_owned()
    } else {
        "待办".to_owned()
    }
}

/// The id of the next todo: one above the largest, and 1 in an empty table.
pub open spec fn next_todo_id(todos: Seq<crate::rows::TodoView>) -> Option<i64> {
    if todos.len() == 0 {
        Some(1i64)
    } else if todos.last().id < i64::MAX {
        Some((todos.last().id + 1) as i64)
    } else {
        None
    }
}

/// The row of a new todo.
pub open spec fn new_todo(input: crate::rows::TodoInputView, ts: i64, id: i64) -> crate::rows::TodoView {
    crate::rows::TodoView {
        id,
        ts,
        done: false,
        kind: input.kind,
        title: Some(
            match input.title {
                Some(t) => t,
                None => default_title(input.text, input.kind),
            },
        ),
        content: input.content,
        text: input.text,
        image_path: input.image_path,
        files_json: input.files_json,
        size: input.size,
        priority: match input.priority {
            Some(p) => p,
            None => 0,
        },
        due_at: input.due_at,
        tags: match input.tags {
            Some(t) => t,
            None => "[]"@,
        },
        pinned: false,
        done_at: None,
    }
}

/// The index of the todo with the given id.
pub open spec fn todo_index(todos: Seq<crate::rows::TodoView>, id: i64) -> Option<int> {
    if exists|i: int| 0 <= i < todos.len() && (#[trigger] todos[i]).id == id {
        Some(choose|i: int| 0 <= i < todos.len() && (#[trigger] todos[i]).id == id)
    } else {
        None
    }
}

/// The todo with the given id.
pub open spec fn todo_at(todos: Seq<crate::rows::TodoView>, id: i64) -> Option<
    crate::rows::TodoView,
> {
    match todo_index(todos, id) {
        Some(i) => Some(todos[i]),
        None => None,
    }
}

/// A todo is found by its id.
pub proof fn lemma_todo_index(todos: Seq<crate::rows::TodoView>, k: int)
    requires
        crate::rows::todo_ids_rise(todos),
        0 <= k < todos.len(),
    ensures
        todo_index(todos, todos[k].id) == Some(k),
{
    let id = todos[k].id;
    let j = choose|j: int| 0 <= j < todos.len() && (#[trigger] todos[j]).id == id;
    if j < k {
        assert(todos[j].id < todos[k].id);
    }
    if k < j {
        assert(todos[k].id < todos[j].id);
    }
}

/// The todos with todo `id` changed.
pub open spec fn amended(
    todos: Seq<crate::rows::TodoView>,
    id: i64,
    change: spec_fn(crate::rows::TodoView) -> crate::rows::TodoView,
) -> Seq<crate::rows::TodoView> {
    todos.map_values(
        |t: crate::rows::TodoView|
            if t.id == id {
                change(t)
            } else {
                t
            },
    )
}

/// A todo that is ticked off at `now`, or opened again.
pub open spec fn toggled(now: i64) -> spec_fn(crate::rows::TodoView) -> crate::rows::TodoView {
    |t: crate::rows::TodoView|
        crate::rows::TodoView {
            done: !t.done,
            done_at: if t.done {
                None
            } else {
                Some(now)
            },
            ..t
        }
}

/// A todo with a new title and content, and with a new text where one is given.
pub open spec fn rewritten(
    title: Seq<char>,
    content: Option<Seq<char>>,
    text: Option<Seq<char>>,
) -> spec_fn(crate::rows::TodoView) -> crate::rows::TodoView {
    |t: crate::rows::TodoView|
        crate::rows::TodoView {
            title: Some(title),
            content,
            text: match text {
                Some(s) => Some(s),
                None => t.text,
            },
            size: match text {
                Some(s) => encode_utf8(s).len() as i64,
                None => t.size,
            },
            ..t
        }
}

pub open spec fn prioritized(priority: i64) -> spec_fn(
    crate::rows::TodoView,
) -> crate::rows::TodoView {
    |t: crate::rows::TodoView| crate::rows::TodoView { priority, ..t }
}

pub open spec fn dated(due_at: Option<i64>) -> spec_fn(
    crate::rows::TodoView,
) -> crate::rows::TodoView {
    |t: crate::rows::TodoView| crate::rows::TodoView { due_at, ..t }
}

pub open spec fn tagged(tags: Seq<char>) -> spec_fn(crate::rows::TodoView) -> crate::rows::TodoView {
    |t: crate::rows::TodoView| crate::rows::TodoView { tags, ..t }
}

pub open spec fn repinned() -> spec_fn(crate::rows::TodoView) -> crate::rows::TodoView {
    |t: crate::rows::TodoView| crate::rows::TodoView { pinned: !t.pinned, ..t }
}

/// Whether a todo is due within the day, which is given by its first moment and that of the next
/// day.
pub open spec fn due_within(t: crate::rows::TodoView, day: (i64, i64)) -> bool {
    t.due_at is Some && day.0 <= t.due_at->0 < day.1
}

/// Whether a todo is open and was due before the day.
pub open spec fn overdue(t: crate::rows::TodoView, day: (i64, i64)) -> bool {
    !t.done && t.due_at is Some && t.due_at->0 < day.0
}

/// Whether the list named `filter` shows a todo. Every name but the four that are spelled out
/// stands for the open todos, together with the done ones where `include_done` is set.
pub open spec fn filter_shows(
    filter: Seq<char>,
    include_done: bool,
    day: (i64, i64),
    t: crate::rows::TodoView,
) -> bool {
    if filter == "all"@ {
        true
    } else if filter == "done"@ {
        t.done
    } else if filter == "today"@ {
        due_within(t, day)
    } else if filter == "overdue"@ {
        overdue(t, day)
    } else {
        include_done || !t.done
    }
}

/// Whether a todo has the tag itself among its tags; the empty tag stands for any.
pub open spec fn tag_shows(tag: Seq<char>, t: crate::rows::TodoView) -> bool {
    tag.len() == 0 || crate::tags::has_tag(crate::json::json_strings(t.tags), tag)
}

pub open spec fn shows(
    filter: Seq<char>,
    tag: Seq<char>,
    include_done: bool,
    day: (i64, i64),
) -> spec_fn(crate::rows::TodoView) -> bool {
    |t: crate::rows::TodoView| filter_shows(filter, include_done, day, t) && tag_shows(tag, t)
}

/// The todos that a list shows, in the order of todos.
pub open spec fn listed_todos(
    todos: Seq<crate::rows::TodoView>,
    filter: Seq<char>,
    tag: Seq<char>,
    include_done: bool,
    day: (i64, i64),
) -> Seq<crate::rows::TodoView> {
    crate::order::listing(
        todos,
        shows(filter, tag, include_done, day),
        crate::rows::todo_order(),
    )
}

/// Whether the list has exactly those todos that its filter shows and that have the tag as a whole
/// tag, of all todos whose tags are stored as a list `l`.
pub open spec fn finds_whole_tags(
    list: Seq<crate::rows::TodoView>,
    todos: Seq<crate::rows::TodoView>,
    filter: Seq<char>,
    tag: Seq<char>,
    include_done: bool,
    day: (i64, i64),
) -> bool {
    forall|k: int, l: Seq<Seq<char>>|
        0 <= k < todos.len() && #[trigger] crate::json::json_array(l) == (#[trigger] todos[k]).tags
            ==> (list.contains(todos[k]) <==> filter_shows(filter, include_done, day, todos[k]) && (
        tag.len() == 0 || l.contains(tag)))
}

fn exec_filter_shows(filter: &str, include_done: bool, day: (i64, i64), t: &TodoRow) -> (res: bool)
    ensures
        res == filter_shows(filter@, include_done, day, t@),
{
    if str_eq(filter, "all") {
        true
    } else if str_eq(filter, "done") {
        t.done
    } else if str_eq(filter, "today") {
        match t.due_at {
            Some(due) => day.0 <= due && due < day.1,
            None => false,
        }
    } else if str_eq(filter, "overdue") {
        match t.due_at {
            Some(due) => !t.done && due < day.0,
            None => false,
        }
    } else {
        include_done || !t.done
    }
}

proof fn lemma_amended_at(
    todos: Seq<crate::rows::TodoView>,
    i: int,
    change: spec_fn(crate::rows::TodoView) -> crate::rows::TodoView,
)
    requires
        crate::rows::todo_ids_rise(todos),
        0 <= i < todos.len(),
    ensures
        amended(todos, todos[i].id, change) == todos.update(i, change(todos[i])),
{
    let id = todos[i].id;
    assert forall|k: int| 0 <= k < todos.len() && k != i implies (#[trigger] todos[k]).id != id by {
        if k < i {
            assert(todos[k].id < todos[i].id);
        } else {
            assert(todos[i].id < todos[k].id);
        }
    }
    assert(amended(todos, id, change) =~= todos.update(i, change(todos[i])));
}

proof fn lemma_amended_nowhere(
    todos: Seq<crate::rows::TodoView>,
    id: i64,
    change: spec_fn(crate::rows::TodoView) -> crate::rows::TodoView,
)
    requires
        todo_index(todos, id) is None,
    ensures
        amended(todos, id, change) == todos,
{
    assert forall|k: int| 0 <= k < todos.len() implies (#[trigger] todos[k]).id != id by {}
    assert(amended(todos, id, change) =~= todos);
}

impl Store {
    /// The index of the todo with the given id.
    pub(super) fn find_todo(&self, id: i64) -> (res: Option<usize>)
        requires
            self.wf(),
        ensures
            match res {
                Some(i) => todo_index(self@.todos, id) == Some(i as int) && i < self.todos@.len()
                    && self.todos@[i as int].id == id,
                None => todo_index(self@.todos, id) is None,
            },
    {
        let mut lo: usize = 0;
        let mut hi: usize = self.todos.len();
        let ghost todos = self@.todos;
        while lo < hi
            invariant
                self.wf(),
                todos == self@.todos,
                lo <= hi <= self.todos@.len(),
                forall|k: int| 0 <= k < lo ==> (#[trigger] todos[k]).id < id,
                forall|k: int| hi <= k < todos.len() ==> (#[trigger] todos[k]).id > id,
            decreases hi - lo,
        {
            let mid = lo + (hi - lo) / 2;
            let found = self.todos[mid].id;
            assert(todos[mid as int].id == found);
            if found == id {
                proof {
                    let j = choose|j: int| 0 <= j < todos.len() && (#[trigger] todos[j]).id == id;
                    if j < mid {
                        assert(todos[j].id < todos[mid as int].id);
                    }
                    if mid < j {
                        assert(todos[mid as int].id < todos[j].id);
                    }
                }
                return Some(mid);
            }
            if found < id {
                assert forall|k: int| 0 <= k < mid + 1 implies (#[trigger] todos[k]).id < id by {
                    if k < mid {
                        assert(todos[k].id < todos[mid as int].id);
                    }
                }
                lo = mid + 1;
            } else {
                assert forall|k: int| mid <= k < todos.len() implies (#[trigger] todos[k]).id > id by {
                    if k > mid {
                        assert(todos[mid as int].id < todos[k].id);
                    }
                }
                hi = mid;
            }
        }
        None
    }

    /// Puts the changed row of a todo in its place.
    fn put_todo(
        &mut self,
        i: usize,
        row: TodoRow,
        Ghost(change): Ghost<spec_fn(crate::rows::TodoView) -> crate::rows::TodoView>,
    )
        requires
            old(self).wf(),
            i < old(self).todos@.len(),
            row@ == change(old(self).todos@[i as int]@),
            row.id == old(self).todos@[i as int].id,
        ensures
            final(self).wf(),
            final(self)@ == (super::StoreView {
                todos: amended(old(self)@.todos, old(self).todos@[i as int].id, change),
                ..old(self)@
            }),
    {
        let ghost v = self@;
        proof {
            lemma_amended_at(v.todos, i as int, change);
        }
        self.todos[i] = row;
        assert(self@.todos =~= v.todos.update(i as int, row@));
    }

    /// Adds a todo with the time `ts` and gives its id.
    pub fn todos_add_at(&mut self, input: &TodoInput, ts: i64) -> (res: Result<i64, StoreError>)
        requires
            old(self).wf(),
        ensures
            final(self).wf(),
            match next_todo_id(old(self)@.todos) {
                Some(id) => res == Ok::<i64, StoreError>(id) && final(self)@ == (
                super::StoreView {
                    todos: old(self)@.todos.push(new_todo(input@, ts, id)),
                    ..old(self)@
                }),
                None => res == Err::<i64, StoreError>(StoreError::Full) && final(self)@
                    == old(self)@,
            },
    {
        let ghost v = self@;
        let id = if self.todos.len() == 0 {
            1
        } else {
            let last = self.todos[self.todos.len() - 1].id;
            if last == i64::MAX {
                return Err(StoreError::Full);
            }
            last + 1
        };
        let title = match &input.title {
            Some(t) => t.clone(),
            None => auto_title(&input.text, input.kind.as_str()),
        };
        let row = TodoRow {
            id,
            ts,
            done: false,
            kind: input.kind.clone(),
            title: Some(title),
            content: copy_opt(&input.content),
            text: copy_opt(&input.text),
            image_path: copy_opt(&input.image_path),
            files_json: copy_opt(&input.files_json),
            size: input.size,
            priority: match input.priority {
                Some(p) => p,
                None => 0,
            },
            due_at: input.due_at,
            tags: match &input.tags {
                Some(t) => t.clone(),
                None => "[]".to_owned(),
            },
            pinned: false,
            done_at: None,
        };
        self.todos.push(row);
        assert(self@.todos =~= v.todos.push(row@));
        Ok(id)
    }

    /// Adds a todo and gives its id.
    pub fn todos_add(&mut self, input: &TodoInput) -> (res: Result<i64, StoreError>)
        requires
            old(self).wf(),
        ensures
            final(self).wf(),
            match next_todo_id(old(self)@.todos) {
                Some(id) => res == Ok::<i64, StoreError>(id) && exists|now: i64|
                    crate::clock::is_now(now) && final(self)@ == (super::StoreView {
                        todos: old(self)@.todos.push(#[trigger] new_todo(input@, now, id)),
                        ..old(self)@
                    }),
                None => res == Err::<i64, StoreError>(StoreError::Full) && final(self)@
                    == old(self)@,
            },
    {
        let now = now_ts_ms();
        self.todos_add_at(input, now)
    }

    /// The todos that a list shows on a given day.
    pub fn todos_list_for_day(
        &self,
        filter: &str,
        tag: &str,
        include_done: bool,
        day: (i64, i64),
    ) -> (res: Vec<TodoRow>)
        requires
            self.wf(),
        ensures
            crate::order::row_views(res@) == listed_todos(
                self@.todos,
                filter@,
                tag@,
                include_done,
                day,
            ),
            finds_whole_tags(
                crate::order::row_views(res@),
                self@.todos,
                filter@,
                tag@,
                include_done,
                day,
            ),
    {
        let any_tag = str_eq(tag, "");
        proof {
            reveal_strlit("");
            assert(any_tag == (tag@.len() == 0)) by {
                if tag@.len() == 0 {
                    assert(tag@ =~= ""@);
                }
            }
        }
        let ghost keep = shows(filter@, tag@, include_done, day);
        let ghost todos = self@.todos;
        let mut flags: Vec<bool> = Vec::new();
        for i in 0..self.todos.len()
            invariant
                todos == self@.todos,
                flags@.len() == i,
                any_tag == (tag@.len() == 0),
                keep == shows(filter@, tag@, include_done, day),
                forall|k: int| 0 <= k < i ==> #[trigger] flags@[k] == keep(self.todos@[k]@),
                forall|k: int, l: Seq<Seq<char>>|
                    0 <= k < i && #[trigger] crate::json::json_array(l) == (
                    #[trigger] todos[k]).tags && filter_shows(
                        filter@,
                        include_done,
                        day,
                        todos[k],
                    ) && !any_tag ==> crate::json::json_strings(todos[k].tags) == Some(l),
        {
            let row = &self.todos[i];
            let flag = exec_filter_shows(filter, include_done, day, row) && (any_tag || holds_tag(
                &stored_tags(row.tags.as_str()),
                tag,
            ));
            flags.push(flag);
        }
        proof {
            self.lemma_todos_listable();
        }
        let idx = list_where(&self.todos, &flags);
        let ghost rows = crate::order::listing(todos, keep, crate::rows::todo_order());
        assert(crate::order::picked(idx@, self.todos@) == rows);
        let mut out: Vec<TodoRow> = Vec::new();
        for k in 0..idx.len()
            invariant
                crate::order::picked(idx@, self.todos@) == rows,
                forall|k: int| 0 <= k < idx@.len() ==> #[trigger] idx@[k] < self.todos@.len(),
                crate::order::row_views(out@) == rows.take(k as int),
        {
            let ghost prev = crate::order::row_views(out@);
            out.push(self.todos[idx[k]].clone());
            assert(rows[k as int] == self.todos@[idx@[k as int] as int]@);
            assert(crate::order::row_views(out@) =~= prev.push(rows[k as int]));
            assert(rows.take(k + 1) =~= prev.push(rows[k as int]));
        }
        assert(rows.take(rows.len() as int) =~= rows);
        proof {
            crate::order::lemma_listing(todos, keep, crate::rows::todo_order());
            assert forall|k: int, l: Seq<Seq<char>>|
                0 <= k < todos.len() && #[trigger] crate::json::json_array(l) == (
                #[trigger] todos[k]).tags implies (rows.contains(todos[k]) <==> filter_shows(
                filter@,
                include_done,
                day,
                todos[k],
            ) && (tag@.len() == 0 || l.contains(tag@))) by {
                assert(todos.contains(todos[k]));
                assert(rows.contains(todos[k]) <==> keep(todos[k]));
            }
        }
        out
    }

    /// The todos that a list shows. The day that counts is the current local day.
    pub fn todos_list(&self, filter: &str, tag: &str, include_done: bool) -> (res: Vec<TodoRow>)
        requires
            self.wf(),
        ensures
            exists|day: (i64, i64)|
                crate::clock::is_local_day(day) && crate::order::row_views(res@)
                    == #[trigger] listed_todos(self@.todos, filter@, tag@, include_done, day)
                    && finds_whole_tags(
                    crate::order::row_views(res@),
                    self@.todos,
                    filter@,
                    tag@,
                    include_done,
                    day,
                ),
    {
        let day = local_day_bounds();
        self.todos_list_for_day(filter, tag, include_done, day)
    }

    proof fn lemma_todos_listable(&self)
        requires
            self.wf(),
        ensures
            crate::order::strict_order(
                crate::order::row_views(self.todos@),
                crate::rows::todo_order(),
            ),
            crate::order::distinct_rows(self.todos@),
    {
        let todos = self@.todos;
        crate::rows::lemma_todo_order(todos);
        assert forall|i: int, j: int|
            0 <= i < self.todos@.len() && 0 <= j < self.todos@.len() && i
                != j implies #[trigger] self.todos@[i]@ != #[trigger] self.todos@[j]@ by {
            if i < j {
                assert(todos[i].id < todos[j].id);
            } else {
                assert(todos[j].id < todos[i].id);
            }
        }
    }
}

/// An open todo.
pub open spec fn is_open() -> spec_fn(crate::rows::TodoView) -> bool {
    |t: crate::rows::TodoView| !t.done
}

pub open spec fn is_done() -> spec_fn(crate::rows::TodoView) -> bool {
    |t: crate::rows::TodoView| t.done
}

/// An open todo that is due within the day.
pub open spec fn is_due(day: (i64, i64)) -> spec_fn(crate::rows::TodoView) -> bool {
    |t: crate::rows::TodoView| !t.done && due_within(t, day)
}

pub open spec fn is_overdue(day: (i64, i64)) -> spec_fn(crate::rows::TodoView) -> bool {
    |t: crate::rows::TodoView| overdue(t, day)
}

/// The tags of the open todos, one after the other. Where a todo's tags are not a list of texts,
/// it has none.
pub open spec fn open_tags(todos: Seq<crate::rows::TodoView>) -> Seq<Seq<char>>
    decreases todos.len(),
{
    if todos.len() == 0 {
        seq![]
    } else {
        let t = todos.last();
        open_tags(todos.drop_last()) + match crate::json::json_strings(t.tags) {
            Some(list) => if t.done {
                seq![]
            } else {
                list
            },
            None => seq![],
        }
    }
}

/// How many todos there are of each sort, and how often each tag occurs among the open ones.
#[derive(Debug)]
pub struct TodoStats {
    pub open: usize,
    pub today: usize,
    pub overdue: usize,
    pub done: usize,
    pub tags: Vec<TagCount>,
}

/// Whether the numbers are those of the todos on a given day.
pub open spec fn are_stats(
    s: TodoStats,
    todos: Seq<crate::rows::TodoView>,
    day: (i64, i64),
) -> bool {
    &&& s.open == todos.filter(is_open()).len()
    &&& s.today == todos.filter(is_due(day)).len()
    &&& s.overdue == todos.filter(is_overdue(day)).len()
    &&& s.done == todos.filter(is_done()).len()
    &&& crate::tags::is_tally(s.tags@, open_tags(todos))
}

impl Store {
    /// Sets the priority of todo `id`, where there is one.
    pub fn todos_set_priority(&mut self, id: i64, priority: i64)
        requires
            old(self).wf(),
        ensures
            final(self).wf(),
            final(self)@ == (super::StoreView {
                todos: amended(old(self)@.todos, id, prioritized(priority)),
                ..old(self)@
            }),
    {
        match self.find_todo(id) {
            Some(i) => {
                let mut row = self.todos[i].clone();
                row.priority = priority;
                self.put_todo(i, row, Ghost(prioritized(priority)));
            },
            None => {
                proof {
                    lemma_amended_nowhere(self@.todos, id, prioritized(priority));
                }
            },
        }
    }

    /// Sets the due date of todo `id`, where there is one, or clears it.
    pub fn todos_set_due(&mut self, id: i64, due: Option<i64>)
        requires
            old(self).wf(),
        ensures
            final(self).wf(),
            final(self)@ == (super::StoreView {
                todos: amended(old(self)@.todos, id, dated(due)),
                ..old(self)@
            }),
    {
        match self.find_todo(id) {
            Some(i) => {
                let mut row = self.todos[i].clone();
                row.due_at = due;
                self.put_todo(i, row, Ghost(dated(due)));
            },
            None => {
                proof {
                    lemma_amended_nowhere(self@.todos, id, dated(due));
                }
            },
        }
    }

    /// Sets the stored tags of todo `id`, where there is one.
    pub fn todos_set_tags(&mut self, id: i64, tags: &str)
        requires
            old(self).wf(),
        ensures
            final(self).wf(),
            final(self)@ == (super::StoreView {
                todos: amended(old(self)@.todos, id, tagged(tags@)),
                ..old(self)@
            }),
    {
        match self.find_todo(id) {
            Some(i) => {
                let mut row = self.todos[i].clone();
                row.tags = tags.to_owned();
                self.put_todo(i, row, Ghost(tagged(tags@)));
            },
            None => {
                proof {
                    lemma_amended_nowhere(self@.todos, id, tagged(tags@));
                }
            },
        }
    }

    /// Sets the title and the content of todo `id`, where there is one, and its text and size
    /// where a text is given.
    pub fn todos_update_full(
        &mut self,
        id: i64,
        title: &str,
        content: &Option<String>,
        text: &Option<String>,
    )
        requires
            old(self).wf(),
        ensures
            final(self).wf(),
            final(self)@ == (super::StoreView {
                todos: amended(
                    old(self)@.todos,
                    id,
                    rewritten(title@, crate::rows::opt_view(*content), crate::rows::opt_view(*text)),
                ),
                ..old(self)@
            }),
    {
        let ghost change = rewritten(
            title@,
            crate::rows::opt_view(*content),
            crate::rows::opt_view(*text),
        );
        match self.find_todo(id) {
            Some(i) => {
                let mut row = self.todos[i].clone();
                row.title = Some(title.to_owned());
                row.content = copy_opt(content);
                if let Some(t) = text {
                    row.text = Some(t.clone());
                    row.size = t.as_str().as_bytes().len() as i64;
                }
                self.put_todo(i, row, Ghost(change));
            },
            None => {
                proof {
                    lemma_amended_nowhere(self@.todos, id, change);
                }
            },
        }
    }

    /// Ticks todo `id` off at the time `now`, or opens it again, and gives whether it is done.
    pub fn todos_toggle_at(&mut self, id: i64, now: i64) -> (res: Result<bool, StoreError>)
        requires
            old(self).wf(),
        ensures
            final(self).wf(),
            final(self)@ == (super::StoreView {
                todos: amended(old(self)@.todos, id, toggled(now)),
                ..old(self)@
            }),
            match todo_at(old(self)@.todos, id) {
                Some(t) => res == Ok::<bool, StoreError>(!t.done),
                None => res == Err::<bool, StoreError>(StoreError::NoRow),
            },
    {
        match self.find_todo(id) {
            Some(i) => {
                let mut row = self.todos[i].clone();
                let done = !row.done;
                row.done = done;
                row.done_at = if done {
                    Some(now)
                } else {
                    None
                };
                self.put_todo(i, row, Ghost(toggled(now)));
                Ok(done)
            },
            None => {
                proof {
                    lemma_amended_nowhere(self@.todos, id, toggled(now));
                }
                Err(StoreError::NoRow)
            },
        }
    }

    /// Ticks todo `id` off, or opens it again, and gives whether it is done.
    pub fn todos_toggle(&mut self, id: i64) -> (res: Result<bool, StoreError>)
        requires
            old(self).wf(),
        ensures
            final(self).wf(),
            exists|now: i64|
                crate::clock::is_now(now) && final(self)@ == (super::StoreView {
                    todos: amended(old(self)@.todos, id, #[trigger] toggled(now)),
                    ..old(self)@
                }),
            match todo_at(old(self)@.todos, id) {
                Some(t) => res == Ok::<bool, StoreError>(!t.done),
                None => res == Err::<bool, StoreError>(StoreError::NoRow),
            },
    {
        let now = now_ts_ms();
        self.todos_toggle_at(id, now)
    }

    /// Flips the pin of todo `id` and gives its new value.
    pub fn todos_toggle_pin(&mut self, id: i64) -> (res: Result<bool, StoreError>)
        requires
            old(self).wf(),
        ensures
            final(self).wf(),
            final(self)@ == (super::StoreView {
                todos: amended(old(self)@.todos, id, repinned()),
                ..old(self)@
            }),
            match todo_at(old(self)@.todos, id) {
                Some(t) => res == Ok::<bool, StoreError>(!t.pinned),
                None => res == Err::<bool, StoreError>(StoreError::NoRow),
            },
    {
        match self.find_todo(id) {
            Some(i) => {
                let mut row = self.todos[i].clone();
                let pinned = !row.pinned;
                row.pinned = pinned;
                self.put_todo(i, row, Ghost(repinned()));
                Ok(pinned)
            },
            None => {
                proof {
                    lemma_amended_nowhere(self@.todos, id, repinned());
                }
                Err(StoreError::NoRow)
            },
        }
    }

    /// The todo with the given id.
    pub fn todos_get(&self, id: i64) -> (res: Option<TodoRow>)
        requires
            self.wf(),
        ensures
            match res {
                Some(row) => todo_at(self@.todos, id) == Some(row@),
                None => todo_at(self@.todos, id) is None,
            },
    {
        match self.find_todo(id) {
            Some(i) => Some(self.todos[i].clone()),
            None => None,
        }
    }

    /// How many todos are open.
    pub fn todos_count_open(&self) -> (res: usize)
        ensures
            res == self@.todos.filter(is_open()).len(),
    {
        let ghost todos = self@.todos;
        let mut n: usize = 0;
        assert(todos.take(0).filter(is_open()).len() == 0) by {
            reveal(Seq::filter);
        }
        for i in 0..self.todos.len()
            invariant
                todos == self@.todos,
                n <= i,
                n == todos.take(i as int).filter(is_open()).len(),
        {
            proof {
                reveal(Seq::filter);
                assert(todos.take(i + 1).drop_last() =~= todos.take(i as int));
                assert(todos.take(i + 1).last() == self.todos@[i as int]@);
            }
            if !self.todos[i].done {
                n += 1;
            }
        }
        assert(todos.take(todos.len() as int) =~= todos);
        n
    }

    /// The numbers of the todo list on a given day.
    pub fn todos_stats_for_day(&self, day: (i64, i64)) -> (res: TodoStats)
        ensures
            are_stats(res, self@.todos, day),
    {
        let ghost todos = self@.todos;
        let mut open: usize = 0;
        let mut today: usize = 0;
        let mut late: usize = 0;
        let mut done: usize = 0;
        let mut tags: Vec<String> = Vec::new();
        proof {
            reveal(Seq::filter);
            assert(crate::text::views(tags@) =~= open_tags(todos.take(0)));
        }
        for i in 0..self.todos.len()
            invariant
                todos == self@.todos,
                open <= i,
                today <= i,
                late <= i,
                done <= i,
                open == todos.take(i as int).filter(is_open()).len(),
                today == todos.take(i as int).filter(is_due(day)).len(),
                late == todos.take(i as int).filter(is_overdue(day)).len(),
                done == todos.take(i as int).filter(is_done()).len(),
                crate::text::views(tags@) == open_tags(todos.take(i as int)),
        {
            let row = &self.todos[i];
            let ghost t0 = crate::text::views(tags@);
            proof {
                reveal(Seq::filter);
                assert(todos.take(i + 1).drop_last() =~= todos.take(i as int));
                assert(todos.take(i + 1).last() == row@);
            }
            if row.done {
                done += 1;
                assert(t0 + Seq::<Seq<char>>::empty() =~= t0);
            } else {
                open += 1;
                if let Some(due) = row.due_at {
                    if due < day.0 {
                        late += 1;
                    }
                    if day.0 <= due && due < day.1 {
                        today += 1;
                    }
                }
                if let Some(mut list) = stored_tags(row.tags.as_str()) {
                    let ghost more = list@;
                    let ghost had = tags@;
                    tags.append(&mut list);
                    assert(crate::text::views(tags@) =~= crate::text::views(had)
                        + crate::text::views(more));
                } else {
                    assert(t0 + Seq::<Seq<char>>::empty() =~= t0);
                }
            }
        }
        assert(todos.take(todos.len() as int) =~= todos);
        TodoStats { open, today, overdue: late, done, tags: tally(&tags) }
    }

    /// The numbers of the todo list. The day that counts is the current local day.
    pub fn todos_stats(&self) -> (res: TodoStats)
        ensures
            exists|day: (i64, i64)|
                crate::clock::is_local_day(day) && #[trigger] are_stats(
                    res,
                    self@.todos,
                    day,
                ),
    {
        let day = local_day_bounds();
        self.todos_stats_for_day(day)
    }
}

} // verus!
