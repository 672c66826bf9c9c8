//! Clipboard events, and the rows of the two tables.

use crate::order::Ranked;
use vstd::prelude::*;

verus! {

/// What was on the clipboard when it changed.
#[derive(Debug)]
pub struct ClipEvent {
    /// The clipboard's sequence number.
    pub seq: u32,
    pub ts: i64,
    pub text: Option<String>,
    /// The raw bytes of the "HTML Format", header of offsets included.
    pub html: Option<Vec<u8>>,
    /// The raw bytes of a bitmap.
    pub dib: Option<Vec<u8>>,
    pub files: Option<Vec<String>>,
}

/// A row of the clipboard history.
#[derive(Debug)]
pub struct ClipRow {
    pub id: i64,
    pub ts: i64,
    pub kind: String,
    pub text: Option<String>,
    pub image_path: Option<String>,
    pub files_json: Option<String>,
    pub html_path: Option<String>,
    pub hash: String,
    pub size: i64,
    pub pinned: bool,
}

/// A row of the todo list.
#[derive(Debug)]
pub struct TodoRow {
    pub id: i64,
    pub ts: i64,
    pub done: bool,
    pub kind: String,
    pub title: Option<String>,
    pub content: Option<String>,
    pub text: Option<String>,
    pub image_path: Option<String>,
    pub files_json: Option<String>,
    pub size: i64,
    pub priority: i64,
    pub due_at: Option<i64>,
    pub tags: String,
    pub pinned: bool,
    pub done_at: Option<i64>,
}

/// What a new todo is made of: a text, the path of an image, or a list of files.
#[derive(Debug)]
pub struct TodoInput {
    pub kind: String,
    pub title: Option<String>,
    pub content: Option<String>,
    pub text: Option<String>,
    pub image_path: Option<String>,
    pub files_json: Option<String>,
    pub size: i64,
    pub priority: Option<i64>,
    pub due_at: Option<i64>,
    pub tags: Option<String>,
}

/// The view of an optional string.
pub open spec fn opt_view(s: Option<String>) -> Option<Seq<char>> {
    match s {
        Some(s) => Some(s@),
        None => None,
    }
}

/// A clipboard event, with its texts as sequences of characters.
#[verifier::ext_equal]
pub struct EventView {
    pub seq: u32,
    pub ts: i64,
    pub text: Option<Seq<char>>,
    pub html: Option<Seq<u8>>,
    pub dib: Option<Seq<u8>>,
    pub files: Option<Seq<Seq<char>>>,
}

impl View for ClipEvent {
    type V = EventView;

    open spec fn view(&self) -> EventView {
        EventView {
            seq: self.seq,
            ts: self.ts,
            text: opt_view(self.text),
            html: match self.html {
                Some(b) => Some(b@),
                None => None,
            },
            dib: match self.dib {
                Some(b) => Some(b@),
                None => None,
            },
            files: match self.files {
                Some(f) => Some(crate::text::views(f@)),
                None => None,
            },
        }
    }
}

/// A row of the clipboard history, with its texts as sequences of characters.
#[verifier::ext_equal]
pub struct ClipView {
    pub id: i64,
    pub ts: i64,
    pub kind: Seq<char>,
    pub text: Option<Seq<char>>,
    pub image_path: Option<Seq<char>>,
    pub files_json: Option<Seq<char>>,
    pub html_path: Option<Seq<char>>,
    pub hash: Seq<char>,
    pub size: i64,
    pub pinned: bool,
}

/// A row of the todo list, with its texts as sequences of characters.
#[verifier::ext_equal]
pub struct TodoView {
    pub id: i64,
    pub ts: i64,
    pub done: bool,
    pub kind: Seq<char>,
    pub title: Option<Seq<char>>,
    pub content: Option<Seq<char>>,
    pub text: Option<Seq<char>>,
    pub image_path: Option<Seq<char>>,
    pub files_json: Option<Seq<char>>,
    pub size: i64,
    pub priority: i64,
    pub due_at: Option<i64>,
    pub tags: Seq<char>,
    pub pinned: bool,
    pub done_at: Option<i64>,
}

/// A new todo, with its texts as sequences of characters.
#[verifier::ext_equal]
pub struct TodoInputView {
    pub kind: Seq<char>,
    pub title: Option<Seq<char>>,
    pub content: Option<Seq<char>>,
    pub text: Option<Seq<char>>,
    pub image_path: Option<Seq<char>>,
    pub files_json: Option<Seq<char>>,
    pub size: i64,
    pub priority: Option<i64>,
    pub due_at: Option<i64>,
    pub tags: Option<Seq<char>>,
}

impl View for ClipRow {
    type V = ClipView;

    open spec fn view(&self) -> ClipView {
        ClipView {
            id: self.id,
            ts: self.ts,
            kind: self.kind@,
            text: opt_view(self.text),
            image_path: opt_view(self.image_path),
            files_json: opt_view(self.files_json),
            html_path: opt_view(self.html_path),
            hash: self.hash@,
            size: self.size,
            pinned: self.pinned,
        }
    }
}

impl View for TodoRow {
    type V = TodoView;

    open spec fn view(&self) -> TodoView {
        TodoView {
            id: self.id,
            ts: self.ts,
            done: self.done,
            kind: self.kind@,
            title: opt_view(self.title),
            content: opt_view(self.content),
            text: opt_view(self.text),
            image_path: opt_view(self.image_path),
            files_json: opt_view(self.files_json),
            size: self.size,
            priority: self.priority,
            due_at: self.due_at,
            tags: self.tags@,
            pinned: self.pinned,
            done_at: self.done_at,
        }
    }
}

impl View for TodoInput {
    type V = TodoInputView;

    open spec fn view(&self) -> TodoInputView {
        TodoInputView {
            kind: self.kind@,
            title: opt_view(self.title),
            content: opt_view(self.content),
            text: opt_view(self.text),
            image_path: opt_view(self.image_path),
            files_json: opt_view(self.files_json),
            size: self.size,
            priority: self.priority,
            due_at: self.due_at,
            tags: opt_view(self.tags),
        }
    }
}

/// A copy of an optional string.
pub fn copy_opt(s: &Option<String>) -> (res: Option<String>)
    ensures
        res == *s,
{
    match s {
        Some(s) => Some(s.clone()),
        None => None,
    }
}

impl Clone for ClipRow {
    fn clone(&self) -> (res: Self)
        ensures
            res == *self,
    {
        ClipRow {
            id: self.id,
            ts: self.ts,
            kind: self.kind.clone(),
            text: copy_opt(&self.text),
            image_path: copy_opt(&self.image_path),
            files_json: copy_opt(&self.files_json),
            html_path: copy_opt(&self.html_path),
            hash: self.hash.clone(),
            size: self.size,
            pinned: self.pinned,
        }
    }
}

impl Clone for TodoRow {
    fn clone(&self) -> (res: Self)
        ensures
            res == *self,
    {
        TodoRow {
            id: self.id,
            ts: self.ts,
            done: self.done,
            kind: self.kind.clone(),
            title: copy_opt(&self.title),
            content: copy_opt(&self.content),
            text: copy_opt(&self.text),
            image_path: copy_opt(&self.image_path),
            files_json: copy_opt(&self.files_json),
            size: self.size,
            priority: self.priority,
            due_at: self.due_at,
            tags: self.tags.clone(),
            pinned: self.pinned,
            done_at: self.done_at,
        }
    }
}

/// Clips are listed with pinned ones first, then the latest first, then by id.
pub open spec fn clip_before(a: ClipView, b: ClipView) -> bool {
    if a.pinned != b.pinned {
        a.pinned
    } else if a.ts != b.ts {
        a.ts > b.ts
    } else {
        a.id < b.id
    }
}

pub open spec fn clip_order() -> spec_fn(ClipView, ClipView) -> bool {
    |a: ClipView, b: ClipView| clip_before(a, b)
}

/// Todos are listed with pinned ones first, then open ones, then by falling priority, then those
/// with a due date by that date, then the latest first, then by id.
pub open spec fn todo_before(a: TodoView, b: TodoView) -> bool {
    if a.pinned != b.pinned {
        a.pinned
    } else if a.done != b.done {
        b.done
    } else if a.priority != b.priority {
        a.priority > b.priority
    } else if a.due_at != b.due_at {
        match (a.due_at, b.due_at) {
            (Some(x), Some(y)) => x < y,
            (Some(_), None) => true,
            _ => false,
        }
    } else if a.ts != b.ts {
        a.ts > b.ts
    } else {
        a.id < b.id
    }
}

pub open spec fn todo_order() -> spec_fn(TodoView, TodoView) -> bool {
    |a: TodoView, b: TodoView| todo_before(a, b)
}

impl Ranked for ClipRow {
    open spec fn order() -> spec_fn(ClipView, ClipView) -> bool {
        clip_order()
    }

    fn precedes(&self, other: &Self) -> (res: bool) {
        if self.pinned != other.pinned {
            self.pinned
        } else if self.ts != other.ts {
            self.ts > other.ts
        } else {
            self.id < other.id
        }
    }
}

impl Ranked for TodoRow {
    open spec fn order() -> spec_fn(TodoView, TodoView) -> bool {
        todo_order()
    }

    fn precedes(&self, other: &Self) -> (res: bool) {
        if self.pinned != other.pinned {
            return self.pinned;
        }
        if self.done != other.done {
            return other.done;
        }
        if self.priority != other.priority {
            return self.priority > other.priority;
        }
        match (self.due_at, other.due_at) {
            (Some(x), Some(y)) => {
                if x != y {
                    return x < y;
                }
            },
            (Some(_), None) => {
                return true;
            },
            (None, Some(_)) => {
                return false;
            },
            (None, None) => {},
        }
        if self.ts != other.ts {
            return self.ts > other.ts;
        }
        self.id < other.id
    }
}

/// Whether the ids of the clips rise from row to row.
pub open spec fn clip_ids_rise(clips: Seq<ClipView>) -> bool {
    forall|i: int, j: int|
        0 <= i < j < clips.len() ==> (#[trigger] clips[i]).id < (#[trigger] clips[j]).id
}

/// Whether no two clips have the same content address.
pub open spec fn hashes_differ(clips: Seq<ClipView>) -> bool {
    forall|i: int, j: int|
        0 <= i < j < clips.len() ==> (#[trigger] clips[i]).hash != (#[trigger] clips[j]).hash
}

/// Deleting clips keeps ids rising and content addresses apart.
pub proof fn lemma_clips_filtered(clips: Seq<ClipView>, keep: spec_fn(ClipView) -> bool)
    requires
        clip_ids_rise(clips),
        hashes_differ(clips),
    ensures
        clip_ids_rise(clips.filter(keep)),
        hashes_differ(clips.filter(keep)),
{
    crate::seqs::lemma_filter_rises(clips, keep, |c: ClipView| c.id as int);
    crate::seqs::lemma_filter_elements(clips, keep);
    let f = clips.filter(keep);
    assert forall|i: int, j: int| 0 <= i < j < f.len() implies (#[trigger] f[i]).hash != (
    #[trigger] f[j]).hash by {
        assert(f.contains(f[i]) && f.contains(f[j]));
        let a = choose|a: int| 0 <= a < clips.len() && clips[a] == f[i];
        let b = choose|b: int| 0 <= b < clips.len() && clips[b] == f[j];
        assert(f[i].id < f[j].id);
        if a < b {
            assert(clips[a].hash != clips[b].hash);
        } else {
            assert(clips[b].hash != clips[a].hash);
        }
    }
}

/// Whether the ids of the todos rise from row to row.
pub open spec fn todo_ids_rise(todos: Seq<TodoView>) -> bool {
    forall|i: int, j: int|
        0 <= i < j < todos.len() ==> (#[trigger] todos[i]).id < (#[trigger] todos[j]).id
}

/// The order of clips is a strict total order on a table.
pub proof fn lemma_clip_order(clips: Seq<ClipView>)
    requires
        clip_ids_rise(clips),
    ensures
        crate::order::strict_order(clips, clip_order()),
{
    let before = clip_order();
    assert forall|a: ClipView, b: ClipView|
        #[trigger] clips.contains(a) && #[trigger] clips.contains(b) && a != b implies before(a, b)
        || before(b, a) by {
        let i = choose|i: int| 0 <= i < clips.len() && clips[i] == a;
        let j = choose|j: int| 0 <= j < clips.len() && clips[j] == b;
        if i < j {
            assert(clips[i].id < clips[j].id);
        } else {
            assert(clips[j].id < clips[i].id);
        }
    }
}

/// The order of todos is a strict total order on a table.
pub proof fn lemma_todo_order(todos: Seq<TodoView>)
    requires
        todo_ids_rise(todos),
    ensures
        crate::order::strict_order(todos, todo_order()),
{
    let before = todo_order();
    assert forall|a: TodoView, b: TodoView|
        #[trigger] todos.contains(a) && #[trigger] todos.contains(b) && a != b implies before(a, b)
        || before(b, a) by {
        let i = choose|i: int| 0 <= i < todos.len() && todos[i] == a;
        let j = choose|j: int| 0 <= j < todos.len() && todos[j] == b;
        if i < j {
            assert(todos[i].id < todos[j].id);
        } else {
            assert(todos[j].id < todos[i].id);
        }
    }
}

} // verus!
