//! The store: clipboard history, todo list and settings.
//!
//! The store holds the rows of the database and decides what happens to them. Its methods say
//! which rows change and which blob files become garbage; writing rows and files is up to the
//! caller.

pub mod blobs;
pub mod clips;
pub mod deletion;
pub mod laws;
pub mod migrate;
mod settings;
pub mod todos;

use crate::rows::{ClipRow, TodoRow};
use vstd::prelude::*;

verus! {

/// A setting: a name and its value.
#[derive(Debug)]
pub struct Setting {
    pub key: String,
    pub value: String,
}

/// The rows of the database, and the directory of the blob files.
#[derive(Debug)]
pub struct Store {
    clips: Vec<ClipRow>,
    todos: Vec<TodoRow>,
    settings: Vec<Setting>,
    blob_dir: String,
}

/// Why an operation on a store failed.
#[derive(Debug, Clone, Copy, PartialEq, Eq, Structural)]
pub enum StoreError {
    /// The row that was asked for does not exist.
    NoRow,
    /// The table has a row with the largest id there is.
    Full,
}

/// What a store holds.
#[verifier::ext_equal]
pub struct StoreView {
    /// The clipboard history, by rising id.
    pub clips: Seq<crate::rows::ClipView>,
    /// The todo list, by rising id.
    pub todos: Seq<crate::rows::TodoView>,
    pub settings: Map<Seq<char>, Seq<char>>,
    /// What stands before the name of a blob file in its path.
    pub blob_dir: Seq<char>,
}

/// The map that a list of settings stands for.
pub open spec fn settings_map(s: Seq<Setting>) -> Map<Seq<char>, Seq<char>>
    decreases s.len(),
{
    if s.len() == 0 {
        Map::empty()
    } else {
        settings_map(s.drop_last()).insert(s.last().key@, s.last().value@)
    }
}

impl View for Store {
    type V = StoreView;

    closed spec fn view(&self) -> StoreView {
        StoreView {
            clips: crate::order::row_views(self.clips@),
            todos: crate::order::row_views(self.todos@),
            settings: settings_map(self.settings@),
            blob_dir: self.blob_dir@,
        }
    }
}

impl StoreView {
    /// Whether ids rise from row to row in both tables, and no two clips have the same content
    /// address.
    pub open spec fn valid(self) -> bool {
        &&& crate::rows::clip_ids_rise(self.clips)
        &&& crate::rows::hashes_differ(self.clips)
        &&& crate::rows::todo_ids_rise(self.todos)
    }
}

impl Store {
    /// Whether the store is in order: ids rise, and neither a content address nor a setting occurs
    /// twice.
    pub closed spec fn wf(&self) -> bool {
        &&& self@.valid()
        &&& forall|i: int, j: int|
            0 <= i < j < self.settings@.len() ==> (#[trigger] self.settings@[i]).key@ != (
            #[trigger] self.settings@[j]).key@
    }

    /// A store in order holds tables in order.
    pub proof fn lemma_valid(&self)
        requires
            self.wf(),
        ensures
            self@.valid(),
    {
    }

    /// The directory of the blob files: what stands before a file's name in its path.
    pub fn blob_dir(&self) -> (res: &str)
        ensures
            res@ == self@.blob_dir,
    {
        self.blob_dir.as_str()
    }
}

} // verus!
