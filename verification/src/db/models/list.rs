//! A list of a project's tasks.

use vstd::prelude::*;

use crate::db::store::Row;

verus! {

/// A list of tasks inside a project, shown at place `index` among the
/// project's lists.
#[derive(Debug, PartialEq, Eq)]
pub struct List {
    pub id: i64,
    pub name: String,
    pub project: i64,
    pub index: i32,
}

impl List {
    pub fn new(id: i64, name: String, project: i64, index: i32) -> (r: List)
        ensures
            r == (List { id, name, project, index }),
    {
        List { id, name, project, index }
    }
}

impl Default for List {
    fn default() -> (r: List)
        ensures
            r.id == 1 && r.name@ == Seq::<char>::empty() && r.project == 1 && r.index == 0,
    {
        List::new(1, String::new(), 1, 0)
    }
}

impl Row for List {
    open spec fn row_id(&self) -> i64 {
        self.id
    }

    fn rowid(&self) -> (r: i64) {
        self.id
    }

    fn copied(&self) -> (r: Self) {
        List { id: self.id, name: self.name.clone(), project: self.project, index: self.index }
    }
}

} // verus!
