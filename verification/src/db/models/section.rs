//! A section of a project: a column of its tasks.

use vstd::prelude::*;

use crate::db::store::Row;

verus! {

/// A section of a project: a column of tasks, shown at place `index` among
/// the sections.
#[derive(Debug, PartialEq, Eq)]
pub struct Section {
    pub id: i64,
    pub name: String,
    pub project: i64,
    pub index: i32,
}

impl Section {
    pub fn new(id: i64, name: String, project: i64, index: i32) -> (r: Section)
        ensures
            r == (Section { id, name, project, index }),
    {
        Section { id, name, project, index }
    }
}

impl Default for Section {
    fn default() -> (r: Section)
        ensures
            r.id == 1 && r.name@ == Seq::<char>::empty() && r.project == 1 && r.index == 0,
    {
        Section::new(1, String::new(), 1, 0)
    }
}

impl Row for Section {
    open spec fn row_id(&self) -> i64 {
        self.id
    }

    fn rowid(&self) -> (r: i64) {
        self.id
    }

    fn copied(&self) -> (r: Self) {
        Section { id: self.id, name: self.name.clone(), project: self.project, index: self.index }
    }
}

} // verus!
