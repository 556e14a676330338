//! The in-memory image of the application's database: one table per kind of
//! row, each holding its rows in the order of their ids.

use vstd::prelude::*;

use crate::db::models::{List, Project, Record, Reminder, Section, Task};

verus! {

/// A row of a table: it is known by its id.
pub trait Row: Sized {
    spec fn row_id(&self) -> i64;

    fn rowid(&self) -> (r: i64)
        ensures
            r == self.row_id(),
    ;

    /// A copy of the row, equal to it field by field.
    fn copied(&self) -> (r: Self)
        ensures
            r == *self,
    ;
}

/// The rows' ids rise strictly from first to last.
pub open spec fn ids_ascending<T: Row>(s: Seq<T>) -> bool {
    forall|i: int, j: int| 0 <= i < j < s.len() ==> s[i].row_id() < s[j].row_id()
}

/// Whether a row with this id is among the rows.
pub open spec fn has_id<T: Row>(s: Seq<T>, id: i64) -> bool {
    exists|i: int| 0 <= i < s.len() && s[i].row_id() == id
}

/// A table: its rows in ascending order of id, and the largest id it ever
/// handed out, which the next row's id follows (as SQLite's `AUTOINCREMENT`
/// does).
pub struct Table<T: Row> {
    rows: Vec<T>,
    last_id: i64,
}

impl<T: Row> View for Table<T> {
    type V = Seq<T>;

    closed spec fn view(&self) -> Seq<T> {
        self.rows@
    }
}

impl<T: Row> Table<T> {
    /// The largest id the table has handed out.
    pub closed spec fn last_id_spec(&self) -> i64 {
        self.last_id
    }

    #[verifier::type_invariant]
    pub open spec fn wf(&self) -> bool {
        &&& ids_ascending(self@)
        &&& forall|i: int| 0 <= i < self@.len() ==> #[trigger] self@[i].row_id() <= self.last_id_spec()
    }

    /// An empty table that has handed out no id.
    pub fn new() -> (t: Table<T>)
        ensures
            t@ == Seq::<T>::empty(),
            t.last_id_spec() == 0,
    {
        Table { rows: Vec::new(), last_id: 0 }
    }

    /// A table of the given rows, which must come in ascending order of id,
    /// none above `last_id`; `None` where they do not.
    pub fn from_rows(rows: Vec<T>, last_id: i64) -> (t: Option<Table<T>>)
        ensures
            t is Some <==> (ids_ascending(rows@) && forall|i: int|
                0 <= i < rows@.len() ==> #[trigger] rows@[i].row_id() <= last_id),
            t matches Some(t) ==> t@ == rows@ && t.last_id_spec() == last_id,
    {
        let n = rows.len();
        let mut k: usize = 0;
        while k < n
            invariant
                n == rows@.len(),
                k <= n,
                forall|i: int, j: int| 0 <= i < j < k ==> rows@[i].row_id() < rows@[j].row_id(),
                forall|i: int| 0 <= i < k ==> #[trigger] rows@[i].row_id() <= last_id,
            decreases n - k,
        {
            let id = rows[k].rowid();
            if id > last_id {
                return None;
            }
            if k > 0 && rows[k - 1].rowid() >= id {
                return None;
            }
            k = k + 1;
        }
        Some(Table { rows, last_id })
    }

    /// The rows, in ascending order of id.
    pub fn rows(&self) -> (r: &Vec<T>)
        ensures
            r@ == self@,
    {
        &self.rows
    }

    /// The largest id the table has handed out.
    pub fn last_id(&self) -> (r: i64)
        ensures
            r == self.last_id_spec(),
    {
        self.last_id
    }

    pub fn len(&self) -> (r: usize)
        ensures
            r == self@.len(),
    {
        self.rows.len()
    }

    /// The position of the row with id `id`, if there is one.
    pub fn find(&self, id: i64) -> (r: Option<usize>)
        ensures
            r matches Some(i) ==> i < self@.len() && self@[i as int].row_id() == id,
            r is None ==> !has_id(self@, id),
    {
        let n = self.rows.len();
        let mut k: usize = 0;
        while k < n
            invariant
                n == self@.len(),
                k <= n,
                forall|i: int| 0 <= i < k ==> #[trigger] self@[i].row_id() != id,
            decreases n - k,
        {
            if self.rows[k].rowid() == id {
                return Some(k);
            }
            k = k + 1;
        }
        None
    }

    /// The id that the next inserted row gets; `None` once the largest id has
    /// been handed out (SQLite then refuses the insert).
    pub fn next_id(&self) -> (r: Option<i64>)
        ensures
            r is Some <==> self.last_id_spec() < i64::MAX,
            r matches Some(id) ==> id == self.last_id_spec() + 1,
    {
        if self.last_id < i64::MAX {
            Some(self.last_id + 1)
        } else {
            None
        }
    }

    /// Appends a row whose id is the next one.
    pub(crate) fn push_new(&mut self, row: T)
        requires
            old(self).last_id_spec() < i64::MAX,
            row.row_id() == old(self).last_id_spec() + 1,
        ensures
            final(self)@ == old(self)@.push(row),
            final(self).last_id_spec() == old(self).last_id_spec() + 1,
    {
        proof {
            use_type_invariant(&*self);
        }
        let mut rows: Vec<T> = Vec::new();
        std::mem::swap(&mut rows, &mut self.rows);
        rows.push(row);
        self.last_id = self.last_id + 1;
        self.rows = rows;
    }

    /// Replaces the row at `i` by one with the same id.
    pub(crate) fn set(&mut self, i: usize, row: T)
        requires
            i < old(self)@.len(),
            row.row_id() == old(self)@[i as int].row_id(),
        ensures
            final(self)@ == old(self)@.update(i as int, row),
            final(self).last_id_spec() == old(self).last_id_spec(),
    {
        proof {
            use_type_invariant(&*self);
        }
        let ghost old_rows = self.rows@;
        let mut rows: Vec<T> = Vec::new();
        std::mem::swap(&mut rows, &mut self.rows);
        rows.set(i, row);
        proof {
            assert forall|a: int| 0 <= a < rows@.len() implies #[trigger] rows@[a].row_id()
                == old_rows[a].row_id() by {}
        }
        self.rows = rows;
    }

    /// The row with id `id` (`SELECT * FROM .. WHERE id = ?`).
    pub fn read(&self, id: i64) -> (r: Result<T, DbError>)
        ensures
            r is Ok <==> has_id(self@, id),
            r matches Ok(row) ==> row == row_of(self@, id),
            r matches Err(e) ==> e == DbError::QueryReturnedNoRows,
    {
        proof {
            use_type_invariant(self);
        }
        match self.find(id) {
            Some(i) => {
                let row = self.rows[i].copied();
                proof {
                    let j = choose|j: int| 0 <= j < self@.len() && self@[j].row_id() == id;
                    assert(j == i as int);
                }
                Ok(row)
            },
            None => Err(DbError::QueryReturnedNoRows),
        }
    }

    /// Replaces the row that has `row`'s id, if there is one
    /// (`UPDATE .. WHERE id = ?`).
    pub(crate) fn update_where_id(&mut self, row: T)
        ensures
            final(self)@ == old(self)@.map_values(
                |r: T| if r.row_id() == row.row_id() { row } else { r },
            ),
            final(self).last_id_spec() == old(self).last_id_spec(),
    {
        let ghost want = old(self)@.map_values(|r: T| if r.row_id() == row.row_id() { row } else { r });
        match self.find(row.rowid()) {
            None => {
                assert(self@ =~= want);
            },
            Some(i) => {
                proof {
                    use_type_invariant(&*self);
                }
                let ghost before = self@;
                self.set(i, row);
                assert(self@ =~= want);
            },
        }
    }

    /// Removes the row with id `id`, if there is one (`DELETE .. WHERE id = ?`).
    pub(crate) fn delete_where_id(&mut self, id: i64)
        ensures
            final(self)@ == old(self)@.filter(|r: T| r.row_id() != id),
            final(self).last_id_spec() == old(self).last_id_spec(),
    {
        let mut keep: Vec<bool> = Vec::new();
        let mut k: usize = 0;
        while k < self.rows.len()
            invariant
                k <= self.rows@.len(),
                keep@.len() == k,
                forall|i: int| 0 <= i < k ==> keep@[i] == ((#[trigger] self.rows@[i]).row_id() != id),
            decreases self.rows@.len() - k,
        {
            keep.push(self.rows[k].rowid() != id);
            k = k + 1;
        }
        self.retain(&keep, Ghost(|r: T| r.row_id() != id));
    }

    /// Keeps the rows for which `keep` holds, in their order.
    pub(crate) fn retain(&mut self, keep: &Vec<bool>, Ghost(f): Ghost<spec_fn(T) -> bool>)
        requires
            keep@.len() == old(self)@.len(),
            forall|i: int| 0 <= i < keep@.len() ==> keep@[i] == f(#[trigger] old(self)@[i]),
        ensures
            final(self)@ == old(self)@.filter(f),
            final(self).last_id_spec() == old(self).last_id_spec(),
    {
        proof {
            use_type_invariant(&*self);
        }
        let n = self.rows.len();
        let mut kept: Vec<T> = Vec::new();
        let mut k: usize = 0;
        while k < n
            invariant
                n == self.rows@.len(),
                keep@.len() == n,
                k <= n,
                forall|i: int| 0 <= i < keep@.len() ==> keep@[i] == f(#[trigger] self.rows@[i]),
                kept@ == self.rows@.take(k as int).filter(f),
                ids_ascending(self.rows@),
                forall|i: int| 0 <= i < self.rows@.len() ==> #[trigger] self.rows@[i].row_id() <= self.last_id,
                ids_ascending(kept@),
                forall|j: int| 0 <= j < kept@.len() ==> #[trigger] kept@[j].row_id() <= self.last_id,
                forall|j: int, m: int|
                    0 <= j < kept@.len() && k <= m < n ==> #[trigger] kept@[j].row_id()
                        < #[trigger] self.rows@[m].row_id(),
            decreases n - k,
        {
            proof {
                assert(self.rows@.take(k + 1).drop_last() =~= self.rows@.take(k as int));
                reveal_with_fuel(Seq::<_>::filter, 1);
            }
            if keep[k] {
                kept.push(self.rows[k].copied());
            }
            k = k + 1;
        }
        proof {
            assert(self.rows@.take(n as int) =~= self.rows@);
        }
        self.rows = kept;
    }
}

/// The row with id `id` (meaningful where there is one).
pub open spec fn row_of<T: Row>(s: Seq<T>, id: i64) -> T {
    s[choose|i: int| 0 <= i < s.len() && s[i].row_id() == id]
}

/// Whether `b` holds the same tables as `a`, but for those flagged `true`.
pub open spec fn unchanged_except(
    a: Database,
    b: Database,
    projects: bool,
    lists: bool,
    sections: bool,
    tasks: bool,
    records: bool,
    reminders: bool,
) -> bool {
    &&& projects || b.projects == a.projects
    &&& lists || b.lists == a.lists
    &&& sections || b.sections == a.sections
    &&& tasks || b.tasks == a.tasks
    &&& records || b.records == a.records
    &&& reminders || b.reminders == a.reminders
}

/// What an operation on the database can fail with.
#[derive(Debug, Clone, Copy, PartialEq, Eq)]
pub enum DbError {
    /// The row asked for is not in its table.
    QueryReturnedNoRows,
    /// The table has handed out the largest id, so no row can be added.
    Full,
    /// A sum left the range of a 64-bit integer.
    IntegerOverflow,
}

/// The application's database: its tables of projects, lists, sections,
/// tasks, time records and reminders.
pub struct Database {
    pub projects: Table<Project>,
    pub lists: Table<List>,
    pub sections: Table<Section>,
    pub tasks: Table<Task>,
    pub records: Table<Record>,
    pub reminders: Table<Reminder>,
}

impl Database {
    /// A database whose tables are empty.
    pub fn new() -> (db: Database)
        ensures
            db.projects@.len() == 0 && db.lists@.len() == 0 && db.sections@.len() == 0
                && db.tasks@.len() == 0 && db.records@.len() == 0 && db.reminders@.len() == 0,
            db.projects.last_id_spec() == 0 && db.lists.last_id_spec() == 0
                && db.sections.last_id_spec() == 0 && db.tasks.last_id_spec() == 0
                && db.records.last_id_spec() == 0 && db.reminders.last_id_spec() == 0,
    {
        Database {
            projects: Table::new(),
            lists: Table::new(),
            sections: Table::new(),
            tasks: Table::new(),
            records: Table::new(),
            reminders: Table::new(),
        }
    }
}

/// The largest of the numbers, if there are any.
pub open spec fn top(s: Seq<int>) -> Option<int>
    decreases s.len(),
{
    if s.len() == 0 {
        None
    } else {
        match top(s.drop_last()) {
            None => Some(s.last()),
            Some(m) => Some(if s.last() > m { s.last() } else { m }),
        }
    }
}

/// The place after the last one taken: one more than the largest of the
/// numbers, or 0 when there are none (what `SELECT .. ORDER BY .. DESC` and
/// `first_row + 1` give).
pub open spec fn next_slot(s: Seq<int>) -> int {
    match top(s) {
        None => 0,
        Some(m) => m + 1,
    }
}

} // verus!
