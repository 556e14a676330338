//! A project, and the time spent on it.

use vstd::prelude::*;

use crate::db::models::task::{fits_i64, sum_of, task_time};
use crate::db::models::Task;
use crate::db::store::{Database, Row};

verus! {

/// A project: a named group of sections and tasks, shown at place `index` in
/// the sidebar; archived projects are hidden unless asked for.
#[derive(Debug, PartialEq, Eq)]
pub struct Project {
    pub id: i64,
    pub name: String,
    pub archive: bool,
    pub index: i32,
    pub icon: String,
    pub description: String,
}

impl Project {
    pub fn new(
        id: i64,
        name: String,
        archive: bool,
        index: i32,
        icon: String,
        description: String,
    ) -> (r: Project)
        ensures
            r == (Project { id, name, archive, index, icon, description }),
    {
        Project { id, name, archive, index, icon, description }
    }

    /// The GVariant type string of a project's tuple: id, name, archive,
    /// index, icon, description.
    pub fn static_variant_type_string() -> (r: String)
        ensures
            r@ == seq!['(', 'x', 's', 'b', 'i', 's', 's', ')'],
    {
        let r = String::from_str("(xsbiss)");
        proof {
            reveal_strlit("(xsbiss)");
        }
        r
    }
}

/// The project's tasks whose time adds up to the project's: those of its own
/// (not subtasks) that are not suspended.
pub open spec fn project_top_tasks(db: Database, project_id: i64) -> Seq<Task> {
    db.tasks@.filter(|t: Task| t.project == project_id && t.parent == 0 && !t.suspended)
}

/// The time spent on the project: the sum of the times of its tasks (see
/// `project_top_tasks` and `task_time`).
pub open spec fn project_time(db: Database, project_id: i64) -> int {
    sum_of(project_top_tasks(db, project_id).map_values(|t: Task| task_time(db, t)))
}

/// Whether the time of each of the project's tasks, and their sum, fit in an
/// `i64`.
pub open spec fn project_time_fits(db: Database, project_id: i64) -> bool {
    &&& forall|i: int|
        0 <= i < project_top_tasks(db, project_id).len() ==> fits_i64(
            #[trigger] task_time(db, project_top_tasks(db, project_id)[i]),
        )
    &&& fits_i64(project_time(db, project_id))
}

impl Project {
    /// The time spent on the project (see `project_time`), or `None` where it
    /// or the time of one of its tasks does not fit in an `i64`.
    pub fn checked_duration(&self, db: &Database) -> (r: Option<i64>)
        ensures
            project_time_fits(*db, self.id) ==> r == Some(project_time(*db, self.id) as i64),
            !project_time_fits(*db, self.id) ==> r is None,
    {
        let ghost f = |t: Task| t.project == self.id && t.parent == 0 && !t.suspended;
        let ghost g = |t: Task| task_time(*db, t);
        let rows = db.tasks.rows();
        let mut total: i128 = 0;
        let mut k: usize = 0;
        while k < rows.len()
            invariant
                k <= rows@.len(),
                rows@ == db.tasks@,
                f == (|t: Task| t.project == self.id && t.parent == 0 && !t.suspended),
                g == (|t: Task| task_time(*db, t)),
                total as int == sum_of(rows@.take(k as int).filter(f).map_values(g)),
                forall|i: int| 0 <= i < rows@.take(k as int).filter(f).len() ==> fits_i64(
                    #[trigger] task_time(*db, rows@.take(k as int).filter(f)[i]),
                ),
                -(k as int) * 0x8000_0000_0000_0000 <= total <= (k as int) * 0x8000_0000_0000_0000,
            decreases rows@.len() - k,
        {
            proof {
                assert(rows@.take(k + 1).drop_last() =~= rows@.take(k as int));
                reveal_with_fuel(Seq::<_>::filter, 1);
            }
            let t = &rows[k];
            if t.project == self.id && t.parent == 0 && !t.suspended {
                proof {
                    assert(rows@.take(k + 1).filter(f) =~= rows@.take(k as int).filter(f).push(rows@[k as int]));
                    assert(rows@.take(k + 1).filter(f).map_values(g).drop_last() =~= rows@.take(
                        k as int,
                    ).filter(f).map_values(g));
                }
                match t.checked_duration(db) {
                    None => {
                        proof {
                            let i = rows@.take(k as int).filter(f).len() as int;
                            assert(rows@.take(k + 1).filter(f)[i] == rows@[k as int]);
                            lemma_filter_prefix_member(rows@, f, k as int);
                            let j = rows@.take(k as int).filter(f).len() as int;
                            assert(project_top_tasks(*db, self.id)[j] == rows@[k as int]);
                            assert(!fits_i64(task_time(*db, project_top_tasks(*db, self.id)[j])));
                        }
                        return None;
                    },
                    Some(d) => {
                        total = total + d as i128;
                    },
                }
            } else {
                proof {
                    assert(rows@.take(k + 1).filter(f) =~= rows@.take(k as int).filter(f));
                }
            }
            k = k + 1;
        }
        proof {
            assert(rows@.take(rows@.len() as int) =~= rows@);
            assert(f =~= (|t: Task| t.project == self.id && t.parent == 0 && !t.suspended));
            assert(project_top_tasks(*db, self.id) == rows@.filter(f));
            assert(g =~= (|t: Task| task_time(*db, t)));
        }
        if total < i64::MIN as i128 || total > i64::MAX as i128 {
            None
        } else {
            Some(total as i64)
        }
    }

    /// The time spent on the project: the sum of the times of its tasks that
    /// are not subtasks and not suspended.
    pub fn duration(&self, db: &Database) -> (r: i64)
        requires
            project_time_fits(*db, self.id),
        ensures
            r == project_time(*db, self.id),
    {
        match self.checked_duration(db) {
            Some(t) => t,
            None => 0,
        }
    }
}

/// A row taken at position `k` lands in the filtered sequence at the place
/// after those taken before it, and so stands there in the whole filter.
proof fn lemma_filter_prefix_member(s: Seq<Task>, f: spec_fn(Task) -> bool, k: int)
    requires
        0 <= k < s.len(),
        f(s[k]),
    ensures
        s.take(k).filter(f).len() < s.filter(f).len(),
        s.filter(f)[s.take(k).filter(f).len() as int] == s[k],
{
    let a = s.take(k + 1);
    let b = s.skip(k + 1);
    assert(s =~= a + b);
    Seq::filter_distributes_over_add(a, b, f);
    assert(a.drop_last() =~= s.take(k));
    reveal_with_fuel(Seq::<_>::filter, 1);
    assert(a.filter(f) =~= s.take(k).filter(f).push(s[k]));
}

impl Default for Project {
    fn default() -> (r: Project)
        ensures
            r.id == 0 && r.name@ == Seq::<char>::empty() && !r.archive && r.index == 0
                && r.icon@ == Seq::<char>::empty() && r.description@ == Seq::<char>::empty(),
    {
        Project::new(0, String::new(), false, 0, String::new(), String::new())
    }
}

impl Row for Project {
    open spec fn row_id(&self) -> i64 {
        self.id
    }

    fn rowid(&self) -> (r: i64) {
        self.id
    }

    fn copied(&self) -> (r: Self) {
        Project {
            id: self.id,
            name: self.name.clone(),
            archive: self.archive,
            index: self.index,
            icon: self.icon.clone(),
            description: self.description.clone(),
        }
    }
}

} // verus!
