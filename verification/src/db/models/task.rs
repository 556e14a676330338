//! A task, the time spent on it, and its running record.

use vstd::prelude::*;

use crate::db::models::Record;
use crate::db::store::{Database, Row};
use crate::db::tree::{mark_below, strictly_below, Descent};

verus! {

/// A task of a project, in section `section` at place `position`; a subtask
/// names its task in `parent` (0 for a task of its own).  `date` is the day it
/// is planned for (Unix seconds, 0 for none).
#[derive(Debug, PartialEq, Eq)]
pub struct Task {
    pub id: i64,
    pub name: String,
    pub done: bool,
    pub project: i64,
    pub section: i64,
    pub position: i32,
    pub suspended: bool,
    pub parent: i64,
    pub description: String,
    pub date: i64,
}

impl Task {
    pub fn new(
        id: i64,
        name: String,
        done: bool,
        project: i64,
        section: i64,
        position: i32,
        suspended: bool,
        parent: i64,
        description: String,
        date: i64,
    ) -> (r: Task)
        ensures
            r == (Task {
                id,
                name,
                done,
                project,
                section,
                position,
                suspended,
                parent,
                description,
                date,
            }),
    {
        Task { id, name, done, project, section, position, suspended, parent, description, date }
    }
}

impl Default for Task {
    fn default() -> (r: Task)
        ensures
            r.id == 0 && r.name@ == Seq::<char>::empty() && !r.done && r.project == 0 && r.section
                == 0 && r.position == 0 && !r.suspended && r.parent == 0 && r.description@
                == Seq::<char>::empty() && r.date == 0,
    {
        Task::new(0, String::new(), false, 0, 0, 0, false, 0, String::new(), 0)
    }
}

impl Row for Task {
    open spec fn row_id(&self) -> i64 {
        self.id
    }

    fn rowid(&self) -> (r: i64) {
        self.id
    }

    fn copied(&self) -> (r: Self) {
        Task {
            id: self.id,
            name: self.name.clone(),
            done: self.done,
            project: self.project,
            section: self.section,
            position: self.position,
            suspended: self.suspended,
            parent: self.parent,
            description: self.description.clone(),
            date: self.date,
        }
    }
}

/// The sum of the numbers.
pub open spec fn sum_of(s: Seq<int>) -> int
    decreases s.len(),
{
    if s.len() == 0 {
        0
    } else {
        sum_of(s.drop_last()) + s.last()
    }
}

/// Whether the time of the task with id `id` counts toward `task`'s: it is
/// `task` itself or a task under it, reached through subtasks of `task`'s
/// project that are not suspended.
pub open spec fn counts_toward(tasks: Seq<Task>, task: Task, id: i64) -> bool {
    id == task.id || exists|i: int|
        0 <= i < tasks.len() && tasks[i].id == id && strictly_below(
            tasks,
            Descent::UnsuspendedInProject(task.project),
            task.id,
            tasks[i],
        )
}

/// The time spent on `task`: the durations of its records and those of the
/// tasks under it that are not suspended and in its project.
pub open spec fn task_time(db: Database, task: Task) -> int {
    sum_of(
        db.records@.filter(|r: Record| counts_toward(db.tasks@, task, r.task)).map_values(
            |r: Record| r.duration as int,
        ),
    )
}

/// Whether a number fits in an `i64`.
pub open spec fn fits_i64(x: int) -> bool {
    i64::MIN <= x <= i64::MAX
}

/// The running records of the task with id `task_id`.
pub open spec fn running_records(db: Database, task_id: i64) -> Seq<Record> {
    db.records@.filter(|r: Record| r.task == task_id && r.duration == 0)
}

impl Task {
    /// The time spent on the task (see `task_time`), or `None` where it does
    /// not fit in an `i64`.
    pub fn checked_duration(&self, db: &Database) -> (r: Option<i64>)
        ensures
            fits_i64(task_time(*db, *self)) ==> r == Some(task_time(*db, *self) as i64),
            !fits_i64(task_time(*db, *self)) ==> r is None,
    {
        let ghost f = |r: Record| counts_toward(db.tasks@, *self, r.task);
        let ghost g = |r: Record| r.duration as int;
        let rows = db.tasks.rows();
        let d = Descent::UnsuspendedInProject(self.project);
        let marked = mark_below(rows, d, self.id);
        let records = db.records.rows();
        let mut total: i128 = 0;
        let mut k: usize = 0;
        while k < records.len()
            invariant
                k <= records@.len(),
                records@ == db.records@,
                rows@ == db.tasks@,
                d == Descent::UnsuspendedInProject(self.project),
                marked@.len() == rows@.len(),
                forall|i: int|
                    0 <= i < rows@.len() ==> (marked@[i] <==> strictly_below(rows@, d, self.id, #[trigger] rows@[i])),
                f == (|r: Record| counts_toward(db.tasks@, *self, r.task)),
                g == (|r: Record| r.duration as int),
                total as int == sum_of(records@.take(k as int).filter(f).map_values(g)),
                -(k as int) * 0x8000_0000_0000_0000 <= total <= (k as int) * 0x8000_0000_0000_0000,
            decreases records@.len() - k,
        {
            let x = &records[k];
            let mut member = x.task == self.id;
            let mut j: usize = 0;
            while j < rows.len() && !member
                invariant
                    j <= rows@.len(),
                    marked@.len() == rows@.len(),
                    member == (x.task == self.id || exists|a: int| 0 <= a < j && marked@[a] && #[trigger] rows@[a].id == x.task),
                decreases rows@.len() - j,
            {
                if marked[j] && rows[j].id == x.task {
                    member = true;
                }
                j = j + 1;
            }
            proof {
                if !member {
                    assert(!exists|a: int| 0 <= a < rows@.len() && marked@[a] && #[trigger] rows@[a].id == x.task);
                }
                assert(member == f(records@[k as int]));
                assert(records@.take(k + 1).drop_last() =~= records@.take(k as int));
                reveal_with_fuel(Seq::<_>::filter, 1);
                if member {
                    assert(records@.take(k + 1).filter(f).map_values(g).drop_last() =~= records@.take(
                        k as int,
                    ).filter(f).map_values(g));
                } else {
                    assert(records@.take(k + 1).filter(f).map_values(g) =~= records@.take(
                        k as int,
                    ).filter(f).map_values(g));
                }
            }
            if member {
                total = total + x.duration as i128;
            }
            k = k + 1;
        }
        proof {
            assert(records@.take(records@.len() as int) =~= records@);
            assert(f =~= (|r: Record| counts_toward(db.tasks@, *self, r.task)));
            assert(g =~= (|r: Record| r.duration as int));
        }
        if total < i64::MIN as i128 || total > i64::MAX as i128 {
            None
        } else {
            Some(total as i64)
        }
    }

    /// The time spent on the task: the durations of its records and of those
    /// of the tasks under it that are not suspended and in its project.
    pub fn duration(&self, db: &Database) -> (r: i64)
        requires
            fits_i64(task_time(*db, *self)),
        ensures
            r == task_time(*db, *self),
    {
        match self.checked_duration(db) {
            Some(t) => t,
            None => 0,
        }
    }

    /// The text of the time spent on the task (see `Record::duration_display`).
    pub fn duration_display(&self, db: &Database) -> (s: String)
        requires
            fits_i64(task_time(*db, *self)),
        ensures
            task_time(*db, *self) < 86400 ==> s@ == crate::db::models::record::duration_text(
                task_time(*db, *self),
                Seq::empty(),
            ),
            task_time(*db, *self) >= 86400 ==> exists|label: Seq<char>|
                s@ == crate::db::models::record::duration_text(task_time(*db, *self), label),
    {
        Record::duration_display(self.duration(db))
    }

    /// The task's running record, with its duration so far at time `now`
    /// (Unix seconds); `None` where it has none.
    pub fn incomplete_record(&self, db: &Database, now: i64) -> (r: Option<Record>)
        requires
            running_records(*db, self.id).len() <= 1,
            running_records(*db, self.id).len() == 1 ==> fits_i64(
                now - running_records(*db, self.id)[0].start,
            ),
        ensures
            running_records(*db, self.id).len() == 0 ==> r is None,
            running_records(*db, self.id).len() == 1 ==> r == Some(
                Record {
                    duration: (now - running_records(*db, self.id)[0].start) as i64,
                    ..running_records(*db, self.id)[0]
                },
            ),
    {
        let records = db.records.rows();
        let mut found: Option<Record> = None;
        let mut k: usize = 0;
        let ghost f = |r: Record| r.task == self.id && r.duration == 0;
        while k < records.len()
            invariant
                k <= records@.len(),
                records@ == db.records@,
                f == (|r: Record| r.task == self.id && r.duration == 0),
                records@.take(k as int).filter(f).len() <= 1,
                running_records(*db, self.id).len() <= 1,
                match found {
                    None => records@.take(k as int).filter(f).len() == 0,
                    Some(x) => records@.take(k as int).filter(f).len() == 1 && x == records@.take(k as int).filter(f)[0],
                },
            decreases records@.len() - k,
        {
            proof {
                assert(records@.take(k + 1).drop_last() =~= records@.take(k as int));
                reveal_with_fuel(Seq::<_>::filter, 1);
                records@.lemma_filter_take_len(f, (k + 1) as int);
                assert(f =~= (|r: Record| r.task == self.id && r.duration == 0));
            }
            let x = &records[k];
            if x.task == self.id && x.duration == 0 {
                found = Some(x.copied());
            }
            k = k + 1;
        }
        proof {
            assert(records@.take(records@.len() as int) =~= records@);
            assert(f =~= (|r: Record| r.task == self.id && r.duration == 0));
        }
        match found {
            None => None,
            Some(x) => Some(Record { duration: now - x.start, ..x }),
        }
    }
}

} // verus!
