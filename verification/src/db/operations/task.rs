//! Adding, reading, moving, saving, finding and deleting tasks, and the time
//! spent on a task's tree.

use vstd::prelude::*;

use crate::db::models::{Record, Reminder, Task};
use crate::db::pattern::{like, make_search_pattern, search_matches, search_pattern};
use crate::db::sorting::{is_sorted_copy, lemma_sorted_copy_unique, select_rows, sort_rows, sorted_by};
use crate::db::store::{
    has_id, ids_ascending, next_slot, row_of, top, unchanged_except, Database, DbError, Row, Table,
};
use crate::db::tree::{mark_below, strictly_below, Descent};

verus! {

/// Whether a task passes the filters of `read_tasks`: each filter that is
/// given must hold, and suspended tasks pass only where `suspended`.
pub open spec fn task_selected(
    t: Task,
    project_id: Option<i64>,
    section_id: Option<i64>,
    done_tasks: Option<bool>,
    parent_id: Option<i64>,
    time_range: Option<(i64, i64)>,
    suspended: bool,
) -> bool {
    &&& project_id matches Some(p) ==> t.project == p
    &&& section_id matches Some(s) ==> t.section == s
    &&& done_tasks matches Some(d) ==> t.done == d
    &&& parent_id matches Some(p) ==> t.parent == p
    &&& time_range matches Some((start, end)) ==> start <= t.date && t.date < end
    &&& !suspended ==> !t.suspended
}

/// The positions of the tasks of section `section_id`.
pub open spec fn section_positions(s: Seq<Task>, section_id: i64) -> Seq<int> {
    s.filter(|t: Task| t.section == section_id).map_values(|t: Task| t.position as int)
}

/// The positions of the subtasks of task `parent`.
pub open spec fn subtask_positions(s: Seq<Task>, parent: i64) -> Seq<int> {
    s.filter(|t: Task| t.parent == parent).map_values(|t: Task| t.position as int)
}

/// Whether a task lies in the band that a position shift moves: its position
/// is within `lo..=hi`, and it is a subtask of `scope` (where `by_parent`) or
/// a task of section `scope`.
pub open spec fn in_band(t: Task, lo: int, hi: int, by_parent: bool, scope: i64) -> bool {
    &&& lo <= t.position <= hi
    &&& if by_parent {
        t.parent == scope
    } else {
        t.section == scope
    }
}

/// The tasks after those in the band move by `delta` places.
pub open spec fn shift_band(
    s: Seq<Task>,
    lo: int,
    hi: int,
    by_parent: bool,
    scope: i64,
    delta: int,
) -> Seq<Task> {
    s.map_values(
        |t: Task|
            if in_band(t, lo, hi, by_parent, scope) {
                Task { position: (t.position + delta) as i32, ..t }
            } else {
                t
            },
    )
}

/// The tasks after `old` moves to `new`'s position: leaving its place closes a
/// gap behind it (among its section's tasks, or its parent's subtasks), and
/// entering another section opens one there.
pub open spec fn positions_after_move(s: Seq<Task>, old: Task, new: Task) -> Seq<Task> {
    let op = old.position as int;
    let np = new.position as int;
    if np == op {
        s
    } else if new.parent != old.parent {
        if old.parent == 0 {
            shift_band(s, op + 1, i32::MAX as int, false, old.section, -1)
        } else {
            shift_band(s, op + 1, i32::MAX as int, true, old.parent, -1)
        }
    } else if new.section != old.section {
        let s1 = if old.section != 0 {
            shift_band(s, op + 1, i32::MAX as int, false, old.section, -1)
        } else {
            s
        };
        shift_band(s1, np, i32::MAX as int, false, new.section, 1)
    } else if np > op {
        shift_band(s, op + 1, np, false, new.section, -1)
    } else {
        shift_band(s, np, op - 1, false, new.section, 1)
    }
}

/// The tasks after `task` is saved: positions make room as
/// `positions_after_move` says; the subtasks follow it into another project;
/// every task under it takes its suspended flag; and its row takes all its
/// values.
pub open spec fn tasks_after_update(s: Seq<Task>, task: Task) -> Seq<Task> {
    let old = row_of(s, task.id);
    let s1 = positions_after_move(s, old, task);
    let s2 = if task.project != old.project {
        s1.map_values(|t: Task| if t.parent == task.id { Task { project: task.project, ..t } } else { t })
    } else {
        s1
    };
    let s3 = if task.suspended != old.suspended {
        s2.map_values(
            |t: Task|
                if strictly_below(s2, Descent::All, task.id, t) {
                    Task { suspended: task.suspended, ..t }
                } else {
                    t
                },
        )
    } else {
        s2
    };
    s3.map_values(|t: Task| if t.id == task.id { task } else { t })
}

/// Whether saving `task` moves it into another section at a new position, so
/// that the tasks at or after that position there move up by one.
pub open spec fn enters_section(s: Seq<Task>, task: Task) -> bool {
    let old = row_of(s, task.id);
    &&& has_id(s, task.id)
    &&& task.position != old.position
    &&& task.parent == old.parent
    &&& task.section != old.section
}

/// Moves the tasks in the band by one place, up or down.
fn shift_tasks(tasks: &mut Table<Task>, lo: i64, hi: i64, by_parent: bool, scope: i64, up: bool)
    requires
        up ==> forall|i: int|
            0 <= i < old(tasks)@.len() && in_band(#[trigger] old(tasks)@[i], lo as int, hi as int, by_parent, scope)
                ==> old(tasks)@[i].position < i32::MAX,
        !up ==> lo > i32::MIN,
    ensures
        final(tasks)@ == shift_band(old(tasks)@, lo as int, hi as int, by_parent, scope, if up { 1 } else { -1 }),
        final(tasks).last_id_spec() == old(tasks).last_id_spec(),
{
    let ghost old_rows = tasks@;
    let ghost want = shift_band(old_rows, lo as int, hi as int, by_parent, scope, if up { 1 } else { -1 });
    let n = tasks.len();
    let mut i: usize = 0;
    while i < n
        invariant
            n == old_rows.len(),
            tasks@.len() == n,
            i <= n,
            want == shift_band(old_rows, lo as int, hi as int, by_parent, scope, if up { 1 } else { -1 }),
            up ==> forall|a: int|
                0 <= a < n && in_band(#[trigger] old_rows[a], lo as int, hi as int, by_parent, scope)
                    ==> old_rows[a].position < i32::MAX,
            !up ==> lo > i32::MIN,
            forall|a: int| 0 <= a < i ==> tasks@[a] == want[a],
            forall|a: int| i <= a < n ==> tasks@[a] == old_rows[a],
            tasks.last_id_spec() == old(tasks).last_id_spec(),
        decreases n - i,
    {
        let t = tasks.rows()[i].copied();
        let p = t.position as i64;
        let hit = lo <= p && p <= hi && (if by_parent {
            t.parent == scope
        } else {
            t.section == scope
        });
        if hit {
            proof {
                assert(t == old_rows[i as int]);
                assert(in_band(old_rows[i as int], lo as int, hi as int, by_parent, scope));
            }
            let np = if up {
                t.position + 1
            } else {
                t.position - 1
            };
            tasks.set(i, Task { position: np, ..t });
        }
        i = i + 1;
    }
    proof {
        assert(tasks@ =~= want);
    }
}

/// Sets `suspended` on every task under the task with id `task_id`.
fn set_subtasks_suspended(tasks: &mut Table<Task>, task_id: i64, suspended: bool)
    ensures
        final(tasks)@ == old(tasks)@.map_values(
            |t: Task|
                if strictly_below(old(tasks)@, Descent::All, task_id, t) {
                    Task { suspended: suspended, ..t }
                } else {
                    t
                },
        ),
        final(tasks).last_id_spec() == old(tasks).last_id_spec(),
{
    let ghost old_rows = tasks@;
    let ghost want = old_rows.map_values(
        |t: Task|
            if strictly_below(old_rows, Descent::All, task_id, t) {
                Task { suspended: suspended, ..t }
            } else {
                t
            },
    );
    let marked = mark_below(tasks.rows(), Descent::All, task_id);
    let n = tasks.len();
    let mut i: usize = 0;
    while i < n
        invariant
            n == old_rows.len(),
            tasks@.len() == n,
            marked@.len() == n,
            i <= n,
            forall|a: int|
                0 <= a < n ==> (marked@[a] <==> strictly_below(old_rows, Descent::All, task_id, #[trigger] old_rows[a])),
            want == old_rows.map_values(
                |t: Task|
                    if strictly_below(old_rows, Descent::All, task_id, t) {
                        Task { suspended: suspended, ..t }
                    } else {
                        t
                    },
            ),
            forall|a: int| 0 <= a < i ==> tasks@[a] == want[a],
            forall|a: int| i <= a < n ==> tasks@[a] == old_rows[a],
            tasks.last_id_spec() == old(tasks).last_id_spec(),
        decreases n - i,
    {
        if marked[i] {
            let t = tasks.rows()[i].copied();
            tasks.set(i, Task { suspended: suspended, ..t });
        }
        i = i + 1;
    }
    proof {
        assert(tasks@ =~= want);
    }
}

/// Saves `task`: the tasks around its old and new position make room (see
/// `positions_after_move`), its subtasks follow it into another project, the
/// tasks under it take its suspended flag, and its row takes all its values.
pub fn update_task(db: &mut Database, task: &Task) -> (r: Result<(), DbError>)
    requires
        enters_section(old(db).tasks@, *task) ==> forall|i: int|
            0 <= i < old(db).tasks@.len() && (#[trigger] old(db).tasks@[i]).section == task.section
                && old(db).tasks@[i].position >= task.position ==> old(db).tasks@[i].position < i32::MAX,
    ensures
        !has_id(old(db).tasks@, task.id) ==> r == Err::<(), DbError>(DbError::QueryReturnedNoRows)
            && *final(db) == *old(db),
        has_id(old(db).tasks@, task.id) ==> {
            &&& r is Ok
            &&& unchanged_except(*old(db), *final(db), false, false, false, true, false, false)
            &&& final(db).tasks@ == tasks_after_update(old(db).tasks@, *task)
            &&& final(db).tasks.last_id_spec() == old(db).tasks.last_id_spec()
        },
{
    let old_task = match db.tasks.read(task.id) {
        Err(e) => {
            return Err(e);
        },
        Ok(t) => t,
    };
    let ghost s0 = db.tasks@;
    let op = old_task.position;
    let np = task.position;
    if np != op {
        if task.parent != old_task.parent {
            if old_task.parent == 0 {
                shift_tasks(&mut db.tasks, op as i64 + 1, i32::MAX as i64, false, old_task.section, false);
            } else {
                shift_tasks(&mut db.tasks, op as i64 + 1, i32::MAX as i64, true, old_task.parent, false);
            }
        } else if task.section != old_task.section {
            if old_task.section != 0 {
                shift_tasks(&mut db.tasks, op as i64 + 1, i32::MAX as i64, false, old_task.section, false);
            }
            let ghost s_mid = db.tasks@;
            proof {
                assert forall|i: int|
                    0 <= i < s_mid.len() && in_band(#[trigger] s_mid[i], np as int, i32::MAX as int, false, task.section)
                        implies s_mid[i].position < i32::MAX by {
                    assert(s_mid[i].section == task.section);
                    assert(s0[i].section == task.section);
                }
            }
            shift_tasks(&mut db.tasks, np as i64, i32::MAX as i64, false, task.section, true);
        } else if np > op {
            shift_tasks(&mut db.tasks, op as i64 + 1, np as i64, false, task.section, false);
        } else {
            shift_tasks(&mut db.tasks, np as i64, op as i64 - 1, false, task.section, true);
        }
    }
    let ghost s1 = db.tasks@;
    proof {
        assert(s1 == positions_after_move(s0, old_task, *task));
    }
    if task.project != old_task.project {
        let n = db.tasks.len();
        let mut i: usize = 0;
        let ghost want = s1.map_values(
            |t: Task| if t.parent == task.id { Task { project: task.project, ..t } } else { t },
        );
        while i < n
            invariant
                n == s1.len(),
                db.tasks@.len() == n,
                i <= n,
                want == s1.map_values(
                    |t: Task| if t.parent == task.id { Task { project: task.project, ..t } } else { t },
                ),
                forall|a: int| 0 <= a < i ==> db.tasks@[a] == want[a],
                forall|a: int| i <= a < n ==> db.tasks@[a] == s1[a],
                db.tasks.last_id_spec() == old(db).tasks.last_id_spec(),
                unchanged_except(*old(db), *db, false, false, false, true, false, false),
            decreases n - i,
        {
            let t = db.tasks.rows()[i].copied();
            if t.parent == task.id {
                db.tasks.set(i, Task { project: task.project, ..t });
            }
            i = i + 1;
        }
        proof {
            assert(db.tasks@ =~= want);
        }
    }
    let ghost s2 = db.tasks@;
    if task.suspended != old_task.suspended {
        set_subtasks_suspended(&mut db.tasks, task.id, task.suspended);
    }
    let ghost s3 = db.tasks@;
    db.tasks.update_where_id(task.copied());
    proof {
        assert(db.tasks@ =~= tasks_after_update(s0, *task));
    }
    Ok(())
}


/// Adds `task` as a new task, not done and not suspended, and returns it with
/// its new id (its other values as given).
pub fn create_task(db: &mut Database, task: Task) -> (r: Result<Task, DbError>)
    ensures
        unchanged_except(*old(db), *final(db), false, false, false, true, false, false),
        old(db).tasks.last_id_spec() == i64::MAX ==> r == Err::<Task, DbError>(DbError::Full)
            && final(db).tasks == old(db).tasks,
        old(db).tasks.last_id_spec() < i64::MAX ==> (r matches Ok(t) && {
            &&& t == Task { id: (old(db).tasks.last_id_spec() + 1) as i64, ..task }
            &&& final(db).tasks@ == old(db).tasks@.push(Task { done: false, suspended: false, ..t })
            &&& final(db).tasks.last_id_spec() == t.id
        }),
{
    match db.tasks.next_id() {
        None => Err(DbError::Full),
        Some(id) => {
            let t = Task { id, ..task };
            let stored = Task { done: false, suspended: false, ..t.copied() };
            db.tasks.push_new(stored);
            Ok(t)
        },
    }
}

fn selects(
    t: &Task,
    project_id: Option<i64>,
    section_id: Option<i64>,
    done_tasks: Option<bool>,
    parent_id: Option<i64>,
    time_range: Option<(i64, i64)>,
    suspended: bool,
) -> (r: bool)
    ensures
        r == task_selected(*t, project_id, section_id, done_tasks, parent_id, time_range, suspended),
{
    if let Some(p) = project_id {
        if t.project != p {
            return false;
        }
    }
    if let Some(x) = section_id {
        if t.section != x {
            return false;
        }
    }
    if let Some(d) = done_tasks {
        if t.done != d {
            return false;
        }
    }
    if let Some(p) = parent_id {
        if t.parent != p {
            return false;
        }
    }
    if let Some((start, end)) = time_range {
        if !(start <= t.date && t.date < end) {
            return false;
        }
    }
    suspended || !t.suspended
}

fn sort_by_position(tasks: &Vec<Task>, descending: bool) -> (r: Vec<Task>)
    ensures
        is_sorted_copy(r@, tasks@, |t: Task| t.position as int, descending),
{
    let mut keys: Vec<i128> = Vec::new();
    let mut k: usize = 0;
    while k < tasks.len()
        invariant
            k <= tasks@.len(),
            keys@.len() == k,
            forall|i: int| 0 <= i < k ==> keys@[i] == (#[trigger] tasks@[i]).position as int,
        decreases tasks@.len() - k,
    {
        keys.push(tasks[k].position as i128);
        k = k + 1;
    }
    sort_rows(tasks, &keys, descending, Ghost(|t: Task| t.position as int))
}

/// The tasks that pass the filters (see `task_selected`), by position.
pub fn read_tasks(
    db: &Database,
    project_id: Option<i64>,
    section_id: Option<i64>,
    done_tasks: Option<bool>,
    parent_id: Option<i64>,
    time_range: Option<(i64, i64)>,
    suspended: bool,
) -> (r: Vec<Task>)
    ensures
        is_sorted_copy(
            r@,
            db.tasks@.filter(
                |t: Task|
                    task_selected(t, project_id, section_id, done_tasks, parent_id, time_range, suspended),
            ),
            |t: Task| t.position as int,
            false,
        ),
{
    let rows = db.tasks.rows();
    let mut keep: Vec<bool> = Vec::new();
    let mut k: usize = 0;
    while k < rows.len()
        invariant
            k <= rows@.len(),
            keep@.len() == k,
            forall|i: int|
                0 <= i < k ==> keep@[i] == task_selected(
                    #[trigger] rows@[i],
                    project_id,
                    section_id,
                    done_tasks,
                    parent_id,
                    time_range,
                    suspended,
                ),
        decreases rows@.len() - k,
    {
        keep.push(selects(&rows[k], project_id, section_id, done_tasks, parent_id, time_range, suspended));
        k = k + 1;
    }
    let shown = select_rows(
        rows,
        &keep,
        Ghost(
            |t: Task|
                task_selected(t, project_id, section_id, done_tasks, parent_id, time_range, suspended),
        ),
    );
    sort_by_position(&shown, false)
}

/// The names and done flags of the tasks.
pub open spec fn summary_of(s: Seq<Task>) -> Seq<(String, bool)> {
    s.map_values(|t: Task| (t.name, t.done))
}

/// The names and done flags of the subtasks of task `task_id` (suspended ones
/// too), last position first.
pub fn read_subtasks_summary(db: &Database, task_id: i64) -> (r: Vec<(String, bool)>)
    ensures
        exists|s: Seq<Task>|
            is_sorted_copy(s, db.tasks@.filter(|t: Task| t.parent == task_id), |t: Task| t.position as int, true)
                && r@ == #[trigger] summary_of(s),
{
    let rows = db.tasks.rows();
    let mut keep: Vec<bool> = Vec::new();
    let mut k: usize = 0;
    while k < rows.len()
        invariant
            k <= rows@.len(),
            keep@.len() == k,
            forall|i: int| 0 <= i < k ==> keep@[i] == ((#[trigger] rows@[i]).parent == task_id),
        decreases rows@.len() - k,
    {
        keep.push(rows[k].parent == task_id);
        k = k + 1;
    }
    let shown = select_rows(rows, &keep, Ghost(|t: Task| t.parent == task_id));
    let sorted = sort_by_position(&shown, true);
    let mut r: Vec<(String, bool)> = Vec::new();
    let mut k: usize = 0;
    while k < sorted.len()
        invariant
            k <= sorted@.len(),
            r@ == sorted@.take(k as int).map_values(|t: Task| (t.name, t.done)),
        decreases sorted@.len() - k,
    {
        proof {
            assert(sorted@.take(k + 1).map_values(|t: Task| (t.name, t.done)) =~= sorted@.take(
                k as int,
            ).map_values(|t: Task| (t.name, t.done)).push((sorted@[k as int].name, sorted@[k as int].done)));
        }
        r.push((sorted[k].name.clone(), sorted[k].done));
        k = k + 1;
    }
    proof {
        assert(sorted@.take(sorted@.len() as int) =~= sorted@);
        assert(r@ == summary_of(sorted@));
    }
    r
}

/// The ids of task `task_id` and of every task under it, those with a date
/// only where `has_date`, in the order of the table; none when there is no
/// such task.
pub fn task_tree(db: &Database, task_id: i64, has_date: bool) -> (r: Vec<i64>)
    ensures
        r@ == if has_id(db.tasks@, task_id) {
            db.tasks@.filter(
                |t: Task|
                    (t.id == task_id || strictly_below(db.tasks@, Descent::All, task_id, t)) && (!has_date
                        || t.date != 0),
            ).map_values(|t: Task| t.id)
        } else {
            Seq::empty()
        },
{
    if db.tasks.find(task_id).is_none() {
        return Vec::new();
    }
    let rows = db.tasks.rows();
    let marked = mark_below(rows, Descent::All, task_id);
    let ghost f = |t: Task|
        (t.id == task_id || strictly_below(rows@, Descent::All, task_id, t)) && (!has_date || t.date != 0);
    let mut r: Vec<i64> = Vec::new();
    let mut k: usize = 0;
    while k < rows.len()
        invariant
            k <= rows@.len(),
            marked@.len() == rows@.len(),
            forall|i: int|
                0 <= i < rows@.len() ==> (marked@[i] <==> strictly_below(rows@, Descent::All, task_id, #[trigger] rows@[i])),
            f == (|t: Task|
                (t.id == task_id || strictly_below(rows@, Descent::All, task_id, t)) && (!has_date || t.date != 0)),
            r@ == rows@.take(k as int).filter(f).map_values(|t: Task| t.id),
        decreases rows@.len() - k,
    {
        proof {
            assert(rows@.take(k + 1).drop_last() =~= rows@.take(k as int));
            reveal_with_fuel(Seq::<_>::filter, 1);
        }
        let t = &rows[k];
        if (t.id == task_id || marked[k]) && (!has_date || t.date != 0) {
            r.push(t.id);
            proof {
                assert(rows@.take(k + 1).filter(f) =~= rows@.take(k as int).filter(f).push(rows@[k as int]));
                assert(r@ =~= rows@.take(k + 1).filter(f).map_values(|t: Task| t.id));
            }
        } else {
            proof {
                assert(rows@.take(k + 1).filter(f) =~= rows@.take(k as int).filter(f));
            }
        }
        k = k + 1;
    }
    proof {
        assert(rows@.take(rows@.len() as int) =~= rows@);
    }
    r
}

/// The task with id `task_id`.
pub fn read_task(db: &Database, task_id: i64) -> (r: Result<Task, DbError>)
    ensures
        r is Ok <==> has_id(db.tasks@, task_id),
        r matches Ok(t) ==> t == row_of(db.tasks@, task_id),
        r matches Err(e) ==> e == DbError::QueryReturnedNoRows,
{
    db.tasks.read(task_id)
}

/// Whether a search for `text` finds the task: its name matches the search
/// pattern of `text` (see `search_pattern`), it is not suspended, and it is
/// not done unless `done`.
pub open spec fn task_found(t: Task, text: Seq<char>, done: bool) -> bool {
    like(search_pattern(text), t.name@) && !t.suspended && (done || !t.done)
}

/// The tasks that a search for `text` finds (see `task_found`), in the order
/// of their ids.
pub fn find_tasks(db: &Database, text: &str, done: bool) -> (r: Vec<Task>)
    ensures
        r@ == db.tasks@.filter(|t: Task| task_found(t, text@, done)),
{
    let pattern = make_search_pattern(text);
    let rows = db.tasks.rows();
    let mut keep: Vec<bool> = Vec::new();
    let mut k: usize = 0;
    while k < rows.len()
        invariant
            k <= rows@.len(),
            keep@.len() == k,
            pattern@ == search_pattern(text@),
            forall|i: int| 0 <= i < k ==> keep@[i] == task_found(#[trigger] rows@[i], text@, done),
        decreases rows@.len() - k,
    {
        let m = search_matches(&pattern, rows[k].name.as_str());
        keep.push(m && !rows[k].suspended && (done || !rows[k].done));
        k = k + 1;
    }
    select_rows(rows, &keep, Ghost(|t: Task| task_found(t, text@, done)))
}

fn next_position(tasks: &Table<Task>, by_parent: bool, scope: i64) -> (r: i32)
    requires
        next_slot(
            if by_parent {
                subtask_positions(tasks@, scope)
            } else {
                section_positions(tasks@, scope)
            },
        ) <= i32::MAX,
    ensures
        r == next_slot(
            if by_parent {
                subtask_positions(tasks@, scope)
            } else {
                section_positions(tasks@, scope)
            },
        ),
{
    let rows = tasks.rows();
    let n = rows.len();
    let ghost f = |t: Task| if by_parent { t.parent == scope } else { t.section == scope };
    let ghost key = |t: Task| t.position as int;
    proof {
        assert(key =~= (|t: Task| t.position as int));
        if by_parent {
            assert(f =~= (|t: Task| t.parent == scope));
            assert(subtask_positions(tasks@, scope) == rows@.filter(f).map_values(key));
        } else {
            assert(f =~= (|t: Task| t.section == scope));
            assert(section_positions(tasks@, scope) == rows@.filter(f).map_values(key));
        }
    }
    let mut best: Option<i32> = None;
    let mut k: usize = 0;
    while k < n
        invariant
            n == rows@.len(),
            k <= n,
            f == (|t: Task| if by_parent { t.parent == scope } else { t.section == scope }),
            key == (|t: Task| t.position as int),
            match best {
                None => top(rows@.take(k as int).filter(f).map_values(key)) is None,
                Some(m) => top(rows@.take(k as int).filter(f).map_values(key)) == Some(m as int),
            },
        decreases n - k,
    {
        proof {
            assert(rows@.take(k + 1).drop_last() =~= rows@.take(k as int));
            reveal_with_fuel(Seq::<_>::filter, 1);
            if f(rows@[k as int]) {
                assert(rows@.take(k + 1).filter(f).map_values(key).drop_last() =~= rows@.take(
                    k as int,
                ).filter(f).map_values(key));
            } else {
                assert(rows@.take(k + 1).filter(f).map_values(key) =~= rows@.take(k as int).filter(
                    f,
                ).map_values(key));
            }
        }
        let t = &rows[k];
        let hit = if by_parent {
            t.parent == scope
        } else {
            t.section == scope
        };
        if hit {
            let i = t.position;
            best = match best {
                None => Some(i),
                Some(m) => Some(if i > m { i } else { m }),
            };
        }
        k = k + 1;
    }
    proof {
        assert(rows@.take(n as int) =~= rows@);
    }
    match best {
        None => 0,
        Some(m) => m + 1,
    }
}

/// The position of a new task at the end of section `section_id`.
pub fn new_task_position(db: &Database, section_id: i64) -> (r: i32)
    requires
        next_slot(section_positions(db.tasks@, section_id)) <= i32::MAX,
    ensures
        r == next_slot(section_positions(db.tasks@, section_id)),
{
    next_position(&db.tasks, false, section_id)
}

/// The position of a new subtask at the end of task `parent`'s subtasks.
pub fn new_subtask_position(db: &Database, parent: i64) -> (r: i32)
    requires
        next_slot(subtask_positions(db.tasks@, parent)) <= i32::MAX,
    ensures
        r == next_slot(subtask_positions(db.tasks@, parent)),
{
    next_position(&db.tasks, true, parent)
}

/// The sum of the numbers taken from first to last, or `None` once a partial
/// sum leaves the range of an `i64` (where SQLite's `sum` fails).
pub open spec fn checked_total(s: Seq<int>) -> Option<int>
    decreases s.len(),
{
    if s.len() == 0 {
        Some(0)
    } else {
        match checked_total(s.drop_last()) {
            None => None,
            Some(t) => if i64::MIN <= t + s.last() <= i64::MAX {
                Some(t + s.last())
            } else {
                None
            },
        }
    }
}

/// Whether the task with id `id` is in the tree of task `task_id`: it is that
/// task (when it exists) or a task under it.
pub open spec fn in_tree(tasks: Seq<Task>, task_id: i64, id: i64) -> bool {
    has_id(tasks, task_id) && (id == task_id || exists|i: int|
        0 <= i < tasks.len() && tasks[i].id == id && strictly_below(tasks, Descent::All, task_id, tasks[i]))
}

/// The time spent on task `task_id` and every task under it: the sum of the
/// durations of their records (in the order of the records' table); an
/// error where a partial sum overflows.
pub fn task_duration(db: &Database, task_id: i64) -> (r: Result<i64, DbError>)
    ensures
        ({
            let durations = db.records@.filter(|x: Record| in_tree(db.tasks@, task_id, x.task)).map_values(
                |x: Record| x.duration as int,
            );
            match checked_total(durations) {
                Some(t) => r == Ok::<i64, DbError>(t as i64),
                None => r == Err::<i64, DbError>(DbError::IntegerOverflow),
            }
        }),
{
    let ghost tasks = db.tasks@;
    let ghost f = |x: Record| in_tree(tasks, task_id, x.task);
    let ghost g = |x: Record| x.duration as int;
    proof {
        assert(f =~= (|x: Record| in_tree(db.tasks@, task_id, x.task)));
        assert(g =~= (|x: Record| x.duration as int));
    }
    let exists_root = db.tasks.find(task_id).is_some();
    let rows = db.tasks.rows();
    let marked = mark_below(rows, Descent::All, task_id);
    let records = db.records.rows();
    let mut total: i64 = 0;
    let mut k: usize = 0;
    while k < records.len()
        invariant
            k <= records@.len(),
            tasks == rows@,
            exists_root == has_id(tasks, task_id),
            marked@.len() == rows@.len(),
            forall|i: int|
                0 <= i < rows@.len() ==> (marked@[i] <==> strictly_below(rows@, Descent::All, task_id, #[trigger] rows@[i])),
            f == (|x: Record| in_tree(tasks, task_id, x.task)),
            g == (|x: Record| x.duration as int),
            records@ == db.records@,
            f =~= (|x: Record| in_tree(db.tasks@, task_id, x.task)),
            g =~= (|x: Record| x.duration as int),
            checked_total(records@.take(k as int).filter(f).map_values(g)) == Some(total as int),
        decreases records@.len() - k,
    {
        let x = &records[k];
        let member = exists_root && (x.task == task_id || is_marked_id(rows, &marked, x.task));
        proof {
            assert(member == f(records@[k as int]));
            lemma_checked_total_step(records@, f, g, k as int);
        }
        if member {
            match total.checked_add(x.duration) {
                None => {
                    proof {
                        lemma_checked_total_stays_none(records@, f, g, k as int + 1);
                        assert(records@.take(records@.len() as int) =~= records@);
                    }
                    return Err(DbError::IntegerOverflow);
                },
                Some(t) => {
                    total = t;
                },
            }
        }
        k = k + 1;
    }
    proof {
        assert(records@.take(records@.len() as int) =~= records@);
    }
    Ok(total)
}

fn is_marked_id(rows: &Vec<Task>, marked: &Vec<bool>, id: i64) -> (r: bool)
    requires
        marked@.len() == rows@.len(),
    ensures
        r == exists|a: int| 0 <= a < rows@.len() && marked@[a] && rows@[a].id == id,
{
    let mut j: usize = 0;
    while j < rows.len()
        invariant
            j <= rows@.len(),
            marked@.len() == rows@.len(),
            forall|a: int| 0 <= a < j ==> !(marked@[a] && #[trigger] rows@[a].id == id),
        decreases rows@.len() - j,
    {
        if marked[j] && rows[j].id == id {
            return true;
        }
        j = j + 1;
    }
    false
}

/// How the checked sum grows by one record.
proof fn lemma_checked_total_step(s: Seq<Record>, f: spec_fn(Record) -> bool, g: spec_fn(Record) -> int, k: int)
    requires
        0 <= k < s.len(),
    ensures
        checked_total(s.take(k + 1).filter(f).map_values(g)) == if f(s[k]) {
            match checked_total(s.take(k).filter(f).map_values(g)) {
                None => None,
                Some(t) => if i64::MIN <= t + g(s[k]) <= i64::MAX {
                    Some(t + g(s[k]))
                } else {
                    None
                },
            }
        } else {
            checked_total(s.take(k).filter(f).map_values(g))
        },
{
    assert(s.take(k + 1).drop_last() =~= s.take(k));
    reveal_with_fuel(Seq::<_>::filter, 1);
    if f(s[k]) {
        assert(s.take(k + 1).filter(f).map_values(g).drop_last() =~= s.take(k).filter(f).map_values(g));
    } else {
        assert(s.take(k + 1).filter(f).map_values(g) =~= s.take(k).filter(f).map_values(g));
    }
}

/// Once a partial sum overflows, the whole sum does.
proof fn lemma_checked_total_stays_none(
    s: Seq<Record>,
    f: spec_fn(Record) -> bool,
    g: spec_fn(Record) -> int,
    k: int,
)
    requires
        0 <= k <= s.len(),
        checked_total(s.take(k).filter(f).map_values(g)) is None,
    ensures
        checked_total(s.take(s.len() as int).filter(f).map_values(g)) is None,
    decreases s.len() - k,
{
    if k < s.len() {
        assert(s.take(k + 1).drop_last() =~= s.take(k));
        reveal_with_fuel(Seq::<_>::filter, 1);
        if f(s[k]) {
            assert(s.take(k + 1).filter(f).map_values(g).drop_last() =~= s.take(k).filter(f).map_values(g));
        } else {
            assert(s.take(k + 1).filter(f).map_values(g) =~= s.take(k).filter(f).map_values(g));
        }
        lemma_checked_total_stays_none(s, f, g, k + 1);
    }
}


/// The order in which deleting a task visits its subtasks: by position, and
/// by id among equal positions.
pub open spec fn child_key(t: Task) -> int {
    (t.position as int) * 0x1_0000_0000_0000_0000 + t.id as int
}

/// The subtasks of task `id` that deleting it deletes too: those that are
/// not suspended.
pub open spec fn live_children(tasks: Seq<Task>, id: i64) -> Seq<Task> {
    tasks.filter(|t: Task| t.parent == id && !t.suspended)
}

/// Whether `c` holds the live subtasks of task `id` in the order that
/// deleting visits them.
pub open spec fn visit_order(c: Seq<Task>, tasks: Seq<Task>, id: i64) -> bool {
    is_sorted_copy(c, live_children(tasks, id), |t: Task| child_key(t), false)
}

/// The live subtasks of task `id`, in the order that deleting visits them.
pub open spec fn children_in_order(tasks: Seq<Task>, id: i64) -> Seq<Task> {
    choose|c: Seq<Task>| #[trigger] visit_order(c, tasks, id)
}

/// The rows that deleting a task changes: tasks, records and reminders.
pub open spec fn deletable_rows(db: Database) -> (Seq<Task>, Seq<Record>, Seq<Reminder>) {
    (db.tasks@, db.records@, db.reminders@)
}

/// The rows without task `id`, its records and its reminders.
pub open spec fn without_task(st: (Seq<Task>, Seq<Record>, Seq<Reminder>), id: i64) -> (
    Seq<Task>,
    Seq<Record>,
    Seq<Reminder>,
) {
    (
        st.0.filter(|t: Task| t.id != id),
        st.1.filter(|r: Record| r.task != id),
        st.2.filter(|r: Reminder| r.task != id),
    )
}

/// The rows after the tasks after `task`'s position move down by one: among
/// its section's tasks where it has no parent, else among its parent's
/// subtasks.
pub open spec fn gap_closed(st: (Seq<Task>, Seq<Record>, Seq<Reminder>), task: Task) -> (
    Seq<Task>,
    Seq<Record>,
    Seq<Reminder>,
) {
    let tasks = if task.parent == 0 {
        shift_band(st.0, task.position + 1, i32::MAX as int, false, task.section, -1)
    } else {
        shift_band(st.0, task.position + 1, i32::MAX as int, true, task.parent, -1)
    };
    (tasks, st.1, st.2)
}

/// The rows after deleting `task`: its row, records and reminders go; then
/// each of its live subtasks is deleted the same way, in order; then the gap
/// it leaves closes.  `depth` bounds how deep the deletion goes.
pub open spec fn after_delete(st: (Seq<Task>, Seq<Record>, Seq<Reminder>), task: Task, depth: nat) -> (
    Seq<Task>,
    Seq<Record>,
    Seq<Reminder>,
)
    decreases depth, 0nat,
{
    if depth == 0 {
        st
    } else {
        let st1 = without_task(st, task.id);
        gap_closed(after_delete_all(st1, children_in_order(st1.0, task.id), (depth - 1) as nat), task)
    }
}

/// The rows after deleting each of `kids` in order.
pub open spec fn after_delete_all(
    st: (Seq<Task>, Seq<Record>, Seq<Reminder>),
    kids: Seq<Task>,
    depth: nat,
) -> (Seq<Task>, Seq<Record>, Seq<Reminder>)
    decreases depth, kids.len(),
{
    if kids.len() == 0 {
        st
    } else {
        after_delete_all(after_delete(st, kids[0], depth), kids.drop_first(), depth)
    }
}

/// The live subtasks of task `id`, in the order that deleting visits them.
fn ordered_children(tasks: &Table<Task>, id: i64) -> (r: Vec<Task>)
    ensures
        r@ == children_in_order(tasks@, id),
{
    proof {
        use_type_invariant(tasks);
    }
    let rows = tasks.rows();
    let ghost f = |t: Task| t.parent == id && !t.suspended;
    let mut keep: Vec<bool> = Vec::new();
    let mut k: usize = 0;
    while k < rows.len()
        invariant
            k <= rows@.len(),
            keep@.len() == k,
            f == (|t: Task| t.parent == id && !t.suspended),
            forall|i: int| 0 <= i < k ==> keep@[i] == f(#[trigger] rows@[i]),
        decreases rows@.len() - k,
    {
        keep.push(rows[k].parent == id && !rows[k].suspended);
        k = k + 1;
    }
    let kids = select_rows(rows, &keep, Ghost(f));
    let mut keys: Vec<i128> = Vec::new();
    let mut k: usize = 0;
    while k < kids.len()
        invariant
            k <= kids@.len(),
            keys@.len() == k,
            forall|i: int| 0 <= i < k ==> keys@[i] == child_key(#[trigger] kids@[i]),
        decreases kids@.len() - k,
    {
        keys.push(kids[k].position as i128 * 0x1_0000_0000_0000_0000i128 + kids[k].id as i128);
        k = k + 1;
    }
    let sorted = sort_rows(&kids, &keys, false, Ghost(|t: Task| child_key(t)));
    proof {
        broadcast use vstd::seq_lib::group_to_multiset_ensures;

        assert(f =~= (|t: Task| t.parent == id && !t.suspended));
        assert(kids@ == live_children(tasks@, id));
        assert(visit_order(sorted@, tasks@, id));
        let c = children_in_order(tasks@, id);
        assert(visit_order(c, tasks@, id));
        assert forall|i: int, j: int|
            0 <= i < sorted@.len() && 0 <= j < sorted@.len() && child_key(sorted@[i]) == child_key(sorted@[j])
                implies sorted@[i] == sorted@[j] by {
            assert(sorted@.to_multiset().count(sorted@[i]) > 0);
            assert(sorted@.to_multiset().count(sorted@[j]) > 0);
            assert(kids@.contains(sorted@[i]));
            assert(kids@.contains(sorted@[j]));
            rows@.lemma_filter_contains_rev(f, sorted@[i]);
            rows@.lemma_filter_contains_rev(f, sorted@[j]);
            let a = choose|a: int| 0 <= a < rows@.len() && rows@[a] == sorted@[i];
            let b = choose|b: int| 0 <= b < rows@.len() && rows@[b] == sorted@[j];
            assert(sorted@[i].id == sorted@[j].id);
            if a < b {
                assert(rows@[a].row_id() < rows@[b].row_id());
            } else if b < a {
                assert(rows@[b].row_id() < rows@[a].row_id());
            }
        }
        lemma_sorted_copy_unique(sorted@, c, |t: Task| child_key(t), false);
    }
    sorted
}

/// Deletes `task` and, `depth` levels deep, its live subtasks (see `after_delete`).
fn delete_tree(db: &mut Database, task: &Task, depth: usize)
    ensures
        deletable_rows(*final(db)) == after_delete(deletable_rows(*old(db)), *task, depth as nat),
        unchanged_except(*old(db), *final(db), false, false, false, true, true, true),
        final(db).tasks.last_id_spec() == old(db).tasks.last_id_spec(),
        final(db).records.last_id_spec() == old(db).records.last_id_spec(),
        final(db).reminders.last_id_spec() == old(db).reminders.last_id_spec(),
    decreases depth,
{
    if depth == 0 {
        return;
    }
    let id = task.id;
    db.tasks.delete_where_id(id);
    let mut keep: Vec<bool> = Vec::new();
    let mut k: usize = 0;
    while k < db.records.len()
        invariant
            k <= db.records@.len(),
            keep@.len() == k,
            forall|i: int| 0 <= i < k ==> keep@[i] == ((#[trigger] db.records@[i]).task != id),
        decreases db.records@.len() - k,
    {
        keep.push(db.records.rows()[k].task != id);
        k = k + 1;
    }
    db.records.retain(&keep, Ghost(|r: Record| r.task != id));
    let mut keep: Vec<bool> = Vec::new();
    let mut k: usize = 0;
    while k < db.reminders.len()
        invariant
            k <= db.reminders@.len(),
            keep@.len() == k,
            forall|i: int| 0 <= i < k ==> keep@[i] == ((#[trigger] db.reminders@[i]).task != id),
        decreases db.reminders@.len() - k,
    {
        keep.push(db.reminders.rows()[k].task != id);
        k = k + 1;
    }
    db.reminders.retain(&keep, Ghost(|r: Reminder| r.task != id));
    let ghost st1 = deletable_rows(*db);
    proof {
        assert((|r: Task| r.row_id() != id) =~= (|t: Task| t.id != id));
        assert(st1 == without_task(deletable_rows(*old(db)), id));
    }
    let kids = ordered_children(&db.tasks, id);
    let ghost d1 = (depth - 1) as nat;
    proof {
        assert(kids@.skip(0) =~= kids@);
    }
    let mut i: usize = 0;
    while i < kids.len()
        invariant
            i <= kids@.len(),
            depth >= 1,
            d1 == (depth - 1) as nat,
            kids@ == children_in_order(st1.0, id),
            after_delete_all(st1, kids@, d1) == after_delete_all(deletable_rows(*db), kids@.skip(i as int), d1),
            unchanged_except(*old(db), *db, false, false, false, true, true, true),
            db.tasks.last_id_spec() == old(db).tasks.last_id_spec(),
            db.records.last_id_spec() == old(db).records.last_id_spec(),
            db.reminders.last_id_spec() == old(db).reminders.last_id_spec(),
        decreases kids@.len() - i,
    {
        let ghost before = deletable_rows(*db);
        proof {
            assert(kids@.skip(i as int)[0] == kids@[i as int]);
            assert(kids@.skip(i as int).drop_first() =~= kids@.skip(i + 1));
        }
        delete_tree(db, &kids[i], depth - 1);
        i = i + 1;
    }
    proof {
        assert(kids@.skip(kids@.len() as int) =~= Seq::<Task>::empty());
    }
    shift_tasks(
        &mut db.tasks,
        task.position as i64 + 1,
        i32::MAX as i64,
        task.parent != 0,
        if task.parent == 0 {
            task.section
        } else {
            task.parent
        },
        false,
    );
}

/// Deletes `task` with its records and reminders, and then, the same way,
/// each of its subtasks that is not suspended (by position); the tasks after
/// it move down by one (see `after_delete`).  The depth of one more than the
/// number of tasks reaches the whole tree of subtasks: a greater one gives the
/// same rows (see `delete_depth_is_enough`).
pub fn delete_task(db: &mut Database, task: &Task)
    requires
        old(db).tasks@.len() < usize::MAX,
    ensures
        deletable_rows(*final(db)) == after_delete(
            deletable_rows(*old(db)),
            *task,
            (old(db).tasks@.len() + 1) as nat,
        ),
        unchanged_except(*old(db), *final(db), false, false, false, true, true, true),
        final(db).tasks.last_id_spec() == old(db).tasks.last_id_spec(),
        final(db).records.last_id_spec() == old(db).records.last_id_spec(),
        final(db).reminders.last_id_spec() == old(db).reminders.last_id_spec(),
{
    let depth = db.tasks.len() + 1;
    delete_tree(db, task, depth);
}

} // verus!
