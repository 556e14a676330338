//! The decisions of a project's page: which task's row shows a task, and
//! what saving a task does to the rows.

use vstd::prelude::*;

use crate::db::models::Task;
use crate::db::store::{has_id, row_of, Database, DbError};

verus! {

/// The task whose row in its section shows the task with id `task_id`: that
/// task, or its parent where it is a subtask.  An error where one of the two
/// is not in the table.
pub fn row_task(db: &Database, task_id: i64) -> (r: Result<Task, DbError>)
    ensures
        !has_id(db.tasks@, task_id) ==> r == Err::<Task, DbError>(DbError::QueryReturnedNoRows),
        has_id(db.tasks@, task_id) && row_of(db.tasks@, task_id).parent == 0 ==> r == Ok::<Task, DbError>(
            row_of(db.tasks@, task_id),
        ),
        has_id(db.tasks@, task_id) && row_of(db.tasks@, task_id).parent != 0 ==> ({
            let p = row_of(db.tasks@, task_id).parent;
            &&& has_id(db.tasks@, p) ==> r == Ok::<Task, DbError>(row_of(db.tasks@, p))
            &&& !has_id(db.tasks@, p) ==> r == Err::<Task, DbError>(DbError::QueryReturnedNoRows)
        }),
{
    let task = db.tasks.read(task_id)?;
    if task.parent != 0 {
        db.tasks.read(task.parent)
    } else {
        Ok(task)
    }
}

/// What saving a task does to the rows of its project's page.
#[derive(Debug, PartialEq, Eq)]
pub enum RowChange {
    /// Refresh the subtasks of the parent's row.
    ResetSubtasks,
    /// Take the row away (the task is done).
    Remove,
    /// Refresh the row.
    Reset,
    /// Add a row for the task.
    Add,
    /// Nothing.
    Keep,
}

/// What saving a task does to the rows, given the task that its row shows
/// (see `row_task`; its parent, for a subtask), whether that row is shown,
/// and whether that task is done: for a subtask the subtasks of the row are
/// refreshed; else a done task's row goes and another's is refreshed; a task
/// without a row gets one unless it is done.
pub fn row_change(is_subtask: bool, row_shown: bool, done: bool) -> (r: RowChange)
    ensures
        row_shown && is_subtask ==> r == RowChange::ResetSubtasks,
        row_shown && !is_subtask && done ==> r == RowChange::Remove,
        row_shown && !is_subtask && !done ==> r == RowChange::Reset,
        !row_shown && !done ==> r == RowChange::Add,
        !row_shown && done ==> r == RowChange::Keep,
{
    if row_shown {
        if is_subtask {
            RowChange::ResetSubtasks
        } else if done {
            RowChange::Remove
        } else {
            RowChange::Reset
        }
    } else if !done {
        RowChange::Add
    } else {
        RowChange::Keep
    }
}

} // verus!
