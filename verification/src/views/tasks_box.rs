//! The decisions of a box of task rows: their order, which of them show, how
//! many it shows at first, and how a row moves one step with the arrow
//! buttons.  Rows stand in the box from the highest position down.

use vstd::prelude::*;

use crate::db::models::Task;
use crate::db::operations::{
    create_task, new_subtask_position, new_task_position, section_positions, subtask_positions,
};
use crate::db::store::{next_slot, unchanged_except, Database, DbError};

verus! {

/// What a box of task rows holds.
#[derive(Debug, PartialEq, Eq, Clone, Copy)]
pub enum TasksBoxWrapper {
    /// The tasks of a section: the section's id and its project's id.
    Section(i64, i64),
    /// The subtasks of a task: the task's id and its project's id.
    Task(i64, i64),
    /// The tasks of a day (Unix seconds).
    Date(i64),
}

/// Whether `task` belongs in the box: it is of the box's section, or a
/// subtask of its task, or dated on its day.
pub open spec fn in_box_spec(wrapper: TasksBoxWrapper, task: Task) -> bool {
    match wrapper {
        TasksBoxWrapper::Section(id, _) => task.section == id,
        TasksBoxWrapper::Task(id, _) => task.parent == id,
        TasksBoxWrapper::Date(date) => task.date == date,
    }
}

/// Whether `task` belongs in the box (see `in_box_spec`).
pub fn in_box(wrapper: TasksBoxWrapper, task: &Task) -> (r: bool)
    ensures
        r == in_box_spec(wrapper, *task),
{
    match wrapper {
        TasksBoxWrapper::Section(id, _) => task.section == id,
        TasksBoxWrapper::Task(id, _) => task.parent == id,
        TasksBoxWrapper::Date(date) => task.date == date,
    }
}

/// The project, section, parent, position and date of the new empty task
/// of a box: at the end of the section, or of the task's subtasks, in the
/// box's project; or on the box's day, in no project.
pub open spec fn empty_task_place(db: Database, wrapper: TasksBoxWrapper) -> (i64, i64, i64, int, i64) {
    match wrapper {
        TasksBoxWrapper::Section(id, project) => (project, id, 0, next_slot(section_positions(db.tasks@, id)), 0),
        TasksBoxWrapper::Task(id, project) => (project, 0, id, next_slot(subtask_positions(db.tasks@, id)), 0),
        TasksBoxWrapper::Date(date) => (0, 0, 0, 0, date),
    }
}

/// Adds the new empty task of a box (see `empty_task_place`): unnamed, not
/// done, without a description.
pub fn create_empty_task(db: &mut Database, wrapper: TasksBoxWrapper) -> (r: Result<Task, DbError>)
    requires
        wrapper matches TasksBoxWrapper::Section(id, _) ==> next_slot(section_positions(old(db).tasks@, id))
            <= i32::MAX,
        wrapper matches TasksBoxWrapper::Task(id, _) ==> next_slot(subtask_positions(old(db).tasks@, id))
            <= i32::MAX,
    ensures
        unchanged_except(*old(db), *final(db), false, false, false, true, false, false),
        old(db).tasks.last_id_spec() == i64::MAX ==> r == Err::<Task, DbError>(DbError::Full)
            && final(db).tasks == old(db).tasks,
        old(db).tasks.last_id_spec() < i64::MAX ==> (r matches Ok(t) && {
            let place = empty_task_place(*old(db), wrapper);
            &&& t.id == old(db).tasks.last_id_spec() + 1
            &&& t.name@.len() == 0 && t.description@.len() == 0 && !t.done && !t.suspended
            &&& (t.project, t.section, t.parent, t.position as int, t.date) == place
            &&& final(db).tasks@ == old(db).tasks@.push(t)
        }),
{
    let (project, section, parent, position, date) = match wrapper {
        TasksBoxWrapper::Section(id, project) => (project, id, 0, new_task_position(db, id), 0),
        TasksBoxWrapper::Task(id, project) => (project, 0, id, new_subtask_position(db, id), 0),
        TasksBoxWrapper::Date(date) => (0, 0, 0, 0, date),
    };
    let task = Task::new(0, String::new(), false, project, section, position, false, parent, String::new(), date);
    create_task(db, task)
}

/// Whether a box `height` pixels high that scrolls (where `scrollable`) shows
/// only a first page of `count` tasks: they do not all fit at 50 pixels a row.
pub open spec fn shows_a_page(count: int, height: int, scrollable: bool) -> bool {
    count > height / 50 && scrollable
}

/// Splits the tasks of a box, which come by position, into the rows that it
/// shows at first and those that it adds as it scrolls: where it shows a page
/// (see `shows_a_page`), the last `height / 50` tasks, the highest position
/// first, and the rest in their order; else all of them, and none.
pub fn split_lazy<T>(tasks: Vec<T>, height: usize, scrollable: bool) -> (r: (Vec<T>, Vec<T>))
    ensures
        ({
            let n = tasks@.len();
            let k = height / 50;
            &&& shows_a_page(n as int, height as int, scrollable) ==> r.0@ == tasks@.subrange(
                n - k,
                n as int,
            ).reverse() && r.1@ == tasks@.subrange(0, n - k)
            &&& !shows_a_page(n as int, height as int, scrollable) ==> r.0@ == tasks@ && r.1@.len() == 0
        }),
{
    let ghost all = tasks@;
    let n = tasks.len();
    let page = height / 50;
    if n > page && scrollable {
        let mut rest = tasks;
        let mut shown: Vec<T> = Vec::new();
        let mut i: usize = 0;
        proof {
            assert(rest@ =~= all.subrange(0, n - 0));
            assert(shown@ =~= all.subrange(n - 0, n as int).reverse());
        }
        while i < page
            invariant
                i <= page < n,
                n == all.len(),
                rest@ == all.subrange(0, n - i),
                shown@ == all.subrange(n - i, n as int).reverse(),
            decreases page - i,
        {
            let t = rest.pop().unwrap();
            proof {
                assert(all.subrange(n - (i + 1), n as int).reverse() =~= all.subrange(n - i, n as int).reverse().push(
                    t,
                ));
            }
            shown.push(t);
            i = i + 1;
        }
        (shown, rest)
    } else {
        (tasks, Vec::new())
    }
}

/// Moving the row at `index` one step up (toward the top of the box) or down,
/// where the rows' positions are `positions`, top first: nothing where it is
/// the top row and goes up, or has position 0 and goes down; else it swaps
/// positions with the row next to it.  The result names that row, the row's
/// new position and the moved row's new position.
pub fn step_move(positions: &Vec<i32>, index: usize, up: bool) -> (r: Option<(usize, i32, i32)>)
    requires
        index < positions@.len(),
        !up && positions@[index as int] != 0 ==> index + 1 < positions@.len(),
    ensures
        up && index == 0 ==> r is None,
        !up && positions@[index as int] == 0 ==> r is None,
        up && index > 0 ==> r == Some(
            ((index - 1) as usize, positions@[index as int], positions@[index - 1]),
        ),
        !up && positions@[index as int] != 0 ==> r == Some(
            ((index + 1) as usize, positions@[index as int], positions@[index + 1]),
        ),
{
    let n = positions.len();
    if up {
        if index == 0 {
            None
        } else {
            Some((index - 1, positions[index], positions[index - 1]))
        }
    } else if positions[index] == 0 {
        None
    } else {
        Some((index + 1, positions[index], positions[index + 1]))
    }
}

/// Which of two rows of a box comes first.
#[derive(Debug, PartialEq, Eq, Clone, Copy)]
pub enum RowOrder {
    /// The first row comes before the second.
    Before,
    /// The first row comes after the second.
    After,
}

/// The order of two rows of a box, given the positions of their tasks (none
/// for a row that is not a task's): in a day's box rows keep the order in
/// which they came; a row that is not a task's goes after a task's; between
/// tasks' rows, the higher position comes first (of equal positions, the
/// first row comes first).
pub fn row_order(wrapper: TasksBoxWrapper, first: Option<i32>, second: Option<i32>) -> (r: RowOrder)
    ensures
        wrapper is Date ==> r == RowOrder::After,
        !(wrapper is Date) ==> r == match (first, second) {
            (None, _) => RowOrder::After,
            (Some(_), None) => RowOrder::Before,
            (Some(a), Some(b)) => if a < b {
                RowOrder::After
            } else {
                RowOrder::Before
            },
        },
{
    if let TasksBoxWrapper::Date(_) = wrapper {
        return RowOrder::After;
    }
    match (first, second) {
        (None, _) => RowOrder::After,
        (Some(_), None) => RowOrder::Before,
        (Some(a), Some(b)) => if a < b {
            RowOrder::After
        } else {
            RowOrder::Before
        },
    }
}

/// Whether a row of a box shows, given for a task's row whether its task is
/// suspended and whether the row is moving out of the box (none for another
/// row, which always shows).
pub fn row_shown(task_row: Option<(bool, bool)>) -> (r: bool)
    ensures
        r == match task_row {
            None => true,
            Some((suspended, moving_out)) => !suspended && !moving_out,
        },
{
    match task_row {
        None => true,
        Some((suspended, moving_out)) => !suspended && !moving_out,
    }
}

/// Whether the button that adds a task at the bottom of a box shows, given
/// the number of the box's children and, for each task's row, whether its
/// task is suspended and whether it is moving out: not where the box has two
/// children, else where some task's row shows.
pub fn bottom_add_shown(children: usize, rows: &Vec<(bool, bool)>) -> (r: bool)
    ensures
        children == 2 ==> !r,
        children != 2 ==> r == exists|i: int| 0 <= i < rows@.len() && !(#[trigger] rows@[i]).0 && !rows@[i].1,
{
    if children == 2 {
        return false;
    }
    let mut i: usize = 0;
    while i < rows.len()
        invariant
            i <= rows@.len(),
            children != 2,
            forall|j: int| 0 <= j < i ==> !(!(#[trigger] rows@[j]).0 && !rows@[j].1),
        decreases rows@.len() - i,
    {
        if !rows[i].0 && !rows[i].1 {
            return true;
        }
        i = i + 1;
    }
    false
}

} // verus!
