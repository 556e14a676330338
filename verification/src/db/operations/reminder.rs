//! Adding, reading, saving and deleting reminders.

use vstd::prelude::*;

use crate::db::models::Reminder;
use crate::db::sorting::{is_sorted_copy, select_rows, sort_rows};
use crate::db::store::{has_id, row_of, unchanged_except, Database, DbError, Row};

verus! {

/// Adds a reminder of task `task_id` at `datetime` with `priority`.
pub fn create_reminder(db: &mut Database, datetime: i64, task_id: i64, priority: u8) -> (r: Result<
    Reminder,
    DbError,
>)
    ensures
        unchanged_except(*old(db), *final(db), false, false, false, false, false, true),
        old(db).reminders.last_id_spec() == i64::MAX ==> r == Err::<Reminder, DbError>(
            DbError::Full,
        ) && final(db).reminders == old(db).reminders,
        old(db).reminders.last_id_spec() < i64::MAX ==> (r matches Ok(rem) && {
            &&& rem == Reminder {
                id: (old(db).reminders.last_id_spec() + 1) as i64,
                datetime,
                past: false,
                task: task_id,
                priority,
            }
            &&& final(db).reminders@ == old(db).reminders@.push(rem)
            &&& final(db).reminders.last_id_spec() == rem.id
        }),
{
    match db.reminders.next_id() {
        None => Err(DbError::Full),
        Some(id) => {
            let rem = Reminder::new(id, datetime, false, task_id, priority);
            db.reminders.push_new(rem.copied());
            Ok(rem)
        },
    }
}

/// Whether a reminder is still to come, and of task `task` where one is given.
pub open spec fn reminder_pending(x: Reminder, task: Option<i64>) -> bool {
    !x.past && (task matches Some(t) ==> x.task == t)
}

/// The reminders that are still to come, of task `task` where one is given,
/// latest first.
fn pending(db: &Database, task: Option<i64>) -> (r: Vec<Reminder>)
    ensures
        is_sorted_copy(
            r@,
            db.reminders@.filter(|x: Reminder| reminder_pending(x, task)),
            |x: Reminder| x.datetime as int,
            true,
        ),
{
    let rows = db.reminders.rows();
    let mut keep: Vec<bool> = Vec::new();
    let mut k: usize = 0;
    while k < rows.len()
        invariant
            k <= rows@.len(),
            keep@.len() == k,
            forall|i: int| 0 <= i < k ==> keep@[i] == reminder_pending(#[trigger] rows@[i], task),
        decreases rows@.len() - k,
    {
        let x = &rows[k];
        let of_task = match task {
            Some(t) => x.task == t,
            None => true,
        };
        keep.push(!x.past && of_task);
        k = k + 1;
    }
    let shown = select_rows(rows, &keep, Ghost(|x: Reminder| reminder_pending(x, task)));
    let mut keys: Vec<i128> = Vec::new();
    let mut k: usize = 0;
    while k < shown.len()
        invariant
            k <= shown@.len(),
            keys@.len() == k,
            forall|i: int| 0 <= i < k ==> keys@[i] == (#[trigger] shown@[i]).datetime as int,
        decreases shown@.len() - k,
    {
        keys.push(shown[k].datetime as i128);
        k = k + 1;
    }
    sort_rows(&shown, &keys, true, Ghost(|x: Reminder| x.datetime as int))
}

/// The reminders of task `task_id` that are still to come, latest first.
pub fn read_reminders(db: &Database, task_id: i64) -> (r: Vec<Reminder>)
    ensures
        is_sorted_copy(
            r@,
            db.reminders@.filter(|x: Reminder| x.task == task_id && !x.past),
            |x: Reminder| x.datetime as int,
            true,
        ),
{
    let r = pending(db, Some(task_id));
    proof {
        assert((|x: Reminder| reminder_pending(x, Some(task_id))) =~= (|x: Reminder| x.task == task_id
            && !x.past));
    }
    r
}

/// All the reminders that are still to come, latest first: those that the
/// application schedules at start.
pub fn pending_reminders(db: &Database) -> (r: Vec<Reminder>)
    ensures
        is_sorted_copy(r@, db.reminders@.filter(|x: Reminder| !x.past), |x: Reminder| x.datetime as int, true),
{
    let r = pending(db, None);
    proof {
        assert((|x: Reminder| reminder_pending(x, None)) =~= (|x: Reminder| !x.past));
    }
    r
}

/// The reminder with id `reminder_id`.
pub fn read_reminder(db: &Database, reminder_id: i64) -> (r: Result<Reminder, DbError>)
    ensures
        r is Ok <==> has_id(db.reminders@, reminder_id),
        r matches Ok(x) ==> x == row_of(db.reminders@, reminder_id),
        r matches Err(e) ==> e == DbError::QueryReturnedNoRows,
{
    db.reminders.read(reminder_id)
}

/// Saves `reminder`'s time, past flag, task and priority.
pub fn update_reminder(db: &mut Database, reminder: &Reminder)
    ensures
        unchanged_except(*old(db), *final(db), false, false, false, false, false, true),
        final(db).reminders@ == old(db).reminders@.map_values(
            |x: Reminder| if x.id == reminder.id { *reminder } else { x },
        ),
        final(db).reminders.last_id_spec() == old(db).reminders.last_id_spec(),
{
    db.reminders.update_where_id(reminder.copied());
    proof {
        assert(final(db).reminders@ =~= old(db).reminders@.map_values(
            |x: Reminder| if x.id == reminder.id { *reminder } else { x },
        ));
    }
}

/// Deletes the reminder with id `reminder_id`.
pub fn delete_reminder(db: &mut Database, reminder_id: i64)
    ensures
        unchanged_except(*old(db), *final(db), false, false, false, false, false, true),
        final(db).reminders@ == old(db).reminders@.filter(|x: Reminder| x.id != reminder_id),
        final(db).reminders.last_id_spec() == old(db).reminders.last_id_spec(),
{
    db.reminders.delete_where_id(reminder_id);
    proof {
        assert((|r: Reminder| r.row_id() != reminder_id) =~= (|x: Reminder| x.id != reminder_id));
    }
}

} // verus!
