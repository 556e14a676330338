//! Adding, reading, saving and deleting time records.

use vstd::prelude::*;

use crate::db::models::Record;
use crate::db::sorting::{is_sorted_copy, select_rows, sort_rows};
use crate::db::store::{has_id, row_of, unchanged_except, Database, DbError, Row};

verus! {

/// Whether a record passes the filters of `read_records`: it belongs to task
/// `task_id`, is still running where `incomplete`, and began after `start`
/// and before `end` where they are given.
pub open spec fn record_selected(
    r: Record,
    task_id: i64,
    incomplete: bool,
    start: Option<i64>,
    end: Option<i64>,
) -> bool {
    &&& r.task == task_id
    &&& incomplete ==> r.duration == 0
    &&& start matches Some(s) ==> r.start > s
    &&& end matches Some(e) ==> r.start < e
}

/// Adds a running record of task `task_id` that began at `start`.
pub fn create_record(db: &mut Database, start: i64, task_id: i64) -> (r: Result<Record, DbError>)
    ensures
        unchanged_except(*old(db), *final(db), false, false, false, false, true, false),
        old(db).records.last_id_spec() == i64::MAX ==> r == Err::<Record, DbError>(DbError::Full)
            && final(db).records == old(db).records,
        old(db).records.last_id_spec() < i64::MAX ==> (r matches Ok(rec) && {
            &&& rec == Record {
                id: (old(db).records.last_id_spec() + 1) as i64,
                start,
                duration: 0,
                task: task_id,
            }
            &&& final(db).records@ == old(db).records@.push(rec)
            &&& final(db).records.last_id_spec() == rec.id
        }),
{
    match db.records.next_id() {
        None => Err(DbError::Full),
        Some(id) => {
            let rec = Record::new(id, start, 0, task_id);
            db.records.push_new(rec.copied());
            Ok(rec)
        },
    }
}

/// The records of task `task_id` that pass the filters (see
/// `record_selected`), latest start first.
pub fn read_records(
    db: &Database,
    task_id: i64,
    incomplete: bool,
    start: Option<i64>,
    end: Option<i64>,
) -> (r: Vec<Record>)
    ensures
        is_sorted_copy(
            r@,
            db.records@.filter(|x: Record| record_selected(x, task_id, incomplete, start, end)),
            |x: Record| x.start as int,
            true,
        ),
{
    let rows = db.records.rows();
    let mut keep: Vec<bool> = Vec::new();
    let mut k: usize = 0;
    while k < rows.len()
        invariant
            k <= rows@.len(),
            keep@.len() == k,
            forall|i: int|
                0 <= i < k ==> keep@[i] == record_selected(
                    #[trigger] rows@[i],
                    task_id,
                    incomplete,
                    start,
                    end,
                ),
        decreases rows@.len() - k,
    {
        let x = &rows[k];
        let mut ok = x.task == task_id;
        if incomplete && x.duration != 0 {
            ok = false;
        }
        if let Some(s) = start {
            if !(x.start > s) {
                ok = false;
            }
        }
        if let Some(e) = end {
            if !(x.start < e) {
                ok = false;
            }
        }
        keep.push(ok);
        k = k + 1;
    }
    let shown = select_rows(
        rows,
        &keep,
        Ghost(|x: Record| record_selected(x, task_id, incomplete, start, end)),
    );
    let mut keys: Vec<i128> = Vec::new();
    let mut k: usize = 0;
    while k < shown.len()
        invariant
            k <= shown@.len(),
            keys@.len() == k,
            forall|i: int| 0 <= i < k ==> keys@[i] == (#[trigger] shown@[i]).start as int,
        decreases shown@.len() - k,
    {
        keys.push(shown[k].start as i128);
        k = k + 1;
    }
    sort_rows(&shown, &keys, true, Ghost(|x: Record| x.start as int))
}

/// The record with id `record_id`.
pub fn read_record(db: &Database, record_id: i64) -> (r: Result<Record, DbError>)
    ensures
        r is Ok <==> has_id(db.records@, record_id),
        r matches Ok(x) ==> x == row_of(db.records@, record_id),
        r matches Err(e) ==> e == DbError::QueryReturnedNoRows,
{
    db.records.read(record_id)
}

/// Saves `record`'s start, duration and task.
pub fn update_record(db: &mut Database, record: &Record)
    ensures
        unchanged_except(*old(db), *final(db), false, false, false, false, true, false),
        final(db).records@ == old(db).records@.map_values(
            |x: Record| if x.id == record.id { *record } else { x },
        ),
        final(db).records.last_id_spec() == old(db).records.last_id_spec(),
{
    db.records.update_where_id(record.copied());
    proof {
        assert(final(db).records@ =~= old(db).records@.map_values(
            |x: Record| if x.id == record.id { *record } else { x },
        ));
    }
}

/// Deletes the record with id `record_id`.
pub fn delete_record(db: &mut Database, record_id: i64)
    ensures
        unchanged_except(*old(db), *final(db), false, false, false, false, true, false),
        final(db).records@ == old(db).records@.filter(|x: Record| x.id != record_id),
        final(db).records.last_id_spec() == old(db).records.last_id_spec(),
{
    db.records.delete_where_id(record_id);
    proof {
        assert((|r: Record| r.row_id() != record_id) =~= (|x: Record| x.id != record_id));
    }
}

} // verus!
