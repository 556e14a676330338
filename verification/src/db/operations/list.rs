//! Adding, reading, saving and deleting lists.

use vstd::prelude::*;

use crate::db::models::{List, Task};
use crate::db::sorting::{is_sorted_copy, select_rows, sort_rows};
use crate::db::store::{has_id, next_slot, row_of, top, unchanged_except, Database, DbError, Row, Table};

verus! {

/// The places of the lists of project `project_id`.
pub open spec fn list_indexes(s: Seq<List>, project_id: i64) -> Seq<int> {
    s.filter(|x: List| x.project == project_id).map_values(|x: List| x.index as int)
}

/// The place of a new list of project `project_id`: after its last one.
fn new_index(lists: &Table<List>, project_id: i64) -> (r: i32)
    requires
        next_slot(list_indexes(lists@, project_id)) <= i32::MAX,
    ensures
        r == next_slot(list_indexes(lists@, project_id)),
{
    let rows = lists.rows();
    let n = rows.len();
    let mut best: Option<i32> = None;
    let mut k: usize = 0;
    while k < n
        invariant
            n == rows@.len(),
            rows@ == lists@,
            k <= n,
            match best {
                None => top(list_indexes(rows@.take(k as int), project_id)) is None,
                Some(m) => top(list_indexes(rows@.take(k as int), project_id)) == Some(m as int),
            },
        decreases n - k,
    {
        proof {
            assert(rows@.take(k + 1).drop_last() =~= rows@.take(k as int));
            reveal_with_fuel(Seq::<_>::filter, 1);
            if rows@[k as int].project == project_id {
                assert(list_indexes(rows@.take(k + 1), project_id).drop_last() =~= list_indexes(
                    rows@.take(k as int),
                    project_id,
                ));
            } else {
                assert(list_indexes(rows@.take(k + 1), project_id) =~= list_indexes(
                    rows@.take(k as int),
                    project_id,
                ));
            }
        }
        if rows[k].project == project_id {
            let i = rows[k].index;
            best = match best {
                None => Some(i),
                Some(m) => Some(if i > m { i } else { m }),
            };
        }
        k = k + 1;
    }
    proof {
        assert(rows@.take(n as int) =~= rows@);
    }
    match best {
        None => 0,
        Some(m) => m + 1,
    }
}

/// Adds a list named `name` after the last one of project `project_id`.
pub fn create_list(db: &mut Database, name: &str, project_id: i64) -> (r: Result<List, DbError>)
    requires
        next_slot(list_indexes(old(db).lists@, project_id)) <= i32::MAX,
    ensures
        unchanged_except(*old(db), *final(db), false, true, false, false, false, false),
        old(db).lists.last_id_spec() == i64::MAX ==> r == Err::<List, DbError>(DbError::Full)
            && final(db).lists == old(db).lists,
        old(db).lists.last_id_spec() < i64::MAX ==> (r matches Ok(l) && {
            &&& l.id == old(db).lists.last_id_spec() + 1
            &&& l.name@ == name@
            &&& l.project == project_id
            &&& l.index == next_slot(list_indexes(old(db).lists@, project_id))
            &&& final(db).lists@ == old(db).lists@.push(l)
            &&& final(db).lists.last_id_spec() == l.id
        }),
{
    let index = new_index(&db.lists, project_id);
    match db.lists.next_id() {
        None => Err(DbError::Full),
        Some(id) => {
            let l = List::new(id, name.to_owned(), project_id, index);
            db.lists.push_new(l.copied());
            Ok(l)
        },
    }
}

/// The lists of project `project_id`, by their place.
pub fn read_lists(db: &Database, project_id: i64) -> (r: Vec<List>)
    ensures
        is_sorted_copy(
            r@,
            db.lists@.filter(|l: List| l.project == project_id),
            |l: List| l.index as int,
            false,
        ),
{
    let rows = db.lists.rows();
    let mut keep: Vec<bool> = Vec::new();
    let mut k: usize = 0;
    while k < rows.len()
        invariant
            k <= rows@.len(),
            keep@.len() == k,
            forall|i: int| 0 <= i < k ==> keep@[i] == ((#[trigger] rows@[i]).project == project_id),
        decreases rows@.len() - k,
    {
        keep.push(rows[k].project == project_id);
        k = k + 1;
    }
    let shown = select_rows(rows, &keep, Ghost(|l: List| l.project == project_id));
    let mut keys: Vec<i128> = Vec::new();
    let mut k: usize = 0;
    while k < shown.len()
        invariant
            k <= shown@.len(),
            keys@.len() == k,
            forall|i: int| 0 <= i < k ==> keys@[i] == (#[trigger] shown@[i]).index as int,
        decreases shown@.len() - k,
    {
        keys.push(shown[k].index as i128);
        k = k + 1;
    }
    sort_rows(&shown, &keys, false, Ghost(|l: List| l.index as int))
}

/// The list with id `list_id`.
pub fn read_list(db: &Database, list_id: i64) -> (r: Result<List, DbError>)
    ensures
        r is Ok <==> has_id(db.lists@, list_id),
        r matches Ok(l) ==> l == row_of(db.lists@, list_id),
        r matches Err(e) ==> e == DbError::QueryReturnedNoRows,
{
    db.lists.read(list_id)
}

/// Saves `list`'s name, project and place (the other lists keep theirs).
pub fn update_list(db: &mut Database, list: List)
    ensures
        unchanged_except(*old(db), *final(db), false, true, false, false, false, false),
        final(db).lists@ == old(db).lists@.map_values(|l: List| if l.id == list.id { list } else { l }),
        final(db).lists.last_id_spec() == old(db).lists.last_id_spec(),
{
    let ghost id = list.id;
    db.lists.update_where_id(list);
    proof {
        assert(final(db).lists@ =~= old(db).lists@.map_values(|l: List| if l.id == id { list } else { l }));
    }
}

/// Deletes the list with id `list_id` and its tasks.
pub fn delete_list(db: &mut Database, list_id: i64)
    ensures
        unchanged_except(*old(db), *final(db), false, true, false, true, false, false),
        final(db).lists@ == old(db).lists@.filter(|l: List| l.id != list_id),
        final(db).tasks@ == old(db).tasks@.filter(|t: Task| t.section != list_id),
        final(db).lists.last_id_spec() == old(db).lists.last_id_spec(),
        final(db).tasks.last_id_spec() == old(db).tasks.last_id_spec(),
{
    db.lists.delete_where_id(list_id);
    proof {
        assert((|r: List| r.row_id() != list_id) =~= (|l: List| l.id != list_id));
    }
    let mut keep: Vec<bool> = Vec::new();
    let mut k: usize = 0;
    while k < db.tasks.len()
        invariant
            k <= db.tasks@.len(),
            keep@.len() == k,
            forall|i: int| 0 <= i < k ==> keep@[i] == ((#[trigger] db.tasks@[i]).section != list_id),
        decreases db.tasks@.len() - k,
    {
        keep.push(db.tasks.rows()[k].section != list_id);
        k = k + 1;
    }
    db.tasks.retain(&keep, Ghost(|t: Task| t.section != list_id));
}

} // verus!
