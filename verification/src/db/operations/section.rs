//! Adding, reading, saving and deleting sections.

use vstd::prelude::*;

use crate::db::models::{Section, Task};
use crate::db::operations::project::shift_for_move;
use crate::db::sorting::{is_sorted_copy, select_rows, sort_rows};
use crate::db::store::{has_id, next_slot, row_of, top, unchanged_except, Database, DbError, Row, Table};

verus! {

/// The places of the sections of project `project_id`.
pub open spec fn section_indexes(s: Seq<Section>, project_id: i64) -> Seq<int> {
    s.filter(|x: Section| x.project == project_id).map_values(|x: Section| x.index as int)
}

/// The sections after `section` is saved: it takes all its new values, and
/// when its place changed, the sections (of every project) between the old
/// and the new place shift by one toward the old.
pub open spec fn sections_after_update(s: Seq<Section>, section: Section) -> Seq<Section> {
    let from = row_of(s, section.id).index as int;
    s.map_values(
        |r: Section|
            if r.id == section.id {
                section
            } else {
                Section { index: shift_for_move(r.index as int, from, section.index as int) as i32, ..r }
            },
    )
}

/// The place of a new section of project `project_id`: after its last one.
fn new_index(sections: &Table<Section>, project_id: i64) -> (r: i32)
    requires
        next_slot(section_indexes(sections@, project_id)) <= i32::MAX,
    ensures
        r == next_slot(section_indexes(sections@, project_id)),
{
    let rows = sections.rows();
    let n = rows.len();
    let mut best: Option<i32> = None;
    let mut k: usize = 0;
    while k < n
        invariant
            n == rows@.len(),
            rows@ == sections@,
            k <= n,
            match best {
                None => top(section_indexes(rows@.take(k as int), project_id)) is None,
                Some(m) => top(section_indexes(rows@.take(k as int), project_id)) == Some(m as int),
            },
        decreases n - k,
    {
        proof {
            assert(rows@.take(k + 1).drop_last() =~= rows@.take(k as int));
            reveal_with_fuel(Seq::<_>::filter, 1);
            let f = |x: Section| x.project == project_id;
            if rows@[k as int].project == project_id {
                assert(section_indexes(rows@.take(k + 1), project_id).drop_last() =~= section_indexes(
                    rows@.take(k as int),
                    project_id,
                ));
            } else {
                assert(section_indexes(rows@.take(k + 1), project_id) =~= section_indexes(
                    rows@.take(k as int),
                    project_id,
                ));
            }
        }
        if rows[k].project == project_id {
            let i = rows[k].index;
            best = match best {
                None => Some(i),
                Some(m) => Some(if i > m { i } else { m }),
            };
        }
        k = k + 1;
    }
    proof {
        assert(rows@.take(n as int) =~= rows@);
    }
    match best {
        None => 0,
        Some(m) => m + 1,
    }
}

/// Adds a section named `name` after the last one of project `project_id`.
pub fn create_section(db: &mut Database, name: &str, project_id: i64) -> (r: Result<Section, DbError>)
    requires
        next_slot(section_indexes(old(db).sections@, project_id)) <= i32::MAX,
    ensures
        unchanged_except(*old(db), *final(db), false, false, true, false, false, false),
        old(db).sections.last_id_spec() == i64::MAX ==> r == Err::<Section, DbError>(DbError::Full)
            && final(db).sections == old(db).sections,
        old(db).sections.last_id_spec() < i64::MAX ==> (r matches Ok(s) && {
            &&& s.id == old(db).sections.last_id_spec() + 1
            &&& s.name@ == name@
            &&& s.project == project_id
            &&& s.index == next_slot(section_indexes(old(db).sections@, project_id))
            &&& final(db).sections@ == old(db).sections@.push(s)
            &&& final(db).sections.last_id_spec() == s.id
        }),
{
    let index = new_index(&db.sections, project_id);
    match db.sections.next_id() {
        None => Err(DbError::Full),
        Some(id) => {
            let s = Section::new(id, name.to_owned(), project_id, index);
            db.sections.push_new(s.copied());
            Ok(s)
        },
    }
}

/// The sections of project `project_id`, by their place.
pub fn read_sections(db: &Database, project_id: i64) -> (r: Vec<Section>)
    ensures
        is_sorted_copy(
            r@,
            db.sections@.filter(|s: Section| s.project == project_id),
            |s: Section| s.index as int,
            false,
        ),
{
    let rows = db.sections.rows();
    let mut keep: Vec<bool> = Vec::new();
    let mut k: usize = 0;
    while k < rows.len()
        invariant
            k <= rows@.len(),
            keep@.len() == k,
            forall|i: int| 0 <= i < k ==> keep@[i] == ((#[trigger] rows@[i]).project == project_id),
        decreases rows@.len() - k,
    {
        keep.push(rows[k].project == project_id);
        k = k + 1;
    }
    let shown = select_rows(rows, &keep, Ghost(|s: Section| s.project == project_id));
    let mut keys: Vec<i128> = Vec::new();
    let mut k: usize = 0;
    while k < shown.len()
        invariant
            k <= shown@.len(),
            keys@.len() == k,
            forall|i: int| 0 <= i < k ==> keys@[i] == (#[trigger] shown@[i]).index as int,
        decreases shown@.len() - k,
    {
        keys.push(shown[k].index as i128);
        k = k + 1;
    }
    sort_rows(&shown, &keys, false, Ghost(|s: Section| s.index as int))
}

/// The section with id `section_id`.
pub fn read_section(db: &Database, section_id: i64) -> (r: Result<Section, DbError>)
    ensures
        r is Ok <==> has_id(db.sections@, section_id),
        r matches Ok(s) ==> s == row_of(db.sections@, section_id),
        r matches Err(e) ==> e == DbError::QueryReturnedNoRows,
{
    db.sections.read(section_id)
}

/// Saves `section`; when its place changed, the sections between the old and
/// the new place shift by one toward the old.
pub fn update_section(db: &mut Database, section: &Section) -> (r: Result<(), DbError>)
    ensures
        !has_id(old(db).sections@, section.id) ==> r == Err::<(), DbError>(
            DbError::QueryReturnedNoRows,
        ) && *final(db) == *old(db),
        has_id(old(db).sections@, section.id) ==> {
            &&& r is Ok
            &&& unchanged_except(*old(db), *final(db), false, false, true, false, false, false)
            &&& final(db).sections@ == sections_after_update(old(db).sections@, *section)
            &&& final(db).sections.last_id_spec() == old(db).sections.last_id_spec()
        },
{
    proof {
        use_type_invariant(&db.sections);
    }
    let k = match db.sections.find(section.id) {
        None => {
            return Err(DbError::QueryReturnedNoRows);
        },
        Some(k) => k,
    };
    let from = db.sections.rows()[k].index;
    let ghost old_rows = db.sections@;
    let ghost want = sections_after_update(old_rows, *section);
    proof {
        let j = choose|j: int| 0 <= j < old_rows.len() && old_rows[j].row_id() == section.id;
        assert(j == k as int);
    }
    let n = db.sections.len();
    let mut i: usize = 0;
    while i < n
        invariant
            n == old_rows.len(),
            db.sections@.len() == n,
            i <= n,
            want == sections_after_update(old_rows, *section),
            from == row_of(old_rows, section.id).index,
            forall|a: int| 0 <= a < i ==> db.sections@[a] == want[a],
            forall|a: int| i <= a < n ==> db.sections@[a] == old_rows[a],
            db.sections.last_id_spec() == old(db).sections.last_id_spec(),
            unchanged_except(*old(db), *db, false, false, true, false, false, false),
        decreases n - i,
    {
        let r = db.sections.rows()[i].copied();
        let new_row = if r.id == section.id {
            section.copied()
        } else {
            let to = section.index;
            let x = r.index;
            let moved = if to > from && from < x && x <= to {
                x - 1
            } else if to < from && to <= x && x < from {
                x + 1
            } else {
                x
            };
            Section { index: moved, ..r }
        };
        db.sections.set(i, new_row);
        i = i + 1;
    }
    proof {
        assert(db.sections@ =~= want);
    }
    Ok(())
}

/// Deletes the section with id `section_id` and its tasks.
pub fn delete_section(db: &mut Database, section_id: i64)
    ensures
        unchanged_except(*old(db), *final(db), false, false, true, true, false, false),
        final(db).sections@ == old(db).sections@.filter(|s: Section| s.id != section_id),
        final(db).tasks@ == old(db).tasks@.filter(|t: Task| t.section != section_id),
        final(db).sections.last_id_spec() == old(db).sections.last_id_spec(),
        final(db).tasks.last_id_spec() == old(db).tasks.last_id_spec(),
{
    db.sections.delete_where_id(section_id);
    proof {
        assert((|r: Section| r.row_id() != section_id) =~= (|s: Section| s.id != section_id));
    }
    let mut keep: Vec<bool> = Vec::new();
    let mut k: usize = 0;
    while k < db.tasks.len()
        invariant
            k <= db.tasks@.len(),
            keep@.len() == k,
            forall|i: int| 0 <= i < k ==> keep@[i] == ((#[trigger] db.tasks@[i]).section != section_id),
        decreases db.tasks@.len() - k,
    {
        keep.push(db.tasks.rows()[k].section != section_id);
        k = k + 1;
    }
    db.tasks.retain(&keep, Ghost(|t: Task| t.section != section_id));
}

} // verus!
