//! Adding, reading, saving, deleting and finding projects.

use vstd::prelude::*;

use crate::db::models::Project;
use crate::db::pattern::{like, make_search_pattern, search_matches, search_pattern};
use crate::db::sorting::{is_sorted_copy, select_rows, sort_rows};
use crate::db::store::{
    has_id, next_slot, row_of, top, unchanged_except, Database, DbError, Row, Table,
};

verus! {

/// The projects' places in the sidebar.
pub open spec fn project_indexes(s: Seq<Project>) -> Seq<int> {
    s.map_values(|p: Project| p.index as int)
}

/// Whether `show` lets a project through: all do when archived ones are
/// asked for, else the unarchived ones.
pub open spec fn project_shown(p: Project, archive: bool) -> bool {
    archive || !p.archive
}

/// Where an item at place `i` goes when the item at `from` moves to `to`:
/// those in between close the gap it leaves and open one where it lands.
pub open spec fn shift_for_move(i: int, from: int, to: int) -> int {
    if to > from && from < i && i <= to {
        i - 1
    } else if to < from && to <= i && i < from {
        i + 1
    } else {
        i
    }
}

/// The projects after `project` is saved: it takes its new name, archive flag
/// and place, and the projects between its old and new place shift by one.
pub open spec fn projects_after_update(s: Seq<Project>, project: Project) -> Seq<Project> {
    let from = row_of(s, project.id).index as int;
    s.map_values(
        |r: Project|
            if r.id == project.id {
                Project { name: project.name, archive: project.archive, index: project.index, ..r }
            } else {
                Project { index: shift_for_move(r.index as int, from, project.index as int) as i32, ..r }
            },
    )
}

/// The projects after the one with id `id`, at place `index`, is deleted: the
/// projects above that place move down by one.
pub open spec fn projects_after_delete(s: Seq<Project>, id: i64, index: i32) -> Seq<Project> {
    s.filter(|p: Project| p.id != id).map_values(
        |p: Project|
            if p.index > index {
                Project { index: (p.index - 1) as i32, ..p }
            } else {
                p
            },
    )
}

/// The place of a new project: after the last one.
fn new_index(projects: &Table<Project>) -> (r: i32)
    requires
        next_slot(project_indexes(projects@)) <= i32::MAX,
    ensures
        r == next_slot(project_indexes(projects@)),
{
    let rows = projects.rows();
    let n = rows.len();
    let mut best: Option<i32> = None;
    let mut k: usize = 0;
    while k < n
        invariant
            n == rows@.len(),
            rows@ == projects@,
            k <= n,
            match best {
                None => top(project_indexes(rows@.take(k as int))) is None,
                Some(m) => top(project_indexes(rows@.take(k as int))) == Some(m as int),
            },
        decreases n - k,
    {
        proof {
            assert(project_indexes(rows@.take(k + 1)).drop_last() =~= project_indexes(
                rows@.take(k as int),
            ));
        }
        let i = rows[k].index;
        best = match best {
            None => Some(i),
            Some(m) => Some(if i > m { i } else { m }),
        };
        k = k + 1;
    }
    proof {
        assert(rows@.take(n as int) =~= rows@);
    }
    match best {
        None => 0,
        Some(m) => m + 1,
    }
}

/// Adds a project named `name` after the last one.
pub fn create_project(db: &mut Database, name: &str) -> (r: Result<Project, DbError>)
    requires
        next_slot(project_indexes(old(db).projects@)) <= i32::MAX,
    ensures
        unchanged_except(*old(db), *final(db), true, false, false, false, false, false),
        old(db).projects.last_id_spec() == i64::MAX ==> r == Err::<Project, DbError>(DbError::Full)
            && final(db).projects == old(db).projects,
        old(db).projects.last_id_spec() < i64::MAX ==> (r matches Ok(p) && {
            &&& p.id == old(db).projects.last_id_spec() + 1
            &&& p.name@ == name@
            &&& !p.archive
            &&& p.index == next_slot(project_indexes(old(db).projects@))
            &&& p.icon@.len() == 0
            &&& p.description@.len() == 0
            &&& final(db).projects@ == old(db).projects@.push(p)
            &&& final(db).projects.last_id_spec() == p.id
        }),
{
    let index = new_index(&db.projects);
    match db.projects.next_id() {
        None => Err(DbError::Full),
        Some(id) => {
            let p = Project::new(id, name.to_owned(), false, index, String::new(), String::new());
            db.projects.push_new(p.copied());
            Ok(p)
        },
    }
}

/// The projects, archived ones only where `archive`, by their place.
pub fn read_projects(db: &Database, archive: bool) -> (r: Vec<Project>)
    ensures
        is_sorted_copy(
            r@,
            db.projects@.filter(|p: Project| project_shown(p, archive)),
            |p: Project| p.index as int,
            false,
        ),
{
    let rows = db.projects.rows();
    let mut keep: Vec<bool> = Vec::new();
    let mut k: usize = 0;
    while k < rows.len()
        invariant
            k <= rows@.len(),
            keep@.len() == k,
            forall|i: int| 0 <= i < k ==> keep@[i] == project_shown(#[trigger] rows@[i], archive),
        decreases rows@.len() - k,
    {
        keep.push(archive || !rows[k].archive);
        k = k + 1;
    }
    let shown = select_rows(rows, &keep, Ghost(|p: Project| project_shown(p, archive)));
    let mut keys: Vec<i128> = Vec::new();
    let mut k: usize = 0;
    while k < shown.len()
        invariant
            k <= shown@.len(),
            keys@.len() == k,
            forall|i: int| 0 <= i < k ==> keys@[i] == (#[trigger] shown@[i]).index as int,
        decreases shown@.len() - k,
    {
        keys.push(shown[k].index as i128);
        k = k + 1;
    }
    sort_rows(&shown, &keys, false, Ghost(|p: Project| p.index as int))
}

/// The project with id `project_id`.
pub fn read_project(db: &Database, project_id: i64) -> (r: Result<Project, DbError>)
    ensures
        r is Ok <==> has_id(db.projects@, project_id),
        r matches Ok(p) ==> p == row_of(db.projects@, project_id),
        r matches Err(e) ==> e == DbError::QueryReturnedNoRows,
{
    db.projects.read(project_id)
}

/// Saves `project`'s name, archive flag and place; when its place changed, the
/// projects between the old and the new place shift by one toward the old.
/// Its icon and description are left as they were.
pub fn update_project(db: &mut Database, project: &Project) -> (r: Result<(), DbError>)
    ensures
        !has_id(old(db).projects@, project.id) ==> r == Err::<(), DbError>(
            DbError::QueryReturnedNoRows,
        ) && *final(db) == *old(db),
        has_id(old(db).projects@, project.id) ==> {
            &&& r is Ok
            &&& unchanged_except(*old(db), *final(db), true, false, false, false, false, false)
            &&& final(db).projects@ == projects_after_update(old(db).projects@, *project)
            &&& final(db).projects.last_id_spec() == old(db).projects.last_id_spec()
        },
{
    proof {
        use_type_invariant(&db.projects);
    }
    let k = match db.projects.find(project.id) {
        None => {
            return Err(DbError::QueryReturnedNoRows);
        },
        Some(k) => k,
    };
    let from = db.projects.rows()[k].index;
    let ghost old_rows = db.projects@;
    let ghost want = projects_after_update(old_rows, *project);
    proof {
        let j = choose|j: int| 0 <= j < old_rows.len() && old_rows[j].row_id() == project.id;
        assert(j == k as int);
        assert(from == row_of(old_rows, project.id).index);
    }
    let n = db.projects.len();
    let mut i: usize = 0;
    while i < n
        invariant
            n == old_rows.len(),
            db.projects@.len() == n,
            i <= n,
            want == projects_after_update(old_rows, *project),
            from == row_of(old_rows, project.id).index,
            forall|a: int| 0 <= a < i ==> db.projects@[a] == want[a],
            forall|a: int| i <= a < n ==> db.projects@[a] == old_rows[a],
            db.projects.last_id_spec() == old(db).projects.last_id_spec(),
            unchanged_except(*old(db), *db, true, false, false, false, false, false),
        decreases n - i,
    {
        let r = db.projects.rows()[i].copied();
        let new_row = if r.id == project.id {
            Project {
                id: r.id,
                name: project.name.clone(),
                archive: project.archive,
                index: project.index,
                icon: r.icon,
                description: r.description,
            }
        } else {
            let to = project.index;
            let x = r.index;
            let moved = if to > from && from < x && x <= to {
                x - 1
            } else if to < from && to <= x && x < from {
                x + 1
            } else {
                x
            };
            Project { index: moved, ..r }
        };
        db.projects.set(i, new_row);
        i = i + 1;
    }
    proof {
        assert(db.projects@ =~= want);
    }
    Ok(())
}

/// Deletes the project with id `project_id`, which stands at place `index`,
/// with its lists and tasks; the projects above that place move down by one.
pub fn delete_project(db: &mut Database, project_id: i64, index: i32)
    ensures
        unchanged_except(*old(db), *final(db), true, true, false, true, false, false),
        final(db).projects@ == projects_after_delete(old(db).projects@, project_id, index),
        final(db).lists@ == old(db).lists@.filter(|l: crate::db::models::List| l.project != project_id),
        final(db).tasks@ == old(db).tasks@.filter(|t: crate::db::models::Task| t.project != project_id),
        final(db).projects.last_id_spec() == old(db).projects.last_id_spec(),
        final(db).lists.last_id_spec() == old(db).lists.last_id_spec(),
        final(db).tasks.last_id_spec() == old(db).tasks.last_id_spec(),
{
    let mut keep: Vec<bool> = Vec::new();
    let mut k: usize = 0;
    while k < db.projects.len()
        invariant
            k <= db.projects@.len(),
            keep@.len() == k,
            forall|i: int| 0 <= i < k ==> keep@[i] == ((#[trigger] db.projects@[i]).id != project_id),
        decreases db.projects@.len() - k,
    {
        keep.push(db.projects.rows()[k].id != project_id);
        k = k + 1;
    }
    db.projects.retain(&keep, Ghost(|p: Project| p.id != project_id));
    let ghost kept = db.projects@;
    let n = db.projects.len();
    let mut i: usize = 0;
    while i < n
        invariant
            n == kept.len(),
            db.projects@.len() == n,
            i <= n,
            forall|a: int| 0 <= a < i ==> db.projects@[a] == (if kept[a].index > index {
                Project { index: (kept[a].index - 1) as i32, ..kept[a] }
            } else {
                kept[a]
            }),
            forall|a: int| i <= a < n ==> db.projects@[a] == kept[a],
            db.projects.last_id_spec() == old(db).projects.last_id_spec(),
            kept == old(db).projects@.filter(|p: Project| p.id != project_id),
            unchanged_except(*old(db), *db, true, false, false, false, false, false),
        decreases n - i,
    {
        let r = db.projects.rows()[i].copied();
        if r.index > index {
            let x = r.index - 1;
            db.projects.set(i, Project { index: x, ..r });
        }
        i = i + 1;
    }
    proof {
        assert(db.projects@ =~= projects_after_delete(old(db).projects@, project_id, index));
    }
    let mut keep: Vec<bool> = Vec::new();
    let mut k: usize = 0;
    while k < db.lists.len()
        invariant
            k <= db.lists@.len(),
            keep@.len() == k,
            forall|i: int| 0 <= i < k ==> keep@[i] == ((#[trigger] db.lists@[i]).project != project_id),
        decreases db.lists@.len() - k,
    {
        keep.push(db.lists.rows()[k].project != project_id);
        k = k + 1;
    }
    db.lists.retain(&keep, Ghost(|l: crate::db::models::List| l.project != project_id));
    let mut keep: Vec<bool> = Vec::new();
    let mut k: usize = 0;
    while k < db.tasks.len()
        invariant
            k <= db.tasks@.len(),
            keep@.len() == k,
            forall|i: int| 0 <= i < k ==> keep@[i] == ((#[trigger] db.tasks@[i]).project != project_id),
        decreases db.tasks@.len() - k,
    {
        keep.push(db.tasks.rows()[k].project != project_id);
        k = k + 1;
    }
    db.tasks.retain(&keep, Ghost(|t: crate::db::models::Task| t.project != project_id));
}

/// The projects whose name matches the search for `text` (see
/// `search_pattern`; for a text without `\` it holds the text, ASCII letters
/// without regard to case), archived ones only where `archive`, in the order
/// of their ids.
pub fn find_projects(db: &Database, text: &str, archive: bool) -> (r: Vec<Project>)
    ensures
        r@ == db.projects@.filter(
            |p: Project| like(search_pattern(text@), p.name@) && project_shown(p, archive),
        ),
{
    let pattern = make_search_pattern(text);
    let rows = db.projects.rows();
    let mut keep: Vec<bool> = Vec::new();
    let mut k: usize = 0;
    while k < rows.len()
        invariant
            k <= rows@.len(),
            keep@.len() == k,
            pattern@ == search_pattern(text@),
            forall|i: int| 0 <= i < k ==> keep@[i] == (like(search_pattern(text@), (#[trigger] rows@[i]).name@)
                && project_shown(rows@[i], archive)),
        decreases rows@.len() - k,
    {
        let m = search_matches(&pattern, rows[k].name.as_str());
        keep.push(m && (archive || !rows[k].archive));
        k = k + 1;
    }
    select_rows(
        rows,
        &keep,
        Ghost(|p: Project| like(search_pattern(text@), p.name@) && project_shown(p, archive)),
    )
}

} // verus!
