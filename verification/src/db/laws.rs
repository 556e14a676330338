//! What the operations keep true of the tables from one call to the next.

use vstd::prelude::*;

use crate::db::models::{List, Project, Section, Task};
use crate::db::operations::{
    after_delete, after_delete_all, child_key, children_in_order, deletable_rows, gap_closed, in_band, list_indexes,
    live_children, positions_after_move, project_indexes, projects_after_delete, projects_after_update,
    section_indexes, section_positions, sections_after_update, shift_band, shift_for_move, subtask_positions,
    task_selected, tasks_after_update, visit_order, without_task,
};
use crate::db::models::{Record, Reminder};
use crate::db::sorting::{is_sorted_copy, sorted_by};
use crate::views::drag::place_after_drop;
use crate::db::tree::{below, child_of, lemma_below_all_same, reach, strictly_below, Descent};
use crate::db::store::{has_id, ids_ascending, next_slot, row_of, top, Database, Row};
use vstd::set_lib::{lemma_int_range, lemma_len_subset, set_int_range};

verus! {

/// Whether the places are exactly `0, 1, .., n - 1`, each once.
pub open spec fn is_ranking(v: Seq<int>) -> bool {
    &&& forall|i: int| 0 <= i < v.len() ==> 0 <= #[trigger] v[i] < v.len()
    &&& forall|i: int, j: int| 0 <= i < v.len() && 0 <= j < v.len() && i != j ==> v[i] != v[j]
}

/// Moving the item at `k` to place `to`, the others shifting to make room,
/// leaves a ranking a ranking.
pub proof fn lemma_move_keeps_ranking(v: Seq<int>, k: int, to: int)
    requires
        is_ranking(v),
        0 <= k < v.len(),
        0 <= to < v.len(),
    ensures
        is_ranking(
            Seq::new(v.len(), |i: int| if i == k { to } else { shift_for_move(v[i], v[k], to) }),
        ),
{
    let w = Seq::new(v.len(), |i: int| if i == k { to } else { shift_for_move(v[i], v[k], to) });
    assert forall|i: int, j: int| 0 <= i < w.len() && 0 <= j < w.len() && i != j implies w[i] != w[j] by {
        if i != k && j != k {
            assert(v[i] != v[j]);
            assert(v[i] != v[k]);
            assert(v[j] != v[k]);
        } else if i == k {
            assert(v[j] != v[k]);
        } else {
            assert(v[i] != v[k]);
        }
    }
    assert forall|i: int| 0 <= i < w.len() implies 0 <= #[trigger] w[i] < w.len() by {
        if i != k {
            assert(v[i] != v[k]);
        }
    }
}

/// The largest of the numbers is one of them and no smaller than any.
pub proof fn lemma_top(v: Seq<int>)
    requires
        v.len() > 0,
    ensures
        top(v) matches Some(m) && (forall|i: int| 0 <= i < v.len() ==> v[i] <= m) && v.contains(m),
    decreases v.len(),
{
    if v.len() > 1 {
        lemma_top(v.drop_last());
        let m0 = top(v.drop_last())->0;
        assert forall|i: int| 0 <= i < v.len() implies v[i] <= top(v)->0 by {
            if i < v.len() - 1 {
                assert(v[i] == v.drop_last()[i]);
            }
        }
        if v.last() <= m0 {
            let j = choose|j: int| 0 <= j < v.drop_last().len() && v.drop_last()[j] == m0;
            assert(v[j] == m0);
        } else {
            assert(v[v.len() - 1] == v.last());
        }
    } else {
        assert(v.drop_last().len() == 0);
        assert(v[0] == v.last());
    }
}

/// Adding an item after the last place keeps a ranking a ranking.
pub proof fn lemma_append_keeps_ranking(v: Seq<int>)
    requires
        is_ranking(v),
    ensures
        is_ranking(v.push(next_slot(v))),
{
    if v.len() > 0 {
        lemma_top(v);
        let m = top(v)->0;
        let j = choose|j: int| 0 <= j < v.len() && v[j] == m;
    }
    let w = v.push(next_slot(v));
    assert forall|i: int| 0 <= i < w.len() implies 0 <= #[trigger] w[i] < w.len() by {
        if i < v.len() {
            assert(w[i] == v[i]);
        }
    }
    assert forall|i: int, j: int| 0 <= i < w.len() && 0 <= j < w.len() && i != j implies w[i] != w[j] by {
        if i < v.len() && j < v.len() {
            assert(w[i] == v[i] && w[j] == v[j]);
        } else if i < v.len() {
            assert(w[i] == v[i]);
        } else {
            assert(w[j] == v[j]);
        }
    }
}

/// Saving a project with a place in `0..n` keeps the projects' places a
/// ranking `0..n`: moving a project shifts the others between its old and
/// its new place, and no two end up at the same place.
pub proof fn update_project_keeps_ranking(s: Seq<Project>, project: Project)
    requires
        ids_ascending(s),
        has_id(s, project.id),
        is_ranking(project_indexes(s)),
        0 <= project.index < s.len(),
    ensures
        is_ranking(project_indexes(projects_after_update(s, project))),
{
    let k = choose|i: int| 0 <= i < s.len() && s[i].row_id() == project.id;
    assert(row_of(s, project.id) == s[k]);
    let v = project_indexes(s);
    lemma_move_keeps_ranking(v, k, project.index as int);
    let w = Seq::new(
        v.len(),
        |i: int| if i == k { project.index as int } else { shift_for_move(v[i], v[k], project.index as int) },
    );
    assert forall|i: int| 0 <= i < s.len() && i != k implies s[i].id != project.id by {
        if i < k {
            assert(s[i].row_id() < s[k].row_id());
        } else {
            assert(s[k].row_id() < s[i].row_id());
        }
    }
    assert(project_indexes(projects_after_update(s, project)) =~= w);
}

/// Adding a project after the last keeps the projects' places a ranking
/// `0..n`.
pub proof fn create_project_keeps_ranking(s: Seq<Project>, p: Project)
    requires
        is_ranking(project_indexes(s)),
        p.index == next_slot(project_indexes(s)),
    ensures
        is_ranking(project_indexes(s.push(p))),
{
    lemma_append_keeps_ranking(project_indexes(s));
    assert(project_indexes(s.push(p)) =~= project_indexes(s).push(next_slot(project_indexes(s))));
}

/// A filter that every item passes keeps them all.
pub proof fn lemma_filter_keeps_all<T>(t: Seq<T>, f: spec_fn(T) -> bool)
    requires
        forall|i: int| 0 <= i < t.len() ==> f(#[trigger] t[i]),
    ensures
        t.filter(f) == t,
    decreases t.len(),
{
    reveal_with_fuel(Seq::<_>::filter, 1);
    if t.len() > 0 {
        lemma_filter_keeps_all(t.drop_last(), f);
        assert(t.drop_last().push(t.last()) =~= t);
    } else {
        assert(t.filter(f) =~= t);
    }
}

/// Filtering out the one row with a given id removes it from its place.
pub proof fn lemma_filter_out_id<T: Row>(s: Seq<T>, k: int)
    requires
        ids_ascending(s),
        0 <= k < s.len(),
    ensures
        s.filter(|r: T| r.row_id() != s[k].row_id()) == s.remove(k),
{
    let id = s[k].row_id();
    let f = |r: T| r.row_id() != id;
    let a = s.take(k);
    let b = s.skip(k + 1);
    assert(s =~= a + seq![s[k]] + b);
    Seq::filter_distributes_over_add(a + seq![s[k]], b, f);
    Seq::filter_distributes_over_add(a, seq![s[k]], f);
    assert forall|i: int| 0 <= i < a.len() implies f(#[trigger] a[i]) by {
        assert(s[i].row_id() < s[k].row_id());
    }
    assert forall|i: int| 0 <= i < b.len() implies f(#[trigger] b[i]) by {
        assert(s[k].row_id() < s[k + 1 + i].row_id());
    }
    lemma_filter_keeps_all(a, f);
    lemma_filter_keeps_all(b, f);
    reveal_with_fuel(Seq::<_>::filter, 2);
    assert(seq![s[k]].drop_last() =~= Seq::<T>::empty());
    assert(seq![s[k]].filter(f) =~= Seq::<T>::empty());
    assert(s.remove(k) =~= a + b);
    assert((a + seq![s[k]]).filter(f) =~= a);
    assert(s.filter(f) =~= a + b);
    assert((|r: T| r.row_id() != s[k].row_id()) =~= f);
}

/// Removing the item at `k` and moving those above its place down by one
/// leaves a ranking a ranking.
pub proof fn lemma_remove_keeps_ranking(v: Seq<int>, k: int)
    requires
        is_ranking(v),
        0 <= k < v.len(),
    ensures
        is_ranking(v.remove(k).map_values(|x: int| if x > v[k] { x - 1 } else { x })),
{
    let u = v.remove(k);
    let w = u.map_values(|x: int| if x > v[k] { x - 1 } else { x });
    assert forall|i: int| 0 <= i < u.len() implies (#[trigger] u[i] == if i < k { v[i] } else { v[i + 1] }) by {}
    assert forall|i: int| 0 <= i < w.len() implies 0 <= #[trigger] w[i] < w.len() by {
        let j = if i < k { i } else { i + 1 };
        assert(u[i] == v[j]);
        assert(v[j] != v[k]);
    }
    assert forall|i: int, j: int| 0 <= i < w.len() && 0 <= j < w.len() && i != j implies w[i] != w[j] by {
        let a = if i < k { i } else { i + 1 };
        let b = if j < k { j } else { j + 1 };
        assert(u[i] == v[a] && u[j] == v[b]);
        assert(v[a] != v[b]);
        assert(v[a] != v[k] && v[b] != v[k]);
    }
}

/// Deleting a project, given its own place, keeps the places of the others a
/// ranking `0..n-1`: those above it move down by one.
pub proof fn delete_project_keeps_ranking(s: Seq<Project>, id: i64, index: i32)
    requires
        ids_ascending(s),
        has_id(s, id),
        index == row_of(s, id).index,
        is_ranking(project_indexes(s)),
    ensures
        is_ranking(project_indexes(projects_after_delete(s, id, index))),
{
    let k = choose|i: int| 0 <= i < s.len() && s[i].row_id() == id;
    lemma_filter_out_id(s, k);
    assert((|p: Project| p.id != id) =~= (|r: Project| r.row_id() != s[k].row_id()));
    let v = project_indexes(s);
    lemma_remove_keeps_ranking(v, k);
    assert(project_indexes(projects_after_delete(s, id, index)) =~= v.remove(k).map_values(
        |x: int| if x > v[k] { x - 1 } else { x },
    ));
}

/// A row added with an id above all others is what reading that id gives
/// back (as `read_*` does after `create_*`).
pub proof fn read_after_create<T: Row>(s: Seq<T>, row: T)
    requires
        forall|i: int| 0 <= i < s.len() ==> #[trigger] s[i].row_id() < row.row_id(),
    ensures
        has_id(s.push(row), row.row_id()),
        row_of(s.push(row), row.row_id()) == row,
{
    let t = s.push(row);
    assert(t[s.len() as int].row_id() == row.row_id());
    let j = choose|j: int| 0 <= j < t.len() && t[j].row_id() == row.row_id();
    if j < s.len() {
        assert(t[j] == s[j]);
    }
}

/// After a row is replaced by one with its id, reading that id gives the new
/// row (as `read_*` does after `update_*`).
pub proof fn read_after_update<T: Row>(s: Seq<T>, row: T)
    requires
        ids_ascending(s),
        has_id(s, row.row_id()),
    ensures
        has_id(s.map_values(|r: T| if r.row_id() == row.row_id() { row } else { r }), row.row_id()),
        row_of(s.map_values(|r: T| if r.row_id() == row.row_id() { row } else { r }), row.row_id()) == row,
{
    let t = s.map_values(|r: T| if r.row_id() == row.row_id() { row } else { r });
    let k = choose|i: int| 0 <= i < s.len() && s[i].row_id() == row.row_id();
    assert(t[k] == row);
}

/// Once a row is deleted, no row has its id (so `read_*` of it fails).
pub proof fn read_after_delete<T: Row>(s: Seq<T>, id: i64)
    ensures
        !has_id(s.filter(|r: T| r.row_id() != id), id),
{
    let t = s.filter(|r: T| r.row_id() != id);
    if has_id(t, id) {
        let j = choose|j: int| 0 <= j < t.len() && t[j].row_id() == id;
        s.lemma_filter_pred(|r: T| r.row_id() != id, j);
    }
}

/// Changing items in a way that keeps what a filter asks of each commutes
/// with the filter.
pub proof fn lemma_map_filter_commute<T>(s: Seq<T>, m: spec_fn(T) -> T, f: spec_fn(T) -> bool)
    requires
        forall|i: int| 0 <= i < s.len() ==> f(#[trigger] m(s[i])) == f(s[i]),
    ensures
        s.map_values(m).filter(f) == s.filter(f).map_values(m),
    decreases s.len(),
{
    reveal_with_fuel(Seq::<_>::filter, 1);
    if s.len() == 0 {
        assert(s.map_values(m).filter(f) =~= Seq::<T>::empty());
        assert(s.filter(f).map_values(m) =~= Seq::<T>::empty());
    } else {
        assert forall|i: int| 0 <= i < s.drop_last().len() implies f(#[trigger] m(s.drop_last()[i])) == f(
            s.drop_last()[i],
        ) by {
            assert(s.drop_last()[i] == s[i]);
        }
        lemma_map_filter_commute(s.drop_last(), m, f);
        assert(s.map_values(m).drop_last() =~= s.drop_last().map_values(m));
        assert(f(m(s[s.len() - 1])) == f(s.last()));
        if f(s.last()) {
            assert(s.filter(f).map_values(m) =~= s.drop_last().filter(f).map_values(m).push(m(s.last())));
        } else {
            assert(s.filter(f).map_values(m) =~= s.drop_last().filter(f).map_values(m));
        }
    }
}

/// Saving a section of project `P` under `P` again, with a place in `0..n`
/// where `P`'s `n` sections hold the places `0..n`, each once, keeps `P`'s
/// places a ranking `0..n`.
pub proof fn update_section_keeps_ranking(s: Seq<Section>, section: Section)
    requires
        ids_ascending(s),
        has_id(s, section.id),
        row_of(s, section.id).project == section.project,
        is_ranking(section_indexes(s, section.project)),
        0 <= section.index < section_indexes(s, section.project).len(),
    ensures
        is_ranking(section_indexes(sections_after_update(s, section), section.project)),
{
    let p = section.project;
    let f = |x: Section| x.project == p;
    let idx = |x: Section| x.index as int;
    let kk = choose|i: int| 0 <= i < s.len() && s[i].row_id() == section.id;
    let from = s[kk].index as int;
    assert(row_of(s, section.id) == s[kk]);
    assert forall|i: int| 0 <= i < s.len() && i != kk implies s[i].id != section.id by {
        if i < kk {
            assert(s[i].row_id() < s[kk].row_id());
        } else {
            assert(s[kk].row_id() < s[i].row_id());
        }
    }
    let m = |r: Section|
        if r.id == section.id {
            section
        } else {
            Section { index: shift_for_move(r.index as int, from, section.index as int) as i32, ..r }
        };
    let t = sections_after_update(s, section);
    assert(t =~= s.map_values(m));
    assert forall|i: int| 0 <= i < s.len() implies f(#[trigger] m(s[i])) == f(s[i]) by {
        if s[i].id == section.id {
            assert(i == kk);
        }
    }
    lemma_map_filter_commute(s, m, f);
    let fs = s.filter(f);
    lemma_filter_ids_ascending(s, f);
    assert(section_indexes(s, p) == fs.map_values(idx));
    assert(f(s[kk]));
    s.lemma_filter_contains(f, kk);
    let k = choose|k: int| 0 <= k < fs.len() && fs[k] == s[kk];
    let v = fs.map_values(idx);
    lemma_move_keeps_ranking(v, k, section.index as int);
    assert forall|i: int| 0 <= i < fs.len() && i != k implies fs[i].id != section.id by {
        if i < k {
            assert(fs[i].row_id() < fs[k].row_id());
        } else {
            assert(fs[k].row_id() < fs[i].row_id());
        }
    }
    assert forall|i: int| 0 <= i < fs.len() && i != k implies #[trigger] idx(m(fs[i])) == shift_for_move(
        v[i],
        v[k],
        section.index as int,
    ) by {
        assert(0 <= v[i] < v.len() && 0 <= v[k] < v.len());
    }
    assert(section_indexes(t, p) =~= Seq::new(
        v.len(),
        |i: int| if i == k { section.index as int } else { shift_for_move(v[i], v[k], section.index as int) },
    ));
}

/// Changing tasks without moving them between sections commutes with picking
/// a section's tasks.
pub proof fn lemma_map_filter_section(s: Seq<Task>, m: spec_fn(Task) -> Task, sec: i64)
    requires
        forall|i: int| 0 <= i < s.len() ==> (#[trigger] m(s[i])).section == s[i].section,
    ensures
        s.map_values(m).filter(|t: Task| t.section == sec) == s.filter(|t: Task| t.section == sec).map_values(m),
    decreases s.len(),
{
    reveal_with_fuel(Seq::<_>::filter, 1);
    let f = |t: Task| t.section == sec;
    if s.len() == 0 {
        assert(s.map_values(m).filter(f) =~= Seq::<Task>::empty());
        assert(s.filter(f).map_values(m) =~= Seq::<Task>::empty());
    } else {
        assert forall|i: int| 0 <= i < s.drop_last().len() implies (#[trigger] m(s.drop_last()[i])).section
            == s.drop_last()[i].section by {
            assert(s.drop_last()[i] == s[i]);
        }
        lemma_map_filter_section(s.drop_last(), m, sec);
        assert(s.map_values(m).drop_last() =~= s.drop_last().map_values(m));
        assert(m(s[s.len() - 1]).section == s.last().section);
        if f(s.last()) {
            assert(s.filter(f).map_values(m) =~= s.drop_last().filter(f).map_values(m).push(m(s.last())));
        } else {
            assert(s.filter(f).map_values(m) =~= s.drop_last().filter(f).map_values(m));
        }
    }
}

/// A filter keeps the ids rising.
pub proof fn lemma_filter_ids_ascending<T: Row>(s: Seq<T>, f: spec_fn(T) -> bool)
    requires
        ids_ascending(s),
    ensures
        ids_ascending(s.filter(f)),
        forall|i: int| 0 <= i < s.filter(f).len() ==> s.contains(#[trigger] s.filter(f)[i]),
    decreases s.len(),
{
    reveal_with_fuel(Seq::<_>::filter, 1);
    if s.len() > 0 {
        let d = s.drop_last();
        assert forall|i: int, j: int| 0 <= i < j < d.len() implies d[i].row_id() < d[j].row_id() by {
            assert(d[i] == s[i] && d[j] == s[j]);
        }
        lemma_filter_ids_ascending(d, f);
        assert forall|i: int| 0 <= i < d.filter(f).len() implies d.filter(f)[i].row_id() < s.last().row_id() by {
            assert(d.contains(d.filter(f)[i]));
            let j = choose|j: int| 0 <= j < d.len() && d[j] == d.filter(f)[i];
            assert(s[j] == d[j]);
        }
        assert forall|i: int| 0 <= i < d.filter(f).len() implies s.contains(#[trigger] d.filter(f)[i]) by {
            assert(d.contains(d.filter(f)[i]));
            let j = choose|j: int| 0 <= j < d.len() && d[j] == d.filter(f)[i];
            assert(s[j] == d[j]);
        }
        assert(s[s.len() - 1] == s.last());
    }
}

/// Moving a task to another position within its own section, under the same
/// parent, keeps the positions of that section's tasks a ranking `0..n`.
pub proof fn move_task_keeps_ranking(s: Seq<Task>, task: Task)
    requires
        ids_ascending(s),
        has_id(s, task.id),
        row_of(s, task.id).section == task.section,
        row_of(s, task.id).parent == task.parent,
        is_ranking(section_positions(s, task.section)),
        0 <= task.position < section_positions(s, task.section).len(),
    ensures
        is_ranking(section_positions(tasks_after_update(s, task), task.section)),
{
    let sec = task.section;
    let f = |t: Task| t.section == sec;
    let pos = |t: Task| t.position as int;
    let kk = choose|i: int| 0 <= i < s.len() && s[i].row_id() == task.id;
    let old = row_of(s, task.id);
    assert(old == s[kk]);
    let op = old.position as int;
    let np = task.position as int;
    let lo = if np > op { op + 1 } else { np };
    let hi = if np > op { np } else { op - 1 };
    let delta = if np > op { -1int } else { 1int };
    let m1 = |t: Task|
        if in_band(t, lo, hi, false, sec) {
            Task { position: (t.position + delta) as i32, ..t }
        } else {
            t
        };
    let s1 = positions_after_move(s, old, task);
    assert(s1 == s.map_values(m1)) by {
        if np == op {
            assert(s1 =~= s.map_values(m1));
        }
    }
    let m2 = |t: Task| if task.project != old.project && t.parent == task.id {
        Task { project: task.project, ..t }
    } else {
        t
    };
    let s2 = if task.project != old.project {
        s1.map_values(|t: Task| if t.parent == task.id { Task { project: task.project, ..t } } else { t })
    } else {
        s1
    };
    assert(s2 =~= s1.map_values(m2));
    let m3 = |t: Task| if task.suspended != old.suspended && strictly_below(s2, Descent::All, task.id, t) {
        Task { suspended: task.suspended, ..t }
    } else {
        t
    };
    let s3 = if task.suspended != old.suspended {
        s2.map_values(
            |t: Task|
                if strictly_below(s2, Descent::All, task.id, t) {
                    Task { suspended: task.suspended, ..t }
                } else {
                    t
                },
        )
    } else {
        s2
    };
    assert(s3 =~= s2.map_values(m3));
    let m4 = |t: Task| if t.id == task.id { task } else { t };
    let res = tasks_after_update(s, task);
    assert(res =~= s3.map_values(m4));
    // Every step leaves each task in its section.
    assert forall|i: int| 0 <= i < s.len() implies (#[trigger] m1(s[i])).section == s[i].section by {}
    lemma_map_filter_section(s, m1, sec);
    assert forall|i: int| 0 <= i < s1.len() implies (#[trigger] m2(s1[i])).section == s1[i].section by {}
    lemma_map_filter_section(s1, m2, sec);
    assert forall|i: int| 0 <= i < s2.len() implies (#[trigger] m3(s2[i])).section == s2[i].section by {}
    lemma_map_filter_section(s2, m3, sec);
    assert forall|i: int| 0 <= i < s3.len() implies (#[trigger] m4(s3[i])).section == s3[i].section by {
        if s3[i].id == task.id {
            assert(s2[i].id == task.id && s1[i].id == task.id && s[i].id == task.id);
            if i != kk {
                if i < kk {
                    assert(s[i].row_id() < s[kk].row_id());
                } else {
                    assert(s[kk].row_id() < s[i].row_id());
                }
            }
        }
    }
    lemma_map_filter_section(s3, m4, sec);
    let fs = s.filter(f);
    lemma_filter_ids_ascending(s, f);
    assert(section_positions(s, sec) == fs.map_values(pos));
    // The moved task stands in the section's list at some place k.
    assert(f(s[kk]));
    s.lemma_filter_contains(f, kk);
    let k = choose|k: int| 0 <= k < fs.len() && fs[k] == s[kk];
    let v = fs.map_values(pos);
    lemma_move_keeps_ranking(v, k, np);
    let g = res.filter(f);
    assert(g == fs.map_values(m1).map_values(m2).map_values(m3).map_values(m4));
    assert forall|i: int| 0 <= i < fs.len() && i != k implies fs[i].id != task.id by {
        if i < k {
            assert(fs[i].row_id() < fs[k].row_id());
        } else {
            assert(fs[k].row_id() < fs[i].row_id());
        }
    }
    assert(section_positions(res, sec) =~= Seq::new(
        v.len(),
        |i: int| if i == k { np } else { shift_for_move(v[i], v[k], np) },
    ));
}

/// Deleting a task first saves it suspended, which suspends every task under
/// it, and taking the deletion back saves it unsuspended again.  Where the
/// task and the tasks under it were not suspended before, taking it back
/// leaves the tasks exactly as they were.
pub proof fn undo_delete_restores_tasks(s: Seq<Task>, task: Task)
    requires
        ids_ascending(s),
        has_id(s, task.id),
        row_of(s, task.id) == task,
        !task.suspended,
        forall|i: int|
            0 <= i < s.len() && strictly_below(s, Descent::All, task.id, #[trigger] s[i]) ==> !s[i].suspended,
    ensures
        tasks_after_update(tasks_after_update(s, Task { suspended: true, ..task }), task) == s,
{
    let id = task.id;
    let d = Task { suspended: true, ..task };
    let kk = choose|i: int| 0 <= i < s.len() && s[i].row_id() == id;
    assert(s[kk] == task);
    assert forall|i: int| 0 <= i < s.len() && i != kk implies s[i].id != id by {
        if i < kk {
            assert(s[i].row_id() < s[kk].row_id());
        } else {
            assert(s[kk].row_id() < s[i].row_id());
        }
    }
    let r1 = tasks_after_update(s, d);
    let m3 = |t: Task|
        if strictly_below(s, Descent::All, id, t) {
            Task { suspended: true, ..t }
        } else {
            t
        };
    assert(positions_after_move(s, task, d) == s);
    assert(r1 =~= s.map_values(m3).map_values(|t: Task| if t.id == id { d } else { t }));
    assert(r1.len() == s.len());
    assert forall|i: int| 0 <= i < s.len() implies (#[trigger] s[i]).id == r1[i].id && s[i].parent
        == r1[i].parent by {}
    assert(r1[kk] == d);
    assert(ids_ascending(r1)) by {
        assert forall|i: int, j: int| 0 <= i < j < r1.len() implies r1[i].row_id() < r1[j].row_id() by {
            assert(s[i].row_id() < s[j].row_id());
        }
    }
    let k2 = choose|i: int| 0 <= i < r1.len() && r1[i].row_id() == id;
    assert(k2 == kk) by {
        if k2 != kk {
            assert(s[k2].id != id);
        }
    }
    assert(row_of(r1, id) == d);
    assert(positions_after_move(r1, d, task) == r1);
    let m3b = |t: Task|
        if strictly_below(r1, Descent::All, id, t) {
            Task { suspended: false, ..t }
        } else {
            t
        };
    let r2 = tasks_after_update(r1, task);
    assert(r2 =~= r1.map_values(m3b).map_values(|t: Task| if t.id == id { task } else { t }));
    assert forall|i: int| 0 <= i < s.len() implies r2[i] == s[i] by {
        if i != kk {
            lemma_below_all_same(s, r1, id, s[i].parent);
            if strictly_below(s, Descent::All, id, s[i]) {
                assert(!s[i].suspended);
            }
        }
    }
    assert(r2 =~= s);
}

/// Adding a section after the last one of its project keeps the places of
/// that project's sections a ranking `0..n`.
pub proof fn create_section_keeps_ranking(s: Seq<Section>, x: Section)
    requires
        is_ranking(section_indexes(s, x.project)),
        x.index == next_slot(section_indexes(s, x.project)),
    ensures
        is_ranking(section_indexes(s.push(x), x.project)),
{
    let p = x.project;
    lemma_append_keeps_ranking(section_indexes(s, p));
    reveal_with_fuel(Seq::<_>::filter, 1);
    assert(s.push(x).drop_last() =~= s);
    assert(section_indexes(s.push(x), p) =~= section_indexes(s, p).push(next_slot(section_indexes(s, p))));
}

/// Adding a list after the last one of its project keeps the places of that
/// project's lists a ranking `0..n`.
pub proof fn create_list_keeps_ranking(s: Seq<List>, x: List)
    requires
        is_ranking(list_indexes(s, x.project)),
        x.index == next_slot(list_indexes(s, x.project)),
    ensures
        is_ranking(list_indexes(s.push(x), x.project)),
{
    let p = x.project;
    lemma_append_keeps_ranking(list_indexes(s, p));
    reveal_with_fuel(Seq::<_>::filter, 1);
    assert(s.push(x).drop_last() =~= s);
    assert(list_indexes(s.push(x), p) =~= list_indexes(s, p).push(next_slot(list_indexes(s, p))));
}

/// Adding a task at the place after the last task of its section (the place
/// that `new_task_position` gives) keeps the positions of that section's
/// tasks a ranking `0..n`.
pub proof fn create_task_keeps_ranking(s: Seq<Task>, x: Task)
    requires
        is_ranking(section_positions(s, x.section)),
        x.position == next_slot(section_positions(s, x.section)),
    ensures
        is_ranking(section_positions(s.push(x), x.section)),
{
    let sec = x.section;
    lemma_append_keeps_ranking(section_positions(s, sec));
    reveal_with_fuel(Seq::<_>::filter, 1);
    assert(s.push(x).drop_last() =~= s);
    assert(section_positions(s.push(x), sec) =~= section_positions(s, sec).push(
        next_slot(section_positions(s, sec)),
    ));
}

/// In a ranking `0..n` the place after the last one taken is `n`.
pub proof fn lemma_ranking_next_slot(v: Seq<int>)
    requires
        is_ranking(v),
    ensures
        next_slot(v) == v.len(),
{
    if v.len() > 0 {
        lemma_top(v);
        let m = top(v)->0;
        let j = choose|j: int| 0 <= j < v.len() && v[j] == m;
        assert(v.no_duplicates());
        v.unique_seq_to_set();
        assert forall|x: int| v.to_set().contains(x) implies set_int_range(0, m + 1).contains(x) by {
            let i = choose|i: int| 0 <= i < v.len() && v[i] == x;
            assert(0 <= v[i]);
        }
        lemma_int_range(0, m + 1);
        lemma_len_subset(v.to_set(), set_int_range(0, m + 1));
    }
}

/// When the tasks of a section hold the places `0..n`, each once, the place
/// that `new_task_position` gives a new task of that section is `n`, the
/// number of its tasks; with the new task there, the places are `0..n + 1`.
pub proof fn new_task_position_is_count(s: Seq<Task>, section_id: i64)
    requires
        is_ranking(section_positions(s, section_id)),
    ensures
        next_slot(section_positions(s, section_id)) == s.filter(|t: Task| t.section == section_id).len(),
        is_ranking(section_positions(s, section_id).push(next_slot(section_positions(s, section_id)))),
{
    lemma_ranking_next_slot(section_positions(s, section_id));
    lemma_append_keeps_ranking(section_positions(s, section_id));
}

/// Dropping a box on another gives every box a place of its own among
/// `0..n`.
pub proof fn drop_places_are_distinct(n: nat, from: int, to: int)
    requires
        0 <= from < n,
        0 <= to < n,
    ensures
        is_ranking(Seq::new(n, |q: int| place_after_drop(q, from, to))),
{
    let v = Seq::new(n, |i: int| i);
    lemma_move_keeps_ranking(v, from, to);
    assert(Seq::new(n, |q: int| place_after_drop(q, from, to)) =~= Seq::new(
        v.len(),
        |i: int| if i == from { to } else { shift_for_move(v[i], v[from], to) },
    ));
}

/// The tasks with `t` put in among them after those whose visiting key is not
/// larger (an insertion into a list ordered by `child_key`).
spec fn insert_by_key(s: Seq<Task>, t: Task) -> Seq<Task>
    decreases s.len(),
{
    if s.len() == 0 {
        seq![t]
    } else if child_key(s.last()) <= child_key(t) {
        s.push(t)
    } else {
        insert_by_key(s.drop_last(), t).push(s.last())
    }
}

/// The tasks ordered by `child_key`, by insertion.
spec fn sort_by_key(s: Seq<Task>) -> Seq<Task>
    decreases s.len(),
{
    if s.len() == 0 {
        s
    } else {
        insert_by_key(sort_by_key(s.drop_last()), s.last())
    }
}

proof fn lemma_insert_by_key(s: Seq<Task>, t: Task)
    requires
        sorted_by(s, |x: Task| child_key(x), false),
    ensures
        sorted_by(insert_by_key(s, t), |x: Task| child_key(x), false),
        insert_by_key(s, t).to_multiset() == s.to_multiset().insert(t),
    decreases s.len(),
{
    broadcast use vstd::seq_lib::group_to_multiset_ensures;

    let key = |x: Task| child_key(x);
    let r = insert_by_key(s, t);
    if s.len() == 0 {
        assert(seq![t] =~= Seq::<Task>::empty().push(t));
    } else if child_key(s.last()) <= child_key(t) {
        assert forall|i: int, j: int| 0 <= i < j < r.len() implies key(#[trigger] r[i]) <= key(#[trigger] r[j]) by {
            if j == s.len() {
                assert(key(s[i]) <= key(s[s.len() - 1]));
            }
        }
    } else {
        let d = s.drop_last();
        assert forall|i: int, j: int| 0 <= i < j < d.len() implies key(#[trigger] d[i]) <= key(#[trigger] d[j]) by {
            assert(d[i] == s[i] && d[j] == s[j]);
        }
        lemma_insert_by_key(d, t);
        let r1 = insert_by_key(d, t);
        assert(d.push(s.last()) =~= s);
        assert forall|i: int, j: int| 0 <= i < j < r.len() implies key(#[trigger] r[i]) <= key(#[trigger] r[j]) by {
            if j == r1.len() {
                assert(r1.to_multiset().count(r1[i]) > 0);
                if r1[i] != t {
                    assert(d.to_multiset().count(r1[i]) > 0);
                    let k = choose|k: int| 0 <= k < d.len() && d[k] == r1[i];
                    assert(key(s[k]) <= key(s[s.len() - 1]));
                }
            } else {
                assert(r[i] == r1[i] && r[j] == r1[j]);
            }
        }
    }
}

proof fn lemma_sort_by_key(s: Seq<Task>)
    ensures
        sorted_by(sort_by_key(s), |x: Task| child_key(x), false),
        sort_by_key(s).to_multiset() == s.to_multiset(),
    decreases s.len(),
{
    broadcast use vstd::seq_lib::group_to_multiset_ensures;

    if s.len() > 0 {
        lemma_sort_by_key(s.drop_last());
        lemma_insert_by_key(sort_by_key(s.drop_last()), s.last());
        assert(s.drop_last().push(s.last()) =~= s);
    }
}

/// The order in which deleting visits the live subtasks of a task exists:
/// so the subtasks that it visits are those subtasks, each once.
proof fn lemma_children_in_order(tasks: Seq<Task>, id: i64)
    ensures
        visit_order(children_in_order(tasks, id), tasks, id),
{
    let c = sort_by_key(live_children(tasks, id));
    lemma_sort_by_key(live_children(tasks, id));
    assert(visit_order(c, tasks, id));
}

/// Whether a task with id `id` and parent `parent` is among the tasks.
spec fn holds(s: Seq<Task>, id: i64, parent: i64) -> bool {
    exists|j: int| 0 <= j < s.len() && s[j].id == id && s[j].parent == parent
}

/// Whether a task with id `id` is among the tasks.
spec fn has_task(s: Seq<Task>, id: i64) -> bool {
    exists|j: int| 0 <= j < s.len() && s[j].id == id
}

proof fn lemma_filter_shorter(s: Seq<Task>, f: spec_fn(Task) -> bool, k: int)
    requires
        0 <= k < s.len(),
        !f(s[k]),
    ensures
        s.filter(f).len() < s.len(),
    decreases s.len(),
{
    reveal_with_fuel(Seq::<_>::filter, 1);
    if k == s.len() - 1 {
        s.drop_last().lemma_filter_len(f);
    } else {
        assert(s.drop_last()[k] == s[k]);
        lemma_filter_shorter(s.drop_last(), f, k);
    }
}

/// What taking a task's rows out keeps: the other tasks, and their order.
proof fn lemma_without(st: (Seq<Task>, Seq<Record>, Seq<Reminder>), id: i64)
    requires
        ids_ascending(st.0),
    ensures
        ids_ascending(without_task(st, id).0),
        without_task(st, id).0.len() <= st.0.len(),
        has_task(st.0, id) ==> without_task(st, id).0.len() < st.0.len(),
        !has_task(without_task(st, id).0, id),
        forall|y: i64| #[trigger] has_task(without_task(st, id).0, y) ==> has_task(st.0, y),
        forall|y: i64, p: i64| #[trigger] holds(st.0, y, p) && y != id ==> holds(without_task(st, id).0, y, p),
{
    let f = |t: Task| t.id != id;
    let r = without_task(st, id).0;
    assert(r == st.0.filter(f));
    lemma_filter_ids_ascending(st.0, f);
    st.0.lemma_filter_len(f);
    if has_task(st.0, id) {
        let k = choose|j: int| 0 <= j < st.0.len() && st.0[j].id == id;
        lemma_filter_shorter(st.0, f, k);
    }
    if has_task(r, id) {
        let j = choose|j: int| 0 <= j < r.len() && r[j].id == id;
        st.0.lemma_filter_pred(f, j);
    }
    assert forall|y: i64| #[trigger] has_task(r, y) implies has_task(st.0, y) by {
        let j = choose|j: int| 0 <= j < r.len() && r[j].id == y;
        assert(st.0.contains(r[j]));
    }
    assert forall|y: i64, p: i64| #[trigger] holds(st.0, y, p) && y != id implies holds(r, y, p) by {
        let k = choose|j: int| 0 <= j < st.0.len() && st.0[j].id == y && st.0[j].parent == p;
        st.0.lemma_filter_contains(f, k);
        let j = choose|j: int| 0 <= j < r.len() && r[j] == st.0[k];
        assert(r[j].id == y && r[j].parent == p);
    }
}

/// What closing the gap of a deleted task keeps: every task, with its id and
/// parent, in its place.
proof fn lemma_gap_closed(st: (Seq<Task>, Seq<Record>, Seq<Reminder>), t: Task)
    ensures
        gap_closed(st, t).0.len() == st.0.len(),
        forall|i: int|
            0 <= i < st.0.len() ==> (#[trigger] gap_closed(st, t).0[i]).id == st.0[i].id
                && gap_closed(st, t).0[i].parent == st.0[i].parent,
{
}

/// Two sets of rows that agree on the ids and parents of their tasks, place
/// by place, agree on the facts below.
proof fn lemma_same_shape(a: Seq<Task>, b: Seq<Task>)
    requires
        a.len() == b.len(),
        forall|i: int| 0 <= i < a.len() ==> (#[trigger] b[i]).id == a[i].id && b[i].parent == a[i].parent,
    ensures
        ids_ascending(a) ==> ids_ascending(b),
        forall|y: i64| #[trigger] has_task(b, y) == has_task(a, y),
        forall|y: i64, p: i64| #[trigger] holds(b, y, p) == holds(a, y, p),
{
    assert forall|y: i64| #[trigger] has_task(b, y) == has_task(a, y) by {
        if has_task(b, y) {
            let j = choose|j: int| 0 <= j < b.len() && b[j].id == y;
            assert(a[j].id == y);
        }
        if has_task(a, y) {
            let j = choose|j: int| 0 <= j < a.len() && a[j].id == y;
            assert(b[j].id == y);
        }
    }
    assert forall|y: i64, p: i64| #[trigger] holds(b, y, p) == holds(a, y, p) by {
        if holds(b, y, p) {
            let j = choose|j: int| 0 <= j < b.len() && b[j].id == y && b[j].parent == p;
            assert(a[j].id == y && a[j].parent == p);
        }
        if holds(a, y, p) {
            let j = choose|j: int| 0 <= j < a.len() && a[j].id == y && a[j].parent == p;
            assert(b[j].id == y && b[j].parent == p);
        }
    }
    if ids_ascending(a) {
        assert forall|i: int, j: int| 0 <= i < j < b.len() implies b[i].row_id() < b[j].row_id() by {
            assert(a[i].row_id() < a[j].row_id());
        }
    }
}

/// Deleting a task goes as deep as it needs: any two depths above the number
/// of the other tasks give the same rows; and what it leaves keeps its ids
/// rising, holds no more tasks, and still holds every task whose parent is
/// neither a task there nor the deleted one.
proof fn lemma_delete_depth(st: (Seq<Task>, Seq<Record>, Seq<Reminder>), t: Task, e1: nat, e2: nat)
    requires
        ids_ascending(st.0),
        e1 > without_task(st, t.id).0.len(),
        e2 > without_task(st, t.id).0.len(),
    ensures
        after_delete(st, t, e1) == after_delete(st, t, e2),
        ids_ascending(after_delete(st, t, e1).0),
        after_delete(st, t, e1).0.len() <= st.0.len(),
        forall|y: i64| #[trigger] has_task(after_delete(st, t, e1).0, y) ==> has_task(st.0, y),
        forall|y: i64, p: i64|
            #[trigger] holds(st.0, y, p) && y != t.id && !has_task(st.0, p) && p != t.id ==> holds(
                after_delete(st, t, e1).0,
                y,
                p,
            ),
    decreases e1, 0nat,
{
    let st1 = without_task(st, t.id);
    lemma_without(st, t.id);
    let kids = children_in_order(st1.0, t.id);
    lemma_children_in_order(st1.0, t.id);
    lemma_kids(st1.0, t.id, kids);
    lemma_delete_all_depth(st1, kids, t.id, (e1 - 1) as nat, (e2 - 1) as nat);
    let a = after_delete_all(st1, kids, (e1 - 1) as nat);
    assert(after_delete(st, t, e1) == gap_closed(a, t));
    lemma_gap_closed(a, t);
    lemma_same_shape(a.0, gap_closed(a, t).0);
    assert forall|y: i64, p: i64|
        #[trigger] holds(st.0, y, p) && y != t.id && !has_task(st.0, p) && p != t.id implies holds(
            after_delete(st, t, e1).0,
            y,
            p,
        ) by {
        assert(holds(st1.0, y, p));
        assert forall|i: int| 0 <= i < kids.len() implies (#[trigger] kids[i]).id != y by {
            if kids[i].id == y {
                lemma_holds_unique(st1.0, y, p, t.id);
            }
        }
    }
}

/// In rows whose ids rise, a task with a given id has one parent.
proof fn lemma_holds_unique(s: Seq<Task>, y: i64, p: i64, q: i64)
    requires
        ids_ascending(s),
        holds(s, y, p),
        holds(s, y, q),
    ensures
        p == q,
{
    let a = choose|j: int| 0 <= j < s.len() && s[j].id == y && s[j].parent == p;
    let b = choose|j: int| 0 <= j < s.len() && s[j].id == y && s[j].parent == q;
    if a < b {
        assert(s[a].row_id() < s[b].row_id());
    } else if b < a {
        assert(s[b].row_id() < s[a].row_id());
    }
}

/// The subtasks that deleting visits are tasks there, with the deleted task
/// as parent, each with an id of its own.
proof fn lemma_kids(s: Seq<Task>, id: i64, kids: Seq<Task>)
    requires
        ids_ascending(s),
        visit_order(kids, s, id),
    ensures
        forall|i: int| 0 <= i < kids.len() ==> (#[trigger] kids[i]).parent == id && holds(s, kids[i].id, id),
        forall|i: int, j: int| 0 <= i < kids.len() && 0 <= j < kids.len() && i != j ==> kids[i].id != kids[j].id,
{
    broadcast use vstd::seq_lib::group_to_multiset_ensures;

    let f = |t: Task| t.parent == id && !t.suspended;
    let live = s.filter(f);
    assert(live == live_children(s, id));
    lemma_filter_ids_ascending(s, f);
    assert forall|i: int| 0 <= i < kids.len() implies (#[trigger] kids[i]).parent == id && holds(s, kids[i].id, id) by {
        assert(kids.to_multiset().count(kids[i]) > 0);
        assert(live.contains(kids[i]));
        let j = choose|j: int| 0 <= j < live.len() && live[j] == kids[i];
        s.lemma_filter_pred(f, j);
        assert(s.contains(live[j]));
        let k = choose|k: int| 0 <= k < s.len() && s[k] == live[j];
        assert(s[k].id == kids[i].id && s[k].parent == id);
    }
    assert forall|i: int, j: int| 0 <= i < kids.len() && 0 <= j < kids.len() && i != j implies kids[i].id != kids[j].id by {
        if kids[i].id == kids[j].id {
            assert(kids.to_multiset().count(kids[i]) > 0);
            assert(kids.to_multiset().count(kids[j]) > 0);
            let a = choose|a: int| 0 <= a < live.len() && live[a] == kids[i];
            let b = choose|b: int| 0 <= b < live.len() && live[b] == kids[j];
            if a != b {
                if a < b {
                    assert(live[a].row_id() < live[b].row_id());
                } else {
                    assert(live[b].row_id() < live[a].row_id());
                }
            }
            assert(kids[i] == kids[j]);
            lemma_count_twice(kids, i, j);
            assert(live.to_multiset().count(kids[i]) >= 2);
            lemma_count_once(live, a);
        }
    }
}

/// A value at two places of a sequence counts at least twice.
proof fn lemma_count_twice(s: Seq<Task>, i: int, j: int)
    requires
        0 <= i < s.len(),
        0 <= j < s.len(),
        i != j,
        s[i] == s[j],
    ensures
        s.to_multiset().count(s[i]) >= 2,
{
    broadcast use vstd::seq_lib::group_to_multiset_ensures;

    let (a, b) = if i < j { (i, j) } else { (j, i) };
    let r = s.remove(b);
    assert(r[a] == s[a]);
    assert(r.to_multiset().count(s[a]) > 0);
    assert(s.to_multiset().count(s[a]) == r.to_multiset().count(s[a]) + 1);
}

/// In rows whose ids rise, a row counts once.
proof fn lemma_count_once(s: Seq<Task>, a: int)
    requires
        ids_ascending(s),
        0 <= a < s.len(),
    ensures
        s.to_multiset().count(s[a]) == 1,
{
    broadcast use vstd::seq_lib::group_to_multiset_ensures;

    let r = s.remove(a);
    assert(s.to_multiset().count(s[a]) == r.to_multiset().count(s[a]) + 1);
    if r.to_multiset().count(s[a]) > 0 {
        let k = choose|k: int| 0 <= k < r.len() && r[k] == s[a];
        if k < a {
            assert(s[k] == r[k]);
            assert(s[k].row_id() < s[a].row_id());
        } else {
            assert(s[k + 1] == r[k]);
            assert(s[a].row_id() < s[k + 1].row_id());
        }
    }
}

/// Deleting the subtasks of a task, in turn, goes as deep as it needs (see
/// `lemma_delete_depth`), where they are tasks there, with a parent that is
/// not, and ids of their own.
proof fn lemma_delete_all_depth(
    st: (Seq<Task>, Seq<Record>, Seq<Reminder>),
    kids: Seq<Task>,
    p: i64,
    e1: nat,
    e2: nat,
)
    requires
        ids_ascending(st.0),
        e1 >= st.0.len(),
        e2 >= st.0.len(),
        !has_task(st.0, p),
        forall|i: int| 0 <= i < kids.len() ==> (#[trigger] kids[i]).parent == p && holds(st.0, kids[i].id, p),
        forall|i: int, j: int| 0 <= i < kids.len() && 0 <= j < kids.len() && i != j ==> kids[i].id != kids[j].id,
    ensures
        after_delete_all(st, kids, e1) == after_delete_all(st, kids, e2),
        ids_ascending(after_delete_all(st, kids, e1).0),
        after_delete_all(st, kids, e1).0.len() <= st.0.len(),
        forall|y: i64| #[trigger] has_task(after_delete_all(st, kids, e1).0, y) ==> has_task(st.0, y),
        forall|y: i64, q: i64|
            #[trigger] holds(st.0, y, q) && !has_task(st.0, q) && (forall|i: int|
                0 <= i < kids.len() ==> (#[trigger] kids[i]).id != y) ==> holds(after_delete_all(st, kids, e1).0, y, q),
    decreases e1, kids.len(),
{
    if kids.len() > 0 {
        let k = kids[0];
        assert(holds(st.0, k.id, p));
        assert(has_task(st.0, k.id));
        lemma_without(st, k.id);
        lemma_delete_depth(st, k, e1, e2);
        let s1 = after_delete(st, k, e1);
        let rest = kids.drop_first();
        assert forall|i: int| 0 <= i < rest.len() implies (#[trigger] rest[i]).parent == p && holds(s1.0, rest[i].id, p) by {
            assert(rest[i] == kids[i + 1]);
            assert(kids[i + 1].id != kids[0].id);
            assert(holds(st.0, rest[i].id, p));
        }
        assert forall|i: int, j: int| 0 <= i < rest.len() && 0 <= j < rest.len() && i != j implies rest[i].id != rest[j].id by {
            assert(rest[i] == kids[i + 1] && rest[j] == kids[j + 1]);
        }
        lemma_delete_all_depth(s1, rest, p, e1, e2);
        assert forall|y: i64, q: i64|
            #[trigger] holds(st.0, y, q) && !has_task(st.0, q) && (forall|i: int|
                0 <= i < kids.len() ==> (#[trigger] kids[i]).id != y) implies holds(
                after_delete_all(st, kids, e1).0,
                y,
                q,
            ) by {
            assert(kids[0].id != y);
            assert(q != k.id);
            assert(holds(s1.0, y, q));
            assert forall|i: int| 0 <= i < rest.len() implies (#[trigger] rest[i]).id != y by {
                assert(rest[i] == kids[i + 1]);
            }
        }
    }
}

/// Deleting a task goes all the way down its subtasks: any depth above the
/// number of tasks gives the rows that a depth of one more than that number
/// gives (the depth with which `delete_task` deletes).
pub proof fn delete_depth_is_enough(st: (Seq<Task>, Seq<Record>, Seq<Reminder>), t: Task, e: nat)
    requires
        ids_ascending(st.0),
        e > st.0.len(),
    ensures
        after_delete(st, t, e) == after_delete(st, t, (st.0.len() + 1) as nat),
{
    lemma_without(st, t.id);
    lemma_delete_depth(st, t, e, (st.0.len() + 1) as nat);
}

/// Saving a task as it is stored changes no task.
pub proof fn saving_a_task_as_stored_changes_nothing(s: Seq<Task>, id: i64)
    requires
        ids_ascending(s),
        has_id(s, id),
    ensures
        tasks_after_update(s, row_of(s, id)) == s,
{
    let task = row_of(s, id);
    let k = choose|i: int| 0 <= i < s.len() && s[i].row_id() == id;
    assert(positions_after_move(s, task, task) == s);
    assert forall|i: int| 0 <= i < s.len() && (#[trigger] s[i]).id == id implies s[i] == task by {
        if i != k {
            if i < k {
                assert(s[i].row_id() < s[k].row_id());
            } else {
                assert(s[k].row_id() < s[i].row_id());
            }
        }
    }
    assert(tasks_after_update(s, task) =~= s);
}

/// Moving positions, following into a project and taking a suspended flag
/// keep every task's id where it was.
proof fn lemma_update_keeps_ids(s: Seq<Task>, task: Task)
    ensures
        tasks_after_update(s, task).len() == s.len(),
        forall|i: int| 0 <= i < s.len() ==> (#[trigger] tasks_after_update(s, task)[i]).id == s[i].id,
{
    let old = row_of(s, task.id);
    let s1 = positions_after_move(s, old, task);
    assert(s1.len() == s.len() && forall|i: int| 0 <= i < s.len() ==> (#[trigger] s1[i]).id == s[i].id) by {
        let op = old.position as int;
        let np = task.position as int;
        if np != op && task.parent == old.parent && task.section != old.section && old.section != 0 {
            let s0 = shift_band(s, op + 1, i32::MAX as int, false, old.section, -1);
            assert(forall|i: int| 0 <= i < s.len() ==> (#[trigger] s0[i]).id == s[i].id);
        }
    }
    let s2 = if task.project != old.project {
        s1.map_values(|t: Task| if t.parent == task.id { Task { project: task.project, ..t } } else { t })
    } else {
        s1
    };
    assert(s2.len() == s.len() && forall|i: int| 0 <= i < s.len() ==> (#[trigger] s2[i]).id == s[i].id);
    let s3 = if task.suspended != old.suspended {
        s2.map_values(
            |t: Task|
                if strictly_below(s2, Descent::All, task.id, t) {
                    Task { suspended: task.suspended, ..t }
                } else {
                    t
                },
        )
    } else {
        s2
    };
    assert(s3.len() == s.len() && forall|i: int| 0 <= i < s.len() ==> (#[trigger] s3[i]).id == s[i].id);
}

/// Saving a task a second time, with nothing changed since the first,
/// leaves the tasks as the first save left them.
pub proof fn saving_a_task_twice_is_saving_it_once(s: Seq<Task>, task: Task)
    requires
        ids_ascending(s),
        has_id(s, task.id),
    ensures
        tasks_after_update(tasks_after_update(s, task), task) == tasks_after_update(s, task),
{
    let s1 = tasks_after_update(s, task);
    lemma_update_keeps_ids(s, task);
    let k = choose|i: int| 0 <= i < s.len() && s[i].row_id() == task.id;
    assert(s1[k] == task);
    assert(has_id(s1, task.id));
    assert(ids_ascending(s1)) by {
        assert forall|i: int, j: int| 0 <= i < j < s1.len() implies s1[i].row_id() < s1[j].row_id() by {
            assert(s1[i].id == s[i].id && s1[j].id == s[j].id);
            assert(s[i].row_id() < s[j].row_id());
        }
    }
    let k1 = choose|i: int| 0 <= i < s1.len() && s1[i].row_id() == task.id;
    if k1 != k {
        if k1 < k {
            assert(s[k1].row_id() < s[k].row_id());
        } else {
            assert(s[k].row_id() < s[k1].row_id());
        }
    }
    assert(row_of(s1, task.id) == task);
    saving_a_task_as_stored_changes_nothing(s1, task.id);
}

/// Saving a project as it is stored changes no project.
pub proof fn saving_a_project_as_stored_changes_nothing(s: Seq<Project>, id: i64)
    requires
        ids_ascending(s),
        has_id(s, id),
    ensures
        projects_after_update(s, row_of(s, id)) == s,
{
    let p = row_of(s, id);
    let k = choose|i: int| 0 <= i < s.len() && s[i].row_id() == id;
    assert forall|i: int| 0 <= i < s.len() && (#[trigger] s[i]).id == id implies s[i] == p by {
        if i != k {
            if i < k {
                assert(s[i].row_id() < s[k].row_id());
            } else {
                assert(s[k].row_id() < s[i].row_id());
            }
        }
    }
    assert(projects_after_update(s, p) =~= s);
}

/// Saving a section as it is stored changes no section.
pub proof fn saving_a_section_as_stored_changes_nothing(s: Seq<Section>, id: i64)
    requires
        ids_ascending(s),
        has_id(s, id),
    ensures
        sections_after_update(s, row_of(s, id)) == s,
{
    let x = row_of(s, id);
    let k = choose|i: int| 0 <= i < s.len() && s[i].row_id() == id;
    assert forall|i: int| 0 <= i < s.len() && (#[trigger] s[i]).id == id implies s[i] == x by {
        if i != k {
            if i < k {
                assert(s[i].row_id() < s[k].row_id());
            } else {
                assert(s[k].row_id() < s[i].row_id());
            }
        }
    }
    assert(sections_after_update(s, x) =~= s);
}


/// Whether task `t` is of the group whose places deleting `owner` closes up:
/// the tasks of `owner`'s section where it has no parent, else the subtasks
/// of its parent.
pub open spec fn in_group(t: Task, owner: Task) -> bool {
    if owner.parent == 0 {
        t.section == owner.section
    } else {
        t.parent == owner.parent
    }
}

/// The places of the tasks of `owner`'s group.
pub open spec fn group_positions(s: Seq<Task>, owner: Task) -> Seq<int> {
    if owner.parent == 0 {
        section_positions(s, owner.section)
    } else {
        subtask_positions(s, owner.parent)
    }
}

/// Whether `c` holds every task whose parent it holds, and no task of
/// `owner`'s group.
spec fn closed_apart(s: Seq<Task>, c: Set<i64>, owner: Task) -> bool {
    forall|i: int|
        0 <= i < s.len() ==> (c.contains((#[trigger] s[i]).parent) ==> c.contains(s[i].id)) && (in_group(
            s[i],
            owner,
        ) ==> !c.contains(s[i].id))
}

/// Dropping rows keeps `closed_apart`.
proof fn lemma_filter_closed_apart(s: Seq<Task>, h: spec_fn(Task) -> bool, c: Set<i64>, owner: Task)
    requires
        closed_apart(s, c, owner),
    ensures
        closed_apart(s.filter(h), c, owner),
{
    broadcast use vstd::seq_lib::group_filter_ensures;

    assert forall|i: int| 0 <= i < s.filter(h).len() implies (c.contains(
        (#[trigger] s.filter(h)[i]).parent,
    ) ==> c.contains(s.filter(h)[i].id)) && (in_group(s.filter(h)[i], owner) ==> !c.contains(
        s.filter(h)[i].id,
    )) by {
        lemma_filter_row(s, h, i);
        let j = choose|j: int| 0 <= j < s.len() && s[j] == s.filter(h)[i];
        assert(s[j] == s.filter(h)[i]);
    }
}

/// Dropping only rows outside the group keeps the group's rows.
proof fn lemma_filter_keeps_group(s: Seq<Task>, h: spec_fn(Task) -> bool, owner: Task)
    requires
        forall|i: int| 0 <= i < s.len() && in_group(#[trigger] s[i], owner) ==> h(s[i]),
    ensures
        s.filter(h).filter(|x: Task| in_group(x, owner)) == s.filter(|x: Task| in_group(x, owner)),
    decreases s.len(),
{
    reveal_with_fuel(Seq::<_>::filter, 1);
    let g = |x: Task| in_group(x, owner);
    if s.len() == 0 {
        assert(s.filter(h).filter(g) =~= Seq::<Task>::empty());
    } else {
        let d = s.drop_last();
        assert forall|i: int| 0 <= i < d.len() && in_group(#[trigger] d[i], owner) implies h(d[i]) by {
            assert(d[i] == s[i]);
        }
        lemma_filter_keeps_group(d, h, owner);
        assert(s[s.len() - 1] == s.last());
        if h(s.last()) {
            assert(s.filter(h) =~= d.filter(h).push(s.last()));
            assert(s.filter(h).drop_last() =~= d.filter(h));
        } else {
            assert(s.filter(h) =~= d.filter(h));
        }
    }
}

/// Moving the places of subtasks of `scope` keeps `closed_apart`, and keeps
/// the group's rows where none of them is a subtask of `scope`.
proof fn lemma_shift_apart(s: Seq<Task>, lo: int, hi: int, scope: i64, delta: int, c: Set<i64>, owner: Task)
    requires
        closed_apart(s, c, owner),
        forall|i: int| 0 <= i < s.len() && in_group(#[trigger] s[i], owner) ==> s[i].parent != scope,
    ensures
        closed_apart(shift_band(s, lo, hi, true, scope, delta), c, owner),
        shift_band(s, lo, hi, true, scope, delta).filter(|x: Task| in_group(x, owner)) == s.filter(
            |x: Task| in_group(x, owner),
        ),
{
    broadcast use vstd::seq_lib::group_filter_ensures;

    let g = |x: Task| in_group(x, owner);
    let m = |t: Task|
        if in_band(t, lo, hi, true, scope) {
            Task { position: (t.position + delta) as i32, ..t }
        } else {
            t
        };
    let r = shift_band(s, lo, hi, true, scope, delta);
    assert(r =~= s.map_values(m));
    assert forall|i: int| 0 <= i < r.len() implies (c.contains((#[trigger] r[i]).parent) ==> c.contains(
        r[i].id,
    )) && (in_group(r[i], owner) ==> !c.contains(r[i].id)) by {
        assert(r[i].id == s[i].id && r[i].parent == s[i].parent && r[i].section == s[i].section);
    }
    assert forall|i: int| 0 <= i < s.len() implies g(#[trigger] m(s[i])) == g(s[i]) by {}
    lemma_map_filter_commute(s, m, g);
    assert forall|i: int| 0 <= i < s.filter(g).len() implies #[trigger] m(s.filter(g)[i]) == s.filter(g)[i] by {
        lemma_filter_row(s, g, i);
        let j = choose|j: int| 0 <= j < s.len() && s[j] == s.filter(g)[i];
        assert(s[j] == s.filter(g)[i]);
    }
    assert(s.filter(g).map_values(m) =~= s.filter(g));
}

/// The live subtasks that deleting visits are rows of the table, under `id`.
proof fn lemma_kid_rows(s: Seq<Task>, id: i64)
    ensures
        forall|i: int|
            0 <= i < children_in_order(s, id).len() ==> (#[trigger] children_in_order(s, id)[i]).parent == id
                && s.contains(children_in_order(s, id)[i]),
{
    broadcast use vstd::seq_lib::group_to_multiset_ensures;
    broadcast use vstd::seq_lib::group_filter_ensures;

    let kids = children_in_order(s, id);
    lemma_children_in_order(s, id);
    let f = |t: Task| t.parent == id && !t.suspended;
    let live = s.filter(f);
    assert(live == live_children(s, id));
    assert forall|i: int| 0 <= i < kids.len() implies (#[trigger] kids[i]).parent == id && s.contains(kids[i]) by {
        assert(kids.to_multiset().count(kids[i]) > 0);
        assert(live.contains(kids[i]));
        let j = choose|j: int| 0 <= j < live.len() && live[j] == kids[i];
        lemma_filter_row(s, f, j);
    }
}

/// Deleting a task of `c` whose parent is in `c` removes and moves only tasks
/// of `c`: the rows of `owner`'s group stay as they are.
proof fn lemma_delete_apart(
    st: (Seq<Task>, Seq<Record>, Seq<Reminder>),
    t: Task,
    depth: nat,
    c: Set<i64>,
    owner: Task,
)
    requires
        closed_apart(st.0, c, owner),
        c.contains(t.id),
        c.contains(t.parent),
        !c.contains(0),
    ensures
        closed_apart(after_delete(st, t, depth).0, c, owner),
        after_delete(st, t, depth).0.filter(|x: Task| in_group(x, owner)) == st.0.filter(
            |x: Task| in_group(x, owner),
        ),
    decreases depth, 0nat,
{
    if depth > 0 {
        let h = |x: Task| x.id != t.id;
        let st1 = without_task(st, t.id);
        assert(st1.0 == st.0.filter(h));
        lemma_filter_closed_apart(st.0, h, c, owner);
        assert forall|i: int| 0 <= i < st.0.len() && in_group(#[trigger] st.0[i], owner) implies h(st.0[i]) by {}
        lemma_filter_keeps_group(st.0, h, owner);
        let kids = children_in_order(st1.0, t.id);
        lemma_kid_rows(st1.0, t.id);
        assert forall|i: int| 0 <= i < kids.len() implies c.contains((#[trigger] kids[i]).id) && c.contains(
            kids[i].parent,
        ) by {
            let j = choose|j: int| 0 <= j < st1.0.len() && st1.0[j] == kids[i];
            assert(st1.0[j] == kids[i]);
        }
        lemma_delete_all_apart(st1, kids, (depth - 1) as nat, c, owner);
        let a = after_delete_all(st1, kids, (depth - 1) as nat);
        assert forall|i: int| 0 <= i < a.0.len() && in_group(#[trigger] a.0[i], owner) implies a.0[i].parent
            != t.parent by {}
        lemma_shift_apart(a.0, t.position + 1, i32::MAX as int, t.parent, -1, c, owner);
    }
}

/// Deleting in turn tasks of `c` whose parents are in `c` keeps the rows of
/// `owner`'s group as they are.
proof fn lemma_delete_all_apart(
    st: (Seq<Task>, Seq<Record>, Seq<Reminder>),
    kids: Seq<Task>,
    depth: nat,
    c: Set<i64>,
    owner: Task,
)
    requires
        closed_apart(st.0, c, owner),
        forall|i: int| 0 <= i < kids.len() ==> c.contains((#[trigger] kids[i]).id) && c.contains(kids[i].parent),
        !c.contains(0),
    ensures
        closed_apart(after_delete_all(st, kids, depth).0, c, owner),
        after_delete_all(st, kids, depth).0.filter(|x: Task| in_group(x, owner)) == st.0.filter(
            |x: Task| in_group(x, owner),
        ),
    decreases depth, kids.len(),
{
    if kids.len() > 0 {
        lemma_delete_apart(st, kids[0], depth, c, owner);
        let s1 = after_delete(st, kids[0], depth);
        assert forall|i: int| 0 <= i < kids.drop_first().len() implies c.contains(
            (#[trigger] kids.drop_first()[i]).id,
        ) && c.contains(kids.drop_first()[i].parent) by {
            assert(kids.drop_first()[i] == kids[i + 1]);
        }
        lemma_delete_all_apart(s1, kids.drop_first(), depth, c, owner);
    }
}

/// Filtering out the one item that fails a test removes it from its place.
proof fn lemma_filter_out_one<T>(s: Seq<T>, h: spec_fn(T) -> bool, k: int)
    requires
        0 <= k < s.len(),
        !h(s[k]),
        forall|i: int| 0 <= i < s.len() && i != k ==> h(#[trigger] s[i]),
    ensures
        s.filter(h) == s.remove(k),
    decreases s.len(),
{
    reveal_with_fuel(Seq::<_>::filter, 1);
    let d = s.drop_last();
    if k == s.len() - 1 {
        lemma_filter_keeps_all(d, h);
        assert(s.remove(k) =~= d);
    } else {
        assert forall|i: int| 0 <= i < d.len() && i != k implies h(#[trigger] d[i]) by {
            assert(d[i] == s[i]);
        }
        lemma_filter_out_one(d, h, k);
        assert(h(s[s.len() - 1]));
        assert(s.remove(k) =~= d.remove(k).push(s.last()));
    }
}

/// Deleting a task whose descendants are all in `c` (a set of ids that
/// holds the task, each task whose parent it holds, no other task of the
/// group, and not 0) closes the gap it leaves in its group.
proof fn lemma_delete_closes_gap(
    st: (Seq<Task>, Seq<Record>, Seq<Reminder>),
    task: Task,
    depth: nat,
    c: Set<i64>,
)
    requires
        ids_ascending(st.0),
        has_id(st.0, task.id),
        row_of(st.0, task.id) == task,
        is_ranking(group_positions(st.0, task)),
        c.contains(task.id),
        !c.contains(0),
        forall|i: int| 0 <= i < st.0.len() && c.contains((#[trigger] st.0[i]).parent) ==> c.contains(st.0[i].id),
        forall|i: int|
            0 <= i < st.0.len() && in_group(#[trigger] st.0[i], task) && c.contains(st.0[i].id) ==> st.0[i].id
                == task.id,
        depth > 0,
    ensures
        is_ranking(group_positions(after_delete(st, task, depth).0, task)),
{
    broadcast use vstd::seq_lib::group_filter_ensures;

    let g = |x: Task| in_group(x, task);
    let h = |x: Task| x.id != task.id;
    let pos = |x: Task| x.position as int;
    let kk = choose|i: int| 0 <= i < st.0.len() && st.0[i].row_id() == task.id;
    assert(st.0[kk] == task);
    assert forall|i: int| 0 <= i < st.0.len() && i != kk implies st.0[i].id != task.id by {
        if i < kk {
            assert(st.0[i].row_id() < st.0[kk].row_id());
        } else {
            assert(st.0[kk].row_id() < st.0[i].row_id());
        }
    }
    let st1 = without_task(st, task.id);
    assert(st1.0 == st.0.filter(h));
    assert(closed_apart(st1.0, c, task)) by {
        assert forall|i: int| 0 <= i < st1.0.len() implies (c.contains((#[trigger] st1.0[i]).parent)
            ==> c.contains(st1.0[i].id)) && (in_group(st1.0[i], task) ==> !c.contains(st1.0[i].id)) by {
            lemma_filter_row(st.0, h, i);
            let j = choose|j: int| 0 <= j < st.0.len() && st.0[j] == st1.0[i];
            assert(st.0[j] == st1.0[i]);
        }
    }
    let kids = children_in_order(st1.0, task.id);
    lemma_kid_rows(st1.0, task.id);
    assert forall|i: int| 0 <= i < kids.len() implies c.contains((#[trigger] kids[i]).id) && c.contains(
        kids[i].parent,
    ) by {
        let j = choose|j: int| 0 <= j < st1.0.len() && st1.0[j] == kids[i];
        assert(st1.0[j] == kids[i]);
    }
    lemma_delete_all_apart(st1, kids, (depth - 1) as nat, c, task);
    let a = after_delete_all(st1, kids, (depth - 1) as nat);
    assert(a.0.filter(g) == st1.0.filter(g));
    // The group without the task.
    let w0 = st.0.filter(g);
    assert(g(st.0[kk]));
    st.0.lemma_filter_contains(g, kk);
    lemma_filter_ids_ascending(st.0, g);
    let k = choose|k: int| 0 <= k < w0.len() && w0[k] == st.0[kk];
    assert forall|i: int| 0 <= i < w0.len() && i != k implies h(#[trigger] w0[i]) by {
        if i < k {
            assert(w0[i].row_id() < w0[k].row_id());
        } else {
            assert(w0[k].row_id() < w0[i].row_id());
        }
    }
    lemma_filter_out_one(w0, h, k);
    lemma_filters_commute(st.0, h, g);
    assert(st1.0.filter(g) == w0.remove(k));
    // The gap closes.
    let bp = task.parent != 0;
    let scope = if bp { task.parent } else { task.section };
    let m = |t: Task|
        if in_band(t, task.position + 1, i32::MAX as int, bp, scope) {
            Task { position: (t.position + -1) as i32, ..t }
        } else {
            t
        };
    let fin = after_delete(st, task, depth).0;
    assert(fin =~= a.0.map_values(m));
    assert forall|i: int| 0 <= i < a.0.len() implies g(#[trigger] m(a.0[i])) == g(a.0[i]) by {}
    lemma_map_filter_commute(a.0, m, g);
    let v = w0.map_values(pos);
    lemma_group_positions(st.0, task);
    lemma_group_positions(fin, task);
    assert(group_positions(st.0, task) == v);
    lemma_remove_keeps_ranking(v, k);
    assert(group_positions(fin, task) == fin.filter(g).map_values(pos));
    assert(group_positions(fin, task) =~= v.remove(k).map_values(|x: int| if x > v[k] { x - 1 } else { x }));
}

/// A row that a filter keeps is a row of the sequence.
proof fn lemma_filter_row<T>(s: Seq<T>, h: spec_fn(T) -> bool, i: int)
    requires
        0 <= i < s.filter(h).len(),
    ensures
        s.contains(s.filter(h)[i]),
{
    assert(s.filter(h).contains(s.filter(h)[i]));
    s.lemma_filter_contains_rev(h, s.filter(h)[i]);
}

/// The places of a group are those of the tasks that `in_group` picks.
proof fn lemma_group_positions(s: Seq<Task>, owner: Task)
    ensures
        group_positions(s, owner) == s.filter(|x: Task| in_group(x, owner)).map_values(|x: Task| x.position as int),
{
    if owner.parent == 0 {
        assert((|x: Task| in_group(x, owner)) =~= (|t: Task| t.section == owner.section));
    } else {
        assert((|x: Task| in_group(x, owner)) =~= (|t: Task| t.parent == owner.parent));
    }
}

/// Two filters may be applied in either order.
proof fn lemma_filters_commute<T>(s: Seq<T>, h: spec_fn(T) -> bool, g: spec_fn(T) -> bool)
    ensures
        s.filter(h).filter(g) == s.filter(g).filter(h),
    decreases s.len(),
{
    reveal_with_fuel(Seq::<_>::filter, 1);
    if s.len() == 0 {
        assert(s.filter(h).filter(g) =~= Seq::<T>::empty());
        assert(s.filter(g).filter(h) =~= Seq::<T>::empty());
    } else {
        let d = s.drop_last();
        lemma_filters_commute(d, h, g);
        if h(s.last()) {
            assert(s.filter(h).drop_last() =~= d.filter(h));
        }
        if g(s.last()) {
            assert(s.filter(g).drop_last() =~= d.filter(g));
        }
    }
}

/// The ids that the walk down from `root` reaches are `root` and ids of
/// tasks.
proof fn lemma_reach_ids(s: Seq<Task>, root: i64, k: nat, x: i64)
    requires
        reach(s, Descent::All, root, k).contains(x),
    ensures
        x == root || exists|i: int| 0 <= i < s.len() && s[i].id == x,
    decreases k,
{
    if k > 0 {
        if reach(s, Descent::All, root, (k - 1) as nat).contains(x) {
            lemma_reach_ids(s, root, (k - 1) as nat, x);
        }
    }
}

/// Deleting a task closes the gap it leaves in its group: where the tasks of
/// its section (when it has no parent), or the subtasks of its parent, held
/// the places `0..n`, each once, and none of the tasks under it is of that
/// group, the tasks of the group that remain after `delete_task` hold the
/// places `0..n - 1`, each once.
pub proof fn delete_task_closes_the_gap(db: Database, task: Task)
    requires
        ids_ascending(db.tasks@),
        forall|i: int| 0 <= i < db.tasks@.len() ==> (#[trigger] db.tasks@[i]).id > 0,
        has_id(db.tasks@, task.id),
        row_of(db.tasks@, task.id) == task,
        is_ranking(group_positions(db.tasks@, task)),
        forall|i: int|
            0 <= i < db.tasks@.len() && in_group(#[trigger] db.tasks@[i], task) && below(
                db.tasks@,
                Descent::All,
                task.id,
                db.tasks@[i].id,
            ) ==> db.tasks@[i].id == task.id,
    ensures
        is_ranking(
            group_positions(after_delete(deletable_rows(db), task, (db.tasks@.len() + 1) as nat).0, task),
        ),
{
    let s = db.tasks@;
    let c = Set::new(|x: i64| below(s, Descent::All, task.id, x));
    assert(reach(s, Descent::All, task.id, 0).contains(task.id));
    assert(c.contains(task.id));
    let kk = choose|i: int| 0 <= i < s.len() && s[i].row_id() == task.id;
    assert(s[kk].id > 0);
    if c.contains(0) {
        let k = choose|k: nat| #[trigger] reach(s, Descent::All, task.id, k).contains(0);
        lemma_reach_ids(s, task.id, k, 0);
        if 0 != task.id {
            let j = choose|j: int| 0 <= j < s.len() && s[j].id == 0;
            assert(s[j].id > 0);
        }
    }
    assert forall|i: int| 0 <= i < s.len() && c.contains((#[trigger] s[i]).parent) implies c.contains(s[i].id) by {
        let k = choose|k: nat| #[trigger] reach(s, Descent::All, task.id, k).contains(s[i].parent);
        let prev = reach(s, Descent::All, task.id, k);
        assert(child_of(Descent::All, s[i], s[i].parent));
        assert(reach(s, Descent::All, task.id, k + 1) == prev.union(
            Set::new(
                |x: i64|
                    exists|j: int|
                        0 <= j < s.len() && s[j].id == x && child_of(Descent::All, s[j], s[j].parent)
                            && prev.contains(s[j].parent),
            ),
        ));
        assert(reach(s, Descent::All, task.id, k + 1).contains(s[i].id));
    }
    assert forall|i: int|
        0 <= i < s.len() && in_group(#[trigger] s[i], task) && c.contains(s[i].id) implies s[i].id == task.id by {}
    lemma_delete_closes_gap(deletable_rows(db), task, (s.len() + 1) as nat, c);
}

/// What `read_tasks` gives: each task it returns has the project, section,
/// done flag and parent asked for (where asked), its date in the time range
/// (where one is given), and is not suspended unless suspended tasks are
/// asked for; every task of the table that has all of these is returned; and
/// they come by position, lowest first.
pub proof fn read_tasks_gives_the_tasks_that_pass_every_filter(
    s: Seq<Task>,
    r: Seq<Task>,
    project_id: Option<i64>,
    section_id: Option<i64>,
    done_tasks: Option<bool>,
    parent_id: Option<i64>,
    time_range: Option<(i64, i64)>,
    suspended: bool,
)
    requires
        is_sorted_copy(
            r,
            s.filter(
                |t: Task|
                    task_selected(t, project_id, section_id, done_tasks, parent_id, time_range, suspended),
            ),
            |t: Task| t.position as int,
            false,
        ),
    ensures
        forall|i: int|
            0 <= i < r.len() ==> {
                &&& project_id matches Some(p) ==> (#[trigger] r[i]).project == p
                &&& section_id matches Some(x) ==> r[i].section == x
                &&& done_tasks matches Some(d) ==> r[i].done == d
                &&& parent_id matches Some(p) ==> r[i].parent == p
                &&& time_range matches Some((lo, hi)) ==> lo <= r[i].date < hi
                &&& !suspended ==> !r[i].suspended
                &&& s.contains(r[i])
            },
        forall|j: int|
            0 <= j < s.len() && (project_id matches Some(p) ==> (#[trigger] s[j]).project == p) && (
            section_id matches Some(x) ==> s[j].section == x) && (done_tasks matches Some(d) ==> s[j].done
                == d) && (parent_id matches Some(p) ==> s[j].parent == p) && (time_range matches Some((lo, hi))
                ==> lo <= s[j].date < hi) && (!suspended ==> !s[j].suspended) ==> r.contains(s[j]),
        forall|i: int, j: int| 0 <= i < j < r.len() ==> r[i].position <= r[j].position,
{
    broadcast use vstd::seq_lib::group_to_multiset_ensures;

    let f = |t: Task| task_selected(t, project_id, section_id, done_tasks, parent_id, time_range, suspended);
    let fs = s.filter(f);
    assert forall|i: int| 0 <= i < r.len() implies f(#[trigger] r[i]) && s.contains(r[i]) by {
        assert(r.to_multiset().count(r[i]) > 0);
        assert(fs.contains(r[i]));
        let j = choose|j: int| 0 <= j < fs.len() && fs[j] == r[i];
        s.lemma_filter_pred(f, j);
        lemma_filter_row(s, f, j);
    }
    assert forall|j: int| 0 <= j < s.len() && f(#[trigger] s[j]) implies r.contains(s[j]) by {
        s.lemma_filter_contains(f, j);
        assert(fs.to_multiset().count(s[j]) > 0);
    }
    assert forall|i: int, j: int| 0 <= i < j < r.len() implies r[i].position <= r[j].position by {
        assert((|t: Task| t.position as int)(r[i]) <= (|t: Task| t.position as int)(r[j]));
    }
}

/// Saving a task changes no task's section but its own, and takes each
/// other task's position from the position shift (see
/// `positions_after_move`).
proof fn lemma_update_takes_positions_from_the_shift(s: Seq<Task>, task: Task)
    ensures
        tasks_after_update(s, task).len() == s.len(),
        positions_after_move(s, row_of(s, task.id), task).len() == s.len(),
        forall|i: int|
            0 <= i < s.len() && s[i].id != task.id ==> (#[trigger] tasks_after_update(s, task)[i]).position
                == positions_after_move(s, row_of(s, task.id), task)[i].position && tasks_after_update(
                s,
                task,
            )[i].section == s[i].section && tasks_after_update(s, task)[i].parent == s[i].parent
                && tasks_after_update(s, task)[i].id == s[i].id,
        forall|i: int|
            0 <= i < s.len() && s[i].id == task.id ==> #[trigger] tasks_after_update(s, task)[i] == task,
{
    let old = row_of(s, task.id);
    let s1 = positions_after_move(s, old, task);
    assert(s1.len() == s.len() && forall|i: int|
        0 <= i < s.len() ==> (#[trigger] s1[i]).id == s[i].id && s1[i].section == s[i].section
            && s1[i].parent == s[i].parent) by {
        let op = old.position as int;
        let np = task.position as int;
        if np != op && task.parent == old.parent && task.section != old.section && old.section != 0 {
            let s0 = shift_band(s, op + 1, i32::MAX as int, false, old.section, -1);
            assert(forall|i: int| 0 <= i < s.len() ==> (#[trigger] s0[i]).id == s[i].id && s0[i].section
                == s[i].section && s0[i].parent == s[i].parent);
        }
    }
    let s2 = if task.project != old.project {
        s1.map_values(|t: Task| if t.parent == task.id { Task { project: task.project, ..t } } else { t })
    } else {
        s1
    };
    assert(s2.len() == s.len() && forall|i: int|
        0 <= i < s.len() ==> (#[trigger] s2[i]).id == s[i].id && s2[i].section == s[i].section
            && s2[i].position == s1[i].position && s2[i].parent == s[i].parent);
    let s3 = if task.suspended != old.suspended {
        s2.map_values(
            |t: Task|
                if strictly_below(s2, Descent::All, task.id, t) {
                    Task { suspended: task.suspended, ..t }
                } else {
                    t
                },
        )
    } else {
        s2
    };
    assert(s3.len() == s.len() && forall|i: int|
        0 <= i < s.len() ==> (#[trigger] s3[i]).id == s[i].id && s3[i].section == s[i].section
            && s3[i].position == s1[i].position && s3[i].parent == s[i].parent);
}

/// Saving a task moves no task outside the places it leaves and the places
/// it enters: a task other than it keeps its position unless it is of the
/// task's old section, of its new section, or (where the task had a parent)
/// a subtask of its old parent.  Where the task goes under another parent,
/// only the group it leaves moves: the tasks of its old section where it had
/// no parent, else its old parent's subtasks.
pub proof fn saving_a_task_moves_only_the_groups_it_leaves_and_enters(s: Seq<Task>, task: Task)
    requires
        ids_ascending(s),
        has_id(s, task.id),
    ensures
        tasks_after_update(s, task).len() == s.len(),
        forall|i: int|
            0 <= i < s.len() && s[i].id != task.id && s[i].section != row_of(s, task.id).section
                && s[i].section != task.section && !(row_of(s, task.id).parent != 0 && s[i].parent == row_of(
                s,
                task.id,
            ).parent) ==> (#[trigger] tasks_after_update(s, task)[i]).position == s[i].position,
        task.parent != row_of(s, task.id).parent ==> forall|i: int|
            0 <= i < s.len() && s[i].id != task.id && !in_group(s[i], row_of(s, task.id))
                ==> (#[trigger] tasks_after_update(s, task)[i]).position == s[i].position,
{
    lemma_update_takes_positions_from_the_shift(s, task);
}

/// Two sequences that agree, index by index, on which items a filter keeps
/// and on the values of the kept items give the same values after the filter.
proof fn lemma_filter_map_same<T>(r: Seq<T>, s: Seq<T>, f: spec_fn(T) -> bool, g: spec_fn(T) -> int)
    requires
        r.len() == s.len(),
        forall|i: int| 0 <= i < s.len() ==> f(#[trigger] r[i]) == f(s[i]) && (f(s[i]) ==> g(r[i]) == g(s[i])),
    ensures
        r.filter(f).map_values(g) == s.filter(f).map_values(g),
    decreases s.len(),
{
    reveal_with_fuel(Seq::<_>::filter, 1);
    if s.len() == 0 {
        assert(r.filter(f).map_values(g) =~= s.filter(f).map_values(g));
    } else {
        assert forall|i: int| 0 <= i < s.drop_last().len() implies f(#[trigger] r.drop_last()[i]) == f(
            s.drop_last()[i],
        ) && (f(s.drop_last()[i]) ==> g(r.drop_last()[i]) == g(s.drop_last()[i])) by {
            assert(r.drop_last()[i] == r[i] && s.drop_last()[i] == s[i]);
        }
        lemma_filter_map_same(r.drop_last(), s.drop_last(), f, g);
        assert(r[r.len() - 1] == r.last() && s[s.len() - 1] == s.last());
        if f(s.last()) {
            assert(r.filter(f).map_values(g) =~= r.drop_last().filter(f).map_values(g).push(g(r.last())));
            assert(s.filter(f).map_values(g) =~= s.drop_last().filter(f).map_values(g).push(g(s.last())));
        } else {
            assert(r.filter(f).map_values(g) =~= r.drop_last().filter(f).map_values(g));
            assert(s.filter(f).map_values(g) =~= s.drop_last().filter(f).map_values(g));
        }
    }
}

/// Moving a task of its own (with no parent) under another parent leaves the
/// positions of every other section as they were, so a section whose tasks
/// held the places `0..n` still does.
pub proof fn putting_a_task_under_a_parent_keeps_other_sections(s: Seq<Task>, task: Task, sec: i64)
    requires
        ids_ascending(s),
        has_id(s, task.id),
        row_of(s, task.id).parent == 0,
        task.parent != 0,
        sec != row_of(s, task.id).section,
        sec != task.section,
    ensures
        section_positions(tasks_after_update(s, task), sec) == section_positions(s, sec),
{
    let old = row_of(s, task.id);
    let r = tasks_after_update(s, task);
    lemma_update_takes_positions_from_the_shift(s, task);
    let kk = choose|i: int| 0 <= i < s.len() && s[i].row_id() == task.id;
    let f = |t: Task| t.section == sec;
    let g = |t: Task| t.position as int;
    assert forall|i: int| 0 <= i < s.len() implies f(#[trigger] r[i]) == f(s[i]) && (f(s[i]) ==> g(r[i]) == g(
        s[i],
    )) by {
        if s[i].id == task.id {
            if i != kk {
                if i < kk {
                    assert(s[i].row_id() < s[kk].row_id());
                } else {
                    assert(s[kk].row_id() < s[i].row_id());
                }
            }
        }
    }
    lemma_filter_map_same(r, s, f, g);
}

/// Two sequences that agree, index by index, on which items a filter keeps,
/// and whose kept items' values relate by `h`, keep values that relate by
/// `h`.
proof fn lemma_filter_map_rel(
    r: Seq<Task>,
    s: Seq<Task>,
    f: spec_fn(Task) -> bool,
    h: spec_fn(int) -> int,
)
    requires
        r.len() == s.len(),
        forall|i: int|
            0 <= i < s.len() ==> f(#[trigger] r[i]) == f(s[i]) && (f(s[i]) ==> r[i].position as int == h(
                s[i].position as int,
            )),
    ensures
        r.filter(f).map_values(|t: Task| t.position as int) == s.filter(f).map_values(
            |t: Task| t.position as int,
        ).map_values(h),
    decreases s.len(),
{
    reveal_with_fuel(Seq::<_>::filter, 1);
    let g = |t: Task| t.position as int;
    if s.len() == 0 {
        assert(r.filter(f).map_values(g) =~= s.filter(f).map_values(g).map_values(h));
    } else {
        assert forall|i: int| 0 <= i < s.drop_last().len() implies f(#[trigger] r.drop_last()[i]) == f(
            s.drop_last()[i],
        ) && (f(s.drop_last()[i]) ==> r.drop_last()[i].position as int == h(
            s.drop_last()[i].position as int,
        )) by {
            assert(r.drop_last()[i] == r[i] && s.drop_last()[i] == s[i]);
        }
        lemma_filter_map_rel(r.drop_last(), s.drop_last(), f, h);
        assert(r[r.len() - 1] == r.last() && s[s.len() - 1] == s.last());
        if f(s.last()) {
            assert(r.filter(f).map_values(g) =~= r.drop_last().filter(f).map_values(g).push(g(r.last())));
            assert(s.filter(f).map_values(g).map_values(h) =~= s.drop_last().filter(f).map_values(g).map_values(
                h,
            ).push(h(g(s.last()))));
        } else {
            assert(r.filter(f).map_values(g) =~= r.drop_last().filter(f).map_values(g));
            assert(s.filter(f).map_values(g).map_values(h) =~= s.drop_last().filter(f).map_values(g).map_values(
                h,
            ));
        }
    }
}

/// Where every item that `f` keeps passes `h`, filtering by `h` first
/// changes nothing.
proof fn lemma_filter_first_harmless<T>(r: Seq<T>, h: spec_fn(T) -> bool, f: spec_fn(T) -> bool)
    requires
        forall|i: int| 0 <= i < r.len() && f(#[trigger] r[i]) ==> h(r[i]),
    ensures
        r.filter(h).filter(f) == r.filter(f),
    decreases r.len(),
{
    reveal_with_fuel(Seq::<_>::filter, 1);
    if r.len() == 0 {
        assert(r.filter(h).filter(f) =~= Seq::<T>::empty());
    } else {
        let d = r.drop_last();
        assert forall|i: int| 0 <= i < d.len() && f(#[trigger] d[i]) implies h(d[i]) by {
            assert(d[i] == r[i]);
        }
        lemma_filter_first_harmless(d, h, f);
        assert(r[r.len() - 1] == r.last());
        if h(r.last()) {
            assert(r.filter(h) =~= d.filter(h).push(r.last()));
            assert(r.filter(h).drop_last() =~= d.filter(h));
        } else {
            assert(r.filter(h) =~= d.filter(h));
        }
    }
}

/// A task that leaves a group whose places were `0..n`, the tasks after it
/// moving up by one, leaves the group's places `0..n - 1`.
proof fn lemma_leave_group(s: Seq<Task>, res: Seq<Task>, kk: int, fo: spec_fn(Task) -> bool)
    requires
        ids_ascending(s),
        res.len() == s.len(),
        0 <= kk < s.len(),
        forall|i: int| 0 <= i < s.len() ==> (#[trigger] res[i]).id == s[i].id,
        fo(s[kk]),
        !fo(res[kk]),
        forall|i: int|
            0 <= i < s.len() && i != kk ==> fo(#[trigger] res[i]) == fo(s[i]) && (fo(s[i]) ==> res[i].position as int
                == if s[i].position > s[kk].position {
                s[i].position - 1
            } else {
                s[i].position as int
            }),
        is_ranking(s.filter(fo).map_values(|t: Task| t.position as int)),
    ensures
        is_ranking(res.filter(fo).map_values(|t: Task| t.position as int)),
{
    broadcast use vstd::seq_lib::group_filter_ensures;

    let id = s[kk].id;
    let h = |t: Task| t.id != id;
    let g = |t: Task| t.position as int;
    let op = s[kk].position as int;
    let dec = |x: int| if x > op { x - 1 } else { x };
    assert forall|i: int| 0 <= i < s.len() && i != kk implies s[i].id != id by {
        if i < kk {
            assert(s[i].row_id() < s[kk].row_id());
        } else {
            assert(s[kk].row_id() < s[i].row_id());
        }
    }
    // Without the task, the two sequences match index by index.
    lemma_filter_out_one(s, h, kk);
    assert forall|i: int| 0 <= i < res.len() && i != kk implies h(#[trigger] res[i]) by {}
    lemma_filter_out_one(res, h, kk);
    assert forall|i: int| 0 <= i < res.len() && fo(#[trigger] res[i]) implies h(res[i]) by {}
    lemma_filter_first_harmless(res, h, fo);
    let rr = res.remove(kk);
    let sr = s.remove(kk);
    assert forall|i: int| 0 <= i < sr.len() implies fo(#[trigger] rr[i]) == fo(sr[i]) && (fo(sr[i])
        ==> rr[i].position as int == dec(sr[i].position as int)) by {
        let j = if i < kk { i } else { i + 1 };
        assert(rr[i] == res[j] && sr[i] == s[j]);
    }
    lemma_filter_map_rel(rr, sr, fo, dec);
    // The group before, and without the task.
    let w0 = s.filter(fo);
    s.lemma_filter_contains(fo, kk);
    lemma_filter_ids_ascending(s, fo);
    let k = choose|k: int| 0 <= k < w0.len() && w0[k] == s[kk];
    assert forall|i: int| 0 <= i < w0.len() && i != k implies h(#[trigger] w0[i]) by {
        if i < k {
            assert(w0[i].row_id() < w0[k].row_id());
        } else {
            assert(w0[k].row_id() < w0[i].row_id());
        }
    }
    lemma_filter_out_one(w0, h, k);
    lemma_filters_commute(s, h, fo);
    let v = w0.map_values(g);
    lemma_remove_keeps_ranking(v, k);
    assert(sr.filter(fo).map_values(g) =~= v.remove(k));
    assert(res.filter(fo).map_values(g) =~= v.remove(k).map_values(|x: int| if x > v[k] { x - 1 } else { x }));
}

/// Saving a task under another parent, at another position, closes the gap
/// it leaves: where the group it leaves (the tasks of its section where it
/// had no parent, else its parent's subtasks) held the places `0..n`, the
/// tasks left in it hold `0..n - 1`.  (Saved at the position it had, no
/// place moves.)
pub proof fn leaving_a_parent_closes_the_gap(s: Seq<Task>, task: Task)
    requires
        ids_ascending(s),
        has_id(s, task.id),
        task.parent != row_of(s, task.id).parent,
        task.position != row_of(s, task.id).position,
        !in_group(task, row_of(s, task.id)),
        is_ranking(group_positions(s, row_of(s, task.id))),
    ensures
        is_ranking(group_positions(tasks_after_update(s, task), row_of(s, task.id))),
{
    let old = row_of(s, task.id);
    let res = tasks_after_update(s, task);
    lemma_update_takes_positions_from_the_shift(s, task);
    let kk = choose|i: int| 0 <= i < s.len() && s[i].row_id() == task.id;
    assert(s[kk] == old);
    let fo = |t: Task| in_group(t, old);
    lemma_group_positions(s, old);
    lemma_group_positions(res, old);
    assert forall|i: int|
        0 <= i < s.len() && i != kk implies fo(#[trigger] res[i]) == fo(s[i]) && (fo(s[i]) ==> res[i].position as int
            == if s[i].position > s[kk].position {
            s[i].position - 1
        } else {
            s[i].position as int
        }) by {
        if s[i].id == task.id {
            if i < kk {
                assert(s[i].row_id() < s[kk].row_id());
            } else {
                assert(s[kk].row_id() < s[i].row_id());
            }
        }
    }
    lemma_leave_group(s, res, kk, fo);
}

/// Ranks `0..n` split in two, with every place from `p` on moved one up and
/// `p` put between the two parts, are ranks `0..n + 1`, where `p <= n`.
proof fn lemma_insert_keeps_ranking(a: Seq<int>, b: Seq<int>, p: int)
    requires
        is_ranking(a + b),
        0 <= p <= a.len() + b.len(),
    ensures
        is_ranking(
            a.map_values(|x: int| if x >= p { x + 1 } else { x }) + seq![p] + b.map_values(
                |x: int| if x >= p { x + 1 } else { x },
            ),
        ),
{
    let u = a + b;
    let inc = |x: int| if x >= p { x + 1 } else { x };
    let w = a.map_values(inc) + seq![p] + b.map_values(inc);
    let n: int = a.len() as int;
    // Where each place of `w` comes from.
    assert forall|i: int| 0 <= i < w.len() && i != n implies #[trigger] w[i] == inc(
        u[if i < n { i } else { i - 1 }],
    ) by {
        if i < n {
            assert(u[i] == a[i]);
        } else {
            assert(u[i - 1] == b[i - 1 - n]);
        }
    }
    assert(w[n] == p);
    assert forall|i: int| 0 <= i < w.len() implies 0 <= #[trigger] w[i] < w.len() by {
        if i != n {
            let j = if i < n { i } else { i - 1 };
            assert(0 <= u[j] < u.len());
        }
    }
    assert forall|i: int, j: int| 0 <= i < w.len() && 0 <= j < w.len() && i != j implies w[i] != w[j] by {
        let ii = if i < n { i } else { i - 1 };
        let jj = if j < n { j } else { j - 1 };
        if i != n && j != n {
            assert(u[ii] != u[jj]);
        }
    }
}

/// A task that enters a group whose places were `0..n`, at place `p` of
/// `0..=n`, the tasks from `p` on moving down by one, leaves the group's
/// places `0..n + 1`.
proof fn lemma_enter_group(s: Seq<Task>, res: Seq<Task>, kk: int, fe: spec_fn(Task) -> bool, p: int)
    requires
        res.len() == s.len(),
        0 <= kk < s.len(),
        !fe(s[kk]),
        fe(res[kk]),
        res[kk].position == p,
        forall|i: int|
            0 <= i < s.len() && i != kk ==> fe(#[trigger] res[i]) == fe(s[i]) && (fe(s[i]) ==> res[i].position as int
                == if s[i].position >= p {
                s[i].position + 1
            } else {
                s[i].position as int
            }),
        is_ranking(s.filter(fe).map_values(|t: Task| t.position as int)),
        0 <= p <= s.filter(fe).len(),
    ensures
        is_ranking(res.filter(fe).map_values(|t: Task| t.position as int)),
{
    reveal_with_fuel(Seq::<_>::filter, 1);
    let g = |t: Task| t.position as int;
    let inc = |x: int| if x >= p { x + 1 } else { x };
    let s0 = s.take(kk);
    let s2 = s.skip(kk + 1);
    let r0 = res.take(kk);
    let r2 = res.skip(kk + 1);
    assert(s =~= s0 + seq![s[kk]] + s2);
    assert(res =~= r0 + seq![res[kk]] + r2);
    Seq::filter_distributes_over_add(s0 + seq![s[kk]], s2, fe);
    Seq::filter_distributes_over_add(s0, seq![s[kk]], fe);
    Seq::filter_distributes_over_add(r0 + seq![res[kk]], r2, fe);
    Seq::filter_distributes_over_add(r0, seq![res[kk]], fe);
    assert(seq![s[kk]].filter(fe) =~= Seq::<Task>::empty()) by {
        assert(seq![s[kk]].drop_last() =~= Seq::<Task>::empty());
        assert(Seq::<Task>::empty().filter(fe) =~= Seq::<Task>::empty());
    }
    assert(seq![res[kk]].filter(fe) =~= seq![res[kk]]) by {
        assert(seq![res[kk]].drop_last() =~= Seq::<Task>::empty());
        assert(Seq::<Task>::empty().filter(fe) =~= Seq::<Task>::empty());
    }
    assert forall|i: int| 0 <= i < s0.len() implies fe(#[trigger] r0[i]) == fe(s0[i]) && (fe(s0[i])
        ==> r0[i].position as int == inc(s0[i].position as int)) by {
        assert(r0[i] == res[i] && s0[i] == s[i]);
    }
    lemma_filter_map_rel(r0, s0, fe, inc);
    assert forall|i: int| 0 <= i < s2.len() implies fe(#[trigger] r2[i]) == fe(s2[i]) && (fe(s2[i])
        ==> r2[i].position as int == inc(s2[i].position as int)) by {
        assert(r2[i] == res[kk + 1 + i] && s2[i] == s[kk + 1 + i]);
    }
    lemma_filter_map_rel(r2, s2, fe, inc);
    let a = s0.filter(fe).map_values(g);
    let b = s2.filter(fe).map_values(g);
    assert(s.filter(fe) =~= s0.filter(fe) + s2.filter(fe));
    assert(s.filter(fe).map_values(g) =~= a + b);
    assert(res.filter(fe) =~= r0.filter(fe) + seq![res[kk]] + r2.filter(fe));
    lemma_insert_keeps_ranking(a, b, p);
    assert(res.filter(fe).map_values(g) =~= a.map_values(inc) + seq![p] + b.map_values(inc));
}

/// Saving a task in another section (under the same parent), at another
/// position `p` of `0..=m`, closes the gap it leaves and opens one where it
/// enters: where its old section's tasks held `0..n` and its new section's
/// held `0..m`, they hold `0..n - 1` and `0..m + 1`.
pub proof fn changing_section_keeps_both_sections_ranked(s: Seq<Task>, task: Task)
    requires
        ids_ascending(s),
        has_id(s, task.id),
        task.parent == row_of(s, task.id).parent,
        task.section != row_of(s, task.id).section,
        row_of(s, task.id).section != 0,
        task.position != row_of(s, task.id).position,
        is_ranking(section_positions(s, row_of(s, task.id).section)),
        is_ranking(section_positions(s, task.section)),
        0 <= task.position <= section_positions(s, task.section).len(),
        section_positions(s, task.section).len() < i32::MAX,
    ensures
        is_ranking(section_positions(tasks_after_update(s, task), row_of(s, task.id).section)),
        is_ranking(section_positions(tasks_after_update(s, task), task.section)),
{
    let old = row_of(s, task.id);
    let res = tasks_after_update(s, task);
    lemma_update_takes_positions_from_the_shift(s, task);
    let kk = choose|i: int| 0 <= i < s.len() && s[i].row_id() == task.id;
    assert(s[kk] == old);
    assert forall|i: int| 0 <= i < s.len() && i != kk implies s[i].id != task.id by {
        if i < kk {
            assert(s[i].row_id() < s[kk].row_id());
        } else {
            assert(s[kk].row_id() < s[i].row_id());
        }
    }
    let fo = |t: Task| t.section == old.section;
    let fe = |t: Task| t.section == task.section;
    assert forall|i: int|
        0 <= i < s.len() && i != kk implies fo(#[trigger] res[i]) == fo(s[i]) && (fo(s[i]) ==> res[i].position as int
            == if s[i].position > s[kk].position {
            s[i].position - 1
        } else {
            s[i].position as int
        }) by {}
    lemma_leave_group(s, res, kk, fo);
    assert forall|i: int|
        0 <= i < s.len() && i != kk implies fe(#[trigger] res[i]) == fe(s[i]) && (fe(s[i]) ==> res[i].position as int
            == if s[i].position >= task.position {
            s[i].position + 1
        } else {
            s[i].position as int
        }) by {
        if fe(s[i]) {
            s.lemma_filter_contains(fe, i);
            let j = choose|j: int| 0 <= j < s.filter(fe).len() && s.filter(fe)[j] == s[i];
            assert(section_positions(s, task.section)[j] == s[i].position);
        }
    }
    lemma_enter_group(s, res, kk, fe, task.position as int);
}

/// Saving a task changes of every other task at most its position, its
/// project and its suspended flag: its subtasks follow it into another
/// project, the tasks under it (at any depth) take its suspended flag when
/// that changes, and nothing else of another task changes.  The task's own
/// row takes all the saved values.
pub proof fn saving_a_task_changes_others_only_by_project_and_suspension(s: Seq<Task>, task: Task)
    requires
        ids_ascending(s),
        has_id(s, task.id),
    ensures
        tasks_after_update(s, task).len() == s.len(),
        forall|i: int|
            0 <= i < s.len() && s[i].id == task.id ==> #[trigger] tasks_after_update(s, task)[i] == task,
        forall|i: int|
            0 <= i < s.len() && s[i].id != task.id ==> {
                let t = #[trigger] tasks_after_update(s, task)[i];
                let old = row_of(s, task.id);
                &&& t.id == s[i].id && t.name == s[i].name && t.done == s[i].done && t.section == s[i].section
                &&& t.parent == s[i].parent && t.description == s[i].description && t.date == s[i].date
                &&& t.project == if task.project != old.project && s[i].parent == task.id {
                    task.project
                } else {
                    s[i].project
                }
                &&& t.suspended == if task.suspended != old.suspended && strictly_below(
                    s,
                    Descent::All,
                    task.id,
                    s[i],
                ) {
                    task.suspended
                } else {
                    s[i].suspended
                }
            },
{
    let old = row_of(s, task.id);
    lemma_update_takes_positions_from_the_shift(s, task);
    let s1 = positions_after_move(s, old, task);
    assert(s1.len() == s.len() && forall|i: int|
        0 <= i < s.len() ==> {
            let a = #[trigger] s1[i];
            &&& a.id == s[i].id && a.name == s[i].name && a.done == s[i].done && a.section == s[i].section
            &&& a.parent == s[i].parent && a.description == s[i].description && a.date == s[i].date
            &&& a.project == s[i].project && a.suspended == s[i].suspended
        }) by {
        let op = old.position as int;
        let np = task.position as int;
        if np != op && task.parent == old.parent && task.section != old.section && old.section != 0 {
            let s0 = shift_band(s, op + 1, i32::MAX as int, false, old.section, -1);
            assert(forall|i: int|
                0 <= i < s.len() ==> {
                    let a = #[trigger] s0[i];
                    &&& a.id == s[i].id && a.name == s[i].name && a.done == s[i].done && a.section
                        == s[i].section
                    &&& a.parent == s[i].parent && a.description == s[i].description && a.date == s[i].date
                    &&& a.project == s[i].project && a.suspended == s[i].suspended
                });
        }
    }
    let s2 = if task.project != old.project {
        s1.map_values(|t: Task| if t.parent == task.id { Task { project: task.project, ..t } } else { t })
    } else {
        s1
    };
    assert(s2.len() == s.len());
    assert forall|i: int| 0 <= i < s.len() implies (#[trigger] s2[i]).id == s[i].id && s2[i].parent == s[i].parent by {}
    assert forall|i: int| 0 <= i < s.len() implies #[trigger] strictly_below(s2, Descent::All, task.id, s2[i])
        == strictly_below(s, Descent::All, task.id, s[i]) by {
        lemma_below_all_same(s2, s, task.id, s[i].parent);
    }
}

} // verus!
