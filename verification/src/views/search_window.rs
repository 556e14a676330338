//! The global search: the projects and tasks that the text typed in the
//! search window finds.

use vstd::prelude::*;

use crate::db::models::{Project, Task};
use crate::db::operations::{find_projects, find_tasks, project_shown, task_found};
use crate::db::pattern::{like, search_pattern};
use crate::db::store::{Database, Row};
use crate::text::{lemma_trimmed_unique, lowercase, to_lowercase, trim, trimmed};

verus! {

/// A row of the search window's results: a project or a task.
#[derive(Debug, PartialEq, Eq)]
pub enum SearchResultData {
    Project(Project),
    Task(Task),
}

/// The rows of the results: the projects, then the tasks, each in their order.
pub open spec fn result_rows(projects: Seq<Project>, tasks: Seq<Task>) -> Seq<SearchResultData> {
    projects.map_values(|p: Project| SearchResultData::Project(p)) + tasks.map_values(
        |t: Task| SearchResultData::Task(t),
    )
}

/// What the search window shows for the typed `text`: nothing where the text,
/// in lowercase and trimmed, is empty; else the projects, then the tasks,
/// that a search for it finds (see `find_projects` and `find_tasks`), the
/// archived projects and the done tasks too where `archive`.
pub fn search(db: &Database, text: &str, archive: bool) -> (r: Option<Vec<SearchResultData>>)
    ensures
        forall|q: Seq<char>|
            #[trigger] trimmed(lowercase(text@), q) ==> {
                &&& q.len() == 0 ==> r is None
                &&& q.len() > 0 ==> (r matches Some(rows) && rows@ == result_rows(
                    db.projects@.filter(
                        |p: Project| like(search_pattern(q), p.name@) && project_shown(p, archive),
                    ),
                    db.tasks@.filter(|t: Task| task_found(t, q, archive)),
                ))
            },
{
    let lower = to_lowercase(text);
    let query = trim(lower.as_str());
    proof {
        assert forall|q: Seq<char>| #[trigger] trimmed(lowercase(text@), q) implies q == query@ by {
            lemma_trimmed_unique(lowercase(text@), q, query@);
        }
    }
    if query.is_empty() {
        return None;
    }
    let projects = find_projects(db, query, archive);
    let tasks = find_tasks(db, query, archive);
    let mut rows: Vec<SearchResultData> = Vec::new();
    let mut i: usize = 0;
    while i < projects.len()
        invariant
            i <= projects@.len(),
            rows@ == projects@.take(i as int).map_values(|p: Project| SearchResultData::Project(p)),
        decreases projects@.len() - i,
    {
        rows.push(SearchResultData::Project(projects[i].copied()));
        proof {
            assert(projects@.take(i + 1).map_values(|p: Project| SearchResultData::Project(p))
                =~= projects@.take(i as int).map_values(|p: Project| SearchResultData::Project(p)).push(
                SearchResultData::Project(projects@[i as int]),
            ));
        }
        i = i + 1;
    }
    let mut k: usize = 0;
    while k < tasks.len()
        invariant
            k <= tasks@.len(),
            i == projects@.len(),
            rows@ == projects@.take(i as int).map_values(|p: Project| SearchResultData::Project(p))
                + tasks@.take(k as int).map_values(|t: Task| SearchResultData::Task(t)),
        decreases tasks@.len() - k,
    {
        rows.push(SearchResultData::Task(tasks[k].copied()));
        proof {
            assert(tasks@.take(k + 1).map_values(|t: Task| SearchResultData::Task(t)) =~= tasks@.take(
                k as int,
            ).map_values(|t: Task| SearchResultData::Task(t)).push(SearchResultData::Task(tasks@[k as int])));
            assert(projects@.take(i as int).map_values(|p: Project| SearchResultData::Project(p))
                + tasks@.take(k + 1).map_values(|t: Task| SearchResultData::Task(t))
                =~= (projects@.take(i as int).map_values(|p: Project| SearchResultData::Project(p))
                + tasks@.take(k as int).map_values(|t: Task| SearchResultData::Task(t))).push(
                SearchResultData::Task(tasks@[k as int]),
            ));
        }
        k = k + 1;
    }
    proof {
        assert(projects@.take(i as int) =~= projects@);
        assert(tasks@.take(k as int) =~= tasks@);
    }
    Some(rows)
}

/// The rows of the results hold the projects, in their order, then every
/// task, in its order, each once and nothing else.
pub proof fn search_rows_are_the_projects_then_the_tasks(projects: Seq<Project>, tasks: Seq<Task>)
    ensures
        result_rows(projects, tasks).len() == projects.len() + tasks.len(),
        forall|i: int| 0 <= i < projects.len() ==> #[trigger] result_rows(projects, tasks)[i] == SearchResultData::Project(projects[i]),
        forall|i: int|
            0 <= i < tasks.len() ==> #[trigger] result_rows(projects, tasks)[projects.len() + i]
                == SearchResultData::Task(tasks[i]),
{
}

/// Whether a search finds a task does not depend on its done flag where
/// done tasks are asked for; without them it finds no done task, and of an
/// open task it answers the same either way.
pub proof fn done_flag_matters_only_without_archive(t: Task, text: Seq<char>)
    ensures
        task_found(t, text, true) == task_found(Task { done: !t.done, ..t }, text, true),
        task_found(t, text, false) ==> !t.done,
        !t.done ==> task_found(t, text, false) == task_found(t, text, true),
{
}

/// With done tasks asked for, the results of a search for `q` hold every
/// task of the table whose name matches and that is not suspended, done or
/// not.
pub proof fn search_with_archive_lists_every_matching_task(
    db: Database,
    q: Seq<char>,
    rows: Seq<SearchResultData>,
    projects: Seq<Project>,
)
    requires
        rows == result_rows(projects, db.tasks@.filter(|t: Task| task_found(t, q, true))),
    ensures
        forall|j: int|
            0 <= j < db.tasks@.len() && like(search_pattern(q), (#[trigger] db.tasks@[j]).name@)
                && !db.tasks@[j].suspended ==> rows.contains(SearchResultData::Task(db.tasks@[j])),
{
    let f = |t: Task| task_found(t, q, true);
    let ts = db.tasks@.filter(f);
    search_rows_are_the_projects_then_the_tasks(projects, ts);
    assert forall|j: int|
        0 <= j < db.tasks@.len() && like(search_pattern(q), (#[trigger] db.tasks@[j]).name@)
            && !db.tasks@[j].suspended implies rows.contains(SearchResultData::Task(db.tasks@[j])) by {
        db.tasks@.lemma_filter_contains(f, j);
        let k = choose|k: int| 0 <= k < ts.len() && ts[k] == db.tasks@[j];
        assert(rows[projects.len() + k] == SearchResultData::Task(ts[k]));
    }
}

/// The results of a search for `q` (as `search` gives them for a text that
/// reads `q`): first the projects whose names match, archived ones only
/// where `archive`, every such project of the table, in the table's order;
/// then the tasks whose names match, never suspended ones, done ones only
/// where `archive`, every such task of the table, in the table's order.
pub proof fn search_results_are_the_matching_rows(
    db: Database,
    q: Seq<char>,
    archive: bool,
    rows: Seq<SearchResultData>,
)
    requires
        rows == result_rows(
            db.projects@.filter(|p: Project| like(search_pattern(q), p.name@) && project_shown(p, archive)),
            db.tasks@.filter(|t: Task| task_found(t, q, archive)),
        ),
    ensures
        forall|i: int|
            0 <= i < rows.len() ==> match #[trigger] rows[i] {
                SearchResultData::Project(p) => like(search_pattern(q), p.name@) && (archive || !p.archive)
                    && db.projects@.contains(p),
                SearchResultData::Task(t) => like(search_pattern(q), t.name@) && !t.suspended && (archive
                    || !t.done) && db.tasks@.contains(t),
            },
        forall|i: int, j: int|
            0 <= i < j < rows.len() && (#[trigger] rows[i]) is Task ==> (#[trigger] rows[j]) is Task,
        forall|j: int|
            0 <= j < db.projects@.len() && like(search_pattern(q), (#[trigger] db.projects@[j]).name@) && (archive
                || !db.projects@[j].archive) ==> rows.contains(SearchResultData::Project(db.projects@[j])),
        forall|j: int|
            0 <= j < db.tasks@.len() && like(search_pattern(q), (#[trigger] db.tasks@[j]).name@)
                && !db.tasks@[j].suspended && (archive || !db.tasks@[j].done) ==> rows.contains(
                SearchResultData::Task(db.tasks@[j]),
            ),
{
    broadcast use vstd::seq_lib::group_filter_ensures;

    let fp = |p: Project| like(search_pattern(q), p.name@) && project_shown(p, archive);
    let ft = |t: Task| task_found(t, q, archive);
    let ps = db.projects@.filter(fp);
    let ts = db.tasks@.filter(ft);
    search_rows_are_the_projects_then_the_tasks(ps, ts);
    assert forall|i: int| 0 <= i < rows.len() implies match #[trigger] rows[i] {
        SearchResultData::Project(p) => like(search_pattern(q), p.name@) && (archive || !p.archive)
            && db.projects@.contains(p),
        SearchResultData::Task(t) => like(search_pattern(q), t.name@) && !t.suspended && (archive || !t.done)
            && db.tasks@.contains(t),
    } by {
        if i < ps.len() {
            assert(ps.contains(ps[i]));
            db.projects@.lemma_filter_contains_rev(fp, ps[i]);
        } else {
            let k = i - ps.len();
            assert(rows[ps.len() + k] == SearchResultData::Task(ts[k]));
            assert(ts.contains(ts[k]));
            db.tasks@.lemma_filter_contains_rev(ft, ts[k]);
        }
    }
    assert forall|i: int, j: int| 0 <= i < j < rows.len() && (#[trigger] rows[i]) is Task implies (
        #[trigger] rows[j]) is Task by {
        if i < ps.len() {
            assert(rows[i] == SearchResultData::Project(ps[i]));
        }
        let k = j - ps.len();
        assert(rows[ps.len() + k] == SearchResultData::Task(ts[k]));
    }
    assert forall|j: int|
        0 <= j < db.projects@.len() && like(search_pattern(q), (#[trigger] db.projects@[j]).name@) && (archive
            || !db.projects@[j].archive) implies rows.contains(SearchResultData::Project(db.projects@[j])) by {
        db.projects@.lemma_filter_contains(fp, j);
        let k = choose|k: int| 0 <= k < ps.len() && ps[k] == db.projects@[j];
        assert(rows[k] == SearchResultData::Project(ps[k]));
    }
    assert forall|j: int|
        0 <= j < db.tasks@.len() && like(search_pattern(q), (#[trigger] db.tasks@[j]).name@)
            && !db.tasks@[j].suspended && (archive || !db.tasks@[j].done) implies rows.contains(
            SearchResultData::Task(db.tasks@[j]),
        ) by {
        db.tasks@.lemma_filter_contains(ft, j);
        let k = choose|k: int| 0 <= k < ts.len() && ts[k] == db.tasks@[j];
        assert(rows[ps.len() + k] == SearchResultData::Task(ts[k]));
    }
}

} // verus!
