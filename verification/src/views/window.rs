//! The decisions of the main window: the scope that its actions carry, and
//! the project it opens at start.

use vstd::prelude::*;

use crate::db::laws::lemma_filter_keeps_all;
use crate::db::models::Project;
use crate::db::operations::{create_project, create_section, project_shown, read_projects, section_indexes};
use crate::db::store::{next_slot, Database, DbError, Row};
use crate::i18n::gettext;

verus! {

/// What an action of the window concerns.
#[derive(Debug, PartialEq, Eq, Clone, Copy)]
pub enum ActionScope {
    /// The toast of a deletion.
    DeleteToast,
    /// The project with this id.
    Project(i64),
    /// The calendar.
    Calendar,
    /// Nothing in particular.
    Unscoped,
}

/// The two numbers that carry a scope: a tag and, for a project, its id.
pub open spec fn scope_code(scope: ActionScope) -> (i64, i64) {
    match scope {
        ActionScope::Unscoped => (0, 0),
        ActionScope::Calendar => (1, 0),
        ActionScope::Project(id) => (2, id),
        ActionScope::DeleteToast => (3, 0),
    }
}

/// The numbers that carry `scope` (see `scope_code`).
pub fn encode_scope(scope: ActionScope) -> (r: [i64; 2])
    ensures
        r@ == seq![scope_code(scope).0, scope_code(scope).1],
{
    let r = match scope {
        ActionScope::Unscoped => [0, 0],
        ActionScope::Calendar => [1, 0],
        ActionScope::Project(id) => [2, id],
        ActionScope::DeleteToast => [3, 0],
    };
    assert(r@ =~= seq![scope_code(scope).0, scope_code(scope).1]);
    r
}

/// The scope that the numbers carry: by the first, the tag (the second is
/// the id of a project); none where there is no first number, or no second
/// for a project, or the tag is none of the four.
pub open spec fn scope_of(data: Seq<i64>) -> Option<ActionScope> {
    if data.len() == 0 {
        None
    } else if data[0] == 0 {
        Some(ActionScope::Unscoped)
    } else if data[0] == 1 {
        Some(ActionScope::Calendar)
    } else if data[0] == 2 {
        if data.len() > 1 {
            Some(ActionScope::Project(data[1]))
        } else {
            None
        }
    } else if data[0] == 3 {
        Some(ActionScope::DeleteToast)
    } else {
        None
    }
}

/// The scope that the numbers carry (see `scope_of`).
pub fn decode_scope(data: &[i64]) -> (r: Option<ActionScope>)
    ensures
        r == scope_of(data@),
{
    if data.len() == 0 {
        return None;
    }
    let tag = data[0];
    if tag == 0 {
        Some(ActionScope::Unscoped)
    } else if tag == 1 {
        Some(ActionScope::Calendar)
    } else if tag == 2 {
        if data.len() > 1 {
            Some(ActionScope::Project(data[1]))
        } else {
            None
        }
    } else if tag == 3 {
        Some(ActionScope::DeleteToast)
    } else {
        None
    }
}

/// Reading back the numbers that carry a scope gives the scope.
pub proof fn decode_undoes_encode(scope: ActionScope)
    ensures
        scope_of(seq![scope_code(scope).0, scope_code(scope).1]) == Some(scope),
{
}

/// The message ids of the names of the project and of the section that the
/// window adds where there is no project: `Personal` and `Tasks`.
pub fn home_msgids() -> (r: (&'static str, &'static str))
    ensures
        r.0@ == "Personal"@,
        r.1@ == "Tasks"@,
        !r.0@.contains('\0'),
        !r.1@.contains('\0'),
{
    proof {
        reveal_strlit("Personal");
        reveal_strlit("Tasks");
    }
    ("Personal", "Tasks")
}

/// The project that the window opens at start: the first project by place,
/// archived ones too; where there is none, a new project named by `gettext`
/// of `home_msgids().0`, with a section named by `gettext` of
/// `home_msgids().1`, which it adds.
pub fn home_project(db: &mut Database) -> (r: Result<Project, DbError>)
    requires
        old(db).projects@.len() == 0 && old(db).projects.last_id_spec() < i64::MAX ==> next_slot(
            section_indexes(old(db).sections@, (old(db).projects.last_id_spec() + 1) as i64),
        ) <= i32::MAX,
    ensures
        old(db).projects@.len() > 0 ==> (r matches Ok(p) && *final(db) == *old(db)
            && old(db).projects@.contains(p) && forall|i: int|
            0 <= i < old(db).projects@.len() ==> p.index <= (#[trigger] old(db).projects@[i]).index),
        old(db).projects@.len() == 0 && old(db).projects.last_id_spec() == i64::MAX ==> r == Err::<
            Project,
            DbError,
        >(DbError::Full) && *final(db) == *old(db),
        old(db).projects@.len() == 0 && old(db).projects.last_id_spec() < i64::MAX ==> ({
            let id = (old(db).projects.last_id_spec() + 1) as i64;
            &&& final(db).projects@.len() == 1
            &&& final(db).projects@[0].id == id
            &&& final(db).projects@[0].index == 0
            &&& final(db).lists == old(db).lists && final(db).tasks == old(db).tasks
            &&& final(db).records == old(db).records && final(db).reminders == old(db).reminders
            &&& old(db).sections.last_id_spec() < i64::MAX ==> (r == Ok::<Project, DbError>(
                final(db).projects@[0],
            ) && final(db).sections@.len() == old(db).sections@.len() + 1
                && final(db).sections@.last().project == id && final(db).sections@.last().index
                == next_slot(section_indexes(old(db).sections@, id)))
            &&& old(db).sections.last_id_spec() == i64::MAX ==> r == Err::<Project, DbError>(
                DbError::Full,
            ) && final(db).sections == old(db).sections
        }),
{
    let projects = read_projects(db, true);
    proof {
        let f = |q: Project| project_shown(q, true);
        lemma_filter_keeps_all(db.projects@, f);
    }
    if projects.len() > 0 {
        let p = projects[0].copied();
        proof {
            broadcast use vstd::seq_lib::group_to_multiset_ensures;

            let res = projects@;
            let src = db.projects@;
            assert(res.contains(res[0]));
            assert(src.to_multiset().count(res[0]) > 0);
            assert forall|i: int| 0 <= i < src.len() implies p.index <= (#[trigger] src[i]).index by {
                assert(src.contains(src[i]));
                assert(res.to_multiset().count(src[i]) > 0);
                let j = choose|j: int| 0 <= j < res.len() && res[j] == src[i];
                if j > 0 {
                    assert((|q: Project| q.index as int)(res[0]) <= (|q: Project| q.index as int)(res[j]));
                }
            }
        }
        return Ok(p);
    }
    proof {
        broadcast use vstd::seq_lib::group_to_multiset_ensures;

        assert(projects@.to_multiset().len() == db.projects@.to_multiset().len());
        assert(crate::db::operations::project_indexes(db.projects@) =~= Seq::<int>::empty());
    }
    let (project_msgid, section_msgid) = home_msgids();
    let name = gettext(project_msgid);
    let project = create_project(db, name.as_str())?;
    let section_name = gettext(section_msgid);
    let _section = create_section(db, section_name.as_str(), project.id)?;
    Ok(project)
}

/// What the window refreshes when a task changed, by the scope that the
/// change came from.
#[derive(Debug, PartialEq, Eq, Clone, Copy)]
pub struct ChangeRefresh {
    /// Save the task unsuspended first (its deletion was taken back).
    pub unsuspend: bool,
    /// Reset the task's row on its project's page.
    pub project_page: bool,
    /// Unsuspend the task's subtasks on the calendar.
    pub calendar_subtasks: bool,
    /// Reset the task's row on the calendar.
    pub calendar: bool,
}

/// The refreshes after a change of a task: from a deletion's toast, the
/// task comes back unsuspended on the page and on the calendar with its
/// subtasks; from a project's page, the calendar follows; from the
/// calendar, the page follows; from elsewhere, both follow.
pub fn task_changed_refresh(scope: ActionScope) -> (r: ChangeRefresh)
    ensures
        r.unsuspend == (scope == ActionScope::DeleteToast),
        r.calendar_subtasks == (scope == ActionScope::DeleteToast),
        r.project_page == !(scope is Project),
        r.calendar == (scope != ActionScope::Calendar),
{
    match scope {
        ActionScope::DeleteToast => ChangeRefresh {
            unsuspend: true,
            project_page: true,
            calendar_subtasks: true,
            calendar: true,
        },
        ActionScope::Project(_) => ChangeRefresh {
            unsuspend: false,
            project_page: false,
            calendar_subtasks: false,
            calendar: true,
        },
        ActionScope::Calendar => ChangeRefresh {
            unsuspend: false,
            project_page: true,
            calendar_subtasks: false,
            calendar: false,
        },
        ActionScope::Unscoped => ChangeRefresh {
            unsuspend: false,
            project_page: true,
            calendar_subtasks: false,
            calendar: true,
        },
    }
}

/// The refreshes after the time spent on a task changed, as
/// (project page, calendar): the page's timer and statistics, and the
/// calendar's timers of the task and its parents and its days' times.  From
/// a project's page only the calendar follows, from the calendar only the
/// page, from elsewhere both.  A deletion's toast never changes a duration.
pub fn duration_changed_refresh(scope: ActionScope) -> (r: (bool, bool))
    requires
        scope != ActionScope::DeleteToast,
    ensures
        r.0 == !(scope is Project),
        r.1 == (scope != ActionScope::Calendar),
{
    match scope {
        ActionScope::Project(_) => (false, true),
        ActionScope::Calendar => (true, false),
        _ => (true, true),
    }
}

} // verus!
