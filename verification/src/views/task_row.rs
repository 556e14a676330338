//! The decisions of a task's row: the name in the toasts about the task, the
//! project that the row names, and what the timer does at each tick.

use vstd::prelude::*;

use crate::db::models::{Record, Reminder, Task};
use crate::db::operations::{read_reminders, read_tasks, task_selected};
use crate::db::sorting::is_sorted_copy;
use crate::db::pattern::chars_of;
use crate::db::store::{has_id, row_of, Database, Row};
use crate::i18n::gettext;
use crate::text::{lemma_trimmed_unique, push_char, text_of, trim, trimmed};

verus! {

/// A task's name as a toast about it (its deletion, or its move to the done
/// tasks) shows it: its first 14 characters and `...` where it has 15 or
/// more, else the whole name.
pub open spec fn toast_name(name: Seq<char>) -> Seq<char> {
    if name.len() >= 15 {
        name.take(14) + seq!['.', '.', '.']
    } else {
        name
    }
}

/// A task's name as a toast about it shows it (see `toast_name`).
pub fn toast_task_name(name: &str) -> (s: String)
    ensures
        s@ == toast_name(name@),
{
    let chars = chars_of(name);
    if chars.len() >= 15 {
        let mut s = text_of(&chars, 0, 14);
        push_char(&mut s, '.');
        push_char(&mut s, '.');
        push_char(&mut s, '.');
        assert(s@ =~= toast_name(name@));
        s
    } else {
        let s = text_of(&chars, 0, chars.len());
        assert(s@ =~= name@);
        s
    }
}

/// The description that a task's row shows: the task's description without
/// its leading and trailing white space (see `trimmed`); none where that
/// leaves nothing, and the row then hides its body.
pub fn row_description(description: &str) -> (r: Option<String>)
    ensures
        forall|t: Seq<char>|
            #[trigger] trimmed(description@, t) ==> (t.len() == 0 ==> r is None) && (t.len() > 0 ==> (r matches Some(
                s,
            ) && s@ == t)),
{
    let t = trim(description);
    proof {
        assert forall|u: Seq<char>| #[trigger] trimmed(description@, u) implies u == t@ by {
            lemma_trimmed_unique(description@, u, t@);
        }
    }
    if t.is_empty() {
        None
    } else {
        Some(t.to_owned())
    }
}

/// The number of bytes of a character in UTF-8.
pub open spec fn utf8_len(c: char) -> int {
    if (c as u32) < 0x80 {
        1
    } else if (c as u32) < 0x800 {
        2
    } else if (c as u32) < 0x10000 {
        3
    } else {
        4
    }
}

/// The number of bytes of a text in UTF-8.
pub open spec fn byte_len(s: Seq<char>) -> int
    decreases s.len(),
{
    if s.len() == 0 {
        0
    } else {
        byte_len(s.drop_last()) + utf8_len(s.last())
    }
}

proof fn lemma_byte_len_grows(s: Seq<char>, i: int, j: int)
    requires
        0 <= i <= j <= s.len(),
    ensures
        byte_len(s.take(i)) + (j - i) <= byte_len(s.take(j)),
    decreases j - i,
{
    if i < j {
        lemma_byte_len_grows(s, i, j - 1);
        assert(s.take(j).drop_last() =~= s.take(j - 1));
    }
}

/// Whether the first `k` characters of `name` take exactly 15 bytes.
pub open spec fn ends_at_15_bytes(name: Seq<char>, k: int) -> bool {
    0 <= k <= name.len() && byte_len(name.take(k)) == 15
}

/// A task's name as the older toasts show it: where it has more than 15
/// characters, the characters of its first 15 bytes and `...`; else the
/// whole name.
pub open spec fn toast_name_15_bytes(name: Seq<char>) -> Seq<char> {
    if name.len() > 15 {
        name.take(choose|k: int| ends_at_15_bytes(name, k)) + seq!['.', '.', '.']
    } else {
        name
    }
}

/// A task's name as the older toasts show it (see `toast_name_15_bytes`).
/// The name is cut at its 15th byte, which must end a character where it is
/// cut.
pub fn toast_task_name_15_bytes(name: &str) -> (s: String)
    requires
        name@.len() > 15 ==> exists|k: int| ends_at_15_bytes(name@, k),
    ensures
        s@ == toast_name_15_bytes(name@),
{
    let chars = chars_of(name);
    let n = chars.len();
    if n <= 15 {
        let s = text_of(&chars, 0, n);
        assert(s@ =~= name@);
        return s;
    }
    let mut bytes: u64 = 0;
    let mut k: usize = 0;
    while bytes < 15 && k < n
        invariant
            k <= n,
            n == chars@.len(),
            chars@ == name@,
            bytes == byte_len(chars@.take(k as int)),
            k > 0 ==> byte_len(chars@.take(k - 1)) < 15,
            bytes <= 18,
        decreases n - k,
    {
        let c = chars[k];
        let w: u64 = if (c as u32) < 0x80 {
            1
        } else if (c as u32) < 0x800 {
            2
        } else if (c as u32) < 0x10000 {
            3
        } else {
            4
        };
        proof {
            assert(chars@.take(k + 1).drop_last() =~= chars@.take(k as int));
        }
        bytes = bytes + w;
        k = k + 1;
    }
    proof {
        let k0 = choose|j: int| ends_at_15_bytes(name@, j);
        if k0 < k {
            lemma_byte_len_grows(name@, k0, k - 1);
        } else if k0 > k {
            lemma_byte_len_grows(name@, k as int, k0);
        }
        assert(k0 == k);
    }
    let mut s = text_of(&chars, 0, k);
    push_char(&mut s, '.');
    push_char(&mut s, '.');
    push_char(&mut s, '.');
    assert(s@ =~= toast_name_15_bytes(name@));
    s
}

/// Where the name that a task's row shows as its project comes from.
#[derive(Debug, PartialEq, Eq)]
pub enum ProjectLabel {
    /// The project with this id.
    Project(i64),
    /// The task and the tasks above it belong to no project: the inbox.
    Inbox,
    /// The walk up the parents met a parent id with no task.
    MissingTask(i64),
    /// The walk went on for as many steps as there are tasks: it then meets
    /// some task twice, and would go round for ever.
    Cycle,
}

/// The walk from a task up its parents to the first that names a project:
/// it stops at a project id that is not 0, or at a parent id that is 0 (the
/// inbox); `fuel` bounds the number of parents that it reads.
pub open spec fn label_walk(tasks: Seq<Task>, project: i64, parent: i64, fuel: nat) -> ProjectLabel
    decreases fuel,
{
    if project != 0 {
        ProjectLabel::Project(project)
    } else if parent == 0 {
        ProjectLabel::Inbox
    } else if fuel == 0 {
        ProjectLabel::Cycle
    } else if !has_id(tasks, parent) {
        ProjectLabel::MissingTask(parent)
    } else {
        label_walk(tasks, row_of(tasks, parent).project, row_of(tasks, parent).parent, (fuel - 1) as nat)
    }
}

/// The project whose name `task`'s row shows: the walk up its parents (see
/// `label_walk`), with as many steps as there are tasks.
pub fn project_label(db: &Database, task: &Task) -> (r: ProjectLabel)
    ensures
        r == label_walk(db.tasks@, task.project, task.parent, db.tasks@.len()),
{
    let ghost want = label_walk(db.tasks@, task.project, task.parent, db.tasks@.len());
    let mut project = task.project;
    let mut parent = task.parent;
    let mut fuel: usize = db.tasks.len();
    loop
        invariant
            want == label_walk(db.tasks@, task.project, task.parent, db.tasks@.len()),
            label_walk(db.tasks@, project, parent, fuel as nat) == want,
        decreases fuel,
    {
        if project != 0 {
            return ProjectLabel::Project(project);
        }
        if parent == 0 {
            return ProjectLabel::Inbox;
        }
        if fuel == 0 {
            return ProjectLabel::Cycle;
        }
        match db.tasks.read(parent) {
            Err(_) => {
                return ProjectLabel::MissingTask(parent);
            },
            Ok(t) => {
                project = t.project;
                parent = t.parent;
                fuel = fuel - 1;
            },
        }
    }
}

/// The text that a task's row shows for its project, given the walk up its
/// parents (see `label_walk`) and the text of the inbox: the name of the
/// project reached, or the inbox's text.  None where the project is not in
/// its table, a parent is missing, or the parents go round (where the
/// application stops on an error, or never ends).
pub fn label_text(db: &Database, label: ProjectLabel, inbox: &str) -> (r: Option<String>)
    ensures
        label matches ProjectLabel::Project(p) ==> (has_id(db.projects@, p) ==> (r matches Some(t)
            && t@ == row_of(db.projects@, p).name@)) && (!has_id(db.projects@, p) ==> r is None),
        label == ProjectLabel::Inbox ==> (r matches Some(t) && t@ == inbox@),
        label matches ProjectLabel::MissingTask(_) ==> r is None,
        label == ProjectLabel::Cycle ==> r is None,
{
    match label {
        ProjectLabel::Project(p) => match db.projects.read(p) {
            Ok(project) => Some(project.name),
            Err(_) => None,
        },
        ProjectLabel::Inbox => Some(inbox.to_owned()),
        _ => None,
    }
}

/// The message id of the inbox's name, which the catalog translates: `Inbox`.
pub fn inbox_msgid() -> (m: &'static str)
    ensures
        m@ == "Inbox"@,
        !m@.contains('\0'),
{
    proof {
        reveal_strlit("Inbox");
    }
    "Inbox"
}

/// The text that a task's row shows for its project: `label_text` of the
/// walk up its parents (see `project_label`), with `gettext` of
/// `inbox_msgid()` as the inbox's text; the name of the project reached, a
/// text for the inbox (what the catalog gives depends on the locale), or
/// none where `label_text` gives none.
pub fn project_label_text(db: &Database, task: &Task) -> (r: Option<String>)
    ensures
        ({
            let label = label_walk(db.tasks@, task.project, task.parent, db.tasks@.len());
            &&& label matches ProjectLabel::Project(p) ==> (has_id(db.projects@, p) ==> (r matches Some(t)
                && t@ == row_of(db.projects@, p).name@)) && (!has_id(db.projects@, p) ==> r is None)
            &&& label == ProjectLabel::Inbox ==> r is Some
            &&& (label is MissingTask || label is Cycle) ==> r is None
        }),
{
    let label = project_label(db, task);
    let inbox = gettext(inbox_msgid());
    label_text(db, label, inbox.as_str())
}

/// What a task's row shows besides its name: the body with the description
/// (none where hidden), whether the date and the reminders marks show, the
/// project's name (none where hidden), and whether the footer that holds
/// the last three shows; and, below, the task's subtasks that are not
/// suspended.
pub struct RowLayout {
    pub body: Option<String>,
    pub date: bool,
    pub reminders: bool,
    pub project: Option<String>,
    pub footer: bool,
    /// The rows of the subtasks box, by position; the box hides where
    /// there are none.
    pub subtasks: Vec<Task>,
}

/// Whether the walk up a task's parents ends at a name to show: a project in
/// its table, or the inbox.
pub open spec fn label_named(db: Database, label: ProjectLabel) -> bool {
    ||| label matches ProjectLabel::Project(p) && has_id(db.projects@, p)
    ||| label == ProjectLabel::Inbox
}

/// What `task`'s row shows when it is reset: a compact row shows only the
/// name; another shows the trimmed description where there is one, the date
/// mark where the task has a date, the reminders mark where it has pending
/// reminders, the project's name where the row shows it, the footer where
/// one of those three marks shows, and a row for each of its subtasks that
/// is not suspended, by position (as `read_tasks` gives them).  None where
/// the row shows the
/// project but the walk up the parents finds no name (where the
/// application stops on an error, or never ends).
pub fn row_layout(db: &Database, task: &Task, compact: bool, visible_project_label: bool) -> (r: Option<
    RowLayout,
>)
    ensures
        compact ==> (r matches Some(l) && l.body is None && !l.date && !l.reminders && l.project is None
            && !l.footer && l.subtasks@.len() == 0),
        ({
            let label = label_walk(db.tasks@, task.project, task.parent, db.tasks@.len());
            &&& !compact && visible_project_label && !label_named(*db, label) ==> r is None
            &&& !compact && (!visible_project_label || label_named(*db, label)) ==> (r matches Some(l) && {
                &&& forall|t: Seq<char>|
                    #[trigger] trimmed(task.description@, t) ==> (t.len() == 0 ==> l.body is None) && (t.len()
                        > 0 ==> (l.body matches Some(b) && b@ == t))
                &&& l.date == (task.date != 0)
                &&& l.reminders == (db.reminders@.filter(|x: Reminder| x.task == task.id && !x.past).len() > 0)
                &&& !visible_project_label ==> l.project is None
                &&& visible_project_label ==> (l.project is Some && (label matches ProjectLabel::Project(p)
                    ==> l.project->0@ == row_of(db.projects@, p).name@))
                &&& l.footer == (l.date || l.reminders || l.project is Some)
                &&& is_sorted_copy(
                    l.subtasks@,
                    db.tasks@.filter(|t: Task| task_selected(t, None, None, None, Some(task.id), None, false)),
                    |t: Task| t.position as int,
                    false,
                )
            })
        }),
{
    if compact {
        return Some(
            RowLayout {
                body: None,
                date: false,
                reminders: false,
                project: None,
                footer: false,
                subtasks: Vec::new(),
            },
        );
    }
    let body = row_description(task.description.as_str());
    let date = task.date != 0;
    let pending = read_reminders(db, task.id);
    let reminders = pending.len() > 0;
    proof {
        let f = db.reminders@.filter(|x: Reminder| x.task == task.id && !x.past);
        assert(pending@.to_multiset() == f.to_multiset());
        vstd::seq_lib::to_multiset_len(pending@);
        vstd::seq_lib::to_multiset_len(f);
    }
    let project = if visible_project_label {
        match project_label_text(db, task) {
            Some(t) => Some(t),
            None => {
                return None;
            },
        }
    } else {
        None
    };
    let footer = date || reminders || project.is_some();
    let subtasks = read_tasks(db, None, None, None, Some(task.id), None, false);
    Some(RowLayout { body, date, reminders, project, footer, subtasks })
}

/// `template` with each `{}`, from the left, replaced by `text`, as
/// `str::replace` does.
pub open spec fn filled(template: Seq<char>, text: Seq<char>) -> Seq<char>
    decreases template.len(),
{
    if template.len() == 0 {
        Seq::empty()
    } else if template.len() >= 2 && template[0] == '{' && template[1] == '}' {
        text + filled(template.skip(2), text)
    } else {
        seq![template[0]] + filled(template.drop_first(), text)
    }
}

/// `template` with each `{}` replaced by `text` (see `filled`).
pub fn fill_template(template: &str, text: &str) -> (r: String)
    ensures
        r@ == filled(template@, text@),
{
    let t = chars_of(template);
    let x = chars_of(text);
    let n = t.len();
    let mut r = String::new();
    let mut i: usize = 0;
    proof {
        assert(t@.skip(0) =~= t@);
    }
    while i < n
        invariant
            n == t@.len(),
            t@ == template@,
            x@ == text@,
            i <= n,
            r@ + filled(t@.skip(i as int), x@) == filled(template@, text@),
        decreases n - i,
    {
        let ghost rest = t@.skip(i as int);
        if i + 1 < n && t[i] == '{' && t[i + 1] == '}' {
            let ghost before = r@;
            let mut k: usize = 0;
            while k < x.len()
                invariant
                    k <= x@.len(),
                    r@ == before + x@.take(k as int),
                decreases x@.len() - k,
            {
                push_char(&mut r, x[k]);
                assert(x@.take(k + 1) =~= x@.take(k as int).push(x@[k as int]));
                k = k + 1;
            }
            proof {
                assert(x@.take(x@.len() as int) =~= x@);
                assert(rest[0] == '{' && rest[1] == '}');
                assert(rest.skip(2) =~= t@.skip(i + 2));
                assert(before + (x@ + filled(rest.skip(2), x@)) =~= r@ + filled(t@.skip(i + 2), x@));
            }
            i = i + 2;
        } else {
            let ghost before = r@;
            push_char(&mut r, t[i]);
            proof {
                assert(rest[0] == t@[i as int]);
                assert(rest.drop_first() =~= t@.skip(i + 1));
                assert(before + (seq![t@[i as int]] + filled(rest.drop_first(), x@)) =~= r@ + filled(
                    t@.skip(i + 1),
                    x@,
                ));
            }
            i = i + 1;
        }
    }
    proof {
        assert(t@.skip(n as int) =~= Seq::<char>::empty());
        assert(r@ + filled(Seq::<char>::empty(), x@) =~= r@);
    }
    r
}

/// The message id of the title of a deletion's toast, which the catalog
/// translates: `"{}" is going to delete`.
pub fn delete_toast_msgid() -> (m: &'static str)
    ensures
        m@ == "\"{}\" is going to delete"@,
        !m@.contains('\0'),
{
    proof {
        reveal_strlit("\"{}\" is going to delete");
    }
    "\"{}\" is going to delete"
}

/// The title of a deletion's toast, given the translated message
/// (`template`): the task's name, shortened (see `toast_name`), in place of
/// each `{}` of it.
pub fn delete_toast_title_with(template: &str, name: &str) -> (r: String)
    ensures
        r@ == filled(template@, toast_name(name@)),
{
    let short = toast_task_name(name);
    fill_template(template, short.as_str())
}

/// The title of the toast that a task's deletion shows: `gettext` of
/// `delete_toast_msgid()`, filled with the task's shortened name by
/// `delete_toast_title_with`.  What the catalog gives for the message id
/// depends on the process's locale, so the contract names no template.
pub fn delete_toast_title(name: &str) -> (r: String)
    ensures
        exists|template: Seq<char>| r@ == filled(template, toast_name(name@)),
{
    let msgid = delete_toast_msgid();
    let template = gettext(msgid);
    delete_toast_title_with(template.as_str(), name)
}

/// The title of the toast that the older rows show for a task's deletion,
/// given the translated message (`template`): the name shortened at its
/// 15th byte (see `toast_name_15_bytes`), which must end a character where
/// it is cut, in place of each `{}`.
pub fn delete_toast_title_15_bytes_with(template: &str, name: &str) -> (r: String)
    requires
        name@.len() > 15 ==> exists|k: int| ends_at_15_bytes(name@, k),
    ensures
        r@ == filled(template@, toast_name_15_bytes(name@)),
{
    let short = toast_task_name_15_bytes(name);
    fill_template(template, short.as_str())
}

/// The title of the toast that the older rows show for a task's deletion:
/// `gettext` of `delete_toast_msgid()`, filled by
/// `delete_toast_title_15_bytes_with`.  What the catalog gives for the
/// message id depends on the process's locale, so the contract names no
/// template.
pub fn delete_toast_title_15_bytes(name: &str) -> (r: String)
    requires
        name@.len() > 15 ==> exists|k: int| ends_at_15_bytes(name@, k),
    ensures
        exists|template: Seq<char>| r@ == filled(template, toast_name_15_bytes(name@)),
{
    let msgid = delete_toast_msgid();
    let template = gettext(msgid);
    delete_toast_title_15_bytes_with(template.as_str(), name)
}

/// What happens to a task that is being deleted, at each event of its toast.
#[derive(Debug, PartialEq, Eq, Clone, Copy)]
pub enum DeleteEvent {
    /// The delete button was pressed.
    Delete,
    /// The toast's undo button was pressed.
    Undo,
    /// The toast went away.
    Dismissed,
}

/// What to do with the task of a row at an event of its deletion.
#[derive(Debug, PartialEq, Eq)]
pub enum DeleteStep {
    /// Save the task with this suspended flag.
    Save(bool),
    /// Delete the task with the tasks under it.
    DeleteTask,
    /// Nothing.
    Keep,
}

/// The steps of a deletion that can be taken back: pressing delete saves the
/// task suspended (it and the tasks under it disappear) and shows a toast;
/// undo saves it unsuspended again; when the toast goes away, the task is
/// deleted if it is still suspended (undo was not pressed).
pub fn delete_step(event: DeleteEvent, suspended: bool) -> (r: DeleteStep)
    ensures
        event == DeleteEvent::Delete ==> r == DeleteStep::Save(true),
        event == DeleteEvent::Undo ==> r == DeleteStep::Save(false),
        event == DeleteEvent::Dismissed ==> r == (if suspended { DeleteStep::DeleteTask } else { DeleteStep::Keep }),
{
    match event {
        DeleteEvent::Delete => DeleteStep::Save(true),
        DeleteEvent::Undo => DeleteStep::Save(false),
        DeleteEvent::Dismissed => if suspended {
            DeleteStep::DeleteTask
        } else {
            DeleteStep::Keep
        },
    }
}

/// The state of a row's timer.
#[derive(Debug, PartialEq, Eq, Clone, Copy)]
pub enum TimerStatus {
    /// Running.
    On,
    /// Stopped by the user: the running record is to be closed.
    Off,
    /// Dropped without closing the record (the row was reset).
    Cancel,
}

/// What a tick of a running timer does.
#[derive(Debug, PartialEq, Eq)]
pub enum TimerTick {
    /// Show this many seconds on the timer button, and keep ticking.
    Show(i64),
    /// Save the record, now closed, show the task's time, and stop ticking.
    Save(Record),
    /// Stop ticking.
    Stop,
}

/// What the timer of the running `record` does at a tick at time `now` (Unix
/// seconds), `elapsed` seconds after it started.
pub fn timer_tick(status: TimerStatus, record: &Record, elapsed: u64, now: i64) -> (r: TimerTick)
    requires
        status == TimerStatus::Off ==> i64::MIN <= now - record.start <= i64::MAX,
    ensures
        status == TimerStatus::On ==> r == TimerTick::Show(elapsed as i64),
        status == TimerStatus::Off ==> r == TimerTick::Save(
            Record { duration: (now - record.start) as i64, ..*record },
        ),
        status == TimerStatus::Cancel ==> r == TimerTick::Stop,
{
    match status {
        TimerStatus::On => TimerTick::Show(elapsed as i64),
        TimerStatus::Off => TimerTick::Save(Record { duration: now - record.start, ..record.copied() }),
        TimerStatus::Cancel => TimerTick::Stop,
    }
}

} // verus!
