use iplan::db::models::{Record, Section, Task};
use iplan::db::operations::{
    create_record, create_reminder, create_section, create_task, delete_record, delete_reminder,
    pending_reminders,
    delete_section, delete_task, find_tasks, new_subtask_position, new_task_position, read_record,
    read_records, read_reminder, read_reminders, read_section, read_sections, read_subtasks_summary,
    read_task, read_tasks, task_duration, task_tree, update_record, update_reminder, update_section,
    update_task,
};
use iplan::db::store::{Database, DbError};

fn task(name: &str, project: i64, section: i64, position: i32, parent: i64) -> Task {
    Task::new(0, name.to_string(), false, project, section, position, false, parent, String::new(), 0)
}

fn add(db: &mut Database, name: &str, section: i64, position: i32, parent: i64) -> Task {
    create_task(db, task(name, 1, section, position, parent)).unwrap()
}

fn places(db: &Database) -> Vec<(String, i64, i32)> {
    db.tasks.rows().iter().map(|t| (t.name.clone(), t.section, t.position)).collect()
}

fn names(v: &[Task]) -> Vec<String> {
    v.iter().map(|t| t.name.clone()).collect()
}

fn set_duration(db: &mut Database, record_id: i64, duration: i64) {
    let mut r = read_record(db, record_id).unwrap();
    r.duration = duration;
    update_record(db, &r);
}

#[test]
fn create_task_gives_next_id_and_stores_it_open() {
    let mut db = Database::new();
    let mut t = task("a", 1, 1, 0, 0);
    t.done = true;
    t.suspended = true;
    t.id = 40;
    let created = create_task(&mut db, t).unwrap();
    assert_eq!(created.id, 1);
    assert!(created.done && created.suspended);
    let stored = read_task(&db, 1).unwrap();
    assert!(!stored.done && !stored.suspended);
    assert_eq!(stored.name, "a");
    assert_eq!(read_task(&db, 2), Err(DbError::QueryReturnedNoRows));
}

#[test]
fn task_default_is_empty() {
    let t = Task::default();
    assert_eq!((t.id, t.project, t.section, t.position, t.parent, t.date), (0, 0, 0, 0, 0, 0));
    assert!(t.name.is_empty() && t.description.is_empty() && !t.done && !t.suspended);
}

#[test]
fn new_positions_follow_the_last() {
    let mut db = Database::new();
    assert_eq!(new_task_position(&db, 1), 0);
    add(&mut db, "a", 1, 0, 0);
    add(&mut db, "b", 1, 4, 0);
    add(&mut db, "c", 2, 9, 0);
    assert_eq!(new_task_position(&db, 1), 5);
    assert_eq!(new_task_position(&db, 2), 10);
    assert_eq!(new_subtask_position(&db, 1), 0);
    add(&mut db, "s", 0, 3, 1);
    assert_eq!(new_subtask_position(&db, 1), 4);
}

#[test]
fn update_task_moves_within_its_section() {
    let mut db = Database::new();
    add(&mut db, "a", 1, 0, 0);
    add(&mut db, "b", 1, 1, 0);
    let c = add(&mut db, "c", 1, 2, 0);
    add(&mut db, "x", 2, 0, 0);
    let mut moved = read_task(&db, c.id).unwrap();
    moved.position = 0;
    update_task(&mut db, &moved).unwrap();
    assert_eq!(
        places(&db),
        vec![
            ("a".to_string(), 1, 1),
            ("b".to_string(), 1, 2),
            ("c".to_string(), 1, 0),
            ("x".to_string(), 2, 0)
        ]
    );
    let mut back = read_task(&db, 1).unwrap();
    back.position = 2;
    update_task(&mut db, &back).unwrap();
    assert_eq!(
        places(&db),
        vec![
            ("a".to_string(), 1, 2),
            ("b".to_string(), 1, 1),
            ("c".to_string(), 1, 0),
            ("x".to_string(), 2, 0)
        ]
    );
}

#[test]
fn update_task_moves_to_another_section() {
    let mut db = Database::new();
    let a = add(&mut db, "a", 1, 0, 0);
    add(&mut db, "b", 1, 1, 0);
    add(&mut db, "x", 2, 0, 0);
    add(&mut db, "y", 2, 1, 0);
    let mut moved = read_task(&db, a.id).unwrap();
    moved.section = 2;
    moved.position = 1;
    update_task(&mut db, &moved).unwrap();
    assert_eq!(
        places(&db),
        vec![
            ("a".to_string(), 2, 1),
            ("b".to_string(), 1, 0),
            ("x".to_string(), 2, 0),
            ("y".to_string(), 2, 2)
        ]
    );
}

#[test]
fn update_task_leaving_its_parent_closes_the_gap() {
    let mut db = Database::new();
    let p = add(&mut db, "p", 1, 0, 0);
    add(&mut db, "s1", 0, 0, p.id);
    let s2 = add(&mut db, "s2", 0, 1, p.id);
    add(&mut db, "s3", 0, 2, p.id);
    let mut up = read_task(&db, s2.id).unwrap();
    up.parent = 0;
    up.section = 1;
    up.position = 5;
    update_task(&mut db, &up).unwrap();
    assert_eq!(
        places(&db),
        vec![
            ("p".to_string(), 1, 0),
            ("s1".to_string(), 0, 0),
            ("s2".to_string(), 1, 5),
            ("s3".to_string(), 0, 1)
        ]
    );
}

#[test]
fn update_task_carries_subtasks_to_its_project_and_suspension_down() {
    let mut db = Database::new();
    let p = add(&mut db, "p", 1, 0, 0);
    let s = add(&mut db, "s", 0, 0, p.id);
    let g = add(&mut db, "g", 0, 0, s.id);
    add(&mut db, "other", 1, 1, 0);
    let mut changed = read_task(&db, p.id).unwrap();
    changed.project = 7;
    changed.suspended = true;
    update_task(&mut db, &changed).unwrap();
    let rows = db.tasks.rows();
    assert_eq!((rows[0].project, rows[0].suspended), (7, true));
    assert_eq!((rows[1].project, rows[1].suspended), (7, true));
    assert_eq!((rows[2].project, rows[2].suspended), (1, true));
    assert_eq!((rows[3].project, rows[3].suspended), (1, false));
    assert_eq!(g.parent, s.id);
}

#[test]
fn update_missing_task_is_an_error() {
    let mut db = Database::new();
    let t = Task::new(3, "x".to_string(), false, 1, 1, 0, false, 0, String::new(), 0);
    assert_eq!(update_task(&mut db, &t), Err(DbError::QueryReturnedNoRows));
}

#[test]
fn undo_of_a_delete_restores_the_tasks() {
    let mut db = Database::new();
    let p = add(&mut db, "p", 1, 0, 0);
    let s = add(&mut db, "s", 0, 0, p.id);
    add(&mut db, "g", 0, 0, s.id);
    add(&mut db, "other", 1, 1, 0);
    let before: Vec<Task> = db.tasks.rows().iter().map(|t| read_task(&db, t.id).unwrap()).collect();
    let mut deleting = read_task(&db, p.id).unwrap();
    deleting.suspended = true;
    update_task(&mut db, &deleting).unwrap();
    assert!(db.tasks.rows()[1].suspended && db.tasks.rows()[2].suspended);
    deleting.suspended = false;
    update_task(&mut db, &deleting).unwrap();
    let after: Vec<Task> = db.tasks.rows().iter().map(|t| read_task(&db, t.id).unwrap()).collect();
    assert_eq!(before, after);
}

#[test]
fn read_tasks_filters_and_orders_by_position() {
    let mut db = Database::new();
    let mut a = task("a", 1, 1, 2, 0);
    a.date = 100;
    create_task(&mut db, a).unwrap();
    create_task(&mut db, task("b", 1, 1, 0, 0)).unwrap();
    create_task(&mut db, task("c", 2, 3, 3, 0)).unwrap();
    let d = create_task(&mut db, task("d", 1, 1, 1, 0)).unwrap();
    let mut done = read_task(&db, d.id).unwrap();
    done.done = true;
    update_task(&mut db, &done).unwrap();
    let all = read_tasks(&db, None, None, None, None, None, false);
    assert_eq!(names(&all), vec!["b".to_string(), "d".to_string(), "a".to_string(), "c".to_string()]);
    let open = read_tasks(&db, Some(1), Some(1), Some(false), None, None, false);
    assert_eq!(names(&open), vec!["b".to_string(), "a".to_string()]);
    let dated = read_tasks(&db, None, None, None, None, Some((100, 101)), false);
    assert_eq!(names(&dated), vec!["a".to_string()]);
    let none = read_tasks(&db, None, None, None, None, Some((0, 100)), false);
    assert_eq!(none.len(), 3);
    let mut susp = read_task(&db, 2).unwrap();
    susp.suspended = true;
    update_task(&mut db, &susp).unwrap();
    assert_eq!(read_tasks(&db, Some(1), None, None, None, None, false).len(), 2);
    assert_eq!(read_tasks(&db, Some(1), None, None, None, None, true).len(), 3);
}

#[test]
fn find_tasks_skips_suspended_and_done_unless_asked() {
    let mut db = Database::new();
    add(&mut db, "Buy Milk", 1, 0, 0);
    let b = add(&mut db, "milkshake", 1, 1, 0);
    let c = add(&mut db, "milk 50%", 1, 2, 0);
    add(&mut db, "bread", 1, 3, 0);
    let mut done = read_task(&db, b.id).unwrap();
    done.done = true;
    update_task(&mut db, &done).unwrap();
    let mut gone = read_task(&db, c.id).unwrap();
    gone.suspended = true;
    update_task(&mut db, &gone).unwrap();
    assert_eq!(names(&find_tasks(&db, "MILK", false)), vec!["Buy Milk".to_string()]);
    assert_eq!(
        names(&find_tasks(&db, "milk", true)),
        vec!["Buy Milk".to_string(), "milkshake".to_string()]
    );
    assert_eq!(find_tasks(&db, "%", true).len(), 0);
}

#[test]
fn task_tree_lists_the_task_and_all_under_it() {
    let mut db = Database::new();
    let p = add(&mut db, "p", 1, 0, 0);
    let s = add(&mut db, "s", 0, 0, p.id);
    let mut gt = task("g", 1, 0, 0, s.id);
    gt.date = 5;
    let g = create_task(&mut db, gt).unwrap();
    add(&mut db, "other", 1, 1, 0);
    assert_eq!(task_tree(&db, p.id, false), vec![p.id, s.id, g.id]);
    assert_eq!(task_tree(&db, p.id, true), vec![g.id]);
    assert_eq!(task_tree(&db, s.id, false), vec![s.id, g.id]);
    assert_eq!(task_tree(&db, 99, false), Vec::<i64>::new());
}

#[test]
fn read_subtasks_summary_last_position_first() {
    let mut db = Database::new();
    let p = add(&mut db, "p", 1, 0, 0);
    add(&mut db, "first", 0, 0, p.id);
    let second = add(&mut db, "second", 0, 1, p.id);
    let mut d = read_task(&db, second.id).unwrap();
    d.done = true;
    update_task(&mut db, &d).unwrap();
    assert_eq!(
        read_subtasks_summary(&db, p.id),
        vec![("second".to_string(), true), ("first".to_string(), false)]
    );
}

#[test]
fn task_duration_sums_the_whole_tree() {
    let mut db = Database::new();
    let p = add(&mut db, "p", 1, 0, 0);
    let s = add(&mut db, "s", 0, 0, p.id);
    let other = add(&mut db, "o", 1, 1, 0);
    create_record(&mut db, 10, p.id).unwrap();
    create_record(&mut db, 20, s.id).unwrap();
    create_record(&mut db, 30, other.id).unwrap();
    set_duration(&mut db, 1, 5);
    set_duration(&mut db, 2, 7);
    set_duration(&mut db, 3, 100);
    assert_eq!(task_duration(&db, p.id), Ok(12));
    assert_eq!(task_duration(&db, s.id), Ok(7));
    assert_eq!(task_duration(&db, 42), Ok(0));
}

#[test]
fn task_duration_overflow_is_an_error() {
    let mut db = Database::new();
    let p = add(&mut db, "p", 1, 0, 0);
    create_record(&mut db, 0, p.id).unwrap();
    create_record(&mut db, 0, p.id).unwrap();
    set_duration(&mut db, 1, i64::MAX);
    set_duration(&mut db, 2, 1);
    assert_eq!(task_duration(&db, p.id), Err(DbError::IntegerOverflow));
}

#[test]
fn task_time_leaves_out_suspended_subtasks() {
    let mut db = Database::new();
    let p = add(&mut db, "p", 1, 0, 0);
    let s = add(&mut db, "s", 0, 0, p.id);
    let z = add(&mut db, "z", 0, 1, p.id);
    create_record(&mut db, 0, p.id).unwrap();
    create_record(&mut db, 0, s.id).unwrap();
    create_record(&mut db, 0, z.id).unwrap();
    set_duration(&mut db, 1, 60);
    set_duration(&mut db, 2, 1);
    set_duration(&mut db, 3, 1000);
    let mut zz = read_task(&db, z.id).unwrap();
    zz.suspended = true;
    update_task(&mut db, &zz).unwrap();
    let p = read_task(&db, p.id).unwrap();
    assert_eq!(p.duration(&db), 61);
    assert_eq!(p.checked_duration(&db), Some(61));
    assert_eq!(p.duration_display(&db), "1:01");
}

#[test]
fn task_time_that_overflows_is_none() {
    let mut db = Database::new();
    let p = add(&mut db, "p", 1, 0, 0);
    create_record(&mut db, 0, p.id).unwrap();
    create_record(&mut db, 0, p.id).unwrap();
    set_duration(&mut db, 1, i64::MAX);
    set_duration(&mut db, 2, i64::MAX);
    assert_eq!(read_task(&db, p.id).unwrap().checked_duration(&db), None);
}

#[test]
fn incomplete_record_runs_until_now() {
    let mut db = Database::new();
    let p = add(&mut db, "p", 1, 0, 0);
    assert_eq!(p.incomplete_record(&db, 50), None);
    create_record(&mut db, 10, p.id).unwrap();
    set_duration(&mut db, 1, 3);
    create_record(&mut db, 40, p.id).unwrap();
    assert_eq!(p.incomplete_record(&db, 100), Some(Record::new(2, 40, 60, p.id)));
}

#[test]
fn records_are_filtered_and_latest_first() {
    let mut db = Database::new();
    create_record(&mut db, 100, 1).unwrap();
    create_record(&mut db, 300, 1).unwrap();
    create_record(&mut db, 200, 1).unwrap();
    create_record(&mut db, 250, 2).unwrap();
    set_duration(&mut db, 1, 10);
    let starts = |v: Vec<Record>| v.into_iter().map(|r| r.start).collect::<Vec<i64>>();
    assert_eq!(starts(read_records(&db, 1, false, None, None)), vec![300, 200, 100]);
    assert_eq!(starts(read_records(&db, 1, true, None, None)), vec![300, 200]);
    assert_eq!(starts(read_records(&db, 1, false, Some(100), Some(300))), vec![200]);
    delete_record(&mut db, 3);
    assert_eq!(starts(read_records(&db, 1, false, None, None)), vec![300, 100]);
    assert_eq!(read_record(&db, 3), Err(DbError::QueryReturnedNoRows));
}

#[test]
fn reminders_still_to_come_latest_first() {
    let mut db = Database::new();
    create_reminder(&mut db, 100, 1, 1).unwrap();
    create_reminder(&mut db, 300, 1, 2).unwrap();
    let c = create_reminder(&mut db, 200, 1, 3).unwrap();
    create_reminder(&mut db, 400, 2, 1).unwrap();
    let mut past = read_reminder(&db, 1).unwrap();
    past.past = true;
    update_reminder(&mut db, &past);
    let times: Vec<i64> = read_reminders(&db, 1).into_iter().map(|r| r.datetime).collect();
    assert_eq!(times, vec![300, 200]);
    assert_eq!((c.id, c.past, c.priority), (3, false, 3));
    delete_reminder(&mut db, 2);
    assert_eq!(read_reminders(&db, 1).len(), 1);
    assert_eq!(read_reminder(&db, 2), Err(DbError::QueryReturnedNoRows));
}

#[test]
fn delete_task_takes_its_subtasks_records_and_reminders_and_closes_the_gap() {
    let mut db = Database::new();
    add(&mut db, "a", 1, 0, 0);
    let b = add(&mut db, "b", 1, 1, 0);
    add(&mut db, "c", 1, 2, 0);
    let s = add(&mut db, "s", 1, 0, b.id);
    create_record(&mut db, 0, b.id).unwrap();
    create_record(&mut db, 0, s.id).unwrap();
    create_record(&mut db, 0, 1).unwrap();
    create_reminder(&mut db, 10, b.id, 1).unwrap();
    create_reminder(&mut db, 10, 1, 1).unwrap();
    delete_task(&mut db, &b);
    assert_eq!(places(&db), vec![("a".to_string(), 1, 0), ("c".to_string(), 1, 1)]);
    assert_eq!(db.records.rows().len(), 1);
    assert_eq!(db.records.rows()[0].task, 1);
    assert_eq!(db.reminders.rows().len(), 1);
    assert_eq!(db.reminders.rows()[0].task, 1);
}

#[test]
fn delete_task_keeps_suspended_subtasks() {
    let mut db = Database::new();
    let p = add(&mut db, "p", 1, 0, 0);
    let s = add(&mut db, "s", 0, 0, p.id);
    let mut ss = read_task(&db, s.id).unwrap();
    ss.suspended = true;
    update_task(&mut db, &ss).unwrap();
    delete_task(&mut db, &p);
    assert_eq!(db.tasks.rows().len(), 1);
    assert_eq!(db.tasks.rows()[0].name, "s");
}

#[test]
fn sections_are_created_moved_and_deleted() {
    let mut db = Database::new();
    let a = create_section(&mut db, "a", 1).unwrap();
    let b = create_section(&mut db, "b", 1).unwrap();
    let c = create_section(&mut db, "c", 1).unwrap();
    let other = create_section(&mut db, "o", 2).unwrap();
    assert_eq!((a.index, b.index, c.index, other.index), (0, 1, 2, 0));
    let mut moved = read_section(&db, c.id).unwrap();
    moved.index = 0;
    update_section(&mut db, &moved).unwrap();
    let order: Vec<String> = read_sections(&db, 1).into_iter().map(|s: Section| s.name).collect();
    assert_eq!(order, vec!["c".to_string(), "a".to_string(), "b".to_string()]);
    // The shift reaches the sections of every project.
    assert_eq!(read_section(&db, other.id).unwrap().index, 1);
    add(&mut db, "in a", a.id, 0, 0);
    add(&mut db, "in b", b.id, 0, 0);
    delete_section(&mut db, a.id);
    assert_eq!(read_section(&db, a.id), Err(DbError::QueryReturnedNoRows));
    assert_eq!(db.tasks.rows().len(), 1);
    assert_eq!(db.tasks.rows()[0].name, "in b");
    let missing = Section::new(77, "x".to_string(), 1, 0);
    assert_eq!(update_section(&mut db, &missing), Err(DbError::QueryReturnedNoRows));
}

#[test]
fn delete_task_reaches_the_whole_tree() {
    let mut db = Database::new();
    let root = add(&mut db, "root", 1, 0, 0);
    let mut parent = root.id;
    for level in 0..6 {
        let t = add(&mut db, &format!("level {level}"), 0, 0, parent);
        create_record(&mut db, 0, t.id).unwrap();
        parent = t.id;
    }
    let other = add(&mut db, "other", 1, 1, 0);
    delete_task(&mut db, &root);
    assert_eq!(db.tasks.rows().len(), 1);
    assert_eq!(db.tasks.rows()[0].id, other.id);
    assert_eq!(db.tasks.rows()[0].position, 0);
    assert_eq!(db.records.rows().len(), 0);
}

#[test]
fn pending_reminders_of_every_task_latest_first() {
    let mut db = Database::new();
    create_reminder(&mut db, 100, 1, 1).unwrap();
    create_reminder(&mut db, 400, 2, 1).unwrap();
    create_reminder(&mut db, 300, 1, 1).unwrap();
    let mut past = read_reminder(&db, 2).unwrap();
    past.past = true;
    update_reminder(&mut db, &past);
    let times: Vec<i64> = pending_reminders(&db).into_iter().map(|r| r.datetime).collect();
    assert_eq!(times, vec![300, 100]);
}

#[test]
fn saving_a_task_unchanged_changes_nothing() {
    let mut db = Database::new();
    add(&mut db, "a", 1, 0, 0);
    let b = add(&mut db, "b", 1, 1, 0);
    add(&mut db, "s", 0, 0, b.id);
    let before: Vec<Task> = db.tasks.rows().iter().map(|t| read_task(&db, t.id).unwrap()).collect();
    let same = read_task(&db, b.id).unwrap();
    update_task(&mut db, &same).unwrap();
    let after: Vec<Task> = db.tasks.rows().iter().map(|t| read_task(&db, t.id).unwrap()).collect();
    assert_eq!(before, after);
}
