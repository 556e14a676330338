use iplan::db::models::{List, Project, Task};
use iplan::db::operations::{
    create_list, create_project, create_task, delete_project, find_projects, read_list, read_lists,
    read_project, read_projects, update_list, update_project,
};
use iplan::db::store::{Database, DbError, Table};

fn indexes(db: &Database) -> Vec<(String, i32)> {
    db.projects.rows().iter().map(|p| (p.name.clone(), p.index)).collect()
}

fn task(name: &str, project: i64, section: i64, position: i32) -> Task {
    Task::new(0, name.to_string(), false, project, section, position, false, 0, String::new(), 0)
}

#[test]
fn create_project_appends_with_next_index() {
    let mut db = Database::new();
    let a = create_project(&mut db, "Work").unwrap();
    let b = create_project(&mut db, "Home").unwrap();
    assert_eq!((a.id, a.index, a.archive), (1, 0, false));
    assert_eq!((b.id, b.index), (2, 1));
    assert_eq!(b.name, "Home");
    assert_eq!(read_project(&db, 2).unwrap(), b);
}

#[test]
fn read_project_missing_is_an_error() {
    let db = Database::new();
    assert_eq!(read_project(&db, 4), Err(DbError::QueryReturnedNoRows));
}

#[test]
fn create_project_in_a_full_table_fails() {
    let mut db = Database::new();
    db.projects = Table::from_rows(Vec::new(), i64::MAX).unwrap();
    assert_eq!(create_project(&mut db, "x"), Err(DbError::Full));
    assert_eq!(db.projects.rows().len(), 0);
}

#[test]
fn from_rows_checks_the_order_of_ids() {
    let rows = vec![
        Project::new(2, "b".to_string(), false, 0, String::new(), String::new()),
        Project::new(1, "a".to_string(), false, 1, String::new(), String::new()),
    ];
    assert!(Table::from_rows(rows, 5).is_none());
    let rows = vec![Project::new(7, "a".to_string(), false, 0, String::new(), String::new())];
    assert!(Table::from_rows(rows, 6).is_none());
}

#[test]
fn read_projects_by_index_and_archive() {
    let mut db = Database::new();
    create_project(&mut db, "a").unwrap();
    create_project(&mut db, "b").unwrap();
    create_project(&mut db, "c").unwrap();
    let mut b = read_project(&db, 2).unwrap();
    b.archive = true;
    update_project(&mut db, &b).unwrap();
    let shown: Vec<String> = read_projects(&db, false).into_iter().map(|p| p.name).collect();
    assert_eq!(shown, vec!["a".to_string(), "c".to_string()]);
    let all: Vec<String> = read_projects(&db, true).into_iter().map(|p| p.name).collect();
    assert_eq!(all, vec!["a".to_string(), "b".to_string(), "c".to_string()]);
}

#[test]
fn update_project_moves_it_and_shifts_the_others() {
    let mut db = Database::new();
    for name in ["a", "b", "c", "d"] {
        create_project(&mut db, name).unwrap();
    }
    let mut d = read_project(&db, 4).unwrap();
    d.index = 1;
    d.name = "D".to_string();
    update_project(&mut db, &d).unwrap();
    assert_eq!(
        indexes(&db),
        vec![("a".to_string(), 0), ("b".to_string(), 2), ("c".to_string(), 3), ("D".to_string(), 1)]
    );
    let mut a = read_project(&db, 1).unwrap();
    a.index = 3;
    update_project(&mut db, &a).unwrap();
    assert_eq!(
        indexes(&db),
        vec![("a".to_string(), 3), ("b".to_string(), 1), ("c".to_string(), 2), ("D".to_string(), 0)]
    );
    let names: Vec<String> = read_projects(&db, true).into_iter().map(|p| p.name).collect();
    assert_eq!(names, vec!["D".to_string(), "b".to_string(), "c".to_string(), "a".to_string()]);
}

#[test]
fn update_project_keeps_icon_and_description() {
    let mut db = Database::new();
    create_project(&mut db, "a").unwrap();
    let p = Project::new(1, "b".to_string(), false, 0, "icon".to_string(), "text".to_string());
    update_project(&mut db, &p).unwrap();
    let q = read_project(&db, 1).unwrap();
    assert_eq!((q.name.as_str(), q.icon.as_str(), q.description.as_str()), ("b", "", ""));
}

#[test]
fn update_missing_project_is_an_error() {
    let mut db = Database::new();
    let p = Project::new(9, "x".to_string(), false, 0, String::new(), String::new());
    assert_eq!(update_project(&mut db, &p), Err(DbError::QueryReturnedNoRows));
}

#[test]
fn delete_project_removes_its_lists_and_tasks_and_closes_the_gap() {
    let mut db = Database::new();
    create_project(&mut db, "a").unwrap();
    create_project(&mut db, "b").unwrap();
    create_project(&mut db, "c").unwrap();
    create_list(&mut db, "l1", 1).unwrap();
    create_list(&mut db, "l2", 2).unwrap();
    create_task(&mut db, task("t1", 1, 1, 0)).unwrap();
    create_task(&mut db, task("t2", 2, 2, 0)).unwrap();
    delete_project(&mut db, 1, 0);
    assert_eq!(indexes(&db), vec![("b".to_string(), 0), ("c".to_string(), 1)]);
    assert_eq!(db.lists.rows().len(), 1);
    assert_eq!(db.lists.rows()[0].name, "l2");
    assert_eq!(db.tasks.rows().len(), 1);
    assert_eq!(db.tasks.rows()[0].name, "t2");
}

#[test]
fn find_projects_ignores_case_and_reads_wildcards_literally() {
    let mut db = Database::new();
    create_project(&mut db, "Garden").unwrap();
    create_project(&mut db, "100% done").unwrap();
    create_project(&mut db, "my_work").unwrap();
    let names = |v: Vec<Project>| v.into_iter().map(|p| p.name).collect::<Vec<String>>();
    assert_eq!(names(find_projects(&db, "GAR", false)), vec!["Garden".to_string()]);
    assert_eq!(names(find_projects(&db, "%", false)), vec!["100% done".to_string()]);
    assert_eq!(names(find_projects(&db, "_", false)), vec!["my_work".to_string()]);
    assert_eq!(find_projects(&db, "", false).len(), 3);
    assert_eq!(find_projects(&db, "zzz", false).len(), 0);
}

#[test]
fn find_projects_skips_archived_unless_asked() {
    let mut db = Database::new();
    create_project(&mut db, "old").unwrap();
    let mut p = read_project(&db, 1).unwrap();
    p.archive = true;
    update_project(&mut db, &p).unwrap();
    assert_eq!(find_projects(&db, "old", false).len(), 0);
    assert_eq!(find_projects(&db, "old", true).len(), 1);
}

#[test]
fn project_duration_counts_its_top_tasks() {
    let mut db = Database::new();
    create_project(&mut db, "a").unwrap();
    let t = create_task(&mut db, task("t", 1, 0, 0)).unwrap();
    let mut sub = task("s", 1, 0, 0);
    sub.parent = t.id;
    let s = create_task(&mut db, sub).unwrap();
    iplan::db::operations::create_record(&mut db, 0, t.id).unwrap();
    iplan::db::operations::create_record(&mut db, 0, s.id).unwrap();
    let mut r1 = iplan::db::operations::read_record(&db, 1).unwrap();
    r1.duration = 100;
    iplan::db::operations::update_record(&mut db, &r1);
    let mut r2 = iplan::db::operations::read_record(&db, 2).unwrap();
    r2.duration = 20;
    iplan::db::operations::update_record(&mut db, &r2);
    let p = read_project(&db, 1).unwrap();
    assert_eq!(p.duration(&db), 120);
    assert_eq!(p.checked_duration(&db), Some(120));
    assert_eq!(Project::static_variant_type_string(), "(xsbiss)");
}

#[test]
fn lists_are_created_read_and_updated_in_order() {
    let mut db = Database::new();
    let a = create_list(&mut db, "todo", 1).unwrap();
    let b = create_list(&mut db, "doing", 1).unwrap();
    let c = create_list(&mut db, "other", 2).unwrap();
    assert_eq!((a.index, b.index, c.index), (0, 1, 0));
    let mut a2 = read_list(&db, a.id).unwrap();
    a2.index = 2;
    a2.name = "later".to_string();
    update_list(&mut db, a2);
    let names: Vec<String> = read_lists(&db, 1).into_iter().map(|l: List| l.name).collect();
    assert_eq!(names, vec!["doing".to_string(), "later".to_string()]);
    assert_eq!(read_list(&db, 9), Err(DbError::QueryReturnedNoRows));
}

#[test]
fn delete_list_removes_the_tasks_whose_section_is_its_id() {
    let mut db = Database::new();
    let l = create_list(&mut db, "l", 1).unwrap();
    create_task(&mut db, task("in", 1, l.id, 0)).unwrap();
    create_task(&mut db, task("out", 1, 5, 0)).unwrap();
    iplan::db::operations::delete_list(&mut db, l.id);
    assert_eq!(db.lists.rows().len(), 0);
    assert_eq!(db.tasks.rows().len(), 1);
    assert_eq!(db.tasks.rows()[0].name, "out");
}
