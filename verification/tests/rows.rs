use iplan::db::models::{Record, Section, Task};
use iplan::db::operations::{
    create_project, create_section, create_task, delete_task, new_subtask_position, new_task_position,
    read_section, read_task, update_section, update_task,
};
use iplan::db::store::Database;
use iplan::db::operations::create_reminder;
use iplan::views::calendar::{follow_top_day, refresh_days};
use iplan::views::project_header::{stats_texts, ProjectStats};
use iplan::views::task_row::row_layout;
use iplan::db::migrate::is_legacy_readable;
use iplan::views::window::{home_msgids, duration_changed_refresh, task_changed_refresh, ActionScope, ChangeRefresh};
use iplan::views::task_drag::{moving_out_after_drag, task_drag_move, DropEdge};
use iplan::views::task_row::{
    delete_step, delete_toast_msgid, delete_toast_title, delete_toast_title_15_bytes,
    delete_toast_title_15_bytes_with, delete_toast_title_with, inbox_msgid, fill_template, label_text, project_label, project_label_text,
    toast_task_name_15_bytes, DeleteEvent, DeleteStep, ProjectLabel,
};
use iplan::views::tasks_box::{bottom_add_shown, row_order, row_shown, RowOrder, TasksBoxWrapper};

fn task(name: &str, project: i64, section: i64, position: i32, parent: i64) -> Task {
    Task::new(0, name.to_string(), false, project, section, position, false, parent, String::new(), 0)
}

fn snapshot(db: &Database) -> Vec<(i64, String, i64, i64, i32, i64, bool)> {
    db.tasks.rows().iter().map(|t| (t.id, t.name.clone(), t.project, t.section, t.position, t.parent, t.suspended)).collect()
}

fn four_rows() -> Vec<(i64, i64, i32)> {
    vec![(1, 0, 3), (2, 0, 2), (3, 0, 1), (4, 0, 0)]
}

#[test]
fn drag_onto_the_top_edge_of_the_row_above_swaps_the_two() {
    let r = task_drag_move(&four_rows(), 2, 1, DropEdge::Top);
    assert_eq!(r, vec![(1, 0, 3), (2, 0, 1), (3, 0, 2), (4, 0, 0)]);
}

#[test]
fn drag_onto_the_bottom_edge_of_the_row_below_swaps_the_two() {
    let r = task_drag_move(&four_rows(), 1, 2, DropEdge::Bottom);
    assert_eq!(r, vec![(1, 0, 3), (2, 0, 1), (3, 0, 2), (4, 0, 0)]);
}

#[test]
fn drag_from_further_below_shifts_the_rows_between() {
    let r = task_drag_move(&four_rows(), 3, 1, DropEdge::Top);
    assert_eq!(r, vec![(1, 0, 3), (2, 0, 1), (3, 0, 0), (4, 0, 2)]);
}

#[test]
fn drag_from_further_above_onto_a_bottom_edge_takes_the_place() {
    let r = task_drag_move(&four_rows(), 0, 2, DropEdge::Bottom);
    assert_eq!(r, vec![(1, 0, 1), (2, 0, 2), (3, 0, 1), (4, 0, 0)]);
}

#[test]
fn drag_from_the_near_side_only_changes_the_parent() {
    let rows = vec![(1, 0, 1), (2, 5, 0)];
    assert_eq!(task_drag_move(&rows, 0, 1, DropEdge::Top), vec![(1, 5, 1), (2, 5, 0)]);
    assert!(!moving_out_after_drag(&rows, 0, 1, DropEdge::Top, true));
}

#[test]
fn drag_inside_a_row_makes_a_subtask() {
    let rows = vec![(1, 0, 1), (2, 5, 0)];
    assert_eq!(task_drag_move(&rows, 0, 1, DropEdge::Inside), vec![(1, 2, 1), (2, 5, 0)]);
    assert!(moving_out_after_drag(&rows, 0, 1, DropEdge::Inside, false));
}

#[test]
fn drag_inside_the_parent_changes_nothing() {
    let rows = vec![(1, 2, 0), (2, 0, 0)];
    assert_eq!(task_drag_move(&rows, 0, 1, DropEdge::Inside), rows);
    assert!(!moving_out_after_drag(&rows, 0, 1, DropEdge::Inside, false));
    assert!(moving_out_after_drag(&rows, 0, 1, DropEdge::Inside, true));
}

#[test]
fn drag_onto_itself_changes_nothing() {
    let rows = four_rows();
    assert_eq!(task_drag_move(&rows, 2, 2, DropEdge::Top), rows);
    assert_eq!(task_drag_move(&rows, 2, 2, DropEdge::Inside), rows);
    assert!(moving_out_after_drag(&rows, 2, 2, DropEdge::Bottom, true));
}

#[test]
fn drag_keeps_the_places_distinct() {
    for source in 0..4usize {
        for target in 0..4usize {
            for edge in [DropEdge::Top, DropEdge::Bottom] {
                let r = task_drag_move(&four_rows(), source, target, edge);
                assert_eq!(r.len(), 4);
                let adjacent = (edge == DropEdge::Top && source == target + 1)
                    || (edge == DropEdge::Bottom && target == source + 1);
                let far = (edge == DropEdge::Top && source > target) || (edge == DropEdge::Bottom && source < target);
                if adjacent || (far && edge == DropEdge::Top) {
                    let mut places: Vec<i32> = r.iter().map(|x| x.2).collect();
                    places.sort();
                    assert_eq!(places, vec![0, 1, 2, 3]);
                }
            }
        }
    }
}

#[test]
fn project_label_text_names_the_project_up_the_parents() {
    let mut db = Database::new();
    let p = create_project(&mut db, "Work").unwrap();
    let top = create_task(&mut db, task("top", p.id, 1, 0, 0)).unwrap();
    let sub = create_task(&mut db, task("sub", 0, 0, 0, top.id)).unwrap();
    assert_eq!(project_label(&db, &sub), ProjectLabel::Project(p.id));
    assert_eq!(project_label_text(&db, &sub), Some("Work".to_string()));
}

#[test]
fn project_label_text_of_an_inbox_task_is_untranslated_inbox() {
    let mut db = Database::new();
    let t = create_task(&mut db, task("loose", 0, 0, 0, 0)).unwrap();
    assert_eq!(project_label_text(&db, &t), Some("Inbox".to_string()));
}

#[test]
fn label_text_cases() {
    let mut db = Database::new();
    let p = create_project(&mut db, "Home").unwrap();
    assert_eq!(label_text(&db, ProjectLabel::Project(p.id), "In"), Some("Home".to_string()));
    assert_eq!(label_text(&db, ProjectLabel::Project(p.id + 9), "In"), None);
    assert_eq!(label_text(&db, ProjectLabel::Inbox, "Boîte"), Some("Boîte".to_string()));
    assert_eq!(label_text(&db, ProjectLabel::MissingTask(4), "In"), None);
    assert_eq!(label_text(&db, ProjectLabel::Cycle, "In"), None);
}

#[test]
fn fill_template_replaces_every_pair_of_braces() {
    assert_eq!(fill_template("\"{}\" is going to delete", "abc"), "\"abc\" is going to delete");
    assert_eq!(fill_template("{}{}x{", "ab"), "ababx{");
    assert_eq!(fill_template("no braces", "ab"), "no braces");
    assert_eq!(fill_template("{}", ""), "");
}

#[test]
fn delete_toast_title_untranslated() {
    assert_eq!(delete_toast_title("A very long task name"), "\"A very long ta...\" is going to delete");
    assert_eq!(delete_toast_title("Short"), "\"Short\" is going to delete");
}

#[test]
fn delete_steps_of_a_toast() {
    assert_eq!(delete_step(DeleteEvent::Delete, false), DeleteStep::Save(true));
    assert_eq!(delete_step(DeleteEvent::Undo, true), DeleteStep::Save(false));
    assert_eq!(delete_step(DeleteEvent::Dismissed, true), DeleteStep::DeleteTask);
    assert_eq!(delete_step(DeleteEvent::Dismissed, false), DeleteStep::Keep);
}

#[test]
fn toast_name_cut_at_15_bytes() {
    assert_eq!(toast_task_name_15_bytes("abcdefghijklmnopq"), "abcdefghijklmno...");
    assert_eq!(toast_task_name_15_bytes("aéééééééxxxxxxxx"), "aééééééé...");
    assert_eq!(toast_task_name_15_bytes("ééééééééé"), "ééééééééé");
    assert_eq!(toast_task_name_15_bytes("exactly fifteen"), "exactly fifteen");
}

#[test]
fn rows_of_a_box_are_ordered_by_position_descending() {
    let w = TasksBoxWrapper::Section(1, 1);
    assert_eq!(row_order(w, Some(3), Some(2)), RowOrder::Before);
    assert_eq!(row_order(w, Some(1), Some(2)), RowOrder::After);
    assert_eq!(row_order(w, Some(2), Some(2)), RowOrder::Before);
    assert_eq!(row_order(w, None, Some(1)), RowOrder::After);
    assert_eq!(row_order(w, Some(1), None), RowOrder::Before);
    assert_eq!(row_order(TasksBoxWrapper::Date(5), Some(3), Some(2)), RowOrder::After);
}

#[test]
fn suspended_and_moving_rows_hide() {
    assert!(row_shown(None));
    assert!(!row_shown(Some((true, false))));
    assert!(!row_shown(Some((false, true))));
    assert!(row_shown(Some((false, false))));
}

#[test]
fn bottom_add_button_shows_under_a_shown_task() {
    assert!(!bottom_add_shown(2, &vec![(false, false)]));
    assert!(bottom_add_shown(3, &vec![(true, false), (false, false)]));
    assert!(!bottom_add_shown(3, &vec![(true, false), (false, true)]));
    assert!(!bottom_add_shown(0, &vec![]));
}

#[test]
fn strip_follows_the_top_day() {
    let mut days: Vec<i64> = (10..17).collect();
    follow_top_day(&mut days, 20);
    assert_eq!(days, (20..27).collect::<Vec<i64>>());
    follow_top_day(&mut days, 3);
    assert_eq!(days, (3..10).collect::<Vec<i64>>());
}

#[test]
fn day_word_is_chosen_by_the_count() {
    assert_eq!(Record::day_msgid(1), "day");
    assert_eq!(Record::day_msgid(2), "days");
    assert_eq!(Record::day_msgid(0), "days");
    assert_eq!(Record::duration_display(90061), "1 day 01:01");
    assert_eq!(Record::duration_display(172800), "2 days 00:00");
}

#[test]
fn new_task_position_is_the_number_of_tasks_of_the_section() {
    let mut db = Database::new();
    for i in 0..3 {
        let p = new_task_position(&db, 7);
        assert_eq!(p, i);
        create_task(&mut db, task("t", 1, 7, p, 0)).unwrap();
    }
    create_task(&mut db, task("other", 1, 8, 0, 0)).unwrap();
    assert_eq!(new_task_position(&db, 7), 3);
    assert_eq!(new_subtask_position(&db, 1), 0);
}

#[test]
fn saving_a_task_twice_is_saving_it_once() {
    let mut db = Database::new();
    let a = create_task(&mut db, task("a", 1, 1, 0, 0)).unwrap();
    create_task(&mut db, task("b", 1, 1, 1, 0)).unwrap();
    create_task(&mut db, task("c", 1, 1, 2, 0)).unwrap();
    let mut moved = read_task(&db, a.id).unwrap();
    moved.position = 2;
    update_task(&mut db, &moved).unwrap();
    let once = snapshot(&db);
    update_task(&mut db, &moved).unwrap();
    assert_eq!(snapshot(&db), once);
}

#[test]
fn update_section_keeps_its_projects_places() {
    let mut db = Database::new();
    let a = create_section(&mut db, "a", 1).unwrap();
    create_section(&mut db, "o", 2).unwrap();
    let b = create_section(&mut db, "b", 1).unwrap();
    let c = create_section(&mut db, "c", 1).unwrap();
    let mut moved = read_section(&db, a.id).unwrap();
    moved.index = 2;
    update_section(&mut db, &moved).unwrap();
    let mut places: Vec<i32> = db.sections.rows().iter().filter(|s: &&Section| s.project == 1).map(|s| s.index).collect();
    places.sort();
    assert_eq!(places, vec![0, 1, 2]);
    assert_eq!(read_section(&db, b.id).unwrap().index, 0);
    assert_eq!(read_section(&db, c.id).unwrap().index, 1);
}

#[test]
fn deleting_a_task_closes_its_sections_gap() {
    let mut db = Database::new();
    create_task(&mut db, task("a", 1, 4, 0, 0)).unwrap();
    let b = create_task(&mut db, task("b", 1, 4, 1, 0)).unwrap();
    create_task(&mut db, task("c", 1, 4, 2, 0)).unwrap();
    let sub = create_task(&mut db, task("b1", 1, 0, 0, b.id)).unwrap();
    create_task(&mut db, task("b1a", 1, 0, 0, sub.id)).unwrap();
    delete_task(&mut db, &b);
    let mut places: Vec<i32> = db.tasks.rows().iter().filter(|t: &&Task| t.section == 4).map(|t| t.position).collect();
    places.sort();
    assert_eq!(places, vec![0, 1]);
    assert_eq!(db.tasks.rows().len(), 2);
}

#[test]
fn refresh_lays_out_three_weeks_around_the_first_day() {
    let (days, at) = refresh_days(100);
    assert_eq!(days, (93..114).collect::<Vec<i64>>());
    assert_eq!(at, 7);
    assert_eq!(days[at], 100);
}

#[test]
fn stats_texts_placeholder_and_labels() {
    let empty = ProjectStats { total: 0, recent: 0, days: vec![0, 0], max_hour: 2 };
    assert!(stats_texts(&empty).is_none());
    let st = ProjectStats { total: 7200, recent: 3661, days: vec![3661, 0, 59], max_hour: 3 };
    let t = stats_texts(&st).unwrap();
    assert_eq!(t.total, "2:00:00");
    assert_eq!(t.recent, "1:01:01");
    assert_eq!(t.hours, vec!["0".to_string(), "1".to_string(), "2".to_string()]);
    assert_eq!(t.tooltips, vec!["1:01:01".to_string(), "0:00".to_string(), "0:59".to_string()]);
    let long = ProjectStats { total: 90061, recent: 0, days: vec![], max_hour: 0 };
    let t = stats_texts(&long).unwrap();
    assert_eq!(t.total, "1 day 01:01");
    assert!(t.hours.is_empty());
}

#[test]
fn row_layout_of_a_full_row() {
    let mut db = Database::new();
    let p = create_project(&mut db, "Work").unwrap();
    let mut t = task("t", p.id, 1, 0, 0);
    t.description = "  notes \n".to_string();
    t.date = 1000;
    let t = create_task(&mut db, t).unwrap();
    create_reminder(&mut db, 50, t.id, 1).unwrap();
    let l = row_layout(&db, &t, false, true).unwrap();
    assert_eq!(l.body, Some("notes".to_string()));
    assert!(l.date && l.reminders && l.footer);
    assert_eq!(l.project, Some("Work".to_string()));
    let c = row_layout(&db, &t, true, true).unwrap();
    assert!(c.body.is_none() && !c.date && !c.reminders && c.project.is_none() && !c.footer);
}

#[test]
fn row_layout_hides_an_empty_footer() {
    let mut db = Database::new();
    let t = create_task(&mut db, task("bare", 1, 1, 0, 0)).unwrap();
    let l = row_layout(&db, &t, false, false).unwrap();
    assert!(l.body.is_none() && !l.date && !l.reminders && l.project.is_none() && !l.footer);
    // The project of the task is not in the table.
    assert!(row_layout(&db, &t, false, true).is_none());
}

#[test]
fn refreshes_by_scope() {
    assert_eq!(
        task_changed_refresh(ActionScope::DeleteToast),
        ChangeRefresh { unsuspend: true, project_page: true, calendar_subtasks: true, calendar: true }
    );
    assert_eq!(
        task_changed_refresh(ActionScope::Project(3)),
        ChangeRefresh { unsuspend: false, project_page: false, calendar_subtasks: false, calendar: true }
    );
    assert_eq!(
        task_changed_refresh(ActionScope::Calendar),
        ChangeRefresh { unsuspend: false, project_page: true, calendar_subtasks: false, calendar: false }
    );
    assert_eq!(
        task_changed_refresh(ActionScope::Unscoped),
        ChangeRefresh { unsuspend: false, project_page: true, calendar_subtasks: false, calendar: true }
    );
    assert_eq!(duration_changed_refresh(ActionScope::Project(3)), (false, true));
    assert_eq!(duration_changed_refresh(ActionScope::Calendar), (true, false));
    assert_eq!(duration_changed_refresh(ActionScope::Unscoped), (true, true));
}

#[test]
fn older_delete_toast_title_untranslated() {
    assert_eq!(delete_toast_title_15_bytes("abcdefghijklmnopq"), "\"abcdefghijklmno...\" is going to delete");
    assert_eq!(delete_toast_title_15_bytes("Short"), "\"Short\" is going to delete");
}

#[test]
fn message_ids_of_the_translated_texts() {
    assert_eq!(delete_toast_msgid(), "\"{}\" is going to delete");
    assert_eq!(inbox_msgid(), "Inbox");
    assert_eq!(home_msgids(), ("Personal", "Tasks"));
}

#[test]
fn delete_toast_titles_with_a_translated_message() {
    assert_eq!(delete_toast_title_with("« {} » va être supprimé", "A very long task name"), "« A very long ta... » va être supprimé");
    assert_eq!(delete_toast_title_with("{}", "Short"), "Short");
    assert_eq!(delete_toast_title_15_bytes_with("[{}]", "abcdefghijklmnopq"), "[abcdefghijklmno...]");
}

#[test]
fn legacy_duration_values_readable_or_not() {
    assert!(is_legacy_readable(""));
    assert!(is_legacy_readable("1671365268.58338,6224;1671378590.05254,4336;"));
    assert!(!is_legacy_readable("1671365268,6224;"));
    assert!(!is_legacy_readable("1671365268.58338;"));
    assert!(!is_legacy_readable("1671365268.5,1;;"));
}

#[test]
fn row_layout_lists_the_open_subtasks_by_position() {
    let mut db = Database::new();
    let p = create_project(&mut db, "Work").unwrap();
    let t = create_task(&mut db, task("t", p.id, 1, 0, 0)).unwrap();
    create_task(&mut db, task("second", p.id, 0, 1, t.id)).unwrap();
    create_task(&mut db, task("first", p.id, 0, 0, t.id)).unwrap();
    let hidden = create_task(&mut db, task("hidden", p.id, 0, 2, t.id)).unwrap();
    let mut hidden = read_task(&db, hidden.id).unwrap();
    hidden.suspended = true;
    update_task(&mut db, &hidden).unwrap();
    let l = row_layout(&db, &t, false, false).unwrap();
    let names: Vec<String> = l.subtasks.iter().map(|x| x.name.clone()).collect();
    assert_eq!(names, vec!["first".to_string(), "second".to_string()]);
    assert!(row_layout(&db, &t, true, false).unwrap().subtasks.is_empty());
}
