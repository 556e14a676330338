use iplan::application::{plan_reminder, reminder_due, ReminderStep};
use iplan::db::manager::{check_database, DatabaseCheck, DB_VERSION};
use iplan::db::migrate::legacy_records;
use iplan::db::models::{Record, Reminder, Task};
use iplan::db::operations::{create_record, create_task, read_record, update_record, update_task};
use iplan::db::store::Database;
use iplan::views::calendar::{day_views_change, slide_days, DayViewChange};
use iplan::views::scroll::{edge_scroll, scroll_step, ScrollStep};
use iplan::views::project_page::{row_change, row_task, RowChange};
use iplan::db::store::DbError;
use iplan::views::drag::move_on_drop;
use iplan::views::project_header::project_stats;
use iplan::views::task_row::{
    toast_task_name, project_label, timer_tick, ProjectLabel, TimerStatus, TimerTick,
};

use iplan::views::time_row::{time_digits, time_from_digits, time_of_fields};
use iplan::views::calendar::{week_place, WeekPlace};
use iplan::views::tasks_box::split_lazy;
use iplan::views::tasks_box::step_move;
use iplan::views::record_create_window::{duration_to_end, record_end};
use iplan::views::search_window::{search, SearchResultData};
use iplan::views::calendar::{calendar_change, CalendarChange};
use iplan::views::task_row::row_description;
use iplan::views::window::{decode_scope, encode_scope, home_project, ActionScope};
use iplan::views::task_page::description_display;
use iplan::views::tasks_box::{create_empty_task, in_box, TasksBoxWrapper};

fn task(name: &str, project: i64, parent: i64) -> Task {
    Task::new(0, name.to_string(), false, project, 1, 0, false, parent, String::new(), 0)
}

fn record(db: &mut Database, start: i64, duration: i64, task_id: i64) {
    let r = create_record(db, start, task_id).unwrap();
    let mut r = read_record(db, r.id).unwrap();
    r.duration = duration;
    update_record(db, &r);
}

#[test]
fn check_database_creates_a_missing_file() {
    assert_eq!(check_database(false, 0), DatabaseCheck::Create);
    assert_eq!(check_database(false, 9), DatabaseCheck::Create);
}

#[test]
fn check_database_migrates_older_versions_step_by_step() {
    assert_eq!(check_database(true, 0), DatabaseCheck::Migrate(vec![0, 1, 2, 3, 4, 5, 6]));
    assert_eq!(check_database(true, 5), DatabaseCheck::Migrate(vec![5, 6]));
    assert_eq!(check_database(true, DB_VERSION), DatabaseCheck::UpToDate);
    assert_eq!(check_database(true, 8), DatabaseCheck::TooNew(8));
}

#[test]
fn legacy_records_split_the_old_duration_column() {
    let r = legacy_records("1671365268.58338,6224;1671378590.05254,4336;");
    assert_eq!(
        r,
        vec![
            ("1671365268".to_string(), "6224".to_string()),
            ("1671378590".to_string(), "4336".to_string())
        ]
    );
    assert_eq!(legacy_records(""), Vec::<(String, String)>::new());
    assert_eq!(legacy_records("5.,7;"), vec![("5".to_string(), "7".to_string())]);
}

#[test]
fn toast_task_name_cuts_long_names() {
    assert_eq!(toast_task_name("Short"), "Short");
    assert_eq!(toast_task_name("fourteen chars"), "fourteen chars");
    assert_eq!(toast_task_name("fifteen chars!!"), "fifteen chars!...");
    assert_eq!(toast_task_name("ééééééééééééééééé"), "éééééééééééééé...");
}

#[test]
fn project_label_walks_up_the_parents() {
    let mut db = Database::new();
    let top = create_task(&mut db, task("top", 4, 0)).unwrap();
    let mid = create_task(&mut db, task("mid", 0, top.id)).unwrap();
    let low = create_task(&mut db, task("low", 0, mid.id)).unwrap();
    let inbox = create_task(&mut db, task("inbox", 0, 0)).unwrap();
    let lost = create_task(&mut db, task("lost", 0, 99)).unwrap();
    assert_eq!(project_label(&db, &low), ProjectLabel::Project(4));
    assert_eq!(project_label(&db, &inbox), ProjectLabel::Inbox);
    assert_eq!(project_label(&db, &lost), ProjectLabel::MissingTask(99));
    let mut a = create_task(&mut db, task("a", 0, 0)).unwrap();
    let b = create_task(&mut db, task("b", 0, a.id)).unwrap();
    a.parent = b.id;
    update_task(&mut db, &a).unwrap();
    assert_eq!(project_label(&db, &b), ProjectLabel::Cycle);
}

#[test]
fn timer_ticks() {
    let r = Record::new(5, 1000, 0, 2);
    assert_eq!(timer_tick(TimerStatus::On, &r, 42, 2000), TimerTick::Show(42));
    assert_eq!(timer_tick(TimerStatus::Off, &r, 42, 2000), TimerTick::Save(Record::new(5, 1000, 1000, 2)));
    assert_eq!(timer_tick(TimerStatus::Cancel, &r, 42, 2000), TimerTick::Stop);
}

#[test]
fn move_on_drop_moves_down_and_up() {
    let mut v = vec![10, 11, 12, 13, 14];
    move_on_drop(&mut v, 1, 3);
    assert_eq!(v, vec![10, 12, 13, 11, 14]);
    move_on_drop(&mut v, 4, 0);
    assert_eq!(v, vec![14, 10, 12, 13, 11]);
    move_on_drop(&mut v, 2, 2);
    assert_eq!(v, vec![14, 10, 12, 13, 11]);
}

#[test]
fn edge_scroll_near_the_edges() {
    assert_eq!(edge_scroll(500, 480, 0, 1), (1, true));
    assert_eq!(edge_scroll(500, 480, 1, 1), (1, false));
    assert_eq!(edge_scroll(500, 10, 0, 1), (-1, true));
    assert_eq!(edge_scroll(500, 10, -1, 1), (-1, false));
    assert_eq!(edge_scroll(500, 200, 1, 1), (0, false));
    assert_eq!(edge_scroll(800, 760, 0, 2), (2, true));
    assert_eq!(edge_scroll(800, 49, -2, 2), (-2, false));
}

#[test]
fn slide_days_moves_the_strip() {
    let mut days = vec![10, 11, 12, 13];
    slide_days(&mut days, 2);
    assert_eq!(days, vec![12, 13, 14, 15]);
    slide_days(&mut days, -3);
    assert_eq!(days, vec![9, 10, 11, 12]);
    slide_days(&mut days, 0);
    assert_eq!(days, vec![9, 10, 11, 12]);
    slide_days(&mut days, 6);
    assert_eq!(days, vec![15, 16, 17, 18]);
}

#[test]
fn day_views_grow_near_the_ends() {
    assert_eq!(day_views_change(3, 30), DayViewChange::Prepend);
    assert_eq!(day_views_change(10, 13), DayViewChange::Append);
    assert_eq!(day_views_change(10, 14), DayViewChange::Keep);
}

#[test]
fn project_stats_per_day() {
    let mut db = Database::new();
    let t = create_task(&mut db, task("t", 1, 0)).unwrap();
    let s = create_task(&mut db, task("s", 1, t.id)).unwrap();
    let other = create_task(&mut db, task("o", 2, 0)).unwrap();
    let day = 86400;
    let now = 10 * day + 500;
    record(&mut db, 10 * day + 100, 3600, t.id);
    record(&mut db, 9 * day + 100, 7200, s.id);
    record(&mut db, 9 * day + 200, 60, other.id);
    record(&mut db, 3 * day, 5, t.id);
    let starts = vec![10 * day, 9 * day, 8 * day];
    let st = project_stats(&db, 1, now, &starts).unwrap();
    assert_eq!(st.days, vec![3600, 7200, 0]);
    assert_eq!(st.recent, 10800);
    assert_eq!(st.total, 3600 + 7200 + 5 + 7200);
    assert_eq!(st.max_hour, 4);
}

#[test]
fn project_stats_overflow_is_none() {
    let mut db = Database::new();
    let t = create_task(&mut db, task("t", 1, 0)).unwrap();
    record(&mut db, 5, i64::MAX, t.id);
    record(&mut db, 6, i64::MAX, t.id);
    assert!(project_stats(&db, 1, 10, &vec![0]).is_none());
}

#[test]
fn reminders_are_planned_against_now() {
    let r = Reminder::new(1, 100, false, 2, 1);
    assert_eq!(plan_reminder(&r, 101, 0), ReminderStep::MarkPast);
    assert_eq!(plan_reminder(&r, 100, 1), ReminderStep::MarkPast);
    assert_eq!(plan_reminder(&r, 100, 0), ReminderStep::Wait { secs: 0, nanos: 0 });
    assert_eq!(plan_reminder(&r, 40, 250_000_000), ReminderStep::Wait { secs: 59, nanos: 750_000_000 });
    let early = Reminder::new(1, -1, false, 2, 1);
    assert_eq!(plan_reminder(&early, 5, 0), ReminderStep::Wait { secs: u64::MAX - 5, nanos: 0 });
}

#[test]
fn reminder_due_only_when_unchanged_and_not_past() {
    let r = Reminder::new(1, 100, false, 2, 1);
    assert!(reminder_due(&r, &Reminder::new(1, 100, false, 2, 3)));
    assert!(!reminder_due(&r, &Reminder::new(1, 100, true, 2, 1)));
    assert!(!reminder_due(&r, &Reminder::new(1, 160, false, 2, 1)));
}

#[test]
fn time_digits_split_and_add_up() {
    assert_eq!(time_digits(3725), (1, 2, 5));
    assert_eq!(time_digits(59), (0, 0, 59));
    assert_eq!(time_digits(-3725), (-1, -2, -5));
    assert_eq!(time_from_digits(1, 2, 5), 3725);
    let (h, m, s) = time_digits(86399);
    assert_eq!(time_from_digits(h, m, s), 86399);
    assert_eq!(time_of_fields(5, 2, 1), (3725, false));
    assert_eq!(time_of_fields(0, 0, 0), (0, true));
}

#[test]
fn week_place_of_a_task() {
    let day = 86400;
    assert_eq!(week_place(0), WeekPlace::Day(0));
    assert_eq!(week_place(6 * day + 5), WeekPlace::Day(6));
    assert_eq!(week_place(7 * day), WeekPlace::Week(1));
    assert_eq!(week_place(20 * day), WeekPlace::Week(2));
    assert_eq!(week_place(-1), WeekPlace::Day(0));
    assert_eq!(week_place(-day), WeekPlace::Week(-1));
    assert_eq!(week_place(-8 * day), WeekPlace::Week(-2));
}

#[test]
fn split_lazy_shows_the_last_page_first() {
    let (shown, kept) = split_lazy(vec![1, 2, 3, 4, 5], 100, true);
    assert_eq!(shown, vec![5, 4]);
    assert_eq!(kept, vec![1, 2, 3]);
    let (shown, kept) = split_lazy(vec![1, 2, 3, 4, 5], 100, false);
    assert_eq!(shown, vec![1, 2, 3, 4, 5]);
    assert!(kept.is_empty());
    let (shown, kept) = split_lazy(vec![1, 2], 100, true);
    assert_eq!(shown, vec![1, 2]);
    assert!(kept.is_empty());
}

#[test]
fn step_move_swaps_with_the_next_row() {
    let positions = vec![3, 2, 1, 0];
    assert_eq!(step_move(&positions, 0, true), None);
    assert_eq!(step_move(&positions, 3, false), None);
    assert_eq!(step_move(&positions, 1, true), Some((0, 2, 3)));
    assert_eq!(step_move(&positions, 1, false), Some((2, 2, 1)));
}

#[test]
fn record_window_end_and_duration() {
    assert_eq!(record_end(1000, 60), 1060);
    assert_eq!(duration_to_end(1000, 1060), (60, false));
    assert_eq!(duration_to_end(1000, 900), (0, true));
    assert_eq!(duration_to_end(0, 1 << 32), (0, false));
}

#[test]
fn search_trims_and_lowercases_the_text() {
    let mut db = Database::new();
    iplan::db::operations::create_project(&mut db, "Äpfel kaufen").unwrap();
    create_task(&mut db, task("äpfel", 1, 0)).unwrap();
    create_task(&mut db, task("Milk", 1, 0)).unwrap();
    let found = search(&db, "  MILK \n", false).unwrap();
    assert_eq!(found.len(), 1);
    assert!(matches!(&found[0], SearchResultData::Task(t) if t.name == "Milk"));
    let found = search(&db, "ÄPFEL", false).unwrap();
    assert_eq!(found.len(), 1);
    assert!(matches!(&found[0], SearchResultData::Task(t) if t.name == "äpfel"));
    let found = search(&db, "äpfel", false).unwrap();
    assert_eq!(found.len(), 1);
    let found = search(&db, "k", false).unwrap();
    assert_eq!(found.len(), 2);
    assert!(matches!(&found[0], SearchResultData::Project(p) if p.name == "Äpfel kaufen"));
    assert!(matches!(&found[1], SearchResultData::Task(t) if t.name == "Milk"));
    assert!(search(&db, " \t ", false).is_none());
    assert!(search(&db, "", false).is_none());
}

#[test]
fn scroll_steps_by_direction() {
    assert_eq!(scroll_step(1), ScrollStep::Down);
    assert_eq!(scroll_step(-1), ScrollStep::Up);
    assert_eq!(scroll_step(2), ScrollStep::Right);
    assert_eq!(scroll_step(-2), ScrollStep::Left);
    assert_eq!(scroll_step(0), ScrollStep::Stop);
    assert_eq!(scroll_step(5), ScrollStep::Stop);
}

#[test]
fn row_task_is_the_parent_of_a_subtask() {
    let mut db = Database::new();
    let p = create_task(&mut db, task("p", 1, 0)).unwrap();
    let s = create_task(&mut db, task("s", 1, p.id)).unwrap();
    let lost = create_task(&mut db, task("lost", 1, 77)).unwrap();
    assert_eq!(row_task(&db, s.id).unwrap().name, "p");
    assert_eq!(row_task(&db, p.id).unwrap().name, "p");
    assert_eq!(row_task(&db, lost.id), Err(DbError::QueryReturnedNoRows));
    assert_eq!(row_task(&db, 99), Err(DbError::QueryReturnedNoRows));
}

#[test]
fn row_changes_after_a_save() {
    assert_eq!(row_change(true, true, false), RowChange::ResetSubtasks);
    assert_eq!(row_change(false, true, true), RowChange::Remove);
    assert_eq!(row_change(false, true, false), RowChange::Reset);
    assert_eq!(row_change(false, false, false), RowChange::Add);
    assert_eq!(row_change(true, false, true), RowChange::Keep);
}

#[test]
fn action_scopes_round_trip() {
    for scope in [ActionScope::Unscoped, ActionScope::Calendar, ActionScope::Project(42), ActionScope::DeleteToast] {
        let code = encode_scope(scope);
        assert_eq!(decode_scope(&code), Some(scope));
    }
    assert_eq!(encode_scope(ActionScope::Project(7)), [2, 7]);
    assert_eq!(decode_scope(&[]), None);
    assert_eq!(decode_scope(&[2]), None);
    assert_eq!(decode_scope(&[9, 0]), None);
    assert_eq!(decode_scope(&[1]), Some(ActionScope::Calendar));
}

#[test]
fn home_project_is_the_first_or_a_new_one() {
    let mut db = Database::new();
    let home = home_project(&mut db).unwrap();
    assert_eq!((home.id, home.index, home.name.as_str()), (1, 0, "Personal"));
    assert_eq!(db.sections.rows().len(), 1);
    assert_eq!((db.sections.rows()[0].name.as_str(), db.sections.rows()[0].project), ("Tasks", 1));
    iplan::db::operations::create_project(&mut db, "Second").unwrap();
    let mut second = iplan::db::operations::read_project(&db, 2).unwrap();
    second.index = 0;
    iplan::db::operations::update_project(&mut db, &second).unwrap();
    assert_eq!(home_project(&mut db).unwrap().name, "Second");
    assert_eq!(db.projects.rows().len(), 2);
}

#[test]
fn description_shows_its_first_line() {
    assert_eq!(description_display("first\nsecond"), "first");
    assert_eq!(description_display("windows\r\nline"), "windows");
    assert_eq!(description_display("only"), "only");
    assert_eq!(description_display(""), "");
    assert_eq!(description_display("\nafter"), "");
}

#[test]
fn empty_tasks_of_boxes() {
    let mut db = Database::new();
    let a = create_empty_task(&mut db, TasksBoxWrapper::Section(3, 1)).unwrap();
    let b = create_empty_task(&mut db, TasksBoxWrapper::Section(3, 1)).unwrap();
    assert_eq!((a.project, a.section, a.position), (1, 3, 0));
    assert_eq!((b.id, b.position), (2, 1));
    let s = create_empty_task(&mut db, TasksBoxWrapper::Task(a.id, 1)).unwrap();
    assert_eq!((s.parent, s.section, s.position, s.project), (a.id, 0, 0, 1));
    let d = create_empty_task(&mut db, TasksBoxWrapper::Date(500)).unwrap();
    assert_eq!((d.date, d.project, d.section, d.parent), (500, 0, 0, 0));
    assert!(d.name.is_empty() && !d.done);
    assert!(in_box(TasksBoxWrapper::Section(3, 9), &a));
    assert!(!in_box(TasksBoxWrapper::Section(4, 1), &a));
    assert!(in_box(TasksBoxWrapper::Task(a.id, 1), &s));
    assert!(in_box(TasksBoxWrapper::Date(500), &d));
}

#[test]
fn calendar_changes_after_a_save() {
    let mut t = Task::new(1, "a".to_string(), false, 1, 1, 0, false, 0, String::new(), 100);
    let old = Task::new(1, "a".to_string(), false, 1, 1, 0, false, 0, String::new(), 100);
    assert_eq!(calendar_change(&t, Some(&old)), CalendarChange::Keep);
    t.name = "b".to_string();
    assert_eq!(calendar_change(&t, Some(&old)), CalendarChange::ResetRow(false));
    t.suspended = true;
    assert_eq!(calendar_change(&t, Some(&old)), CalendarChange::ResetRow(true));
    t.date = 200;
    assert_eq!(calendar_change(&t, Some(&old)), CalendarChange::MoveRow(200));
    assert_eq!(calendar_change(&t, None), CalendarChange::AddRow(200));
    t.date = 0;
    assert_eq!(calendar_change(&t, None), CalendarChange::Keep);
}

#[test]
fn row_description_is_trimmed() {
    assert_eq!(row_description("  buy milk \n"), Some("buy milk".to_string()));
    assert_eq!(row_description(" \t\n "), None);
    assert_eq!(row_description(""), None);
    assert_eq!(row_description("x"), Some("x".to_string()));
}
