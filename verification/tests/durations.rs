use iplan::db::models::{Record, Reminder};

#[test]
fn duration_display_zero() {
    assert_eq!(Record::duration_display(0), "0:00");
}

#[test]
fn duration_display_under_a_minute() {
    assert_eq!(Record::duration_display(59), "0:59");
}

#[test]
fn duration_display_minutes_and_seconds() {
    assert_eq!(Record::duration_display(61), "1:01");
    assert_eq!(Record::duration_display(3599), "59:59");
}

#[test]
fn duration_display_hours() {
    assert_eq!(Record::duration_display(3600), "1:00:00");
    assert_eq!(Record::duration_display(3661), "1:01:01");
    assert_eq!(Record::duration_display(86399), "23:59:59");
}

#[test]
fn duration_display_one_day_untranslated() {
    assert_eq!(Record::duration_display(86400), "1 day 00:00");
}

#[test]
fn duration_display_days_untranslated() {
    assert_eq!(Record::duration_display(2 * 86400 + 3 * 3600 + 4 * 60 + 5), "2 days 03:04");
}

#[test]
fn duration_display_with_label() {
    assert_eq!(Record::duration_display_with(90061, "d"), "1 d 01:01");
    assert_eq!(Record::duration_display_with(10 * 86400 + 59, "Tage"), "10 Tage 00:00");
}

#[test]
fn duration_display_negative_as_rust_formats_it() {
    assert_eq!(Record::duration_display(-61), "-1:-1");
    assert_eq!(Record::duration_display(-5), "0:-5");
}

#[test]
fn record_new_and_default() {
    let r = Record::new(3, 100, 20, 7);
    assert_eq!((r.id, r.start, r.duration, r.task), (3, 100, 20, 7));
    let d = Record::default();
    assert_eq!((d.id, d.start, d.duration, d.task), (0, 0, 0, 1));
}

#[test]
fn reminder_datetime_duration_reads_unsigned() {
    let r = Reminder::new(1, 1_700_000_000, false, 2, 1);
    assert_eq!(r.datetime_duration(), 1_700_000_000u64);
    let before_epoch = Reminder::new(1, -1, false, 2, 1);
    assert_eq!(before_epoch.datetime_duration(), u64::MAX);
    let d = Reminder::default();
    assert_eq!((d.id, d.datetime, d.past, d.task, d.priority), (0, 0, false, 0, 2));
}
