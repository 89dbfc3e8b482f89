use tempus::models::task::Task;
use tempus::models::timer::Timer;
use tempus::storage::task::{add_task, get_tasks, try_get_tasks, TaskRow};
use tempus::storage::timer::{get_day_timers, get_timers, try_get_timers, TimerRow};
use tempus::storage::{timestamp_text, TimeField};
use tempus::time::Timestamp;

fn ts(secs: i64, nanos: u32) -> Timestamp {
    Timestamp { secs, nanos }
}

fn task_row(id: i64, title: &str, created: &str, completed: bool) -> TaskRow {
    TaskRow { id, title: title.to_string(), created_at: created.to_string(), completed }
}

fn timer_row(id: i64, start: &str, end: Option<&str>) -> TimerRow {
    TimerRow {
        id,
        note: format!("note {}", id),
        category: "work".to_string(),
        start_time: start.to_string(),
        end_time: end.map(|e| e.to_string()),
    }
}

#[test]
fn new_records_hold_their_fields() {
    let t = Task::new(3, "write".to_string(), ts(10, 5), true);
    assert_eq!((t.id, t.title.as_str(), t.created_at, t.completed), (3, "write", ts(10, 5), true));
    let r = Timer::new(4, "n".to_string(), "c".to_string(), ts(1, 0), None);
    assert_eq!((r.id, r.note.as_str(), r.category.as_str(), r.start_time, r.end_time), (4, "n", "c", ts(1, 0), None));
}

#[test]
fn stored_times_are_read_in_utc() {
    let rows = vec![
        task_row(1, "a", "2024-01-02T03:04:05+00:00", false),
        task_row(2, "b", "2024-01-02T05:04:05+02:00", true),
        task_row(3, "c", "2024-01-02T03:04:05.250Z", false),
        task_row(4, "d", "2016-12-31T23:59:60Z", false),
    ];
    let tasks = get_tasks(&rows);
    assert_eq!(tasks.len(), 4);
    assert_eq!(try_get_tasks(&rows).unwrap().len(), 4);
    assert_eq!(tasks[0].created_at, ts(1704164645, 0));
    assert_eq!(tasks[1].created_at, ts(1704164645, 0));
    assert_eq!(tasks[2].created_at, ts(1704164645, 250_000_000));
    assert_eq!(tasks[3].created_at, ts(1483228799, 1_000_000_000));
    assert_eq!((tasks[1].id, tasks[1].title.as_str(), tasks[1].completed), (2, "b", true));
}

#[test]
fn get_tasks_reports_the_first_bad_time() {
    let rows = vec![
        task_row(1, "a", "2024-01-02T03:04:05+00:00", false),
        task_row(2, "b", "yesterday", false),
        task_row(3, "c", "also bad", false),
    ];
    let err = try_get_tasks(&rows).unwrap_err();
    assert_eq!((err.id, err.field, err.text.as_str()), (2, TimeField::CreatedAt, "yesterday"));
    assert_eq!(err.error, chrono::DateTime::parse_from_rfc3339("yesterday").unwrap_err());
    assert!(try_get_tasks(&Vec::new()).unwrap().is_empty());
    assert!(get_tasks(&Vec::new()).is_empty());
}

#[test]
fn a_new_task_keeps_the_moment_it_was_added() {
    let now = ts(1_700_000_000, 123_000_000);
    let text = timestamp_text(&now);
    assert_eq!(text, "2023-11-14T22:13:20.123+00:00");
    let task = add_task(17, "plan the week", &text).unwrap();
    assert_eq!((task.id, task.title.as_str(), task.created_at, task.completed), (17, "plan the week", now, false));
    let err = add_task(1, "x", "2023-13-01T00:00:00Z").unwrap_err();
    assert_eq!(err, chrono::DateTime::parse_from_rfc3339("2023-13-01T00:00:00Z").unwrap_err());
}

#[test]
fn stored_text_reads_back_as_the_same_instant() {
    for now in [ts(0, 0), ts(-1, 999_999_999), ts(1483228799, 1_000_000_000), ts(253402300799, 5), ts(-62167219200, 0)] {
        let text = timestamp_text(&now);
        let back = add_task(1, "t", &text).unwrap().created_at;
        assert_eq!(back, now, "text {}", text);
        let dt = chrono::DateTime::<chrono::Utc>::from_timestamp(now.secs, now.nanos).unwrap();
        assert_eq!(text, dt.to_rfc3339());
    }
}

#[test]
fn get_timers_reads_start_then_end() {
    let rows = vec![
        timer_row(1, "2024-05-01T09:00:00Z", Some("2024-05-01T10:30:00Z")),
        timer_row(2, "2024-05-01T11:00:00Z", None),
    ];
    let timers = get_timers(&rows);
    assert_eq!(try_get_timers(&rows).unwrap().len(), 2);
    assert_eq!(timers.len(), 2);
    assert_eq!(timers[0].start_time, ts(1714554000, 0));
    assert_eq!(timers[0].end_time, Some(ts(1714559400, 0)));
    assert_eq!(timers[1].end_time, None);
    assert_eq!((timers[1].note.as_str(), timers[1].category.as_str()), ("note 2", "work"));

    let bad_end = vec![timer_row(1, "2024-05-01T09:00:00Z", None), timer_row(5, "2024-05-01T09:00:00Z", Some("soon"))];
    let e = try_get_timers(&bad_end).unwrap_err();
    assert_eq!(e.error, chrono::DateTime::parse_from_rfc3339("soon").unwrap_err());
    assert_eq!((e.id, e.field, e.text.as_str()), (5, TimeField::EndTime, "soon"));

    let bad_start = vec![timer_row(6, "then", Some("also bad"))];
    let e = try_get_timers(&bad_start).unwrap_err();
    assert_eq!((e.id, e.field, e.text.as_str()), (6, TimeField::StartTime, "then"));
}

#[test]
fn day_timers_skip_rows_that_do_not_parse() {
    let rows = vec![
        timer_row(1, "2024-05-01T09:00:00Z", Some("2024-05-01T10:00:00Z")),
        timer_row(2, "09:00", None),
        timer_row(3, "2024-05-01T11:00:00Z", Some("later")),
        timer_row(4, "2024-05-01T12:00:00Z", None),
    ];
    let day = get_day_timers(&rows);
    let ids: Vec<i64> = day.timers.iter().map(|t| t.id).collect();
    assert_eq!(ids, vec![1, 4]);
    let skipped: Vec<(i64, TimeField, String)> =
        day.skipped.iter().map(|b| (b.id, b.field, b.text.clone())).collect();
    assert_eq!(skipped, vec![(2, TimeField::StartTime, "09:00".to_string()), (3, TimeField::EndTime, "later".to_string())]);
    assert_eq!(day.timers.len() + day.skipped.len(), rows.len());
    for b in &day.skipped {
        assert_eq!(b.error, chrono::DateTime::parse_from_rfc3339(&b.text).unwrap_err());
    }
}

#[test]
fn an_added_task_reads_back_from_its_row() {
    let now = ts(1_700_000_000, 0);
    let text = timestamp_text(&now);
    let added = add_task(9, "call mum", &text).unwrap();
    let rows = vec![
        task_row(3, "other", "2024-01-02T03:04:05+00:00", true),
        task_row(9, "call mum", &text, false),
    ];
    let listed = get_tasks(&rows);
    let same: Vec<&Task> = listed.iter().filter(|t| t.id == added.id).collect();
    assert_eq!(same.len(), 1);
    assert_eq!((same[0].title.as_str(), same[0].created_at, same[0].completed), (added.title.as_str(), added.created_at, added.completed));
}
