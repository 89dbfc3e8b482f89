use tempus::models::task::Task;
use tempus::models::timer::Timer;
use tempus::repl::task::list as list_tasks;
use tempus::repl::timer::{list as list_timers, show_day, DayFailure, TimesShown};
use tempus::time::Timestamp;

fn ts(secs: i64) -> Timestamp {
    Timestamp { secs, nanos: 0 }
}

fn timer(id: i64, category: &str, start: i64, end: Option<i64>) -> Timer {
    Timer::new(id, format!("note {}", id), category.to_string(), ts(start), end.map(ts))
}

#[test]
fn task_list_spreads_each_line_over_the_width() {
    let tasks = vec![
        Task::new(7, "milk".to_string(), ts(0), true),
        Task::new(12, "bread".to_string(), ts(0), false),
    ];
    let lines = list_tasks(&tasks, 20);
    assert_eq!(lines, vec!["[✓] milk       id: 7".to_string(), "[ ] bread     id: 12".to_string()]);
    assert!(lines.iter().all(|l| l.chars().count() == 20));
}

#[test]
fn task_list_lines_do_not_shrink_below_their_text() {
    let tasks = vec![Task::new(-3, "a long title".to_string(), ts(0), false)];
    assert_eq!(list_tasks(&tasks, 5), vec!["[ ] a long titleid: -3".to_string()]);
}

#[test]
fn empty_task_list_says_so() {
    assert_eq!(list_tasks(&Vec::new(), 80), vec!["📝  No tasks found.".to_string()]);
}

#[test]
fn timer_list_shows_note_category_and_times() {
    let timers = vec![timer(1, "work", 0, Some(60)), timer(22, "play", 0, None)];
    let shown = vec![
        TimesShown { start: "09:00 01/05/24".to_string(), end: Some("10:00 01/05/24".to_string()) },
        TimesShown { start: "11:00 01/05/24".to_string(), end: None },
    ];
    let lines = list_timers(&timers, &shown, 60);
    let first = "note 1 (work) [09:00 01/05/24 - 10:00 01/05/24]";
    let second = "note 22 (play) [11:00 01/05/24 - Not ended]";
    assert_eq!(lines[0], format!("{}{}{}", first, " ".repeat(60 - first.chars().count() - 5), "id: 1"));
    assert_eq!(lines[1], format!("{}{}{}", second, " ".repeat(60 - second.chars().count() - 6), "id: 22"));
    assert_eq!(list_timers(&Vec::new(), &Vec::new(), 60), vec!["⏱  No timers found.".to_string()]);
}

fn expected_line(category: &str, minutes: i64, max: i64) -> String {
    let bar_len = (minutes * 20 / max).max(1) as usize;
    let bar = "█".repeat(bar_len);
    format!("{:<10} | {:<20} {:>2}h {:>2}m", category, bar, minutes / 60, minutes % 60)
}

#[test]
fn show_day_sums_minutes_by_category() {
    let timers = vec![
        timer(1, "work", 0, Some(3600)),
        timer(2, "play", 4000, Some(5830)),
        timer(3, "work", 6000, Some(7800)),
        timer(4, "sleep", 9000, None),
    ];
    let report = show_day(&timers);
    assert_eq!(report.failure, None);
    assert_eq!(
        report.lines,
        vec![
            "\n🧱 Time Spent Today by Category:\n".to_string(),
            expected_line("work", 90, 90),
            expected_line("play", 30, 90),
        ]
    );
    assert_eq!(report.lines[1], "work       | ████████████████████  1h 30m");
    assert_eq!(report.lines[2], "play       | ██████                0h 30m");
}

#[test]
fn show_day_rounds_minutes_toward_zero() {
    let timers = vec![
        timer(1, "a", 0, Some(119)),
        timer(2, "b", 1000, Some(910)),
        Timer::new(3, "n".to_string(), "a".to_string(), Timestamp { secs: 0, nanos: 500_000_000 }, Some(Timestamp { secs: 60, nanos: 400_000_000 })),
    ];
    let report = show_day(&timers);
    assert_eq!(report.failure, None);
    assert_eq!(report.lines[1], expected_line("a", 1, 1));
    assert_eq!(report.lines[2], expected_line("b", -1, 1));
}

#[test]
fn show_day_with_no_timers_says_so() {
    let report = show_day(&Vec::new());
    assert_eq!(report.lines, vec!["⏱  No timers found for today.".to_string()]);
    assert_eq!(report.failure, None);
}

#[test]
fn show_day_with_only_running_timers_shows_the_heading() {
    let report = show_day(&vec![timer(1, "work", 0, None)]);
    assert_eq!(report.lines, vec!["\n🧱 Time Spent Today by Category:\n".to_string()]);
    assert_eq!(report.failure, None);
}

#[test]
fn show_day_stops_where_the_largest_total_is_zero() {
    let report = show_day(&vec![timer(1, "work", 0, Some(30)), timer(2, "rest", 0, Some(10))]);
    assert_eq!(report.lines, vec!["\n🧱 Time Spent Today by Category:\n".to_string()]);
    assert_eq!(report.failure, Some(DayFailure::DivideByZero));
}

#[test]
fn show_day_scales_negative_totals_too() {
    let report = show_day(&vec![timer(1, "back", 600, Some(0))]);
    assert_eq!(report.failure, None);
    assert_eq!(report.lines[1], expected_line("back", -10, -10));
}

#[test]
fn minutes_across_a_leap_second_are_counted_as_chrono_counts_them() {
    let cases = [
        (Timestamp { secs: 1483228739, nanos: 0 }, Timestamp { secs: 1483228799, nanos: 1_500_000_000 }),
        (Timestamp { secs: 1483228799, nanos: 1_000_000_000 }, Timestamp { secs: 1483228859, nanos: 0 }),
        (Timestamp { secs: 1483228859, nanos: 0 }, Timestamp { secs: 1483228799, nanos: 1_200_000_000 }),
        (Timestamp { secs: 1483228799, nanos: 1_999_999_999 }, Timestamp { secs: 1483228800 + 119, nanos: 0 }),
    ];
    for (start, end) in cases {
        let s = chrono::DateTime::<chrono::Utc>::from_timestamp(start.secs, start.nanos).unwrap();
        let e = chrono::DateTime::<chrono::Utc>::from_timestamp(end.secs, end.nanos).unwrap();
        let expected = e.signed_duration_since(s).num_minutes();
        let t = Timer::new(1, "n".to_string(), "c".to_string(), start, Some(end));
        let report = show_day(&vec![t]);
        if expected == 0 {
            assert_eq!(report.failure, Some(DayFailure::DivideByZero));
        } else {
            assert_eq!(report.lines[1], expected_line("c", expected, expected));
        }
    }
}

#[test]
fn running_timers_do_not_change_the_summary() {
    let ended = vec![timer(1, "work", 0, Some(3600)), timer(2, "play", 0, Some(600))];
    let with_running = vec![
        timer(1, "work", 0, Some(3600)),
        timer(3, "sleep", 100, None),
        timer(2, "play", 0, Some(600)),
        timer(4, "work", 100, None),
    ];
    let a = show_day(&ended);
    let b = show_day(&with_running);
    assert_eq!(a.lines, b.lines);
    assert_eq!(a.failure, b.failure);
}
