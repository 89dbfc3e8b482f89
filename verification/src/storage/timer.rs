//! Timers as the database holds them, and the timers read from them.

use vstd::prelude::*;
use crate::models::timer::Timer;
use crate::storage::{BadTime, TimeField};
use crate::time::{parse_rfc3339, parsed_instant, rfc3339_parse};

verus! {

broadcast use vstd::seq_lib::group_seq_properties;

/// A row of the `timers` table: start and end times are the stored texts, and
/// the end time is absent until the timer is ended.
#[derive(Debug)]
pub struct TimerRow {
    pub id: i64,
    pub note: String,
    pub category: String,
    pub start_time: String,
    pub end_time: Option<String>,
}

/// The timer that a row holds, where its start time and any end time parse.
pub open spec fn timer_of_row(row: TimerRow) -> Option<Timer> {
    match parsed_instant(row.start_time@) {
        None => None,
        Some(start) => match row.end_time {
            None => Some(
                Timer {
                    id: row.id,
                    note: row.note,
                    category: row.category,
                    start_time: start,
                    end_time: None,
                },
            ),
            Some(e) => match parsed_instant(e@) {
                Some(end) => Some(
                    Timer {
                        id: row.id,
                        note: row.note,
                        category: row.category,
                        start_time: start,
                        end_time: Some(end),
                    },
                ),
                None => None,
            },
        },
    }
}

/// The first stored time of a row that does not parse, with its text: the
/// start time is read before the end time.
pub open spec fn bad_time_of_row(row: TimerRow) -> Option<(i64, TimeField, Seq<char>)> {
    if parsed_instant(row.start_time@) is None {
        Some((row.id, TimeField::StartTime, row.start_time@))
    } else {
        match row.end_time {
            Some(e) => if parsed_instant(e@) is None {
                Some((row.id, TimeField::EndTime, e@))
            } else {
                None
            },
            None => None,
        }
    }
}

/// The timers that the rows hold, skipping the rows whose times do not parse.
pub open spec fn timers_of_rows(rows: Seq<TimerRow>) -> Seq<Timer> {
    rows.filter_map(|row: TimerRow| timer_of_row(row))
}

/// The rows skipped by `timers_of_rows`, as (id, column, text).
pub open spec fn bad_times_of_rows(rows: Seq<TimerRow>) -> Seq<(i64, TimeField, Seq<char>)> {
    rows.filter_map(|row: TimerRow| bad_time_of_row(row))
}

/// What a bad stored time is, as (id, column, text).
pub open spec fn bad_time_info(b: BadTime) -> (i64, TimeField, Seq<char>) {
    (b.id, b.field, b.text@)
}

/// The error kept for a bad stored time is the parser's error on its text.
pub open spec fn error_matches_text(b: BadTime) -> bool {
    rfc3339_parse(b.text@) == Err::<(i64, u32), chrono::ParseError>(b.error)
}

/// Reads one row: the timer it holds, or its first stored time that does not parse.
fn read_row(row: &TimerRow) -> (r: Result<Timer, BadTime>)
    ensures
        r is Ok <==> timer_of_row(*row) is Some,
        r is Ok <==> bad_time_of_row(*row) is None,
        r matches Ok(t) ==> timer_of_row(*row) == Some(t),
        r matches Err(b) ==> bad_time_of_row(*row) == Some(bad_time_info(b)),
        r matches Err(b) ==> error_matches_text(b),
{
    let start = match parse_rfc3339(row.start_time.as_str()) {
        Ok(t) => t,
        Err(e) => {
            return Err(
                BadTime { id: row.id, field: TimeField::StartTime, text: row.start_time.clone(), error: e },
            );
        },
    };
    let end = match &row.end_time {
        None => None,
        Some(text) => match parse_rfc3339(text.as_str()) {
            Ok(t) => Some(t),
            Err(e) => {
                return Err(
                    BadTime { id: row.id, field: TimeField::EndTime, text: text.clone(), error: e },
                );
            },
        },
    };
    Ok(Timer::new(row.id, row.note.clone(), row.category.clone(), start, end))
}

/// The first row whose start time, or end time where it has one, does not
/// parse, with the parser's error on its text; `None` where every time parses.
pub fn first_bad_timer_time(rows: &Vec<TimerRow>) -> (r: Option<BadTime>)
    ensures
        r is None <==> (forall|i: int| 0 <= i < rows@.len() ==> (#[trigger] timer_of_row(rows@[i])) is Some),
        r matches Some(e) ==> exists|i: int|
            {
                &&& 0 <= i < rows@.len()
                &&& bad_time_of_row(#[trigger] rows@[i]) == Some(bad_time_info(e))
                &&& forall|j: int| 0 <= j < i ==> (#[trigger] timer_of_row(rows@[j])) is Some
            },
        r matches Some(e) ==> error_matches_text(e),
{
    let mut i: usize = 0;
    while i < rows.len()
        invariant
            i <= rows@.len(),
            forall|j: int| 0 <= j < i ==> (#[trigger] timer_of_row(rows@[j])) is Some,
        decreases rows.len() - i,
    {
        match read_row(&rows[i]) {
            Ok(_) => {},
            Err(e) => {
                return Some(e);
            },
        }
        i = i + 1;
    }
    None
}

/// The timers that the rows hold, in order; every start time, and every end
/// time there is, must parse.
pub fn get_timers(rows: &Vec<TimerRow>) -> (timers: Vec<Timer>)
    requires
        forall|i: int| 0 <= i < rows@.len() ==> (#[trigger] timer_of_row(rows@[i])) is Some,
    ensures
        timers@.len() == rows@.len(),
        forall|i: int| 0 <= i < rows@.len() ==> Some(#[trigger] timers@[i]) == timer_of_row(rows@[i]),
{
    let mut timers: Vec<Timer> = Vec::new();
    let mut i: usize = 0;
    while i < rows.len()
        invariant
            i <= rows@.len(),
            timers@.len() == i,
            forall|j: int| 0 <= j < rows@.len() ==> (#[trigger] timer_of_row(rows@[j])) is Some,
            forall|j: int| 0 <= j < i ==> Some(#[trigger] timers@[j]) == timer_of_row(rows@[j]),
        decreases rows.len() - i,
    {
        assert(timer_of_row(rows@[i as int]) is Some);
        if let Ok(t) = read_row(&rows[i]) {
            timers.push(t);
        }
        i = i + 1;
    }
    timers
}

/// The timers that the rows hold, in order, where every stored time parses;
/// else the first row with a time that does not, which the tool cannot show.
pub fn try_get_timers(rows: &Vec<TimerRow>) -> (r: Result<Vec<Timer>, BadTime>)
    ensures
        r is Ok <==> (forall|i: int| 0 <= i < rows@.len() ==> (#[trigger] timer_of_row(rows@[i])) is Some),
        r matches Ok(timers) ==> {
            &&& timers@.len() == rows@.len()
            &&& forall|i: int| 0 <= i < rows@.len() ==> Some(#[trigger] timers@[i]) == timer_of_row(rows@[i])
        },
        r matches Err(e) ==> exists|i: int|
            {
                &&& 0 <= i < rows@.len()
                &&& bad_time_of_row(#[trigger] rows@[i]) == Some(bad_time_info(e))
                &&& forall|j: int| 0 <= j < i ==> (#[trigger] timer_of_row(rows@[j])) is Some
            },
        r matches Err(e) ==> error_matches_text(e),
{
    match first_bad_timer_time(rows) {
        Some(e) => Err(e),
        None => Ok(get_timers(rows)),
    }
}

/// The timers read for a day, and the rows skipped because a stored time does
/// not parse.
#[derive(Debug)]
pub struct DayRows {
    pub timers: Vec<Timer>,
    pub skipped: Vec<BadTime>,
}

/// The timers that the rows hold, in order, skipping each row whose start
/// time, or end time where it has one, does not parse; the skipped rows in order.
pub fn get_day_timers(rows: &Vec<TimerRow>) -> (r: DayRows)
    ensures
        r.timers@ == timers_of_rows(rows@),
        r.skipped@.map_values(|b: BadTime| bad_time_info(b)) == bad_times_of_rows(rows@),
        forall|k: int| 0 <= k < r.skipped@.len() ==> error_matches_text(#[trigger] r.skipped@[k]),
{
    let mut timers: Vec<Timer> = Vec::new();
    let mut skipped: Vec<BadTime> = Vec::new();
    let mut i: usize = 0;
    while i < rows.len()
        invariant
            i <= rows@.len(),
            timers@ == timers_of_rows(rows@.take(i as int)),
            skipped@.map_values(|b: BadTime| bad_time_info(b)) == bad_times_of_rows(rows@.take(i as int)),
            forall|k: int| 0 <= k < skipped@.len() ==> error_matches_text(#[trigger] skipped@[k]),
        decreases rows.len() - i,
    {
        proof {
            rows@.lemma_filter_map_take_succ(|row: TimerRow| timer_of_row(row), i as int);
            rows@.lemma_filter_map_take_succ(|row: TimerRow| bad_time_of_row(row), i as int);
        }
        let ghost before = skipped@;
        match read_row(&rows[i]) {
            Ok(t) => timers.push(t),
            Err(e) => {
                skipped.push(e);
                assert(skipped@.map_values(|b: BadTime| bad_time_info(b)) == before.map_values(
                    |b: BadTime| bad_time_info(b),
                ).push(bad_time_info(skipped@.last())));
            },
        }
        i = i + 1;
    }
    assert(rows@.take(rows@.len() as int) == rows@);
    DayRows { timers, skipped }
}

/// Every row of a day is either read as a timer or reported as skipped.
pub proof fn lemma_day_rows_accounted(rows: Seq<TimerRow>)
    ensures
        timers_of_rows(rows).len() + bad_times_of_rows(rows).len() == rows.len(),
    decreases rows.len(),
{
    if rows.len() > 0 {
        lemma_day_rows_accounted(rows.drop_last());
        assert(timers_of_rows(rows) == rows.drop_last().filter_map(|row: TimerRow| timer_of_row(row))
            + (match timer_of_row(rows.last()) {
            Some(t) => seq![t],
            None => Seq::empty(),
        }));
        assert(bad_times_of_rows(rows) == rows.drop_last().filter_map(
            |row: TimerRow| bad_time_of_row(row),
        ) + (match bad_time_of_row(rows.last()) {
            Some(b) => seq![b],
            None => Seq::empty(),
        }));
    }
}

} // verus!
