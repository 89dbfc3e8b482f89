//! Instants in time, and what the `chrono` crate computes on them.
//!
//! An instant is held as whole seconds since 1970-01-01T00:00:00Z and the
//! nanoseconds past that second; as in `chrono`, a leap second is held as
//! the second `:59` with a nanosecond count of one billion or more.

use vstd::prelude::*;
use chrono::{DateTime, Utc};
use crate::arith::{trunc_div, trunc_rem};

verus! {

/// `chrono::ParseError`: why a text is not an RFC 3339 date and time.
#[verifier::external_type_specification]
#[verifier::external_body]
pub struct ExParseError(chrono::ParseError);

/// An instant: whole seconds since the Unix epoch and nanoseconds past them.
#[derive(Clone, Copy, Debug, PartialEq, Eq, Structural)]
pub struct Timestamp {
    pub secs: i64,
    pub nanos: u32,
}

/// The first second of year 0000 and the last second of year 9999, UTC.
pub open spec fn in_four_digit_years(secs: int) -> bool {
    -62167219200 <= secs <= 253402300799
}

/// What an RFC 3339 text can denote: a four-digit local year shifted by an
/// offset of less than a day, a nanosecond count below two billion, and a leap
/// second only on a `:59` second.
pub open spec fn valid_instant(secs: int, nanos: int) -> bool {
    &&& -62167219200 - 86400 <= secs <= 253402300799 + 86400
    &&& 0 <= nanos < 2_000_000_000
    &&& nanos >= 1_000_000_000 ==> secs % 60 == 59
}

impl Timestamp {
    /// The instant is one that an RFC 3339 text can denote.
    pub open spec fn valid(self) -> bool {
        valid_instant(self.secs as int, self.nanos as int)
    }

    /// Whether the instant is one that an RFC 3339 text can denote.
    pub fn is_valid(&self) -> (b: bool)
        ensures
            b == self.valid(),
    {
        let r = crate::arith::rem_trunc(self.secs, 60);
        let ghost a = self.secs as int;
        assert((a % 60 == 59) == (r == 59 || r == -1)) by (nonlinear_arith)
            requires
                r == trunc_rem(a, 60),
                trunc_rem(a, 60) == a - 60 * trunc_div(a, 60),
                trunc_div(a, 60) == (if a < 0 { -((-a) / 60) } else { a / 60 }),
        ;
        -62167219200 - 86400 <= self.secs && self.secs <= 253402300799 + 86400 && self.nanos
            < 2_000_000_000 && (self.nanos < 1_000_000_000 || r == 59 || r == -1)
    }

    /// Nanoseconds since the epoch.
    pub open spec fn total_nanos(self) -> int {
        self.secs * 1_000_000_000 + self.nanos
    }
}

/// What `DateTime::parse_from_rfc3339` reads from a text: the instant, as
/// (seconds, nanoseconds) since the epoch in UTC, or the error it reports.
pub uninterp spec fn rfc3339_parse(text: Seq<char>) -> Result<(i64, u32), chrono::ParseError>;

/// The instant that a text denotes, read as `parse_rfc3339` reads it.
pub open spec fn parsed_instant(text: Seq<char>) -> Option<Timestamp> {
    match rfc3339_parse(text) {
        Ok(p) => Some(Timestamp { secs: p.0, nanos: p.1 }),
        Err(_) => None,
    }
}

/// The text that `DateTime::<Utc>::to_rfc3339` writes for an instant.
pub uninterp spec fn rfc3339_text(secs: i64, nanos: u32) -> Seq<char>;

/// The nanoseconds from `start` to `end` as `chrono` counts them: whole days,
/// then the seconds within the day, where a leap second counts only when the
/// other instant lies on the far side of it.
pub open spec fn nanos_between(start: Timestamp, end: Timestamp) -> int {
    let start_day = start.secs as int / 86400;
    let start_sec = start.secs as int % 86400;
    let end_day = end.secs as int / 86400;
    let end_sec = end.secs as int % 86400;
    let leap = if end_sec > start_sec && start.nanos >= 1_000_000_000 {
        1int
    } else if end_sec < start_sec && end.nanos >= 1_000_000_000 {
        -1int
    } else {
        0int
    };
    (end_day - start_day) * 86_400_000_000_000 + (end_sec - start_sec + leap) * 1_000_000_000
        + end.nanos - start.nanos
}

/// The whole minutes from `start` to `end`, rounded toward zero.
pub open spec fn minutes_from(start: Timestamp, end: Timestamp) -> int {
    trunc_div(nanos_between(start, end), 60_000_000_000)
}

/// A parse result with the instant as (seconds, nanoseconds).
pub open spec fn parse_outcome(r: Result<Timestamp, chrono::ParseError>) -> Result<(i64, u32), chrono::ParseError> {
    match r {
        Ok(t) => Ok((t.secs, t.nanos)),
        Err(e) => Err(e),
    }
}

/// Calls `DateTime::parse_from_rfc3339` and converts the result to UTC.
/// Claims: the result is what `rfc3339_parse` names: the instant where the
/// text parses, the parser's error where it does not; and a parsed instant is
/// a valid one (the parser reads a four-digit year, an offset below a day in
/// whole minutes, and turns a `:60` second into a leap second on `:59`).
#[verifier::external_body]
pub(crate) fn parse_rfc3339(text: &str) -> (r: Result<Timestamp, chrono::ParseError>)
    ensures
        rfc3339_parse(text@) == parse_outcome(r),
        r matches Ok(t) ==> t.valid(),
{
    match DateTime::parse_from_rfc3339(text) {
        Ok(dt) => {
            let utc = dt.with_timezone(&Utc);
            Ok(Timestamp { secs: utc.timestamp(), nanos: utc.timestamp_subsec_nanos() })
        },
        Err(e) => Err(e),
    }
}

/// Calls `DateTime::<Utc>::from_timestamp` and `to_rfc3339` on the instant.
/// Claims: the text is `rfc3339_text` of the instant, and for an instant in the
/// years 0000 to 9999 the parser reads the same instant back from it (the writer
/// prints four-digit years, `:60` for a leap second and all nonzero sub-second
/// digits).
#[verifier::external_body]
pub(crate) fn format_rfc3339(t: &Timestamp) -> (text: String)
    requires
        t.valid(),
    ensures
        text@ == rfc3339_text(t.secs, t.nanos),
        in_four_digit_years(t.secs as int) ==> parsed_instant(text@) == Some(*t),
{
    DateTime::<Utc>::from_timestamp(t.secs, t.nanos).unwrap().to_rfc3339()
}

/// Calls `DateTime::<Utc>::from_timestamp` on both instants, then
/// `signed_duration_since` and `num_minutes`.
/// Claims: the result is `minutes_from` the first instant to the second: the
/// day difference and the difference of the seconds within the day (with the
/// leap-second adjustment of `NaiveTime::signed_duration_since`) and of the
/// nanoseconds, in whole minutes rounded toward zero.
#[verifier::external_body]
pub(crate) fn minutes_between(start: &Timestamp, end: &Timestamp) -> (m: i64)
    requires
        start.valid(),
        end.valid(),
    ensures
        m == minutes_from(*start, *end),
{
    let s = DateTime::<Utc>::from_timestamp(start.secs, start.nanos).unwrap();
    let e = DateTime::<Utc>::from_timestamp(end.secs, end.nanos).unwrap();
    e.signed_duration_since(s).num_minutes()
}

/// Where neither instant is a leap second, the minutes between them are the
/// nanoseconds between them over sixty billion, rounded toward zero.
pub proof fn lemma_minutes_without_leap(start: Timestamp, end: Timestamp)
    requires
        start.nanos < 1_000_000_000,
        end.nanos < 1_000_000_000,
    ensures
        minutes_from(start, end) == trunc_div(end.total_nanos() - start.total_nanos(), 60_000_000_000),
{
    let a = start.secs as int;
    let b = end.secs as int;
    assert(a == (a / 86400) * 86400 + a % 86400) by (nonlinear_arith);
    assert(b == (b / 86400) * 86400 + b % 86400) by (nonlinear_arith);
    assert(nanos_between(start, end) == end.total_nanos() - start.total_nanos()) by (nonlinear_arith)
        requires
            a == (a / 86400) * 86400 + a % 86400,
            b == (b / 86400) * 86400 + b % 86400,
            nanos_between(start, end) == (b / 86400 - a / 86400) * 86_400_000_000_000 + (b % 86400
                - a % 86400) * 1_000_000_000 + end.nanos - start.nanos,
            end.total_nanos() == b * 1_000_000_000 + end.nanos,
            start.total_nanos() == a * 1_000_000_000 + start.nanos,
    ;
}

} // verus!
