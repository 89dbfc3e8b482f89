//! What the tool reads from and writes to its database, as plain values.

pub mod task;
pub mod timer;

use vstd::prelude::*;
use crate::time::{Timestamp, format_rfc3339, in_four_digit_years, parsed_instant, rfc3339_text};

verus! {

/// Which stored date and time a row holds that does not parse.
#[derive(Clone, Copy, Debug, PartialEq, Eq, Structural)]
pub enum TimeField {
    CreatedAt,
    StartTime,
    EndTime,
}

/// A stored date and time that is not RFC 3339: the row's id, the column, the
/// text found there and the parser's error.
#[derive(Debug)]
pub struct BadTime {
    pub id: i64,
    pub field: TimeField,
    pub text: String,
    pub error: chrono::ParseError,
}

/// The RFC 3339 text under which an instant is stored.
pub fn timestamp_text(at: &Timestamp) -> (text: String)
    requires
        at.valid(),
    ensures
        text@ == rfc3339_text(at.secs, at.nanos),
        in_four_digit_years(at.secs as int) ==> parsed_instant(text@) == Some(*at),
{
    format_rfc3339(at)
}

} // verus!
