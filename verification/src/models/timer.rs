//! A timer: a span of time spent on something, with its category.

use vstd::prelude::*;
use crate::time::Timestamp;

verus! {

/// A timer as stored: its id, the note it was started with, the category
/// given to that note, when it started and, once it is ended, when it ended.
#[derive(Debug)]
pub struct Timer {
    pub id: i64,
    pub note: String,
    pub category: String,
    pub start_time: Timestamp,
    pub end_time: Option<Timestamp>,
}

impl Timer {
    /// A timer with the given fields.
    pub fn new(
        id: i64,
        note: String,
        category: String,
        start_time: Timestamp,
        end_time: Option<Timestamp>,
    ) -> (t: Self)
        ensures
            t == (Timer { id, note, category, start_time, end_time }),
    {
        Timer { id, note, category, start_time, end_time }
    }

    /// Whether both of the timer's times are instants that an RFC 3339 text can denote.
    pub fn has_valid_times(&self) -> (b: bool)
        ensures
            b == self.times_valid(),
    {
        self.start_time.is_valid() && match &self.end_time {
            Some(e) => e.is_valid(),
            None => true,
        }
    }

    /// Both of the timer's times are instants that an RFC 3339 text can denote.
    pub open spec fn times_valid(self) -> bool {
        &&& self.start_time.valid()
        &&& match self.end_time {
            Some(e) => e.valid(),
            None => true,
        }
    }
}

} // verus!
