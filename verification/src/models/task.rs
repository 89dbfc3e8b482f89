//! A task: a titled item that is done or not.

use vstd::prelude::*;
use crate::time::Timestamp;

verus! {

/// A task as stored: its id, its title, when it was created and whether it is done.
#[derive(Debug)]
pub struct Task {
    pub id: i64,
    pub title: String,
    pub created_at: Timestamp,
    pub completed: bool,
}

impl Task {
    /// A task with the given fields.
    pub fn new(id: i64, title: String, created_at: Timestamp, completed: bool) -> (t: Self)
        ensures
            t == (Task { id, title, created_at, completed }),
    {
        Task { id, title, created_at, completed }
    }
}

} // verus!
