//! The records the tool keeps: tasks and timers.

pub mod task;
pub mod timer;
