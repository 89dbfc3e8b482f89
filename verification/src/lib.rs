//! Tempus: a small productivity tool that keeps tasks and timers.
//!
//! This crate holds the logic of the tool: command parsing, argument checks,
//! the rows read back from storage, the lines shown to the user, the daily
//! summary by category and the label bookkeeping of the note classifier.

pub mod text;
pub mod arith;
pub mod time;
pub mod models;
pub mod storage;
pub mod repl;
pub mod ml_training;
pub mod ml;
