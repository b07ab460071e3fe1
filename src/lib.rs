//! Media library organiser: per-file metadata records, scan statistics,
//! organisation plans and the decisions of plan execution.

pub mod types;
pub mod text;
pub mod organizer;
pub mod dates;
pub mod classify;
pub mod scanner;
pub mod executor;
pub mod commands;
