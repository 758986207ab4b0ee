//! The record of the moves of the last run, which `undo` reverses.
use vstd::prelude::*;

verus! {

/// The file, in the current directory, that holds the move log.
pub const LOG_FILE: &'static str = "unfold_log.json";

/// One move: where the file was, where it went, and when.
#[derive(Clone, Debug)]
pub struct LogEntry {
    /// The path the file was moved from.
    pub source: String,
    /// The path the file was moved to.
    pub dest: String,
    /// When it was moved, as RFC 3339 text.
    pub timestamp: String,
}

/// The moves of one run, in the order in which they were made.
#[derive(Clone, Debug)]
pub struct OperationLog {
    pub entries: Vec<LogEntry>,
}

/// The source and destination of a log entry, as text.
pub open spec fn entry_move(e: LogEntry) -> (Seq<char>, Seq<char>) {
    (e.source@, e.dest@)
}

} // verus!
