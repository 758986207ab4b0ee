//! The commands of the command-line tool.
use vstd::prelude::*;
use crate::config::ConflictStrategy;

verus! {

/// The command line: one sub-command.
pub struct Cli {
    pub command: Commands,
}

/// The sub-commands.
pub enum Commands {
    /// Flatten the files under `source` into `dest`.
    Run {
        source: String,
        dest: String,
        move_files: bool,
        dry_run: bool,
        conflict: ConflictStrategy,
        cleanup: bool,
    },
    /// Reverse the moves of the last run.
    Undo,
    /// Show the move log.
    Log,
}

} // verus!
