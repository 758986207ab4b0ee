//! Flattening nested directories: the decisions of a run (which name each
//! file gets in the destination, which are skipped, what the move log holds),
//! of undoing a run, and of removing emptied directories afterwards. The
//! file system itself is left to the caller, which carries out the actions
//! these state machines ask for and reports what happened.

pub mod cleanup;
pub mod cli;
pub mod config;
pub mod flatten;
pub mod log;
pub mod naming;
pub mod undo;
