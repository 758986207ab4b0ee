use std::collections::HashSet;

use unfold_core::config::{ConflictStrategy, FileOp, RunConfig};
use unfold_core::flatten::{Flatten, RunAction, RunError, RunEvent};
use unfold_core::log::OperationLog;
use unfold_core::undo::{Undo, UndoAction, UndoEvent};

fn stamp() -> String {
    chrono::Local::now().to_rfc3339()
}

fn config(move_files: bool, dry_run: bool, conflict: ConflictStrategy, cleanup: bool) -> RunConfig {
    RunConfig { move_files, dry_run, conflict, cleanup }
}

/// What a driver saw while running a flatten against a simulated directory.
#[derive(Debug, Default)]
struct Trace {
    checks: Vec<String>,
    processed: Vec<(String, String, FileOp)>,
    skipped: Vec<String>,
    saved_log: Vec<(String, String)>,
    cleanup: bool,
    end: Option<Result<(), RunError>>,
}

/// Runs `files` into `dest` where `existing` paths already exist; a process
/// of a source listed in `failing` fails. Successful non-preview operations
/// create their destination.
fn drive(
    dest: &str,
    files: &[&str],
    existing: &[&str],
    failing: &[&str],
    cfg: RunConfig,
    log_ok: bool,
) -> Trace {
    let mut fs: HashSet<String> = existing.iter().map(|s| s.to_string()).collect();
    let mut fl = Flatten::new(dest.to_string(), files.iter().map(|s| s.to_string()).collect(), cfg);
    let mut t = Trace::default();
    for _ in 0..100_000 {
        match fl.action() {
            RunAction::CheckExists { path } => {
                let e = fs.contains(&path);
                t.checks.push(path);
                fl.step(RunEvent::Exists(e), stamp());
            }
            RunAction::Process { source, dest, op } => {
                let ok = !failing.contains(&source.as_str());
                if ok && (op == FileOp::Move || op == FileOp::Copy) {
                    fs.insert(dest.clone());
                }
                t.processed.push((source, dest, op));
                fl.step(RunEvent::Processed(ok), stamp());
            }
            RunAction::Skip { source } => {
                t.skipped.push(source);
                fl.step(RunEvent::Skipped, stamp());
            }
            RunAction::SaveLog => {
                t.saved_log = fl
                    .log_entries()
                    .iter()
                    .map(|e| (e.source.clone(), e.dest.clone()))
                    .collect();
                fl.step(RunEvent::LogSaved(log_ok), stamp());
            }
            RunAction::Cleanup => {
                t.cleanup = true;
                fl.step(RunEvent::CleanedUp, stamp());
            }
            RunAction::Finish => {
                t.end = Some(Ok(()));
                return t;
            }
            RunAction::Fail(e) => {
                t.end = Some(Err(e));
                return t;
            }
        }
    }
    panic!("run did not end");
}

#[test]
fn copy_without_conflicts() {
    let t = drive(
        "out",
        &["src/a.txt", "src/sub/b.txt"],
        &[],
        &[],
        config(false, false, ConflictStrategy::Rename, false),
        true,
    );
    assert_eq!(t.checks, vec!["out/a.txt", "out/b.txt"]);
    assert_eq!(
        t.processed,
        vec![
            ("src/a.txt".to_string(), "out/a.txt".to_string(), FileOp::Copy),
            ("src/sub/b.txt".to_string(), "out/b.txt".to_string(), FileOp::Copy),
        ]
    );
    assert!(t.saved_log.is_empty());
    assert!(!t.cleanup);
    assert_eq!(t.end, Some(Ok(())));
}

#[test]
fn same_name_twice_is_renamed() {
    let t = drive(
        "out",
        &["src/x/a.txt", "src/y/a.txt", "src/z/a.txt"],
        &[],
        &[],
        config(false, false, ConflictStrategy::Rename, false),
        true,
    );
    let dests: Vec<&str> = t.processed.iter().map(|p| p.1.as_str()).collect();
    assert_eq!(dests, vec!["out/a.txt", "out/a_1.txt", "out/a_2.txt"]);
}

#[test]
fn rename_takes_first_free_candidate() {
    let t = drive(
        "out",
        &["src/a.txt"],
        &["out/a.txt", "out/a_1.txt", "out/a_3.txt"],
        &[],
        config(false, false, ConflictStrategy::Rename, false),
        true,
    );
    assert_eq!(t.checks, vec!["out/a.txt", "out/a_1.txt", "out/a_2.txt"]);
    assert_eq!(t.processed[0].1, "out/a_2.txt");
}

#[test]
fn skip_strategy_skips_existing() {
    let t = drive(
        "out",
        &["src/a.txt", "src/b.txt"],
        &["out/a.txt"],
        &[],
        config(false, false, ConflictStrategy::Skip, false),
        true,
    );
    assert_eq!(t.skipped, vec!["src/a.txt"]);
    assert_eq!(t.processed.len(), 1);
    assert_eq!(t.processed[0].1, "out/b.txt");
}

#[test]
fn overwrite_keeps_the_name() {
    let t = drive(
        "out",
        &["src/a.txt"],
        &["out/a.txt"],
        &[],
        config(false, false, ConflictStrategy::Overwrite, false),
        true,
    );
    assert_eq!(t.checks, vec!["out/a.txt"]);
    assert_eq!(t.processed[0].1, "out/a.txt");
}

#[test]
fn no_unique_name_fails() {
    let mut existing: Vec<String> = vec!["out/a.txt".to_string()];
    for k in 1..=9999 {
        existing.push(format!("out/a_{}.txt", k));
    }
    let ex: Vec<&str> = existing.iter().map(|s| s.as_str()).collect();
    let t = drive("out", &["src/a.txt"], &ex, &[], config(false, false, ConflictStrategy::Rename, false), true);
    assert_eq!(t.checks.len(), 10000);
    assert_eq!(t.checks.last().unwrap(), "out/a_9999.txt");
    assert!(t.processed.is_empty());
    assert_eq!(t.end, Some(Err(RunError::NoUniqueName)));
}

#[test]
fn path_without_name_fails_after_saving_the_log() {
    let t = drive("out", &["src/a.txt", "src/.."], &[], &[], config(true, false, ConflictStrategy::Rename, true), true);
    assert_eq!(t.processed.len(), 1);
    assert_eq!(t.saved_log, vec![("src/a.txt".to_string(), "out/a.txt".to_string())]);
    assert!(!t.cleanup);
    assert_eq!(t.end, Some(Err(RunError::NoFileName)));
}

#[test]
fn path_without_name_in_copy_run_saves_nothing() {
    let t = drive("out", &["src/a.txt", "src/.."], &[], &[], config(false, false, ConflictStrategy::Rename, false), true);
    assert!(t.saved_log.is_empty());
    assert_eq!(t.end, Some(Err(RunError::NoFileName)));
}

#[test]
fn no_unique_name_after_moves_saves_the_log_first() {
    let mut existing: Vec<String> = vec!["out/b.txt".to_string()];
    for k in 1..=9999 {
        existing.push(format!("out/b_{}.txt", k));
    }
    let ex: Vec<&str> = existing.iter().map(|s| s.as_str()).collect();
    let t = drive(
        "out",
        &["src/a.txt", "src/b.txt"],
        &ex,
        &[],
        config(true, false, ConflictStrategy::Rename, false),
        true,
    );
    assert_eq!(t.saved_log, vec![("src/a.txt".to_string(), "out/a.txt".to_string())]);
    assert_eq!(t.end, Some(Err(RunError::NoUniqueName)));
}

#[test]
fn failed_save_before_failure_still_reports_the_failure() {
    let t = drive("out", &["src/a.txt", "src/.."], &[], &[], config(true, false, ConflictStrategy::Rename, false), false);
    assert_eq!(t.saved_log.len(), 1);
    assert_eq!(t.end, Some(Err(RunError::NoFileName)));
}

#[test]
fn step_records_the_given_timestamp() {
    let mut fl = Flatten::new(
        "out".to_string(),
        vec!["src/a.txt".to_string(), "src/b.txt".to_string()],
        config(true, false, ConflictStrategy::Rename, false),
    );
    fl.step(RunEvent::Exists(false), "ignored".to_string());
    fl.step(RunEvent::Processed(true), "2024-05-06T07:08:09+00:00".to_string());
    fl.step(RunEvent::Exists(false), "ignored".to_string());
    fl.step(RunEvent::Processed(false), "not logged".to_string());
    let entries = fl.log_entries();
    assert_eq!(entries.len(), 1);
    assert_eq!(entries[0].timestamp, "2024-05-06T07:08:09+00:00");
}

#[test]
fn move_logs_successful_moves_and_saves() {
    let t = drive(
        "out",
        &["src/a.txt", "src/b.txt", "src/c.txt"],
        &[],
        &["src/b.txt"],
        config(true, false, ConflictStrategy::Rename, true),
        true,
    );
    assert!(t.processed.iter().all(|p| p.2 == FileOp::Move));
    assert_eq!(
        t.saved_log,
        vec![
            ("src/a.txt".to_string(), "out/a.txt".to_string()),
            ("src/c.txt".to_string(), "out/c.txt".to_string()),
        ]
    );
    assert!(t.cleanup);
    assert_eq!(t.end, Some(Ok(())));
}

#[test]
fn move_log_entries_carry_rfc3339_timestamps() {
    let mut fl = Flatten::new(
        "out".to_string(),
        vec!["src/a.txt".to_string()],
        config(true, false, ConflictStrategy::Rename, false),
    );
    fl.step(RunEvent::Exists(false), stamp());
    fl.step(RunEvent::Processed(true), stamp());
    let entries = fl.log_entries();
    assert_eq!(entries.len(), 1);
    assert!(chrono::DateTime::parse_from_rfc3339(&entries[0].timestamp).is_ok());
    assert_eq!(entries[0].source, "src/a.txt");
    assert_eq!(entries[0].dest, "out/a.txt");
}

#[test]
fn failed_log_write_fails_the_run() {
    let t = drive("out", &["src/a.txt"], &[], &[], config(true, false, ConflictStrategy::Rename, true), false);
    assert_eq!(t.saved_log.len(), 1);
    assert!(!t.cleanup);
    assert_eq!(t.end, Some(Err(RunError::LogWriteFailed)));
}

#[test]
fn nothing_moved_saves_no_log() {
    let t = drive("out", &["src/a.txt"], &[], &["src/a.txt"], config(true, false, ConflictStrategy::Rename, false), true);
    assert!(t.saved_log.is_empty());
    assert_eq!(t.end, Some(Ok(())));
}

#[test]
fn dry_run_touches_nothing() {
    let t = drive(
        "out",
        &["src/x/a.txt", "src/y/a.txt"],
        &[],
        &[],
        config(true, true, ConflictStrategy::Rename, true),
        true,
    );
    // Nothing is written, so the second file sees no clash either.
    assert_eq!(
        t.processed,
        vec![
            ("src/x/a.txt".to_string(), "out/a.txt".to_string(), FileOp::PreviewMove),
            ("src/y/a.txt".to_string(), "out/a.txt".to_string(), FileOp::PreviewMove),
        ]
    );
    assert!(t.saved_log.is_empty());
    assert!(!t.cleanup);
    assert_eq!(t.end, Some(Ok(())));
}

#[test]
fn empty_source_finishes_at_once() {
    let t = drive("out", &[], &[], &[], config(false, false, ConflictStrategy::Rename, true), true);
    assert!(t.checks.is_empty());
    assert!(t.cleanup);
    assert_eq!(t.end, Some(Ok(())));
}

#[test]
fn unexpected_event_changes_nothing() {
    let mut fl = Flatten::new(
        "out".to_string(),
        vec!["src/a.txt".to_string()],
        config(false, false, ConflictStrategy::Rename, false),
    );
    fl.step(RunEvent::Processed(true), stamp());
    fl.step(RunEvent::Skipped, stamp());
    match fl.action() {
        RunAction::CheckExists { path } => assert_eq!(path, "out/a.txt"),
        _ => panic!("expected the first existence check"),
    }
    assert_eq!(fl.position(), 0);
}

#[test]
fn undo_of_a_run_moves_every_file_back() {
    let t = drive(
        "out",
        &["src/x/a.txt", "src/y/a.txt", "src/b.txt"],
        &[],
        &[],
        config(true, false, ConflictStrategy::Rename, false),
        true,
    );
    let mut fl = Flatten::new(
        "out".to_string(),
        vec!["src/x/a.txt".to_string(), "src/y/a.txt".to_string(), "src/b.txt".to_string()],
        config(true, false, ConflictStrategy::Rename, false),
    );
    let mut present: HashSet<String> = HashSet::new();
    loop {
        match fl.action() {
            RunAction::CheckExists { path } => {
                let e = present.contains(&path);
                fl.step(RunEvent::Exists(e), stamp());
            }
            RunAction::Process { dest, .. } => {
                present.insert(dest);
                fl.step(RunEvent::Processed(true), stamp());
            }
            RunAction::SaveLog => break,
            _ => panic!("unexpected action"),
        }
    }
    let log = OperationLog { entries: fl.log_entries().clone() };
    assert_eq!(log.entries.len(), t.saved_log.len());
    let mut undo = Undo::new(log);
    let mut back = Vec::new();
    loop {
        match undo.action() {
            UndoAction::CheckDest { dest } => {
                let e = present.contains(&dest);
                undo.step(UndoEvent::DestExists(e));
            }
            UndoAction::EnsureParent { .. } => undo.step(UndoEvent::ParentReady(true)),
            UndoAction::MoveBack { from, to } => {
                present.remove(&from);
                back.push((from, to));
                undo.step(UndoEvent::MovedBack(true));
            }
            UndoAction::RemoveLog { restored, failed } => {
                assert_eq!((restored, failed), (3, 0));
                undo.step(UndoEvent::LogRemoved);
            }
            UndoAction::Finish { restored, failed } => {
                assert_eq!((restored, failed), (3, 0));
                break;
            }
            _ => panic!("unexpected undo action"),
        }
    }
    assert_eq!(
        back,
        vec![
            ("out/b.txt".to_string(), "src/b.txt".to_string()),
            ("out/a_1.txt".to_string(), "src/y/a.txt".to_string()),
            ("out/a.txt".to_string(), "src/x/a.txt".to_string()),
        ]
    );
    assert!(present.is_empty());
}

#[test]
fn rename_and_skip_never_reuse_a_destination() {
    let files = [
        "src/a/r.txt", "src/b/r.txt", "src/c/r.txt", "src/d/q", "src/e/q", "src/f/.q", "src/g/.q",
    ];
    let existing = ["out/r.txt", "out/r_2.txt", "out/q"];
    for strategy in [ConflictStrategy::Rename, ConflictStrategy::Skip] {
        let t = drive("out", &files, &existing, &[], config(false, false, strategy, false), true);
        let mut seen: HashSet<String> = existing.iter().map(|s| s.to_string()).collect();
        for (_, dest, _) in &t.processed {
            assert!(seen.insert(dest.clone()), "{} reused", dest);
        }
        assert_eq!(t.processed.len() + t.skipped.len(), files.len());
        assert_eq!(t.end, Some(Ok(())));
    }
}
