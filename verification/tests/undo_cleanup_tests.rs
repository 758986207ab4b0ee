use unfold_core::cleanup::{depth_order, Cleanup, CleanupAction, CleanupEvent, DirInfo, DirState};
use unfold_core::config::{ConflictStrategy, FileOp, RunConfig, RunParams};
use unfold_core::log::{LogEntry, OperationLog, LOG_FILE};
use unfold_core::undo::{Undo, UndoAction, UndoEvent};

fn entry(source: &str, dest: &str) -> LogEntry {
    LogEntry { source: source.to_string(), dest: dest.to_string(), timestamp: "2024-01-01T00:00:00+00:00".to_string() }
}

#[derive(Debug, Default)]
struct UndoTrace {
    checked: Vec<String>,
    parents: Vec<String>,
    moved_back: Vec<(String, String)>,
    removed_log: bool,
    nothing: bool,
    end: Option<Result<(usize, usize), ()>>,
}

fn drive_undo(log: OperationLog, present: &[&str], parent_fails: &[&str], move_fails: &[&str]) -> UndoTrace {
    let mut u = Undo::new(log);
    let mut t = UndoTrace::default();
    for _ in 0..10_000 {
        match u.action() {
            UndoAction::NothingToUndo => {
                t.nothing = true;
                return t;
            }
            UndoAction::CheckDest { dest } => {
                let e = present.contains(&dest.as_str());
                t.checked.push(dest);
                u.step(UndoEvent::DestExists(e));
            }
            UndoAction::EnsureParent { source } => {
                let ok = !parent_fails.contains(&source.as_str());
                t.parents.push(source);
                u.step(UndoEvent::ParentReady(ok));
            }
            UndoAction::MoveBack { from, to } => {
                let ok = !move_fails.contains(&from.as_str());
                t.moved_back.push((from, to));
                u.step(UndoEvent::MovedBack(ok));
            }
            UndoAction::RemoveLog { .. } => {
                t.removed_log = true;
                u.step(UndoEvent::LogRemoved);
            }
            UndoAction::Finish { restored, failed } => {
                t.end = Some(Ok((restored, failed)));
                return t;
            }
            UndoAction::Fail => {
                t.end = Some(Err(()));
                return t;
            }
        }
    }
    panic!("undo did not end");
}

#[test]
fn undo_empty_log() {
    let t = drive_undo(OperationLog { entries: vec![] }, &[], &[], &[]);
    assert!(t.nothing);
    assert!(!t.removed_log);
}

#[test]
fn undo_reverses_in_reverse_order() {
    let log = OperationLog { entries: vec![entry("s/a", "d/a"), entry("s/b", "d/b"), entry("s/c", "d/c")] };
    let t = drive_undo(log, &["d/a", "d/b", "d/c"], &[], &[]);
    assert_eq!(t.checked, vec!["d/c", "d/b", "d/a"]);
    assert_eq!(
        t.moved_back,
        vec![
            ("d/c".to_string(), "s/c".to_string()),
            ("d/b".to_string(), "s/b".to_string()),
            ("d/a".to_string(), "s/a".to_string()),
        ]
    );
    assert!(t.removed_log);
    assert_eq!(t.end, Some(Ok((3, 0))));
}

#[test]
fn undo_counts_missing_and_failed_moves() {
    let log = OperationLog { entries: vec![entry("s/a", "d/a"), entry("s/b", "d/b"), entry("s/c", "d/c")] };
    let t = drive_undo(log, &["d/a", "d/c"], &[], &["d/c"]);
    assert_eq!(t.parents, vec!["s/c", "s/a"]);
    assert_eq!(t.moved_back.len(), 2);
    assert!(t.removed_log);
    assert_eq!(t.end, Some(Ok((1, 2))));
}

#[test]
fn undo_stops_when_a_directory_cannot_be_made() {
    let log = OperationLog { entries: vec![entry("s/a", "d/a"), entry("s/b", "d/b")] };
    let t = drive_undo(log, &["d/a", "d/b"], &["s/b"], &[]);
    assert!(t.moved_back.is_empty());
    assert!(!t.removed_log);
    assert_eq!(t.end, Some(Err(())));
}

#[test]
fn depth_order_is_deepest_first_and_stable() {
    assert_eq!(depth_order(&vec![1, 3, 2, 3]), vec![1, 3, 2, 0]);
    assert_eq!(depth_order(&vec![]), Vec::<usize>::new());
    assert_eq!(depth_order(&vec![2, 2, 2]), vec![0, 1, 2]);
    assert_eq!(depth_order(&vec![1, 2, 3, 4]), vec![3, 2, 1, 0]);
}

fn dir(depth: usize, is_source: bool) -> DirInfo {
    DirInfo { depth, is_source }
}

fn drive_cleanup(dirs: &[DirInfo], states: &[DirState], remove_fails: &[usize]) -> (Vec<usize>, Vec<usize>, CleanupAction) {
    let dirs_vec: Vec<DirInfo> = dirs.to_vec();
    let mut c = Cleanup::new(&dirs_vec);
    let mut inspected = Vec::new();
    let mut removed = Vec::new();
    for _ in 0..10_000 {
        let a = c.action();
        match a {
            CleanupAction::Inspect { dir } => {
                inspected.push(dir);
                c.step(CleanupEvent::Inspected(states[dir]));
            }
            CleanupAction::Remove { dir } => {
                let ok = !remove_fails.contains(&dir);
                if ok {
                    removed.push(dir);
                }
                c.step(CleanupEvent::Removed(ok));
            }
            CleanupAction::Finish { .. } | CleanupAction::Fail { .. } => return (inspected, removed, a),
        }
    }
    panic!("cleanup did not end");
}

#[test]
fn cleanup_removes_empty_deepest_first_and_spares_source() {
    // src (depth 1), src/a (2), src/a/b (3), src/c (2)
    let dirs = [dir(1, true), dir(2, false), dir(3, false), dir(2, false)];
    let states = [DirState::Empty, DirState::Empty, DirState::Empty, DirState::NotEmpty];
    let (inspected, removed, end) = drive_cleanup(&dirs, &states, &[]);
    assert_eq!(inspected, vec![2, 1, 3]);
    assert_eq!(removed, vec![2, 1]);
    assert_eq!(end, CleanupAction::Finish { deleted: 2 });
}

#[test]
fn cleanup_keeps_unreadable_directories() {
    let dirs = [dir(1, true), dir(2, false)];
    let states = [DirState::Empty, DirState::Unreadable];
    let (_, removed, end) = drive_cleanup(&dirs, &states, &[]);
    assert!(removed.is_empty());
    assert_eq!(end, CleanupAction::Finish { deleted: 0 });
}

#[test]
fn cleanup_stops_on_failed_removal() {
    let dirs = [dir(1, true), dir(2, false), dir(3, false)];
    let states = [DirState::Empty, DirState::Empty, DirState::Empty];
    let (_, removed, end) = drive_cleanup(&dirs, &states, &[2]);
    assert!(removed.is_empty());
    assert_eq!(end, CleanupAction::Fail { dir: 2 });
}

#[test]
fn strategy_names() {
    assert_eq!(ConflictStrategy::from_name("overwrite"), Some(ConflictStrategy::Overwrite));
    assert_eq!(ConflictStrategy::from_name("skip"), Some(ConflictStrategy::Skip));
    assert_eq!(ConflictStrategy::from_name("rename"), Some(ConflictStrategy::Rename));
    assert_eq!(ConflictStrategy::from_name("Rename"), None);
    assert_eq!(ConflictStrategy::from_name(""), None);
}

#[test]
fn run_params_config() {
    let mut p = RunParams {
        source: "a".to_string(),
        dest: "b".to_string(),
        move_files: true,
        dry_run: false,
        conflict: "skip".to_string(),
        cleanup: true,
    };
    assert_eq!(
        p.config(),
        Ok(RunConfig { move_files: true, dry_run: false, conflict: ConflictStrategy::Skip, cleanup: true })
    );
    p.conflict = "merge".to_string();
    assert_eq!(p.config(), Err("无效的冲突策略".to_string()));
}

#[test]
fn file_ops() {
    let c = |m, d| RunConfig { move_files: m, dry_run: d, conflict: ConflictStrategy::Rename, cleanup: false };
    assert_eq!(c(true, false).file_op(), FileOp::Move);
    assert_eq!(c(false, false).file_op(), FileOp::Copy);
    assert_eq!(c(true, true).file_op(), FileOp::PreviewMove);
    assert_eq!(c(false, true).file_op(), FileOp::PreviewCopy);
}

#[test]
fn log_file_name() {
    assert_eq!(LOG_FILE, "unfold_log.json");
}

#[test]
fn second_cleanup_removes_nothing() {
    // First pass: src/a/b empty, src/c holds a file.
    let dirs = [dir(1, true), dir(2, false), dir(3, false), dir(2, false)];
    let states = [DirState::Empty, DirState::Empty, DirState::Empty, DirState::NotEmpty];
    let (_, removed, _) = drive_cleanup(&dirs, &states, &[]);
    assert_eq!(removed, vec![2, 1]);
    // Second pass over what is left: the source and src/c, reported as before.
    let kept = [dir(1, true), dir(2, false)];
    let kept_states = [DirState::Empty, DirState::NotEmpty];
    let (inspected, removed, end) = drive_cleanup(&kept, &kept_states, &[]);
    assert_eq!(inspected, vec![1]);
    assert!(removed.is_empty());
    assert_eq!(end, CleanupAction::Finish { deleted: 0 });
}
