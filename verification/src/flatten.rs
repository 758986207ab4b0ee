//! The decisions of a flattening run.
//!
//! A run walks the files found under the source directory, in the order in
//! which they were found, and gives each a place in the destination
//! directory. Whether a path exists, and whether a copy or move succeeded,
//! is learnt from the file system by the caller: [`Flatten::action`] says
//! what to do next and [`Flatten::step`] takes the answer (with the time of
//! day, which a logged move records).
//!
//! For each file the run first asks whether `dest/name` exists. If it does
//! not, the file goes there. If it does, the conflict strategy decides:
//! `Overwrite` uses it anyway, `Skip` leaves the file out, and `Rename` asks
//! for `dest/stem_1.ext`, `dest/stem_2.ext`, ... up to `stem_9999.ext` and
//! takes the first that does not exist (the run fails when none is free).
//! Every file that is really moved (not in a dry run) is logged; after the
//! last file the log is saved when it is not empty, and the emptied
//! directories are removed when asked for (never in a dry run). A run that
//! stops with an error after moving files saves the log of those moves
//! first, so that they can still be undone.
use vstd::prelude::*;
use crate::config::{ConflictStrategy, FileOp, RunConfig, file_op_of};
use crate::log::{LogEntry, entry_move};
use crate::naming::{
    MAX_RENAME_COUNTER, candidate, candidate_name, file_name, file_name_of, join_path, joined,
};

verus! {

/// Why a run stopped.
#[derive(Clone, Copy, Debug, PartialEq, Eq, Structural)]
pub enum RunError {
    /// A source path has no final component (it ends in `..`).
    NoFileName,
    /// `stem_1.ext` through `stem_9999.ext` all exist in the destination.
    NoUniqueName,
    /// The move log could not be written.
    LogWriteFailed,
}

/// Where a run stands.
#[derive(Clone, Copy, Debug)]
pub enum Stage {
    /// Waiting to learn whether `dest/name` exists for the current file.
    Direct,
    /// Waiting to learn whether the `k`-th alternative name exists.
    Search(u32),
    /// Waiting for the current file to be processed; `None` is its own name,
    /// `Some(k)` its `k`-th alternative name.
    Process(Option<u32>),
    /// Waiting for the skip of the current file to be reported.
    Skip,
    /// Waiting for the move log to be saved.
    SaveLog,
    /// Waiting for the log of the moves already made to be saved before the
    /// run stops with the error.
    SaveLogThenFail(RunError),
    /// Waiting for the emptied directories to be removed.
    Cleanup,
    /// The run is over.
    Done,
    /// The run stopped with an error.
    Failed(RunError),
}

/// What the file system reported back.
#[derive(Clone, Copy, Debug, PartialEq, Eq, Structural)]
pub enum RunEvent {
    /// Whether the path of a `CheckExists` exists.
    Exists(bool),
    /// Whether a `Process` succeeded.
    Processed(bool),
    /// A `Skip` was reported.
    Skipped,
    /// Whether the log of a `SaveLog` was written.
    LogSaved(bool),
    /// The `Cleanup` was carried out (its outcome does not matter).
    CleanedUp,
}

/// What the caller is to do next.
pub enum RunAction {
    /// Find out whether `path` exists; answer with `Exists`.
    CheckExists { path: String },
    /// Apply `op` to `source` with destination `dest`; answer with `Processed`.
    Process { source: String, dest: String, op: FileOp },
    /// Report that `source` is skipped; answer with `Skipped`.
    Skip { source: String },
    /// Save [`Flatten::log_entries`] as the move log; answer with `LogSaved`.
    SaveLog,
    /// Remove the emptied directories under the source; answer with `CleanedUp`.
    Cleanup,
    /// The run is complete.
    Finish,
    /// The run failed.
    Fail(RunError),
}

/// A [`RunAction`] with its texts as sequences of characters.
pub enum ActionModel {
    CheckExists(Seq<char>),
    Process(Seq<char>, Seq<char>, FileOp),
    Skip(Seq<char>),
    SaveLog,
    Cleanup,
    Finish,
    Fail(RunError),
}

impl RunAction {
    pub open spec fn model(&self) -> ActionModel {
        match self {
            RunAction::CheckExists { path } => ActionModel::CheckExists(path@),
            RunAction::Process { source, dest, op } => ActionModel::Process(source@, dest@, *op),
            RunAction::Skip { source } => ActionModel::Skip(source@),
            RunAction::SaveLog => ActionModel::SaveLog,
            RunAction::Cleanup => ActionModel::Cleanup,
            RunAction::Finish => ActionModel::Finish,
            RunAction::Fail(e) => ActionModel::Fail(*e),
        }
    }
}

/// How a handled file ended.
pub enum FileResult {
    Skipped,
    /// Sent to `dest`; `ok` tells whether the copy or move succeeded.
    Processed { dest: Seq<char>, ok: bool },
}

/// The answers to the existence checks made for a file, in order (the first
/// one for `dest/name`, the `j`-th after it for the `j`-th alternative
/// name), and how the file ended.
pub struct FileRecord {
    pub probes: Seq<bool>,
    pub result: FileResult,
}

/// The state of a run: the index of the current file, the stage, the
/// answers received for the current file, one record per handled file, and
/// the `(source, dest)` pairs of the logged moves.
pub struct RunState {
    pub pos: nat,
    pub stage: Stage,
    pub probes: Seq<bool>,
    pub history: Seq<FileRecord>,
    pub moves: Seq<(Seq<char>, Seq<char>)>,
}

// ---------------------------------------------------------------------------
// The protocol
// ---------------------------------------------------------------------------

/// The stages in which a file is being handled.
pub open spec fn is_per_file(stage: Stage) -> bool {
    match stage {
        Stage::Direct | Stage::Search(_) | Stage::Process(_) | Stage::Skip => true,
        _ => false,
    }
}

/// The name a file gets: its own, or its `k`-th alternative.
pub open spec fn target_name(name: Seq<char>, t: Option<u32>) -> Seq<char> {
    match t {
        None => name,
        Some(k) => candidate(name, k as nat),
    }
}

/// The final component of the `pos`-th file.
pub open spec fn name_at(files: Seq<Seq<char>>, pos: nat) -> Seq<char> {
    file_name_of(files[pos as int]).unwrap()
}

/// After the log: the cleanup when asked for and not a dry run.
pub open spec fn after_log(c: RunConfig) -> Stage {
    if c.cleanup && !c.dry_run {
        Stage::Cleanup
    } else {
        Stage::Done
    }
}

/// After the last file: save the log when moves were made, else go on.
pub open spec fn after_files(c: RunConfig, moves: Seq<(Seq<char>, Seq<char>)>) -> Stage {
    if c.move_files && !c.dry_run && moves.len() > 0 {
        Stage::SaveLog
    } else {
        after_log(c)
    }
}

/// Stopping with `e`: in a real move run that has logged moves, the log is
/// saved first, so that those moves can still be undone.
pub open spec fn fail_stage(c: RunConfig, moves: Seq<(Seq<char>, Seq<char>)>, e: RunError) -> Stage {
    if c.move_files && !c.dry_run && moves.len() > 0 {
        Stage::SaveLogThenFail(e)
    } else {
        Stage::Failed(e)
    }
}

/// Starting on the `pos`-th file, or finishing when there is none left.
pub open spec fn begin_file(
    files: Seq<Seq<char>>,
    c: RunConfig,
    pos: nat,
    history: Seq<FileRecord>,
    moves: Seq<(Seq<char>, Seq<char>)>,
) -> RunState {
    RunState {
        pos,
        probes: Seq::empty(),
        history,
        moves,
        stage: if pos < files.len() {
            if file_name_of(files[pos as int]) is Some {
                Stage::Direct
            } else {
                fail_stage(c, moves, RunError::NoFileName)
            }
        } else {
            after_files(c, moves)
        },
    }
}

/// The state of a new run.
pub open spec fn initial_state(files: Seq<Seq<char>>, c: RunConfig) -> RunState {
    begin_file(files, c, 0, Seq::empty(), Seq::empty())
}

/// The state after `e`; an event that does not answer the pending action
/// leaves the state as it is.
pub open spec fn run_step(
    dest_dir: Seq<char>,
    files: Seq<Seq<char>>,
    c: RunConfig,
    s: RunState,
    e: RunEvent,
) -> RunState {
    match (s.stage, e) {
        (Stage::Direct, RunEvent::Exists(b)) => RunState {
            probes: seq![b],
            stage: if !b {
                Stage::Process(None)
            } else {
                match c.conflict {
                    ConflictStrategy::Overwrite => Stage::Process(None),
                    ConflictStrategy::Skip => Stage::Skip,
                    ConflictStrategy::Rename => Stage::Search(1),
                }
            },
            ..s
        },
        (Stage::Search(k), RunEvent::Exists(b)) => RunState {
            probes: s.probes.push(b),
            stage: if !b {
                Stage::Process(Some(k))
            } else if k < MAX_RENAME_COUNTER {
                Stage::Search((k + 1) as u32)
            } else {
                fail_stage(c, s.moves, RunError::NoUniqueName)
            },
            ..s
        },
        (Stage::Process(t), RunEvent::Processed(ok)) => {
            let dest = joined(dest_dir, target_name(name_at(files, s.pos), t));
            let rec = FileRecord { probes: s.probes, result: FileResult::Processed { dest, ok } };
            let moves = if ok && c.move_files && !c.dry_run {
                s.moves.push((files[s.pos as int], dest))
            } else {
                s.moves
            };
            begin_file(files, c, s.pos + 1, s.history.push(rec), moves)
        },
        (Stage::Skip, RunEvent::Skipped) => {
            let rec = FileRecord { probes: s.probes, result: FileResult::Skipped };
            begin_file(files, c, s.pos + 1, s.history.push(rec), s.moves)
        },
        (Stage::SaveLog, RunEvent::LogSaved(ok)) => RunState {
            stage: if ok {
                after_log(c)
            } else {
                Stage::Failed(RunError::LogWriteFailed)
            },
            ..s
        },
        (Stage::SaveLogThenFail(err), RunEvent::LogSaved(_)) => RunState {
            stage: Stage::Failed(err),
            ..s
        },
        (Stage::Cleanup, RunEvent::CleanedUp) => RunState { stage: Stage::Done, ..s },
        _ => s,
    }
}

/// What a run in state `s` asks for.
pub open spec fn expected_action(
    dest_dir: Seq<char>,
    files: Seq<Seq<char>>,
    c: RunConfig,
    s: RunState,
) -> ActionModel {
    match s.stage {
        Stage::Direct => ActionModel::CheckExists(joined(dest_dir, name_at(files, s.pos))),
        Stage::Search(k) => ActionModel::CheckExists(
            joined(dest_dir, candidate(name_at(files, s.pos), k as nat)),
        ),
        Stage::Process(t) => ActionModel::Process(
            files[s.pos as int],
            joined(dest_dir, target_name(name_at(files, s.pos), t)),
            file_op_of(c),
        ),
        Stage::Skip => ActionModel::Skip(files[s.pos as int]),
        Stage::SaveLog => ActionModel::SaveLog,
        Stage::SaveLogThenFail(_) => ActionModel::SaveLog,
        Stage::Cleanup => ActionModel::Cleanup,
        Stage::Done => ActionModel::Finish,
        Stage::Failed(e) => ActionModel::Fail(e),
    }
}

// ---------------------------------------------------------------------------
// What holds of every state of a run
// ---------------------------------------------------------------------------

/// `rec` is what the rules give for `file`: with no clash the file keeps its
/// name; with a clash, `Overwrite` keeps the name, `Skip` skips the file, and
/// `Rename` takes the first alternative name reported free after the name
/// and all earlier alternatives were reported taken.
pub open spec fn decided_correctly(
    dest_dir: Seq<char>,
    file: Seq<char>,
    c: RunConfig,
    rec: FileRecord,
) -> bool {
    match file_name_of(file) {
        None => false,
        Some(name) => {
            let p = rec.probes;
            &&& p.len() >= 1
            &&& if !p[0] {
                &&& p.len() == 1
                &&& rec.result matches FileResult::Processed { dest, .. }
                &&& dest == joined(dest_dir, name)
            } else {
                match c.conflict {
                    ConflictStrategy::Overwrite => {
                        &&& p.len() == 1
                        &&& rec.result matches FileResult::Processed { dest, .. }
                        &&& dest == joined(dest_dir, name)
                    },
                    ConflictStrategy::Skip => p.len() == 1 && rec.result is Skipped,
                    ConflictStrategy::Rename => {
                        let k = p.len() - 1;
                        &&& 1 <= k <= MAX_RENAME_COUNTER
                        &&& forall|j: int| 0 <= j < k ==> #[trigger] p[j]
                        &&& !p[k]
                        &&& rec.result matches FileResult::Processed { dest, .. }
                        &&& dest == joined(dest_dir, candidate(name, k as nat))
                    },
                }
            }
        },
    }
}

/// The `(source, dest)` pairs of the files in `history` whose processing
/// succeeded, in order.
pub open spec fn succeeded(files: Seq<Seq<char>>, history: Seq<FileRecord>) -> Seq<
    (Seq<char>, Seq<char>),
>
    decreases history.len(),
{
    if history.len() == 0 {
        Seq::empty()
    } else {
        let i = history.len() - 1;
        let prev = succeeded(files, history.drop_last());
        match history[i].result {
            FileResult::Processed { dest, ok } => if ok {
                prev.push((files[i], dest))
            } else {
                prev
            },
            FileResult::Skipped => prev,
        }
    }
}

/// What the move log must hold: the successful moves, and nothing when
/// files are copied or in a dry run.
pub open spec fn expected_moves(
    files: Seq<Seq<char>>,
    c: RunConfig,
    history: Seq<FileRecord>,
) -> Seq<(Seq<char>, Seq<char>)> {
    if c.move_files && !c.dry_run {
        succeeded(files, history)
    } else {
        Seq::empty()
    }
}

/// The answers received so far for the current file fit its stage.
pub open spec fn pending_ok(c: RunConfig, stage: Stage, p: Seq<bool>) -> bool {
    match stage {
        Stage::Direct => p.len() == 0,
        Stage::Search(k) => {
            &&& c.conflict == ConflictStrategy::Rename
            &&& 1 <= k <= MAX_RENAME_COUNTER
            &&& p.len() == k
            &&& forall|j: int| 0 <= j < k ==> #[trigger] p[j]
        },
        Stage::Process(None) => p.len() == 1 && (!p[0] || c.conflict == ConflictStrategy::Overwrite),
        Stage::Process(Some(k)) => {
            &&& c.conflict == ConflictStrategy::Rename
            &&& 1 <= k <= MAX_RENAME_COUNTER
            &&& p.len() == k + 1
            &&& forall|j: int| 0 <= j < k ==> #[trigger] p[j]
            &&& !p[k as int]
        },
        Stage::Skip => p.len() == 1 && p[0] && c.conflict == ConflictStrategy::Skip,
        _ => true,
    }
}

/// The invariant of a run: files are handled one after the other in order,
/// each as the rules say, and the log holds exactly the successful moves.
pub open spec fn state_wf(
    dest_dir: Seq<char>,
    files: Seq<Seq<char>>,
    c: RunConfig,
    s: RunState,
) -> bool {
    &&& s.pos <= files.len()
    &&& s.history.len() == s.pos
    &&& forall|i: int|
        0 <= i < s.pos ==> decided_correctly(dest_dir, files[i], c, #[trigger] s.history[i])
    &&& s.moves == expected_moves(files, c, s.history)
    &&& is_per_file(s.stage) ==> {
        &&& s.pos < files.len()
        &&& file_name_of(files[s.pos as int]) is Some
        &&& pending_ok(c, s.stage, s.probes)
    }
    &&& s.stage is SaveLog ==> s.pos == files.len() && c.move_files && !c.dry_run && s.moves.len()
        > 0
    &&& s.stage is SaveLogThenFail ==> c.move_files && !c.dry_run && s.moves.len() > 0
    &&& s.stage is Cleanup ==> s.pos == files.len() && c.cleanup && !c.dry_run
    &&& s.stage is Done ==> s.pos == files.len()
}

proof fn lemma_succeeded_push(files: Seq<Seq<char>>, h: Seq<FileRecord>, rec: FileRecord)
    ensures
        succeeded(files, h.push(rec)) == match rec.result {
            FileResult::Processed { dest, ok } => if ok {
                succeeded(files, h).push((files[h.len() as int], dest))
            } else {
                succeeded(files, h)
            },
            FileResult::Skipped => succeeded(files, h),
        },
{
    assert(h.push(rec).drop_last() =~= h);
}

proof fn lemma_begin_file_wf(
    dest_dir: Seq<char>,
    files: Seq<Seq<char>>,
    c: RunConfig,
    pos: nat,
    history: Seq<FileRecord>,
    moves: Seq<(Seq<char>, Seq<char>)>,
)
    requires
        pos <= files.len(),
        history.len() == pos,
        forall|i: int|
            0 <= i < pos ==> decided_correctly(dest_dir, files[i], c, #[trigger] history[i]),
        moves == expected_moves(files, c, history),
    ensures
        state_wf(dest_dir, files, c, begin_file(files, c, pos, history, moves)),
{
}

/// A new run satisfies the invariant.
pub proof fn law_initial_state(dest_dir: Seq<char>, files: Seq<Seq<char>>, c: RunConfig)
    ensures
        state_wf(dest_dir, files, c, initial_state(files, c)),
{
    lemma_begin_file_wf(dest_dir, files, c, 0, Seq::empty(), Seq::empty());
}

/// Every step keeps the invariant: whatever the file system answers, each
/// file is handled once, in order, as the rules say, and the log holds the
/// successful moves and nothing else.
pub proof fn law_step_keeps_invariant(
    dest_dir: Seq<char>,
    files: Seq<Seq<char>>,
    c: RunConfig,
    s: RunState,
    e: RunEvent,
)
    requires
        state_wf(dest_dir, files, c, s),
    ensures
        state_wf(dest_dir, files, c, run_step(dest_dir, files, c, s, e)),
{
    match (s.stage, e) {
        (Stage::Direct, RunEvent::Exists(b)) => {
            let p: Seq<bool> = seq![b];
            assert(p.len() == 1 && p[0] == b);
        },
        (Stage::Search(k), RunEvent::Exists(b)) => {
            let p = s.probes.push(b);
            assert(forall|j: int| 0 <= j < k ==> p[j] == s.probes[j]);
            assert(p[k as int] == b);
        },
        (Stage::Process(t), RunEvent::Processed(ok)) => {
            let name = name_at(files, s.pos);
            let dest = joined(dest_dir, target_name(name, t));
            let rec = FileRecord { probes: s.probes, result: FileResult::Processed { dest, ok } };
            let h = s.history.push(rec);
            lemma_succeeded_push(files, s.history, rec);
            assert(decided_correctly(dest_dir, files[s.pos as int], c, rec)) by {
                match t {
                    None => {},
                    Some(k) => {
                        assert(s.probes[0]);
                    },
                }
            }
            assert forall|i: int| 0 <= i < s.pos + 1 implies decided_correctly(
                dest_dir,
                files[i],
                c,
                #[trigger] h[i],
            ) by {
                if i < s.pos {
                    assert(h[i] == s.history[i]);
                }
            }
            let moves = if ok && c.move_files && !c.dry_run {
                s.moves.push((files[s.pos as int], dest))
            } else {
                s.moves
            };
            lemma_begin_file_wf(dest_dir, files, c, s.pos + 1, h, moves);
        },
        (Stage::Skip, RunEvent::Skipped) => {
            let rec = FileRecord { probes: s.probes, result: FileResult::Skipped };
            let h = s.history.push(rec);
            lemma_succeeded_push(files, s.history, rec);
            assert forall|i: int| 0 <= i < s.pos + 1 implies decided_correctly(
                dest_dir,
                files[i],
                c,
                #[trigger] h[i],
            ) by {
                if i < s.pos {
                    assert(h[i] == s.history[i]);
                }
            }
            lemma_begin_file_wf(dest_dir, files, c, s.pos + 1, h, s.moves);
        },
        _ => {},
    }
}

/// In every state of a run the log holds exactly the moves that succeeded,
/// in the order they were made; when files are copied, or in a dry run, it
/// stays empty.
pub proof fn law_log_holds_successful_moves(
    dest_dir: Seq<char>,
    files: Seq<Seq<char>>,
    c: RunConfig,
    s: RunState,
)
    requires
        state_wf(dest_dir, files, c, s),
    ensures
        s.moves == expected_moves(files, c, s.history),
        !c.move_files || c.dry_run ==> s.moves.len() == 0,
{
}

/// A dry run touches nothing: it only previews, logs nothing, saves no log
/// and removes no directory.
pub proof fn law_dry_run_touches_nothing(
    dest_dir: Seq<char>,
    files: Seq<Seq<char>>,
    c: RunConfig,
    s: RunState,
)
    requires
        state_wf(dest_dir, files, c, s),
        c.dry_run,
    ensures
        s.moves.len() == 0,
        file_op_of(c) == FileOp::PreviewMove || file_op_of(c) == FileOp::PreviewCopy,
        !(expected_action(dest_dir, files, c, s) is SaveLog),
        !(expected_action(dest_dir, files, c, s) is Cleanup),
{
}

/// A file is skipped only under `Skip`, and only when its name was reported
/// taken; under `Overwrite` every file keeps its name; a renamed file gets
/// the first alternative reported free, after its own name and every earlier
/// alternative were reported taken.
pub proof fn law_conflict_rules(
    dest_dir: Seq<char>,
    files: Seq<Seq<char>>,
    c: RunConfig,
    s: RunState,
    i: int,
)
    requires
        state_wf(dest_dir, files, c, s),
        0 <= i < s.pos,
    ensures
        s.history[i].result is Skipped ==> c.conflict == ConflictStrategy::Skip
            && s.history[i].probes == seq![true],
        c.conflict == ConflictStrategy::Overwrite ==> s.history[i].result == (FileResult::Processed {
            dest: joined(dest_dir, file_name_of(files[i]).unwrap()),
            ok: s.history[i].result->ok,
        }),
        c.conflict == ConflictStrategy::Rename && s.history[i].probes[0] ==> {
            let k = s.history[i].probes.len() - 1;
            &&& 1 <= k <= MAX_RENAME_COUNTER
            &&& forall|j: int| 0 <= j < k ==> #[trigger] s.history[i].probes[j]
            &&& !s.history[i].probes[k]
            &&& s.history[i].result->dest == joined(
                dest_dir,
                candidate(file_name_of(files[i]).unwrap(), k as nat),
            )
        },
{
    let rec = s.history[i];
    assert(decided_correctly(dest_dir, files[i], c, rec));
    if rec.result is Skipped {
        assert(rec.probes =~= seq![true]);
    }
}

/// A run never stops with moves made but not logged: while files are being
/// handled, a step that fails a real move run with logged moves asks first
/// to save the log (and stops with the error once it is saved or not).
pub proof fn law_failure_saves_log_first(
    dest_dir: Seq<char>,
    files: Seq<Seq<char>>,
    c: RunConfig,
    s: RunState,
    e: RunEvent,
)
    requires
        state_wf(dest_dir, files, c, s),
        is_per_file(s.stage),
    ensures
        ({
            let t = run_step(dest_dir, files, c, s, e);
            &&& t.stage is Failed ==> !(c.move_files && !c.dry_run && t.moves.len() > 0)
            &&& t.stage is SaveLogThenFail ==> expected_action(dest_dir, files, c, t)
                == ActionModel::SaveLog
            &&& t.moves.len() >= s.moves.len()
        }),
{
    law_step_keeps_invariant(dest_dir, files, c, s, e);
}

/// Once the log of the moves made is saved, a run that was stopping stops
/// with its own error.
pub proof fn law_saved_then_failed(
    dest_dir: Seq<char>,
    files: Seq<Seq<char>>,
    c: RunConfig,
    s: RunState,
    ok: bool,
)
    requires
        state_wf(dest_dir, files, c, s),
        s.stage matches Stage::SaveLogThenFail(_),
    ensures
        run_step(dest_dir, files, c, s, RunEvent::LogSaved(ok)).stage == Stage::Failed(
            s.stage->SaveLogThenFail_0,
        ),
        run_step(dest_dir, files, c, s, RunEvent::LogSaved(ok)).moves == s.moves,
{
}

/// The path asked about by the `j`-th existence check for `file`: its own
/// name first, then its `j`-th alternative name.
pub open spec fn probe_path(dest_dir: Seq<char>, file: Seq<char>, j: int) -> Seq<char> {
    let name = file_name_of(file).unwrap();
    if j == 0 {
        joined(dest_dir, name)
    } else {
        joined(dest_dir, candidate(name, j as nat))
    }
}

/// The file of `rec` was copied or moved to its destination.
pub open spec fn wrote(rec: FileRecord) -> bool {
    rec.result matches FileResult::Processed { ok, .. } && ok
}

/// The answers to the existence checks are those of a destination that
/// holds `existing` at the start and gains the destination of every file
/// written before.
pub open spec fn answers_consistent(
    dest_dir: Seq<char>,
    files: Seq<Seq<char>>,
    h: Seq<FileRecord>,
    existing: Set<Seq<char>>,
) -> bool {
    forall|i: int, j: int|
        0 <= i < h.len() && 0 <= j < h[i].probes.len() ==> #[trigger] h[i].probes[j] == (
        existing.contains(probe_path(dest_dir, files[i], j)) || exists|k: int|
            0 <= k < i && wrote(h[k]) && h[k].result->dest == probe_path(dest_dir, files[i], j))
}

/// Under `Skip` and `Rename` no file lands on a path that already held
/// something, and no two files get the same destination: when the answers
/// come from the destination directory as the run fills it, every file
/// written went to a path that neither existed before nor received an
/// earlier file.
pub proof fn law_no_file_overwritten(
    dest_dir: Seq<char>,
    files: Seq<Seq<char>>,
    c: RunConfig,
    s: RunState,
    existing: Set<Seq<char>>,
)
    requires
        state_wf(dest_dir, files, c, s),
        !c.dry_run,
        c.conflict != ConflictStrategy::Overwrite,
        answers_consistent(dest_dir, files, s.history, existing),
    ensures
        forall|i: int|
            0 <= i < s.pos && #[trigger] wrote(s.history[i]) ==> {
                &&& !existing.contains(s.history[i].result->dest)
                &&& forall|k: int|
                    0 <= k < i && wrote(s.history[k]) ==> s.history[k].result->dest
                        != s.history[i].result->dest
            },
{
    let h = s.history;
    assert forall|i: int| 0 <= i < s.pos && #[trigger] wrote(h[i]) implies {
        &&& !existing.contains(h[i].result->dest)
        &&& forall|k: int| 0 <= k < i && wrote(h[k]) ==> h[k].result->dest != h[i].result->dest
    } by {
        let rec = h[i];
        assert(decided_correctly(dest_dir, files[i], c, rec));
        let m = rec.probes.len() - 1;
        assert(!rec.probes[m]);
        assert(rec.result->dest == probe_path(dest_dir, files[i], m));
        assert(h[i].probes[m] == (existing.contains(probe_path(dest_dir, files[i], m))
            || exists|k: int|
            0 <= k < i && wrote(h[k]) && h[k].result->dest == probe_path(dest_dir, files[i], m)));
    }
}

/// What a file is done with follows the options: a dry run only previews
/// (a move or a copy, as asked), a real run moves or copies; and the file
/// acted on, or skipped, is the one being handled.
pub proof fn law_action_follows_options(
    dest_dir: Seq<char>,
    files: Seq<Seq<char>>,
    c: RunConfig,
    s: RunState,
)
    requires
        state_wf(dest_dir, files, c, s),
    ensures
        expected_action(dest_dir, files, c, s) matches ActionModel::Process(src, _, op) ==> {
            &&& src == files[s.pos as int]
            &&& c.dry_run ==> (op == FileOp::PreviewMove || op == FileOp::PreviewCopy)
            &&& c.dry_run && c.move_files ==> op == FileOp::PreviewMove
            &&& c.dry_run && !c.move_files ==> op == FileOp::PreviewCopy
            &&& !c.dry_run && c.move_files ==> op == FileOp::Move
            &&& !c.dry_run && !c.move_files ==> op == FileOp::Copy
        },
        expected_action(dest_dir, files, c, s) matches ActionModel::Skip(src) ==> src == files[s.pos as int]
            && c.conflict == ConflictStrategy::Skip,
{
}

/// The existence checks for a file ask, in turn, about its own name in the
/// destination and then its 1st, 2nd, ... alternative name: the `j`-th
/// check asks about `probe_path(.., j)`.
pub proof fn law_asks_next_probe(
    dest_dir: Seq<char>,
    files: Seq<Seq<char>>,
    c: RunConfig,
    s: RunState,
)
    requires
        state_wf(dest_dir, files, c, s),
        s.stage is Direct || s.stage is Search,
    ensures
        expected_action(dest_dir, files, c, s) == ActionModel::CheckExists(
            probe_path(dest_dir, files[s.pos as int], s.probes.len() as int),
        ),
{
}

/// The file is recorded with the destination its `Process` action named,
/// the run goes on to the next file, and the move is logged exactly when it
/// succeeded in a real move run.
pub proof fn law_process_records_action(
    dest_dir: Seq<char>,
    files: Seq<Seq<char>>,
    c: RunConfig,
    s: RunState,
    ok: bool,
)
    requires
        state_wf(dest_dir, files, c, s),
        s.stage is Process,
    ensures
        ({
            let a = expected_action(dest_dir, files, c, s);
            let t = run_step(dest_dir, files, c, s, RunEvent::Processed(ok));
            &&& a is Process
            &&& t.pos == s.pos + 1
            &&& t.history == s.history.push(
                FileRecord { probes: s.probes, result: FileResult::Processed { dest: a->Process_1, ok } },
            )
            &&& t.moves == if ok && c.move_files && !c.dry_run {
                s.moves.push((a->Process_0, a->Process_1))
            } else {
                s.moves
            }
        }),
{
}

/// A skipped file is recorded as skipped, nothing is logged for it, and the
/// run goes on to the next file.
pub proof fn law_skip_records(
    dest_dir: Seq<char>,
    files: Seq<Seq<char>>,
    c: RunConfig,
    s: RunState,
)
    requires
        state_wf(dest_dir, files, c, s),
        s.stage is Skip,
    ensures
        ({
            let t = run_step(dest_dir, files, c, s, RunEvent::Skipped);
            &&& t.pos == s.pos + 1
            &&& t.history == s.history.push(FileRecord { probes: s.probes, result: FileResult::Skipped })
            &&& t.moves == s.moves
        }),
{
}

/// The stage a run takes up after handling the file before place `pos`:
/// the next file when there is one (stopping when it has no name), or else
/// saving the log of a real move run that moved files, then the cleanup
/// when asked for outside a dry run, then the end.
pub open spec fn stage_at(
    files: Seq<Seq<char>>,
    c: RunConfig,
    pos: nat,
    moves: Seq<(Seq<char>, Seq<char>)>,
) -> Stage {
    let logging = c.move_files && !c.dry_run && moves.len() > 0;
    if pos < files.len() {
        if file_name_of(files[pos as int]) is Some {
            Stage::Direct
        } else if logging {
            Stage::SaveLogThenFail(RunError::NoFileName)
        } else {
            Stage::Failed(RunError::NoFileName)
        }
    } else if logging {
        Stage::SaveLog
    } else if c.cleanup && !c.dry_run {
        Stage::Cleanup
    } else {
        Stage::Done
    }
}

/// A run starts at the first file with nothing handled and nothing logged.
pub proof fn law_run_start(files: Seq<Seq<char>>, c: RunConfig)
    ensures
        initial_state(files, c).pos == 0,
        initial_state(files, c).history.len() == 0,
        initial_state(files, c).moves.len() == 0,
        initial_state(files, c).probes.len() == 0,
        initial_state(files, c).stage == stage_at(files, c, 0, Seq::empty()),
{
}

/// What each answer does to a run. A free name is used; a taken one is
/// used anyway under `Overwrite`, skips the file under `Skip`, and starts
/// the search of alternative names under `Rename`, which goes on up to the
/// 9999th and then stops the run (saving the log first when moves were
/// made). After a file is handled the run takes up the next stage as
/// `stage_at` says. A saved log leads to the cleanup or the end; a log that
/// cannot be saved stops the run; the cleanup leads to the end.
pub proof fn law_run_transitions(
    dest_dir: Seq<char>,
    files: Seq<Seq<char>>,
    c: RunConfig,
    s: RunState,
    e: RunEvent,
)
    requires
        state_wf(dest_dir, files, c, s),
    ensures
        ({
            let t = run_step(dest_dir, files, c, s, e);
            let logging = c.move_files && !c.dry_run && s.moves.len() > 0;
            &&& s.stage is Direct && e == RunEvent::Exists(false) ==> t.stage == Stage::Process(None)
                && t.probes == seq![false]
            &&& s.stage is Direct && e == RunEvent::Exists(true) ==> t.probes == seq![true]
                && t.stage == match c.conflict {
                ConflictStrategy::Overwrite => Stage::Process(None),
                ConflictStrategy::Skip => Stage::Skip,
                ConflictStrategy::Rename => Stage::Search(1),
            }
            &&& s.stage is Search && e == RunEvent::Exists(false) ==> t.stage == Stage::Process(
                Some(s.stage->Search_0),
            ) && t.probes == s.probes.push(false)
            &&& s.stage is Search && e == RunEvent::Exists(true) ==> t.probes == s.probes.push(true)
                && t.stage == if s.stage->Search_0 < 9999 {
                Stage::Search((s.stage->Search_0 + 1) as u32)
            } else if logging {
                Stage::SaveLogThenFail(RunError::NoUniqueName)
            } else {
                Stage::Failed(RunError::NoUniqueName)
            }
            &&& (s.stage is Process && e is Processed) || (s.stage is Skip && e == RunEvent::Skipped)
                ==> t.pos == s.pos + 1 && t.probes.len() == 0 && t.stage == stage_at(
                files,
                c,
                t.pos,
                t.moves,
            )
            &&& s.stage is SaveLog && e == RunEvent::LogSaved(true) ==> t.stage == if c.cleanup
                && !c.dry_run {
                Stage::Cleanup
            } else {
                Stage::Done
            }
            &&& s.stage is SaveLog && e == RunEvent::LogSaved(false) ==> t.stage == Stage::Failed(
                RunError::LogWriteFailed,
            )
            &&& s.stage is Cleanup && e == RunEvent::CleanedUp ==> t.stage == Stage::Done
        }),
{
    let p1: Seq<bool> = seq![false];
    let p2: Seq<bool> = seq![true];
    assert(p1.len() == 1);
    assert(p2.len() == 1);
}

// ---------------------------------------------------------------------------
// The run itself
// ---------------------------------------------------------------------------

/// A flattening run in progress.
pub struct Flatten {
    dest_dir: String,
    files: Vec<String>,
    config: RunConfig,
    pos: usize,
    name: String,
    stage: Stage,
    moved: Vec<LogEntry>,
    probes: Ghost<Seq<bool>>,
    history: Ghost<Seq<FileRecord>>,
}

impl Flatten {
    /// The destination directory.
    pub closed spec fn dest_dir_view(&self) -> Seq<char> {
        self.dest_dir@
    }

    /// The source files, in the order in which they are handled.
    pub closed spec fn files_view(&self) -> Seq<Seq<char>> {
        self.files@.map_values(|f: String| f@)
    }

    /// The options of the run.
    pub closed spec fn config_view(&self) -> RunConfig {
        self.config
    }

    /// The entries of the move log, with their timestamps.
    pub closed spec fn log_view(&self) -> Seq<LogEntry> {
        self.moved@
    }

    /// The state of the run.
    pub closed spec fn state(&self) -> RunState {
        RunState {
            pos: self.pos as nat,
            stage: self.stage,
            probes: self.probes@,
            history: self.history@,
            moves: self.moved@.map_values(|e: LogEntry| entry_move(e)),
        }
    }

    /// A well-formed run satisfies the invariant [`state_wf`], so the laws
    /// above apply to it.
    pub proof fn wf_gives_invariant(&self)
        requires
            self.wf(),
        ensures
            state_wf(self.dest_dir_view(), self.files_view(), self.config_view(), self.state()),
    {
    }

    /// The run's fields agree with each other and with the invariant.
    pub closed spec fn wf(&self) -> bool {
        &&& state_wf(self.dest_dir_view(), self.files_view(), self.config, self.state())
        &&& is_per_file(self.stage) ==> file_name_of(self.files@[self.pos as int]@) == Some(
            self.name@,
        )
    }

    /// Moves on to the `pos`-th file (or past the last one).
    fn begin(&mut self, pos: usize)
        requires
            pos <= old(self).files.len(),
        ensures
            final(self).dest_dir == old(self).dest_dir,
            final(self).files == old(self).files,
            final(self).config == old(self).config,
            final(self).moved == old(self).moved,
            final(self).history == old(self).history,
            final(self).state() == begin_file(
                old(self).files_view(),
                old(self).config,
                pos as nat,
                old(self).history@,
                old(self).state().moves,
            ),
            is_per_file(final(self).stage) ==> file_name_of(final(self).files@[pos as int]@) == Some(
                final(self).name@,
            ),
    {
        self.pos = pos;
        self.probes = Ghost(Seq::empty());
        if pos < self.files.len() {
            match file_name(self.files[pos].as_str()) {
                Some(n) => {
                    self.name = n;
                    self.stage = Stage::Direct;
                },
                None => {
                    if self.config.move_files && !self.config.dry_run && self.moved.len() > 0 {
                        self.stage = Stage::SaveLogThenFail(RunError::NoFileName);
                    } else {
                        self.stage = Stage::Failed(RunError::NoFileName);
                    }
                },
            }
        } else if self.config.move_files && !self.config.dry_run && self.moved.len() > 0 {
            self.stage = Stage::SaveLog;
        } else if self.config.cleanup && !self.config.dry_run {
            self.stage = Stage::Cleanup;
        } else {
            self.stage = Stage::Done;
        }
    }

    /// A run over `files`, in this order, into `dest_dir`.
    pub fn new(dest_dir: String, files: Vec<String>, config: RunConfig) -> (res: Flatten)
        ensures
            res.wf(),
            state_wf(res.dest_dir_view(), res.files_view(), res.config_view(), res.state()),
            res.dest_dir_view() == dest_dir@,
            res.files_view() == files@.map_values(|f: String| f@),
            res.config_view() == config,
            res.state() == initial_state(res.files_view(), config),
            res.log_view().len() == 0,
    {
        let mut fl = Flatten {
            dest_dir,
            files,
            config,
            pos: 0,
            name: String::new(),
            stage: Stage::Done,
            moved: Vec::new(),
            probes: Ghost(Seq::empty()),
            history: Ghost(Seq::empty()),
        };
        fl.begin(0);
        proof {
            assert(fl.state().moves =~= Seq::<(Seq<char>, Seq<char>)>::empty());
            law_initial_state(fl.dest_dir_view(), fl.files_view(), config);
        }
        fl
    }

    /// The index of the file being handled (the number of files handled).
    pub fn position(&self) -> (res: usize)
        ensures
            res == self.state().pos,
    {
        self.pos
    }

    /// The move log so far.
    pub fn log_entries(&self) -> (res: &Vec<LogEntry>)
        ensures
            res@ == self.log_view(),
            res@.map_values(|e: LogEntry| entry_move(e)) == self.state().moves,
    {
        &self.moved
    }

    /// The destination of the current file under name choice `t`.
    fn target_path(&self, t: Option<u32>) -> (res: String)
        requires
            self.wf(),
            is_per_file(self.stage),
        ensures
            res@ == joined(self.dest_dir@, target_name(name_at(self.files_view(), self.pos as nat), t)),
    {
        proof {
            assert(self.files_view()[self.pos as int] == self.files@[self.pos as int]@);
        }
        match t {
            None => join_path(self.dest_dir.as_str(), self.name.as_str()),
            Some(k) => {
                let c = candidate_name(self.name.as_str(), k);
                join_path(self.dest_dir.as_str(), c.as_str())
            },
        }
    }

    /// What the caller is to do next.
    pub fn action(&self) -> (res: RunAction)
        requires
            self.wf(),
        ensures
            res.model() == expected_action(
                self.dest_dir_view(),
                self.files_view(),
                self.config_view(),
                self.state(),
            ),
    {
        proof {
            if is_per_file(self.stage) {
                assert(self.files_view()[self.pos as int] == self.files@[self.pos as int]@);
            }
        }
        match self.stage {
            Stage::Direct => RunAction::CheckExists { path: self.target_path(None) },
            Stage::Search(k) => RunAction::CheckExists { path: self.target_path(Some(k)) },
            Stage::Process(t) => RunAction::Process {
                source: self.files[self.pos].clone(),
                dest: self.target_path(t),
                op: self.config.file_op(),
            },
            Stage::Skip => RunAction::Skip { source: self.files[self.pos].clone() },
            Stage::SaveLog => RunAction::SaveLog,
            Stage::SaveLogThenFail(_) => RunAction::SaveLog,
            Stage::Cleanup => RunAction::Cleanup,
            Stage::Done => RunAction::Finish,
            Stage::Failed(e) => RunAction::Fail(e),
        }
    }

    /// Takes the answer to the pending action. When the step logs a move
    /// (a successful `Process` in a real move run), the new entry gets
    /// `timestamp`, the time of the move; otherwise `timestamp` is not used.
    /// Earlier log entries are kept as they are.
    pub fn step(&mut self, event: RunEvent, timestamp: String)
        requires
            old(self).wf(),
        ensures
            final(self).wf(),
            state_wf(
                final(self).dest_dir_view(),
                final(self).files_view(),
                final(self).config_view(),
                final(self).state(),
            ),
            final(self).dest_dir_view() == old(self).dest_dir_view(),
            final(self).files_view() == old(self).files_view(),
            final(self).config_view() == old(self).config_view(),
            final(self).state() == run_step(
                old(self).dest_dir_view(),
                old(self).files_view(),
                old(self).config_view(),
                old(self).state(),
                event,
            ),
            final(self).log_view().len() >= old(self).log_view().len(),
            final(self).log_view().subrange(0, old(self).log_view().len() as int)
                == old(self).log_view(),
            final(self).log_view().len() > old(self).log_view().len()
                ==> final(self).log_view().last().timestamp == timestamp,
    {
        let ghost old_self = *self;
        let ghost files = self.files_view();
        let ghost dd = self.dest_dir_view();
        let ghost c = self.config;
        assert(files.len() == self.files@.len());
        match (self.stage, event) {
            (Stage::Direct, RunEvent::Exists(b)) => {
                let ghost first: Seq<bool> = seq![b];
                self.probes = Ghost(first);
                if !b {
                    self.stage = Stage::Process(None);
                } else {
                    match self.config.conflict {
                        ConflictStrategy::Overwrite => {
                            self.stage = Stage::Process(None);
                        },
                        ConflictStrategy::Skip => {
                            self.stage = Stage::Skip;
                        },
                        ConflictStrategy::Rename => {
                            self.stage = Stage::Search(1);
                        },
                    }
                }
            },
            (Stage::Search(k), RunEvent::Exists(b)) => {
                self.probes = Ghost(self.probes@.push(b));
                if !b {
                    self.stage = Stage::Process(Some(k));
                } else if k < MAX_RENAME_COUNTER {
                    self.stage = Stage::Search(k + 1);
                } else if self.config.move_files && !self.config.dry_run && self.moved.len() > 0 {
                    self.stage = Stage::SaveLogThenFail(RunError::NoUniqueName);
                } else {
                    self.stage = Stage::Failed(RunError::NoUniqueName);
                }
            },
            (Stage::Process(t), RunEvent::Processed(ok)) => {
                assert(is_per_file(old_self.state().stage));
                assert(old_self.state().pos < files.len());
                let dest = self.target_path(t);
                let ghost rec = FileRecord {
                    probes: self.probes@,
                    result: FileResult::Processed { dest: dest@, ok },
                };
                self.history = Ghost(self.history@.push(rec));
                if ok && self.config.move_files && !self.config.dry_run {
                    let source = self.files[self.pos].clone();
                    let entry = LogEntry { source, dest, timestamp };
                    self.moved.push(entry);
                    proof {
                        assert(files[old_self.pos as int] == old_self.files@[old_self.pos as int]@);
                        assert(self.moved@.map_values(|e: LogEntry| entry_move(e)) =~= old_self.state().moves.push(
                            (files[old_self.pos as int], dest@),
                        ));
                    }
                }
                assert(self.pos == old_self.pos);
                assert(self.files@.len() == old_self.files@.len());
                assert(self.pos < self.files.len());
                let next = self.pos + 1;
                self.begin(next);
            },
            (Stage::Skip, RunEvent::Skipped) => {
                assert(is_per_file(old_self.state().stage));
                assert(old_self.state().pos < files.len());
                let ghost rec = FileRecord { probes: self.probes@, result: FileResult::Skipped };
                self.history = Ghost(self.history@.push(rec));
                assert(self.pos < self.files.len());
                let next = self.pos + 1;
                self.begin(next);
            },
            (Stage::SaveLog, RunEvent::LogSaved(ok)) => {
                if !ok {
                    self.stage = Stage::Failed(RunError::LogWriteFailed);
                } else if self.config.cleanup && !self.config.dry_run {
                    self.stage = Stage::Cleanup;
                } else {
                    self.stage = Stage::Done;
                }
            },
            (Stage::SaveLogThenFail(err), RunEvent::LogSaved(_)) => {
                self.stage = Stage::Failed(err);
            },
            (Stage::Cleanup, RunEvent::CleanedUp) => {
                self.stage = Stage::Done;
            },
            _ => {},
        }
        proof {
            assert(self.log_view().subrange(0, old_self.log_view().len() as int) =~= old_self.log_view());
            law_step_keeps_invariant(dd, files, c, old_self.state(), event);
        }
    }
}

} // verus!
