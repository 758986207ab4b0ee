//! The decisions of undoing the last run.
//!
//! The moves in the log are reversed from the last to the first. For each
//! one: when the moved file is no longer at its destination it is counted as
//! a failure and left alone; otherwise the directory of its old path is
//! created again and the file is moved back, which counts as a success or a
//! failure. Failing to create that directory stops the undo. When every
//! entry has been handled, the log is removed. An empty log leaves nothing
//! to undo (and the log in place).
use vstd::prelude::*;
use crate::config::RunConfig;
use crate::flatten::{FileRecord, FileResult, RunState, state_wf, succeeded};
use crate::log::{LogEntry, OperationLog, entry_move};

verus! {

/// Where an undo stands.
#[derive(Clone, Copy, Debug, PartialEq, Eq, Structural)]
pub enum UndoStage {
    /// The log holds no moves.
    NothingToUndo,
    /// Waiting to learn whether the current entry's destination exists.
    CheckDest,
    /// Waiting for the directory of the current entry's source to be created.
    EnsureParent,
    /// Waiting for the current entry's file to be moved back.
    MoveBack,
    /// Waiting for the log file to be removed.
    RemoveLog,
    /// The undo is over.
    Done,
    /// The directory of a source could not be created.
    Failed,
}

/// What the file system reported back.
#[derive(Clone, Copy, Debug, PartialEq, Eq, Structural)]
pub enum UndoEvent {
    /// Whether the path of a `CheckDest` exists.
    DestExists(bool),
    /// Whether the directory of an `EnsureParent` could be created.
    ParentReady(bool),
    /// Whether the move of a `MoveBack` succeeded.
    MovedBack(bool),
    /// The log file was removed (or could not be; it does not matter).
    LogRemoved,
}

/// What the caller is to do next.
pub enum UndoAction {
    /// Report that the log holds no moves.
    NothingToUndo,
    /// Find out whether `dest` exists; answer with `DestExists`.
    CheckDest { dest: String },
    /// Create the directory that holds `source`; answer with `ParentReady`.
    EnsureParent { source: String },
    /// Move `from` back to `to`; answer with `MovedBack`.
    MoveBack { from: String, to: String },
    /// Report the numbers of restored and of failed entries, then remove
    /// the log file; answer with `LogRemoved`.
    RemoveLog { restored: usize, failed: usize },
    /// Report the numbers of restored and of failed entries.
    Finish { restored: usize, failed: usize },
    /// The undo stopped: a source directory could not be created.
    Fail,
}

/// An [`UndoAction`] with its texts as sequences of characters.
pub enum UndoActionModel {
    NothingToUndo,
    CheckDest(Seq<char>),
    EnsureParent(Seq<char>),
    MoveBack(Seq<char>, Seq<char>),
    RemoveLog(nat, nat),
    Finish(nat, nat),
    Fail,
}

impl UndoAction {
    pub open spec fn model(&self) -> UndoActionModel {
        match self {
            UndoAction::NothingToUndo => UndoActionModel::NothingToUndo,
            UndoAction::CheckDest { dest } => UndoActionModel::CheckDest(dest@),
            UndoAction::EnsureParent { source } => UndoActionModel::EnsureParent(source@),
            UndoAction::MoveBack { from, to } => UndoActionModel::MoveBack(from@, to@),
            UndoAction::RemoveLog { restored, failed } => UndoActionModel::RemoveLog(
                *restored as nat,
                *failed as nat,
            ),
            UndoAction::Finish { restored, failed } => UndoActionModel::Finish(
                *restored as nat,
                *failed as nat,
            ),
            UndoAction::Fail => UndoActionModel::Fail,
        }
    }
}

/// How an entry ended.
#[derive(PartialEq, Eq, Structural)]
pub enum UndoResult {
    /// Its destination no longer existed.
    Missing,
    /// The file was moved back.
    Restored,
    /// Moving the file back failed.
    MoveFailed,
}

/// The state of an undo: how many entries were handled (from the last one
/// backwards), the stage, the counts, and the result of each handled entry.
pub struct UndoState {
    pub handled: nat,
    pub stage: UndoStage,
    pub restored: nat,
    pub failed: nat,
    pub history: Seq<UndoResult>,
}

/// The index in the log of the entry handled after `handled` others: the
/// entries are taken from the last to the first.
pub open spec fn entry_index(n: nat, handled: nat) -> int {
    n - 1 - handled
}

/// Going on with the next entry, or removing the log after the last one.
pub open spec fn undo_next(
    n: nat,
    handled: nat,
    restored: nat,
    failed: nat,
    history: Seq<UndoResult>,
) -> UndoState {
    UndoState {
        handled,
        restored,
        failed,
        history,
        stage: if handled < n {
            UndoStage::CheckDest
        } else {
            UndoStage::RemoveLog
        },
    }
}

/// The state of a new undo of a log with `n` entries.
pub open spec fn undo_initial(n: nat) -> UndoState {
    UndoState {
        handled: 0,
        restored: 0,
        failed: 0,
        history: Seq::empty(),
        stage: if n == 0 {
            UndoStage::NothingToUndo
        } else {
            UndoStage::CheckDest
        },
    }
}

/// The state after `e`; an event that does not answer the pending action
/// leaves the state as it is.
pub open spec fn undo_step(n: nat, s: UndoState, e: UndoEvent) -> UndoState {
    match (s.stage, e) {
        (UndoStage::CheckDest, UndoEvent::DestExists(b)) => if b {
            UndoState { stage: UndoStage::EnsureParent, ..s }
        } else {
            undo_next(n, s.handled + 1, s.restored, s.failed + 1, s.history.push(UndoResult::Missing))
        },
        (UndoStage::EnsureParent, UndoEvent::ParentReady(ok)) => UndoState {
            stage: if ok {
                UndoStage::MoveBack
            } else {
                UndoStage::Failed
            },
            ..s
        },
        (UndoStage::MoveBack, UndoEvent::MovedBack(ok)) => if ok {
            undo_next(n, s.handled + 1, s.restored + 1, s.failed, s.history.push(UndoResult::Restored))
        } else {
            undo_next(n, s.handled + 1, s.restored, s.failed + 1, s.history.push(UndoResult::MoveFailed))
        },
        (UndoStage::RemoveLog, UndoEvent::LogRemoved) => UndoState { stage: UndoStage::Done, ..s },
        _ => s,
    }
}

/// What an undo in state `s` asks for, `moves` being the `(source, dest)`
/// pairs of the log.
pub open spec fn undo_action(moves: Seq<(Seq<char>, Seq<char>)>, s: UndoState) -> UndoActionModel {
    let m = moves[entry_index(moves.len(), s.handled)];
    match s.stage {
        UndoStage::NothingToUndo => UndoActionModel::NothingToUndo,
        UndoStage::CheckDest => UndoActionModel::CheckDest(m.1),
        UndoStage::EnsureParent => UndoActionModel::EnsureParent(m.0),
        UndoStage::MoveBack => UndoActionModel::MoveBack(m.1, m.0),
        UndoStage::RemoveLog => UndoActionModel::RemoveLog(s.restored, s.failed),
        UndoStage::Done => UndoActionModel::Finish(s.restored, s.failed),
        UndoStage::Failed => UndoActionModel::Fail,
    }
}

/// The number of restored entries in `h`.
pub open spec fn count_restored(h: Seq<UndoResult>) -> nat
    decreases h.len(),
{
    if h.len() == 0 {
        0
    } else {
        count_restored(h.drop_last()) + if h.last() == UndoResult::Restored {
            1nat
        } else {
            0nat
        }
    }
}

/// The invariant of an undo: entries are handled one at a time, the counts
/// add up and count what happened, and the log goes only after every entry
/// was handled.
pub open spec fn undo_wf(n: nat, s: UndoState) -> bool {
    &&& s.handled <= n
    &&& s.history.len() == s.handled
    &&& s.restored == count_restored(s.history)
    &&& s.restored + s.failed == s.handled
    &&& (s.stage is CheckDest || s.stage is EnsureParent || s.stage is MoveBack) ==> s.handled < n
    &&& (s.stage is RemoveLog || s.stage is Done) ==> s.handled == n && n > 0
    &&& s.stage is NothingToUndo ==> n == 0 && s.handled == 0
}

/// A new undo satisfies the invariant.
pub proof fn law_undo_initial(n: nat)
    ensures
        undo_wf(n, undo_initial(n)),
{
}

/// Every step keeps the invariant: each entry, taken from the last to the
/// first, is counted once as restored or as failed, and the log is removed
/// only once all of them are handled.
pub proof fn law_undo_step_keeps_invariant(n: nat, s: UndoState, e: UndoEvent)
    requires
        undo_wf(n, s),
    ensures
        undo_wf(n, undo_step(n, s, e)),
{
    let h = s.history;
    assert(h.push(UndoResult::Missing).drop_last() =~= h);
    assert(h.push(UndoResult::Restored).drop_last() =~= h);
    assert(h.push(UndoResult::MoveFailed).drop_last() =~= h);
}

/// What each answer does to an undo. A missing destination counts one
/// failure and the undo goes on with the next entry (it never stops the
/// undo); a present one leads to making the source's directory; failing to
/// make it is the only way an undo stops; a move back counts one restored
/// entry when it succeeds and one failure when it does not, and the undo
/// goes on. After the last entry the log is removed.
pub proof fn law_undo_transitions(n: nat, s: UndoState, e: UndoEvent)
    requires
        undo_wf(n, s),
    ensures
        ({
            let t = undo_step(n, s, e);
            let next_stage = if s.handled + 1 < n {
                UndoStage::CheckDest
            } else {
                UndoStage::RemoveLog
            };
            &&& s.stage == UndoStage::CheckDest && e == UndoEvent::DestExists(false) ==> {
                &&& t.handled == s.handled + 1
                &&& t.restored == s.restored
                &&& t.failed == s.failed + 1
                &&& t.history == s.history.push(UndoResult::Missing)
                &&& t.stage == next_stage
            }
            &&& s.stage == UndoStage::CheckDest && e == UndoEvent::DestExists(true) ==> {
                &&& t.stage == UndoStage::EnsureParent
                &&& t.handled == s.handled && t.restored == s.restored && t.failed == s.failed
                &&& t.history == s.history
            }
            &&& s.stage == UndoStage::EnsureParent && e == UndoEvent::ParentReady(true) ==> {
                &&& t.stage == UndoStage::MoveBack
                &&& t.handled == s.handled && t.restored == s.restored && t.failed == s.failed
            }
            &&& s.stage == UndoStage::MoveBack && e == UndoEvent::MovedBack(true) ==> {
                &&& t.handled == s.handled + 1
                &&& t.restored == s.restored + 1
                &&& t.failed == s.failed
                &&& t.history == s.history.push(UndoResult::Restored)
                &&& t.stage == next_stage
            }
            &&& s.stage == UndoStage::MoveBack && e == UndoEvent::MovedBack(false) ==> {
                &&& t.handled == s.handled + 1
                &&& t.restored == s.restored
                &&& t.failed == s.failed + 1
                &&& t.history == s.history.push(UndoResult::MoveFailed)
                &&& t.stage == next_stage
            }
            &&& (t.stage == UndoStage::Failed && s.stage != UndoStage::Failed) ==> (s.stage
                == UndoStage::EnsureParent && e == UndoEvent::ParentReady(false))
            &&& (t.stage == UndoStage::RemoveLog && s.stage != UndoStage::RemoveLog) ==> t.handled
                == n
        }),
{
}

/// An undo of an empty log has nothing to do; otherwise it starts with the
/// last entry, with nothing handled or counted.
pub proof fn law_undo_start(n: nat)
    ensures
        undo_initial(n).stage == if n == 0 {
            UndoStage::NothingToUndo
        } else {
            UndoStage::CheckDest
        },
        undo_initial(n).handled == 0,
        undo_initial(n).restored == 0,
        undo_initial(n).failed == 0,
        undo_initial(n).history.len() == 0,
{
}

/// While an entry is being undone, the actions name that entry, the
/// `handled`-th counted from the last: its destination is checked, the
/// directory of its source is made, and it is moved from its destination
/// to its source.
pub proof fn law_undo_action_entry(moves: Seq<(Seq<char>, Seq<char>)>, s: UndoState)
    requires
        undo_wf(moves.len(), s),
    ensures
        ({
            let m = moves[moves.len() - 1 - s.handled];
            &&& s.stage == UndoStage::CheckDest ==> undo_action(moves, s) == UndoActionModel::CheckDest(m.1)
            &&& s.stage == UndoStage::EnsureParent ==> undo_action(moves, s)
                == UndoActionModel::EnsureParent(m.0)
            &&& s.stage == UndoStage::MoveBack ==> undo_action(moves, s) == UndoActionModel::MoveBack(
                m.1,
                m.0,
            )
            &&& s.stage == UndoStage::NothingToUndo ==> undo_action(moves, s)
                == UndoActionModel::NothingToUndo
            &&& s.stage == UndoStage::Failed ==> undo_action(moves, s) == UndoActionModel::Fail
        }),
{
}

/// The counts that an undo reports are what happened: the number of
/// entries moved back, and the number of the others (missing or failed to
/// move back); together they are all the entries of the log.
pub proof fn law_undo_reports_counts(moves: Seq<(Seq<char>, Seq<char>)>, s: UndoState)
    requires
        undo_wf(moves.len(), s),
    ensures
        s.stage == UndoStage::RemoveLog ==> undo_action(moves, s) == UndoActionModel::RemoveLog(
            count_restored(s.history),
            (moves.len() - count_restored(s.history)) as nat,
        ),
        s.stage == UndoStage::Done ==> undo_action(moves, s) == UndoActionModel::Finish(
            count_restored(s.history),
            (moves.len() - count_restored(s.history)) as nat,
        ),
        count_restored(s.history) <= s.handled,
{
}

/// A file is moved back only after its destination was reported present
/// and the directory of its source was created; and the entries are taken
/// from the last logged move to the first.
pub proof fn law_undo_moves_back_checked_entries(moves: Seq<(Seq<char>, Seq<char>)>, s: UndoState)
    requires
        undo_wf(moves.len(), s),
        s.stage is MoveBack,
    ensures
        undo_action(moves, s) == UndoActionModel::MoveBack(
            moves[moves.len() - 1 - s.handled].1,
            moves[moves.len() - 1 - s.handled].0,
        ),
        0 <= moves.len() - 1 - s.handled < moves.len(),
{
}

/// One entry undone with nothing going wrong: its destination is present,
/// its directory is made, and it is moved back.
pub open spec fn smooth_round(n: nat, s: UndoState) -> UndoState {
    let s1 = undo_step(n, s, UndoEvent::DestExists(true));
    let s2 = undo_step(n, s1, UndoEvent::ParentReady(true));
    undo_step(n, s2, UndoEvent::MovedBack(true))
}

/// `k` entries undone with nothing going wrong, from state `s`.
pub open spec fn smooth_rounds(n: nat, s: UndoState, k: nat) -> UndoState
    decreases k,
{
    if k == 0 {
        s
    } else {
        smooth_round(n, smooth_rounds(n, s, (k - 1) as nat))
    }
}

proof fn lemma_smooth_rounds(n: nat, k: nat)
    requires
        k <= n,
    ensures
        smooth_rounds(n, undo_initial(n), k) == (UndoState {
            handled: k,
            restored: k,
            failed: 0,
            history: Seq::new(k, |i: int| UndoResult::Restored),
            stage: if k == 0 && n == 0 {
                UndoStage::NothingToUndo
            } else if k < n {
                UndoStage::CheckDest
            } else {
                UndoStage::RemoveLog
            },
        }),
    decreases k,
{
    if k > 0 {
        lemma_smooth_rounds(n, (k - 1) as nat);
        let prev = smooth_rounds(n, undo_initial(n), (k - 1) as nat);
        assert(prev.history.push(UndoResult::Restored) =~= Seq::new(k, |i: int| UndoResult::Restored));
    } else {
        assert(Seq::<UndoResult>::empty() =~= Seq::new(0, |i: int| UndoResult::Restored));
    }
}

/// Undo reverses a run: when every moved file is still where the run put
/// it, the `k`-th entry undone is the `k`-th move counted from the last; the
/// undo checks that its destination is there, makes the directory of its
/// source, and moves it from its destination back to its source.
pub proof fn law_undo_reverses_moves(moves: Seq<(Seq<char>, Seq<char>)>, k: nat)
    requires
        k < moves.len(),
    ensures
        ({
            let n = moves.len();
            let m = moves[n - 1 - k];
            let s0 = smooth_rounds(n, undo_initial(n), k);
            let s1 = undo_step(n, s0, UndoEvent::DestExists(true));
            let s2 = undo_step(n, s1, UndoEvent::ParentReady(true));
            &&& undo_action(moves, s0) == UndoActionModel::CheckDest(m.1)
            &&& undo_action(moves, s1) == UndoActionModel::EnsureParent(m.0)
            &&& undo_action(moves, s2) == UndoActionModel::MoveBack(m.1, m.0)
        }),
{
    lemma_smooth_rounds(moves.len(), k);
}

/// When every moved file is still where the run put it, undoing all of the
/// log restores every entry, fails none, removes the log, and reports them.
pub proof fn law_undo_restores_all(moves: Seq<(Seq<char>, Seq<char>)>)
    requires
        moves.len() > 0,
    ensures
        ({
            let n = moves.len();
            let s = smooth_rounds(n, undo_initial(n), n);
            &&& undo_action(moves, s) == UndoActionModel::RemoveLog(n, 0)
            &&& undo_action(moves, undo_step(n, s, UndoEvent::LogRemoved))
                == UndoActionModel::Finish(n, 0)
        }),
{
    lemma_smooth_rounds(moves.len(), moves.len());
}

/// The places in `h` of the files whose copy or move succeeded, in order.
pub open spec fn successful_places(h: Seq<FileRecord>) -> Seq<int>
    decreases h.len(),
{
    if h.len() == 0 {
        Seq::empty()
    } else {
        let prev = successful_places(h.drop_last());
        match h.last().result {
            FileResult::Processed { ok, .. } => if ok {
                prev.push(h.len() - 1)
            } else {
                prev
            },
            FileResult::Skipped => prev,
        }
    }
}

proof fn lemma_successful_places(files: Seq<Seq<char>>, h: Seq<FileRecord>)
    ensures
        successful_places(h).len() == succeeded(files, h).len(),
        forall|j: int|
            0 <= j < successful_places(h).len() ==> {
                let i = #[trigger] successful_places(h)[j];
                &&& 0 <= i < h.len()
                &&& h[i].result matches FileResult::Processed { ok, .. } && ok
                &&& succeeded(files, h)[j] == (files[i], h[i].result->dest)
            },
        forall|j: int, l: int|
            0 <= j < l < successful_places(h).len() ==> #[trigger] successful_places(h)[j]
                < #[trigger] successful_places(h)[l],
    decreases h.len(),
{
    if h.len() > 0 {
        let g = h.drop_last();
        lemma_successful_places(files, g);
        assert forall|j: int| 0 <= j < successful_places(g).len() implies #[trigger] g[successful_places(g)[j]]
            == h[successful_places(g)[j]] by {}
    }
}

/// Undo reverses a move run: in a real move run, the log holds one entry
/// per file whose move succeeded, in the order of the moves; undoing that
/// log (with every moved file still where the run put it) takes them from
/// the last move to the first and asks to move each file from where the
/// run put it back to where it was.
pub proof fn law_undo_reverses_run(
    dest_dir: Seq<char>,
    files: Seq<Seq<char>>,
    c: RunConfig,
    s: RunState,
    k: nat,
)
    requires
        state_wf(dest_dir, files, c, s),
        c.move_files && !c.dry_run,
        k < s.moves.len(),
    ensures
        ({
            let n = s.moves.len();
            let places = successful_places(s.history);
            let i = places[n - 1 - k];
            let s0 = smooth_rounds(n, undo_initial(n), k);
            let s1 = undo_step(n, s0, UndoEvent::DestExists(true));
            let s2 = undo_step(n, s1, UndoEvent::ParentReady(true));
            &&& places.len() == n
            &&& 0 <= i < s.history.len()
            &&& s.history[i].result matches FileResult::Processed { ok, .. } && ok
            &&& undo_action(s.moves, s2) == UndoActionModel::MoveBack(
                s.history[i].result->dest,
                files[i],
            )
            &&& forall|l: int| 0 <= l < k ==> #[trigger] places[n - 1 - l] > i
        }),
{
    lemma_successful_places(files, s.history);
    law_undo_reverses_moves(s.moves, k);
    let n = s.moves.len();
    let places = successful_places(s.history);
    assert forall|l: int| 0 <= l < k implies #[trigger] places[n - 1 - l] > places[n - 1 - k] by {
        assert(places[n - 1 - k] < places[n - 1 - l]);
    }
}

/// An undo in progress.
pub struct Undo {
    entries: Vec<LogEntry>,
    handled: usize,
    stage: UndoStage,
    restored: usize,
    failed: usize,
    history: Ghost<Seq<UndoResult>>,
}

impl Undo {
    /// The `(source, dest)` pairs of the log being undone.
    pub closed spec fn moves(&self) -> Seq<(Seq<char>, Seq<char>)> {
        self.entries@.map_values(|e: LogEntry| entry_move(e))
    }

    /// The state of the undo.
    pub closed spec fn state(&self) -> UndoState {
        UndoState {
            handled: self.handled as nat,
            stage: self.stage,
            restored: self.restored as nat,
            failed: self.failed as nat,
            history: self.history@,
        }
    }

    pub closed spec fn wf(&self) -> bool {
        undo_wf(self.entries.len() as nat, self.state())
    }

    /// A well-formed undo satisfies the invariant [`undo_wf`].
    pub proof fn wf_gives_invariant(&self)
        requires
            self.wf(),
        ensures
            undo_wf(self.moves().len(), self.state()),
    {
    }

    /// An undo of the moves in `log`.
    pub fn new(log: OperationLog) -> (res: Undo)
        ensures
            res.wf(),
            undo_wf(res.moves().len(), res.state()),
            res.moves() == log.entries@.map_values(|e: LogEntry| entry_move(e)),
            res.state() == undo_initial(log.entries@.len()),
    {
        let n = log.entries.len();
        let stage = if n == 0 {
            UndoStage::NothingToUndo
        } else {
            UndoStage::CheckDest
        };
        Undo {
            entries: log.entries,
            handled: 0,
            stage,
            restored: 0,
            failed: 0,
            history: Ghost(Seq::empty()),
        }
    }

    /// What the caller is to do next.
    pub fn action(&self) -> (res: UndoAction)
        requires
            self.wf(),
        ensures
            res.model() == undo_action(self.moves(), self.state()),
    {
        let n = self.entries.len();
        match self.stage {
            UndoStage::NothingToUndo => UndoAction::NothingToUndo,
            UndoStage::CheckDest => {
                let i = n - 1 - self.handled;
                UndoAction::CheckDest { dest: self.entries[i].dest.clone() }
            },
            UndoStage::EnsureParent => {
                let i = n - 1 - self.handled;
                UndoAction::EnsureParent { source: self.entries[i].source.clone() }
            },
            UndoStage::MoveBack => {
                let i = n - 1 - self.handled;
                UndoAction::MoveBack {
                    from: self.entries[i].dest.clone(),
                    to: self.entries[i].source.clone(),
                }
            },
            UndoStage::RemoveLog => UndoAction::RemoveLog {
                restored: self.restored,
                failed: self.failed,
            },
            UndoStage::Done => UndoAction::Finish { restored: self.restored, failed: self.failed },
            UndoStage::Failed => UndoAction::Fail,
        }
    }

    /// Moves on after the current entry.
    fn next(&mut self)
        requires
            old(self).handled < old(self).entries.len(),
        ensures
            final(self).entries == old(self).entries,
            final(self).handled == old(self).handled + 1,
            final(self).restored == old(self).restored,
            final(self).failed == old(self).failed,
            final(self).history == old(self).history,
            final(self).stage == if final(self).handled < final(self).entries.len() {
                UndoStage::CheckDest
            } else {
                UndoStage::RemoveLog
            },
    {
        self.handled = self.handled + 1;
        if self.handled < self.entries.len() {
            self.stage = UndoStage::CheckDest;
        } else {
            self.stage = UndoStage::RemoveLog;
        }
    }

    /// Takes the answer to the pending action.
    pub fn step(&mut self, event: UndoEvent)
        requires
            old(self).wf(),
        ensures
            final(self).wf(),
            undo_wf(final(self).moves().len(), final(self).state()),
            final(self).moves() == old(self).moves(),
            final(self).state() == undo_step(old(self).moves().len(), old(self).state(), event),
    {
        let ghost old_self = *self;
        match (self.stage, event) {
            (UndoStage::CheckDest, UndoEvent::DestExists(b)) => {
                if b {
                    self.stage = UndoStage::EnsureParent;
                } else {
                    self.failed = self.failed + 1;
                    self.history = Ghost(self.history@.push(UndoResult::Missing));
                    self.next();
                }
            },
            (UndoStage::EnsureParent, UndoEvent::ParentReady(ok)) => {
                if ok {
                    self.stage = UndoStage::MoveBack;
                } else {
                    self.stage = UndoStage::Failed;
                }
            },
            (UndoStage::MoveBack, UndoEvent::MovedBack(ok)) => {
                if ok {
                    self.restored = self.restored + 1;
                    self.history = Ghost(self.history@.push(UndoResult::Restored));
                } else {
                    self.failed = self.failed + 1;
                    self.history = Ghost(self.history@.push(UndoResult::MoveFailed));
                }
                self.next();
            },
            (UndoStage::RemoveLog, UndoEvent::LogRemoved) => {
                self.stage = UndoStage::Done;
            },
            _ => {},
        }
        proof {
            law_undo_step_keeps_invariant(old_self.entries.len() as nat, old_self.state(), event);
        }
    }
}

} // verus!
