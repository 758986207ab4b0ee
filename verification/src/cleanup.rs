//! The decisions of removing the directories that a run left empty.
//!
//! The directories found under the source (the source itself included) are
//! taken deepest first, directories of equal depth in the order in which
//! they were found, so that a directory emptied by the removal of its
//! subdirectories is itself removed. The source directory is never touched.
//! A directory reported empty is removed (a failed removal stops the
//! cleanup); one that is not empty, or cannot be read, is left.
use vstd::prelude::*;

verus! {

// ---------------------------------------------------------------------------
// The order: deepest first, stable
// ---------------------------------------------------------------------------

/// Directory `a` comes before directory `b`: it is deeper, or as deep and
/// found earlier.
pub open spec fn deeper_first(d: Seq<usize>, a: usize, b: usize) -> bool {
    d[a as int] > d[b as int] || (d[a as int] == d[b as int] && a < b)
}

/// `order` lists every index of `d` once, deepest first, equal depths in
/// their original order.
pub open spec fn is_depth_order(d: Seq<usize>, order: Seq<usize>) -> bool {
    &&& order.len() == d.len()
    &&& forall|i: int| 0 <= i < order.len() ==> #[trigger] order[i] < d.len()
    &&& forall|i: int, j: int|
        0 <= i < j < order.len() ==> deeper_first(d, #[trigger] order[i], #[trigger] order[j])
    &&& forall|k: usize| k < d.len() ==> #[trigger] order.contains(k)
}

/// The indices of `depths`, deepest first; directories of equal depth keep
/// the order in which they were found.
pub fn depth_order(depths: &Vec<usize>) -> (order: Vec<usize>)
    ensures
        is_depth_order(depths@, order@),
{
    let n = depths.len();
    let ghost d = depths@;
    let mut order: Vec<usize> = Vec::new();
    let mut k: usize = 0;
    while k < n
        invariant
            n == d.len(),
            d == depths@,
            k <= n,
            order@.len() == k,
            forall|i: int| 0 <= i < order@.len() ==> #[trigger] order@[i] < k,
            forall|i: int, j: int|
                0 <= i < j < order@.len() ==> deeper_first(d, #[trigger] order@[i], #[trigger] order@[j]),
            forall|m: usize| m < k ==> #[trigger] order@.contains(m),
        decreases n - k,
    {
        let mut p: usize = 0;
        while p < order.len() && depths[order[p]] >= depths[k]
            invariant
                n == d.len(),
                d == depths@,
                k < n,
                order@.len() == k,
                forall|i: int| 0 <= i < order@.len() ==> #[trigger] order@[i] < k,
                p <= order@.len(),
                forall|q: int| 0 <= q < p ==> d[#[trigger] order@[q] as int] >= d[k as int],
            decreases order@.len() - p,
        {
            p = p + 1;
        }
        let ghost old_order = order@;
        order.insert(p, k);
        proof {
            old_order.insert_ensures(p as int, k);
            let o = order@;
            assert(o =~= old_order.insert(p as int, k));
            assert forall|i: int| 0 <= i < o.len() implies #[trigger] o[i] < k + 1 by {
                if i < p {
                    assert(o[i] == old_order[i]);
                } else if i > p {
                    assert(o[i] == old_order[i - 1]);
                }
            }
            assert forall|i: int, j: int| 0 <= i < j < o.len() implies deeper_first(
                d,
                #[trigger] o[i],
                #[trigger] o[j],
            ) by {
                if j < p {
                    assert(o[i] == old_order[i] && o[j] == old_order[j]);
                } else if j == p {
                    assert(o[i] == old_order[i]);
                    assert(d[old_order[i] as int] >= d[k as int]);
                    assert(old_order[i] < k);
                } else if i > p {
                    assert(o[i] == old_order[i - 1] && o[j] == old_order[j - 1]);
                } else if i == p {
                    assert(o[j] == old_order[j - 1]);
                    assert(old_order[j - 1] < k);
                    assert(p < old_order.len());
                    assert(d[old_order[p as int] as int] < d[k as int]);
                    if j - 1 > p {
                        assert(deeper_first(d, old_order[p as int], old_order[j - 1]));
                    }
                } else {
                    assert(o[i] == old_order[i] && o[j] == old_order[j - 1]);
                    assert(deeper_first(d, old_order[i], old_order[j - 1]));
                }
            }
            assert forall|m: usize| m < k + 1 implies #[trigger] o.contains(m) by {
                if m == k {
                    assert(o[p as int] == k);
                } else {
                    assert(old_order.contains(m));
                    let w = choose|w: int| 0 <= w < old_order.len() && old_order[w] == m;
                    if w < p {
                        assert(o[w] == m);
                    } else {
                        assert(o[w + 1] == m);
                    }
                }
            }
        }
        k = k + 1;
    }
    order
}

// ---------------------------------------------------------------------------
// The protocol
// ---------------------------------------------------------------------------

/// A directory found under the source.
#[derive(Clone, Copy, Debug, PartialEq, Eq, Structural)]
pub struct DirInfo {
    /// The number of components of its path.
    pub depth: usize,
    /// Whether it is the source directory itself.
    pub is_source: bool,
}

/// What reading a directory showed.
#[derive(Clone, Copy, Debug, PartialEq, Eq, Structural)]
pub enum DirState {
    Empty,
    NotEmpty,
    Unreadable,
}

/// Where a cleanup stands.
#[derive(Clone, Copy, Debug, PartialEq, Eq, Structural)]
pub enum CleanupStage {
    /// Waiting to learn what the current directory holds.
    Inspect,
    /// Waiting for the current (empty) directory to be removed.
    Remove,
    /// The cleanup is over.
    Done,
    /// The removal of the current directory failed.
    Failed,
}

/// What the file system reported back.
#[derive(Clone, Copy, Debug, PartialEq, Eq, Structural)]
pub enum CleanupEvent {
    /// What an `Inspect` showed.
    Inspected(DirState),
    /// Whether a `Remove` succeeded.
    Removed(bool),
}

/// What the caller is to do next; directories are named by their index in
/// the list the cleanup was made from.
#[derive(Clone, Copy, Debug, PartialEq, Eq, Structural)]
pub enum CleanupAction {
    /// Read directory `dir`; answer with `Inspected`.
    Inspect { dir: usize },
    /// Remove the empty directory `dir`; answer with `Removed`.
    Remove { dir: usize },
    /// Report how many directories were removed.
    Finish { deleted: usize },
    /// The removal of `dir` failed.
    Fail { dir: usize },
}

/// How a handled directory ended.
#[derive(PartialEq, Eq, Structural)]
pub enum DirResult {
    Removed,
    Kept,
}

/// A handled directory: its place in the order, and what became of it.
pub struct DirRecord {
    pub position: nat,
    pub result: DirResult,
}

/// The state of a cleanup: the place in the order, the stage, the number of
/// removed directories, and one record per handled directory.
pub struct CleanupState {
    pub pos: nat,
    pub stage: CleanupStage,
    pub deleted: nat,
    pub history: Seq<DirRecord>,
}

/// The first place from `p` on that does not hold the source directory.
pub open spec fn skip_source(order: Seq<usize>, src: Seq<bool>, p: nat) -> nat
    decreases order.len() - p,
{
    if p < order.len() && src[order[p as int] as int] {
        skip_source(order, src, p + 1)
    } else {
        p
    }
}

/// The places before `pos` that do not hold the source directory.
pub open spec fn visited(order: Seq<usize>, src: Seq<bool>, pos: nat) -> Seq<nat>
    decreases pos,
{
    if pos == 0 {
        Seq::empty()
    } else {
        let v = visited(order, src, (pos - 1) as nat);
        if src[order[pos - 1] as int] {
            v
        } else {
            v.push((pos - 1) as nat)
        }
    }
}

/// The number of removed directories in `h`.
pub open spec fn count_removed(h: Seq<DirRecord>) -> nat
    decreases h.len(),
{
    if h.len() == 0 {
        0
    } else {
        count_removed(h.drop_last()) + if h.last().result == DirResult::Removed {
            1nat
        } else {
            0nat
        }
    }
}

/// Going on from place `p`.
pub open spec fn cleanup_next(
    order: Seq<usize>,
    src: Seq<bool>,
    p: nat,
    deleted: nat,
    history: Seq<DirRecord>,
) -> CleanupState {
    let q = skip_source(order, src, p);
    CleanupState {
        pos: q,
        deleted,
        history,
        stage: if q < order.len() {
            CleanupStage::Inspect
        } else {
            CleanupStage::Done
        },
    }
}

/// The state after `e`; an event that does not answer the pending action
/// leaves the state as it is.
pub open spec fn cleanup_step(
    order: Seq<usize>,
    src: Seq<bool>,
    s: CleanupState,
    e: CleanupEvent,
) -> CleanupState {
    match (s.stage, e) {
        (CleanupStage::Inspect, CleanupEvent::Inspected(st)) => if st == DirState::Empty {
            CleanupState { stage: CleanupStage::Remove, ..s }
        } else {
            cleanup_next(
                order,
                src,
                s.pos + 1,
                s.deleted,
                s.history.push(DirRecord { position: s.pos, result: DirResult::Kept }),
            )
        },
        (CleanupStage::Remove, CleanupEvent::Removed(ok)) => if ok {
            cleanup_next(
                order,
                src,
                s.pos + 1,
                s.deleted + 1,
                s.history.push(DirRecord { position: s.pos, result: DirResult::Removed }),
            )
        } else {
            CleanupState { stage: CleanupStage::Failed, ..s }
        },
        _ => s,
    }
}

/// The invariant of a cleanup: the directories are handled in the order,
/// each once, the source never; every removed one was reported empty, and
/// the count is the number removed.
pub open spec fn cleanup_wf(order: Seq<usize>, src: Seq<bool>, s: CleanupState) -> bool {
    &&& s.pos <= order.len()
    &&& s.history.map_values(|r: DirRecord| r.position) == visited(order, src, s.pos)
    &&& s.deleted == count_removed(s.history)
    &&& (s.stage is Inspect || s.stage is Remove || s.stage is Failed) ==> s.pos < order.len()
        && !src[order[s.pos as int] as int]
    &&& s.stage is Done ==> s.pos == order.len()
}

proof fn lemma_counts_bounded(order: Seq<usize>, src: Seq<bool>, pos: nat, h: Seq<DirRecord>)
    ensures
        visited(order, src, pos).len() <= pos,
        count_removed(h) <= h.len(),
    decreases pos + h.len(),
{
    if pos > 0 {
        lemma_counts_bounded(order, src, (pos - 1) as nat, h);
    }
    if h.len() > 0 {
        lemma_counts_bounded(order, src, pos, h.drop_last());
    }
}

proof fn lemma_skip_source(order: Seq<usize>, src: Seq<bool>, p: nat)
    requires
        p <= order.len(),
    ensures
        p <= skip_source(order, src, p) <= order.len(),
        visited(order, src, skip_source(order, src, p)) == visited(order, src, p),
        skip_source(order, src, p) < order.len() ==> !src[order[skip_source(order, src, p) as int] as int],
        forall|q: int| p <= q < skip_source(order, src, p) ==> #[trigger] src[order[q] as int],
    decreases order.len() - p,
{
    if p < order.len() && src[order[p as int] as int] {
        lemma_skip_source(order, src, p + 1);
        assert(visited(order, src, p + 1) == visited(order, src, p));
    }
}

/// A new cleanup satisfies the invariant.
pub proof fn law_cleanup_initial(order: Seq<usize>, src: Seq<bool>)
    ensures
        cleanup_wf(order, src, cleanup_next(order, src, 0, 0, Seq::empty())),
{
    lemma_skip_source(order, src, 0);
    assert(Seq::<DirRecord>::empty().map_values(|r: DirRecord| r.position) =~= visited(order, src, 0));
}

/// Every step keeps the invariant: the directories other than the source
/// are handled in the order, one at a time; a directory is removed only
/// after it was reported empty; and the count is the number removed.
pub proof fn law_cleanup_step_keeps_invariant(
    order: Seq<usize>,
    src: Seq<bool>,
    s: CleanupState,
    e: CleanupEvent,
)
    requires
        cleanup_wf(order, src, s),
    ensures
        cleanup_wf(order, src, cleanup_step(order, src, s, e)),
{
    let f = |r: DirRecord| r.position;
    match (s.stage, e) {
        (CleanupStage::Inspect, CleanupEvent::Inspected(st)) => {
            if st != DirState::Empty {
                let rec = DirRecord { position: s.pos, result: DirResult::Kept };
                let h = s.history.push(rec);
                assert(h.drop_last() =~= s.history);
                assert(h.map_values(f) =~= s.history.map_values(f).push(s.pos));
                lemma_skip_source(order, src, s.pos + 1);
            }
        },
        (CleanupStage::Remove, CleanupEvent::Removed(ok)) => {
            if ok {
                let rec = DirRecord { position: s.pos, result: DirResult::Removed };
                let h = s.history.push(rec);
                assert(h.drop_last() =~= s.history);
                assert(h.map_values(f) =~= s.history.map_values(f).push(s.pos));
                lemma_skip_source(order, src, s.pos + 1);
            }
        },
        _ => {},
    }
}

/// What each answer does to a cleanup. An empty directory is removed
/// (the removal is asked for next, for the same directory); one that is not
/// empty or cannot be read is kept and the cleanup moves on; a removal that
/// succeeds counts one more deleted directory and moves on; a failed
/// removal is the only way a cleanup stops. Moving on skips the source
/// directory and nothing else, and ends the cleanup after the last
/// directory.
pub proof fn law_cleanup_transitions(
    order: Seq<usize>,
    src: Seq<bool>,
    s: CleanupState,
    e: CleanupEvent,
)
    requires
        cleanup_wf(order, src, s),
    ensures
        ({
            let t = cleanup_step(order, src, s, e);
            let moves_on = {
                &&& s.pos < t.pos <= order.len()
                &&& forall|q: int| s.pos < q < t.pos ==> #[trigger] src[order[q] as int]
                &&& t.pos < order.len() ==> t.stage == CleanupStage::Inspect && !src[order[t.pos as int] as int]
                &&& t.pos == order.len() ==> t.stage == CleanupStage::Done
            };
            &&& s.stage == CleanupStage::Inspect && e == CleanupEvent::Inspected(DirState::Empty) ==> {
                &&& t.stage == CleanupStage::Remove
                &&& t.pos == s.pos
                &&& t.deleted == s.deleted
                &&& t.history == s.history
            }
            &&& (s.stage == CleanupStage::Inspect && e is Inspected && e->Inspected_0
                != DirState::Empty) ==> {
                &&& moves_on
                &&& t.deleted == s.deleted
                &&& t.history == s.history.push(DirRecord { position: s.pos, result: DirResult::Kept })
            }
            &&& s.stage == CleanupStage::Remove && e == CleanupEvent::Removed(true) ==> {
                &&& moves_on
                &&& t.deleted == s.deleted + 1
                &&& t.history == s.history.push(DirRecord { position: s.pos, result: DirResult::Removed })
            }
            &&& s.stage == CleanupStage::Remove && e == CleanupEvent::Removed(false) ==> {
                &&& t.stage == CleanupStage::Failed
                &&& t.pos == s.pos
                &&& t.deleted == s.deleted
            }
            &&& (t.stage == CleanupStage::Failed && s.stage != CleanupStage::Failed) ==> (s.stage
                == CleanupStage::Remove && e == CleanupEvent::Removed(false))
        }),
{
    if s.pos < order.len() {
        lemma_skip_source(order, src, s.pos + 1);
    }
}

/// A cleanup starts at the first directory in the order that is not the
/// source, with nothing removed; when there is none it is over at once.
pub proof fn law_cleanup_start(order: Seq<usize>, src: Seq<bool>)
    ensures
        ({
            let t = cleanup_next(order, src, 0, 0, Seq::empty());
            &&& t.deleted == 0
            &&& t.history.len() == 0
            &&& t.pos <= order.len()
            &&& forall|q: int| 0 <= q < t.pos ==> #[trigger] src[order[q] as int]
            &&& t.pos < order.len() ==> t.stage == CleanupStage::Inspect && !src[order[t.pos as int] as int]
            &&& t.pos == order.len() ==> t.stage == CleanupStage::Done
        }),
{
    lemma_skip_source(order, src, 0);
}

/// The source directory is never inspected nor removed.
pub proof fn law_source_untouched(order: Seq<usize>, src: Seq<bool>, s: CleanupState)
    requires
        cleanup_wf(order, src, s),
        s.stage is Inspect || s.stage is Remove,
    ensures
        !src[order[s.pos as int] as int],
{
}

/// The state after answering the inspections in turn with `answers`.
pub open spec fn cleanup_answers(
    order: Seq<usize>,
    src: Seq<bool>,
    s: CleanupState,
    answers: Seq<DirState>,
) -> CleanupState
    decreases answers.len(),
{
    if answers.len() == 0 {
        s
    } else {
        cleanup_step(
            order,
            src,
            cleanup_answers(order, src, s, answers.drop_last()),
            CleanupEvent::Inspected(answers.last()),
        )
    }
}

/// Cleaning up again changes nothing: the directories a cleanup kept were
/// reported not empty (or unreadable); when every directory is reported so
/// again, no removal is ever asked for and, once each has been answered,
/// the cleanup finishes having removed none.
pub proof fn law_cleanup_of_kept_removes_nothing(
    order: Seq<usize>,
    src: Seq<bool>,
    answers: Seq<DirState>,
)
    requires
        forall|i: int| 0 <= i < answers.len() ==> #[trigger] answers[i] != DirState::Empty,
    ensures
        ({
            let t = cleanup_answers(order, src, cleanup_next(order, src, 0, 0, Seq::empty()), answers);
            &&& t.deleted == 0
            &&& t.stage is Inspect || t.stage is Done
            &&& t.stage is Inspect ==> t.pos >= answers.len()
            &&& answers.len() >= order.len() ==> t.stage is Done && t.deleted == 0
        }),
    decreases answers.len(),
{
    lemma_skip_source(order, src, 0);
    if answers.len() > 0 {
        let prev = answers.drop_last();
        assert forall|i: int| 0 <= i < prev.len() implies #[trigger] prev[i] != DirState::Empty by {
            assert(prev[i] == answers[i]);
        }
        law_cleanup_of_kept_removes_nothing(order, src, prev);
        let p = cleanup_answers(order, src, cleanup_next(order, src, 0, 0, Seq::empty()), prev);
        assert(answers.last() == answers[answers.len() - 1]);
        if p.stage is Inspect {
            if p.pos < order.len() {
                lemma_skip_source(order, src, p.pos + 1);
            }
        }
    }
}

/// A cleanup in progress.
pub struct Cleanup {
    order: Vec<usize>,
    sources: Vec<bool>,
    pos: usize,
    stage: CleanupStage,
    deleted: usize,
    history: Ghost<Seq<DirRecord>>,
}

impl Cleanup {
    /// The order in which the directories are taken.
    pub closed spec fn order_view(&self) -> Seq<usize> {
        self.order@
    }

    /// Which directories are the source.
    pub closed spec fn sources_view(&self) -> Seq<bool> {
        self.sources@
    }

    /// The state of the cleanup.
    pub closed spec fn state(&self) -> CleanupState {
        CleanupState {
            pos: self.pos as nat,
            stage: self.stage,
            deleted: self.deleted as nat,
            history: self.history@,
        }
    }

    pub closed spec fn wf(&self) -> bool {
        &&& cleanup_wf(self.order@, self.sources@, self.state())
        &&& self.sources@.len() == self.order@.len()
        &&& forall|i: int| 0 <= i < self.order@.len() ==> #[trigger] self.order@[i]
            < self.sources@.len()
    }

    /// A well-formed cleanup satisfies the invariant [`cleanup_wf`].
    pub proof fn wf_gives_invariant(&self)
        requires
            self.wf(),
        ensures
            cleanup_wf(self.order_view(), self.sources_view(), self.state()),
    {
    }

    /// Moves on from place `p`, past the source directory.
    fn advance(&mut self, p: usize)
        requires
            p <= old(self).order.len(),
            old(self).sources@.len() == old(self).order@.len(),
            forall|i: int| 0 <= i < old(self).order@.len() ==> #[trigger] old(self).order@[i]
                < old(self).sources@.len(),
        ensures
            final(self).order == old(self).order,
            final(self).sources == old(self).sources,
            final(self).deleted == old(self).deleted,
            final(self).history == old(self).history,
            final(self).state() == cleanup_next(
                old(self).order@,
                old(self).sources@,
                p as nat,
                old(self).deleted as nat,
                old(self).history@,
            ),
    {
        let mut q = p;
        while q < self.order.len() && self.sources[self.order[q]]
            invariant
                p <= q <= self.order@.len(),
                self.sources@.len() == self.order@.len(),
                forall|i: int| 0 <= i < self.order@.len() ==> #[trigger] self.order@[i]
                    < self.sources@.len(),
                skip_source(self.order@, self.sources@, q as nat) == skip_source(
                    self.order@,
                    self.sources@,
                    p as nat,
                ),
            decreases self.order@.len() - q,
        {
            q = q + 1;
        }
        self.pos = q;
        if q < self.order.len() {
            self.stage = CleanupStage::Inspect;
        } else {
            self.stage = CleanupStage::Done;
        }
    }

    /// A cleanup of `dirs`, listed in the order in which they were found.
    pub fn new(dirs: &Vec<DirInfo>) -> (res: Cleanup)
        ensures
            res.wf(),
            cleanup_wf(res.order_view(), res.sources_view(), res.state()),
            is_depth_order(dirs@.map_values(|d: DirInfo| d.depth), res.order_view()),
            res.sources_view() == dirs@.map_values(|d: DirInfo| d.is_source),
            res.state() == cleanup_next(res.order_view(), res.sources_view(), 0, 0, Seq::empty()),
    {
        let n = dirs.len();
        let mut depths: Vec<usize> = Vec::new();
        let mut sources: Vec<bool> = Vec::new();
        let mut i: usize = 0;
        while i < n
            invariant
                n == dirs@.len(),
                i <= n,
                depths@ == dirs@.subrange(0, i as int).map_values(|d: DirInfo| d.depth),
                sources@ == dirs@.subrange(0, i as int).map_values(|d: DirInfo| d.is_source),
            decreases n - i,
        {
            depths.push(dirs[i].depth);
            sources.push(dirs[i].is_source);
            i = i + 1;
            assert(depths@ =~= dirs@.subrange(0, i as int).map_values(|d: DirInfo| d.depth));
            assert(sources@ =~= dirs@.subrange(0, i as int).map_values(|d: DirInfo| d.is_source));
        }
        assert(dirs@.subrange(0, n as int) =~= dirs@);
        let order = depth_order(&depths);
        let mut c = Cleanup {
            order,
            sources,
            pos: 0,
            stage: CleanupStage::Done,
            deleted: 0,
            history: Ghost(Seq::empty()),
        };
        c.advance(0);
        proof {
            law_cleanup_initial(c.order@, c.sources@);
        }
        c
    }

    /// What the caller is to do next.
    pub fn action(&self) -> (res: CleanupAction)
        requires
            self.wf(),
        ensures
            match self.state().stage {
                CleanupStage::Inspect => res == CleanupAction::Inspect {
                    dir: self.order_view()[self.state().pos as int],
                },
                CleanupStage::Remove => res == CleanupAction::Remove {
                    dir: self.order_view()[self.state().pos as int],
                },
                CleanupStage::Done => res == CleanupAction::Finish {
                    deleted: self.state().deleted as usize,
                },
                CleanupStage::Failed => res == CleanupAction::Fail {
                    dir: self.order_view()[self.state().pos as int],
                },
            },
    {
        match self.stage {
            CleanupStage::Inspect => CleanupAction::Inspect { dir: self.order[self.pos] },
            CleanupStage::Remove => CleanupAction::Remove { dir: self.order[self.pos] },
            CleanupStage::Done => CleanupAction::Finish { deleted: self.deleted },
            CleanupStage::Failed => CleanupAction::Fail { dir: self.order[self.pos] },
        }
    }

    /// Takes the answer to the pending action.
    pub fn step(&mut self, event: CleanupEvent)
        requires
            old(self).wf(),
        ensures
            final(self).wf(),
            cleanup_wf(final(self).order_view(), final(self).sources_view(), final(self).state()),
            final(self).order_view() == old(self).order_view(),
            final(self).sources_view() == old(self).sources_view(),
            final(self).state() == cleanup_step(
                old(self).order_view(),
                old(self).sources_view(),
                old(self).state(),
                event,
            ),
    {
        let ghost old_self = *self;
        assert(old_self.state().stage == self.stage);
        assert((self.stage is Inspect || self.stage is Remove) ==> self.pos < self.order.len());
        match (self.stage, event) {
            (CleanupStage::Inspect, CleanupEvent::Inspected(st)) => {
                if st == DirState::Empty {
                    self.stage = CleanupStage::Remove;
                } else {
                    let ghost rec = DirRecord { position: self.pos as nat, result: DirResult::Kept };
                    self.history = Ghost(self.history@.push(rec));
                    let next = self.pos + 1;
                    self.advance(next);
                }
            },
            (CleanupStage::Remove, CleanupEvent::Removed(ok)) => {
                if ok {
                    let ghost rec = DirRecord {
                        position: self.pos as nat,
                        result: DirResult::Removed,
                    };
                    self.history = Ghost(self.history@.push(rec));
                    proof {
                        let hv = old_self.history@;
                        lemma_counts_bounded(self.order@, self.sources@, self.pos as nat, hv);
                        assert(hv.map_values(|r: DirRecord| r.position).len() == hv.len());
                        assert(old_self.deleted == count_removed(hv));
                        assert(self.deleted < self.order.len());
                    }
                    self.deleted = self.deleted + 1;
                    let next = self.pos + 1;
                    self.advance(next);
                } else {
                    self.stage = CleanupStage::Failed;
                }
            },
            _ => {},
        }
        proof {
            law_cleanup_step_keeps_invariant(old_self.order@, old_self.sources@, old_self.state(), event);
        }
    }
}

} // verus!
