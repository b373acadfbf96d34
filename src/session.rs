//! One merge attempt as a state machine. The caller owns the repository: it
//! performs each `Action` that `Session::step` hands out against the store
//! and reports the outcome back as an `Event`. The session decides which
//! executor runs, the order of every store operation, which entry resolves
//! each conflict, and when the attempt is rolled back.
use crate::analysis::{route, route_spec, MergeAnalysis, Route};
use crate::resolver::{
    find_in_pass, slot_of_pass,
    handled, in_pass, lemma_handled_le, lemma_handled_mono, lemma_handled_next_pass,
    lemma_handled_step, lemma_next_in_pass_bounds, next_in_pass, pass_pick, valid_pass, Pick,
    Slots,
};
use vstd::prelude::*;

verus! {

/// A failure reported by the store; it ends the attempt unchanged.
#[derive(Clone, Debug, PartialEq, Eq)]
pub struct StoreError {
    pub code: i32,
    pub class: i32,
    pub message: String,
}

/// Why a merge attempt failed.
#[derive(Clone, Debug, PartialEq, Eq)]
pub enum MergeError {
    /// An operation of the store failed.
    Store(StoreError),
    /// Conflicts remained after all three passes and the re-scan; the
    /// working set and the branch were reset to the local commit.
    UnresolvableConflict { resolved: usize, total: usize },
}

/// How the working set is overwritten from HEAD.
#[derive(Clone, Copy, Debug, PartialEq, Eq, Structural)]
pub enum Checkout {
    /// Forced, refusing conflicts.
    Forced,
    /// Forced, writing conflicting paths with merge-style markers.
    ForcedAllowConflicts,
    /// The store's default, safe checkout.
    Safe,
}

/// A store operation to perform, or the end of the attempt.
///
/// "Incoming" is the commit being merged in; "local" is the commit that
/// HEAD resolved to.
#[derive(Debug, PartialEq, Eq)]
pub enum Action {
    /// Classify the incoming commit against HEAD; answer with `Analysis`.
    Analyze,
    /// Look up `refs/heads/<branch>`; answer whether it exists.
    FindBranch,
    /// Point the existing branch at the incoming commit, with the
    /// fast-forward reflog message.
    SetBranchTarget,
    /// Create (or overwrite) the branch at the incoming commit, with the
    /// create-branch reflog message.
    CreateBranch,
    /// Make the branch's reference HEAD.
    SetHead,
    /// Overwrite the working set from HEAD.
    CheckoutHead(Checkout),
    /// Resolve HEAD to the local commit.
    ResolveHead,
    /// Merge the trees of local and incoming over their merge base; answer
    /// with the slots of each conflict of the merge index, in its order.
    MergeTrees,
    /// Stage the given slot's entry of the given conflict into the merge
    /// index; answer whether that succeeded.
    StageEntry { conflict: usize, pick: Pick },
    /// Answer whether the merge index still has conflicts.
    CheckConflicts,
    /// Write the merge index as a tree.
    WriteTree,
    /// Overwrite the working set from the written tree, forced, refusing
    /// conflicts.
    CheckoutTree,
    /// Re-stage every path of the working set into the repository index and
    /// write it; answer whether that index has conflicts.
    Restage,
    /// Reset the working set and the branch hard to the local commit.
    ResetHard,
    /// Commit the written tree with parents `[local, incoming]` and the
    /// merge message, with the configured identity, and move HEAD to it.
    CommitMerge,
    /// The attempt is over.
    Finish(Result<(), MergeError>),
}

/// The store's answer to the last action.
#[derive(Clone, Debug, PartialEq, Eq)]
pub enum Event {
    Analysis(MergeAnalysis),
    Answer(bool),
    Conflicts(Vec<Slots>),
    Completed,
    Failed(StoreError),
}

/// Where an attempt stands: which answer it awaits.
#[derive(Clone, Copy, Debug, PartialEq, Eq, Structural)]
pub enum Phase {
    Analyzing,
    FindingBranch,
    MovingBranch,
    CreatingBranch,
    SettingHead { created: bool },
    ResolvingHead,
    MergingTrees,
    /// Awaiting the outcome of staging conflict `index` in pass `pass`.
    Staging { pass: u8, index: usize, resolved: usize },
    /// Awaiting whether conflicts remain before pass `pass`.
    Checking { pass: u8, resolved: usize },
    WritingTree { conflicted: bool, resolved: usize },
    CheckingOutTree { conflicted: bool, resolved: usize },
    Restaging { conflicted: bool, resolved: usize },
    /// Awaiting whether conflicts remain after the last pass.
    Rechecking { resolved: usize },
    Resetting { resolved: usize },
    Committing,
    Syncing,
    Finished,
}

/// The mathematical state of an attempt: its phase and the conflicts that
/// the tree merge reported.
pub struct SessionView {
    pub phase: Phase,
    pub conflicts: Seq<Slots>,
}

impl SessionView {
    pub open spec fn wf(self) -> bool {
        let n = self.conflicts.len() as int;
        &&& n <= usize::MAX
        &&& match self.phase {
            Phase::Staging { pass, index, resolved } => {
                &&& valid_pass(pass)
                &&& index < n
                &&& in_pass(self.conflicts[index as int], pass)
                &&& resolved <= handled(self.conflicts, pass, index as int, n)
            },
            Phase::Checking { pass, resolved } => {
                &&& 2 <= pass <= 3
                &&& resolved <= handled(self.conflicts, pass, 0, n)
            },
            Phase::WritingTree { resolved, .. } => resolved <= n,
            Phase::CheckingOutTree { resolved, .. } => resolved <= n,
            Phase::Restaging { resolved, .. } => resolved <= n,
            Phase::Rechecking { resolved } => resolved <= n,
            Phase::Resetting { resolved } => resolved <= n,
            _ => true,
        }
    }
}

/// A reported vector of conflicts, like every vector, has at most
/// `usize::MAX` entries.
pub open spec fn event_wf(ev: Event) -> bool {
    match ev {
        Event::Conflicts(found) => found@.len() <= usize::MAX,
        _ => true,
    }
}

/// The state in which every attempt begins, awaiting the analysis.
pub open spec fn initial() -> SessionView {
    SessionView { phase: Phase::Analyzing, conflicts: Seq::empty() }
}

/// Whether `ev` is an answer to the action that led to `phase`.
pub open spec fn expects(phase: Phase, ev: Event) -> bool {
    match phase {
        Phase::Finished => false,
        _ => match ev {
            Event::Failed(_) => true,
            Event::Analysis(_) => phase is Analyzing,
            Event::Conflicts(_) => phase is MergingTrees,
            Event::Answer(_) => phase is FindingBranch || phase is Staging || phase is Checking
                || phase is Rechecking || phase is Restaging,
            Event::Completed => !(phase is Analyzing || phase is FindingBranch
                || phase is MergingTrees || phase is Staging || phase is Checking
                || phase is Rechecking || phase is Restaging),
        },
    }
}

/// The end of pass `pass`: check for remaining conflicts, before the next
/// pass or after the last one.
pub open spec fn after_pass(pass: u8, resolved: usize) -> (Phase, Action) {
    if pass < 3 {
        (Phase::Checking { pass: (pass + 1) as u8, resolved }, Action::CheckConflicts)
    } else {
        (Phase::Rechecking { resolved }, Action::CheckConflicts)
    }
}

/// Stage the first conflict of pass `pass` at or after `from`, or end the
/// pass when there is none.
pub open spec fn continue_pass(cs: Seq<Slots>, pass: u8, from: int, resolved: usize) -> (
    Phase,
    Action,
) {
    let j = next_in_pass(cs, pass, from);
    if j < cs.len() {
        (
            Phase::Staging { pass, index: j as usize, resolved },
            Action::StageEntry { conflict: j as usize, pick: pass_pick(pass) },
        )
    } else {
        after_pass(pass, resolved)
    }
}

/// The phase and action that follow an answer `ev` in phase `phase`, with
/// conflicts `cs`.
pub open spec fn react(phase: Phase, cs: Seq<Slots>, ev: Event) -> (Phase, Action) {
    match ev {
        Event::Failed(e) => (Phase::Finished, Action::Finish(Err(MergeError::Store(e)))),
        Event::Analysis(a) => match route_spec(a) {
            Route::FastForward => (Phase::FindingBranch, Action::FindBranch),
            Route::ThreeWay => (Phase::ResolvingHead, Action::ResolveHead),
            Route::NothingToDo => (Phase::Finished, Action::Finish(Ok(()))),
        },
        Event::Conflicts(_) => {
            if cs.len() == 0 {
                (Phase::WritingTree { conflicted: false, resolved: 0 }, Action::WriteTree)
            } else {
                continue_pass(cs, 1, 0, 0)
            }
        },
        Event::Answer(b) => match phase {
            Phase::FindingBranch => if b {
                (Phase::MovingBranch, Action::SetBranchTarget)
            } else {
                (Phase::CreatingBranch, Action::CreateBranch)
            },
            Phase::Staging { pass, index, resolved } => {
                let r = if b {
                    (resolved + 1) as usize
                } else {
                    resolved
                };
                continue_pass(cs, pass, index + 1, r)
            },
            Phase::Checking { pass, resolved } => if b {
                continue_pass(cs, pass, 0, resolved)
            } else {
                after_pass(pass, resolved)
            },
            Phase::Rechecking { resolved } => if b {
                (Phase::Resetting { resolved }, Action::ResetHard)
            } else {
                (Phase::WritingTree { conflicted: true, resolved }, Action::WriteTree)
            },
            Phase::Restaging { conflicted, resolved } => if conflicted && b {
                (Phase::Resetting { resolved }, Action::ResetHard)
            } else {
                (Phase::Committing, Action::CommitMerge)
            },
            // not an answer to this phase: `expects` rules it out
            _ => (Phase::Finished, Action::Finish(Ok(()))),
        },
        Event::Completed => match phase {
            Phase::MovingBranch => (Phase::SettingHead { created: false }, Action::SetHead),
            Phase::CreatingBranch => (Phase::SettingHead { created: true }, Action::SetHead),
            Phase::SettingHead { created } => (
                Phase::Syncing,
                Action::CheckoutHead(
                    if created {
                        Checkout::ForcedAllowConflicts
                    } else {
                        Checkout::Forced
                    },
                ),
            ),
            Phase::ResolvingHead => (Phase::MergingTrees, Action::MergeTrees),
            Phase::WritingTree { conflicted, resolved } => (
                Phase::CheckingOutTree { conflicted, resolved },
                Action::CheckoutTree,
            ),
            Phase::CheckingOutTree { conflicted, resolved } => (
                Phase::Restaging { conflicted, resolved },
                Action::Restage,
            ),
            Phase::Resetting { resolved } => (
                Phase::Finished,
                Action::Finish(
                    Err(MergeError::UnresolvableConflict { resolved, total: cs.len() as usize }),
                ),
            ),
            Phase::Committing => (Phase::Syncing, Action::CheckoutHead(Checkout::Safe)),
            // not an answer to this phase: `expects` rules it out
            _ => (Phase::Finished, Action::Finish(Ok(()))),
        },
    }
}

/// The state and action that follow an answer: the conflicts are those that
/// the tree merge reports, and stay fixed afterwards.
pub open spec fn next(v: SessionView, ev: Event) -> (SessionView, Action) {
    let cs = match ev {
        Event::Conflicts(found) => found@,
        _ => v.conflicts,
    };
    let (p, a) = react(v.phase, cs, ev);
    (SessionView { phase: p, conflicts: cs }, a)
}

/// One merge attempt.
pub struct Session {
    phase: Phase,
    conflicts: Vec<Slots>,
}

impl View for Session {
    type V = SessionView;

    closed spec fn view(&self) -> SessionView {
        SessionView { phase: self.phase, conflicts: self.conflicts@ }
    }
}

proof fn lemma_after_pass_wf(cs: Seq<Slots>, pass: u8, at: int, resolved: usize)
    requires
        valid_pass(pass),
        0 <= at,
        cs.len() <= usize::MAX,
        resolved <= handled(cs, pass, at, cs.len() as int),
    ensures
        (SessionView { phase: after_pass(pass, resolved).0, conflicts: cs }).wf(),
{
    let n = cs.len() as int;
    let end = if at > n {
        at
    } else {
        n
    };
    lemma_handled_mono(cs, pass, at, end, n);
    lemma_handled_next_pass(cs, pass, end, n);
    lemma_handled_le(cs, pass, at, n);
}

proof fn lemma_continue_pass_wf(cs: Seq<Slots>, pass: u8, from: int, resolved: usize)
    requires
        valid_pass(pass),
        0 <= from,
        cs.len() <= usize::MAX,
        resolved <= handled(cs, pass, from, cs.len() as int),
    ensures
        (SessionView { phase: continue_pass(cs, pass, from, resolved).0, conflicts: cs }).wf(),
{
    let n = cs.len() as int;
    lemma_next_in_pass_bounds(cs, pass, from);
    let j = next_in_pass(cs, pass, from);
    if j < n {
        lemma_handled_mono(cs, pass, from, j, n);
    } else {
        lemma_after_pass_wf(cs, pass, from, resolved);
    }
}

/// Every answer that fits keeps an attempt well formed.
pub proof fn lemma_next_wf(v: SessionView, ev: Event)
    requires
        v.wf(),
        expects(v.phase, ev),
        event_wf(ev),
    ensures
        next(v, ev).0.wf(),
{
    let cs = v.conflicts;
    let n = cs.len() as int;
    match (v.phase, ev) {
        (_, Event::Conflicts(found)) => {
            if found@.len() > 0 {
                lemma_continue_pass_wf(found@, 1, 0, 0);
            }
        },
        (Phase::Staging { pass, index, resolved }, Event::Answer(b)) => {
            lemma_handled_step(cs, pass, index as int, n);
            lemma_handled_le(cs, pass, index + 1, n);
            let r = if b {
                (resolved + 1) as usize
            } else {
                resolved
            };
            lemma_continue_pass_wf(cs, pass, index + 1, r);
        },
        (Phase::Checking { pass, resolved }, Event::Answer(_)) => {
            lemma_continue_pass_wf(cs, pass, 0, resolved);
            lemma_after_pass_wf(cs, pass, 0, resolved);
        },
        _ => {},
    }
}

fn end_pass(pass: u8, resolved: usize) -> (r: (Phase, Action))
    requires
        valid_pass(pass),
    ensures
        r == after_pass(pass, resolved),
{
    if pass < 3 {
        (Phase::Checking { pass: pass + 1, resolved }, Action::CheckConflicts)
    } else {
        (Phase::Rechecking { resolved }, Action::CheckConflicts)
    }
}

fn resume_pass(cs: &Vec<Slots>, pass: u8, from: usize, resolved: usize) -> (r: (Phase, Action))
    requires
        valid_pass(pass),
    ensures
        r == continue_pass(cs@, pass, from as int, resolved),
{
    let j = find_in_pass(cs, pass, from);
    proof {
        lemma_next_in_pass_bounds(cs@, pass, from as int);
    }
    if j < cs.len() {
        (
            Phase::Staging { pass, index: j, resolved },
            Action::StageEntry { conflict: j, pick: slot_of_pass(pass) },
        )
    } else {
        end_pass(pass, resolved)
    }
}

impl Session {
    /// Begins an attempt: its first action is the analysis.
    pub fn start() -> (r: (Session, Action))
        ensures
            r.0@ == initial(),
            r.0@.wf(),
            r.1 == Action::Analyze,
    {
        let s = Session { phase: Phase::Analyzing, conflicts: Vec::new() };
        proof {
            assert(s@.conflicts =~= Seq::<Slots>::empty());
        }
        (s, Action::Analyze)
    }

    /// Whether `ev` answers the last action handed out.
    pub fn accepts(&self, ev: &Event) -> (r: bool)
        ensures
            r == expects(self@.phase, *ev),
    {
        match self.phase {
            Phase::Finished => false,
            _ => match ev {
                Event::Failed(_) => true,
                Event::Analysis(_) => matches!(self.phase, Phase::Analyzing),
                Event::Conflicts(_) => matches!(self.phase, Phase::MergingTrees),
                Event::Answer(_) => matches!(
                    self.phase,
                    Phase::FindingBranch | Phase::Staging { .. } | Phase::Checking { .. }
                        | Phase::Rechecking { .. } | Phase::Restaging { .. }
                ),
                Event::Completed => !matches!(
                    self.phase,
                    Phase::Analyzing | Phase::FindingBranch | Phase::MergingTrees
                        | Phase::Staging { .. } | Phase::Checking { .. } | Phase::Rechecking { .. }
                        | Phase::Restaging { .. }
                ),
            },
        }
    }

    /// Whether the attempt is over.
    pub fn is_finished(&self) -> (r: bool)
        ensures
            r == (self@.phase is Finished),
    {
        matches!(self.phase, Phase::Finished)
    }

    /// Where the attempt stands.
    pub fn phase(&self) -> (r: Phase)
        ensures
            r == self@.phase,
    {
        self.phase
    }

    /// Takes the store's answer to the last action and hands out the next
    /// one.
    pub fn step(&mut self, ev: Event) -> (r: Action)
        requires
            old(self)@.wf(),
            expects(old(self)@.phase, ev),
        ensures
            final(self)@.wf(),
            final(self)@ == next(old(self)@, ev).0,
            r == next(old(self)@, ev).1,
    {
        let ghost cs0 = self.conflicts@;
        let ghost n = cs0.len() as int;
        let (p, a) = match ev {
            Event::Failed(e) => (Phase::Finished, Action::Finish(Err(MergeError::Store(e)))),
            Event::Analysis(an) => match route(an) {
                Route::FastForward => (Phase::FindingBranch, Action::FindBranch),
                Route::ThreeWay => (Phase::ResolvingHead, Action::ResolveHead),
                Route::NothingToDo => (Phase::Finished, Action::Finish(Ok(()))),
            },
            Event::Conflicts(found) => {
                self.conflicts = found;
                if self.conflicts.len() == 0 {
                    (Phase::WritingTree { conflicted: false, resolved: 0 }, Action::WriteTree)
                } else {
                    proof {
                        lemma_continue_pass_wf(self.conflicts@, 1, 0, 0);
                    }
                    resume_pass(&self.conflicts, 1, 0, 0)
                }
            },
            Event::Answer(b) => match self.phase {
                Phase::FindingBranch => if b {
                    (Phase::MovingBranch, Action::SetBranchTarget)
                } else {
                    (Phase::CreatingBranch, Action::CreateBranch)
                },
                Phase::Staging { pass, index, resolved } => {
                    proof {
                        lemma_handled_step(cs0, pass, index as int, n);
                        lemma_handled_le(cs0, pass, index + 1, n);
                    }
                    let r: usize = if b {
                        resolved + 1
                    } else {
                        resolved
                    };
                    proof {
                        lemma_continue_pass_wf(cs0, pass, index + 1, r);
                    }
                    resume_pass(&self.conflicts, pass, index + 1, r)
                },
                Phase::Checking { pass, resolved } => {
                    proof {
                        lemma_continue_pass_wf(cs0, pass, 0, resolved);
                        lemma_after_pass_wf(cs0, pass, 0, resolved);
                    }
                    if b {
                        resume_pass(&self.conflicts, pass, 0, resolved)
                    } else {
                        end_pass(pass, resolved)
                    }
                },
                Phase::Rechecking { resolved } => if b {
                    (Phase::Resetting { resolved }, Action::ResetHard)
                } else {
                    (Phase::WritingTree { conflicted: true, resolved }, Action::WriteTree)
                },
                Phase::Restaging { conflicted, resolved } => if conflicted && b {
                    (Phase::Resetting { resolved }, Action::ResetHard)
                } else {
                    (Phase::Committing, Action::CommitMerge)
                },
                // not an answer to this phase: `expects` rules it out
            _ => (Phase::Finished, Action::Finish(Ok(()))),
            },
            Event::Completed => match self.phase {
                Phase::MovingBranch => (Phase::SettingHead { created: false }, Action::SetHead),
                Phase::CreatingBranch => (Phase::SettingHead { created: true }, Action::SetHead),
                Phase::SettingHead { created } => {
                    let mode = if created {
                        Checkout::ForcedAllowConflicts
                    } else {
                        Checkout::Forced
                    };
                    (Phase::Syncing, Action::CheckoutHead(mode))
                },
                Phase::ResolvingHead => (Phase::MergingTrees, Action::MergeTrees),
                Phase::WritingTree { conflicted, resolved } => (
                    Phase::CheckingOutTree { conflicted, resolved },
                    Action::CheckoutTree,
                ),
                Phase::CheckingOutTree { conflicted, resolved } => (
                    Phase::Restaging { conflicted, resolved },
                    Action::Restage,
                ),
                Phase::Resetting { resolved } => (
                    Phase::Finished,
                    Action::Finish(
                        Err(
                            MergeError::UnresolvableConflict {
                                resolved,
                                total: self.conflicts.len(),
                            },
                        ),
                    ),
                ),
                Phase::Committing => (Phase::Syncing, Action::CheckoutHead(Checkout::Safe)),
                // not an answer to this phase: `expects` rules it out
            _ => (Phase::Finished, Action::Finish(Ok(()))),
            },
        };
        self.phase = p;
        a
    }
}

} // verus!
