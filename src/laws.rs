//! Properties of whole merge attempts, proved over the transition function.
use crate::analysis::MergeAnalysis;
use crate::resolver::{
    lemma_handled_le, lemma_handled_step, lemma_next_in_pass_bounds, pick_spec, rank, Slots,
};
use crate::session::{
    event_wf, expects, initial, lemma_next_wf, next, Action, Checkout, Event, MergeError, Phase,
    SessionView,
};
use vstd::prelude::*;

verus! {

/// The resolved-conflict counter that a phase carries, if any.
pub open spec fn resolved_of(p: Phase) -> Option<usize> {
    match p {
        Phase::Staging { resolved, .. } => Some(resolved),
        Phase::Checking { resolved, .. } => Some(resolved),
        Phase::WritingTree { resolved, .. } => Some(resolved),
        Phase::CheckingOutTree { resolved, .. } => Some(resolved),
        Phase::Restaging { resolved, .. } => Some(resolved),
        Phase::Rechecking { resolved } => Some(resolved),
        Phase::Resetting { resolved } => Some(resolved),
        _ => None,
    }
}

/// The actions that an attempt in state `v` hands out when the store answers
/// with `evs` in turn, and the state it ends in.
pub open spec fn run(v: SessionView, evs: Seq<Event>) -> (SessionView, Seq<Action>)
    decreases evs.len(),
{
    if evs.len() == 0 {
        (v, Seq::empty())
    } else {
        let (v1, a) = next(v, evs[0]);
        let (v2, rest) = run(v1, evs.drop_first());
        (v2, seq![a] + rest)
    }
}

/// When a fast-forward is possible and the branch exists, the attempt moves
/// the branch to the incoming commit, makes it HEAD, overwrites the working
/// set from it by force, and succeeds: no tree is merged and no commit is
/// made.
pub proof fn fast_forward_moves_branch(a: MergeAnalysis)
    requires
        a.fast_forward,
    ensures
        run(
            initial(),
            seq![Event::Analysis(a), Event::Answer(true), Event::Completed, Event::Completed, Event::Completed],
        ).1 == seq![
            Action::FindBranch,
            Action::SetBranchTarget,
            Action::SetHead,
            Action::CheckoutHead(Checkout::Forced),
            Action::Finish(Ok(())),
        ],
        run(
            initial(),
            seq![Event::Analysis(a), Event::Answer(true), Event::Completed, Event::Completed, Event::Completed],
        ).0.phase is Finished,
{
    let c = Event::Completed;
    let evs = seq![Event::Analysis(a), Event::Answer(true), c, c, c];
    assert(evs.drop_first() =~= seq![Event::Answer(true), c, c, c]);
    assert(evs.drop_first().drop_first() =~= seq![c, c, c]);
    assert(seq![c, c, c].drop_first() =~= seq![c, c]);
    assert(seq![c, c].drop_first() =~= seq![c]);
    assert(seq![c].drop_first() =~= Seq::<Event>::empty());
    reveal_with_fuel(run, 6);
    assert(run(initial(), evs).1 =~= seq![
        Action::FindBranch,
        Action::SetBranchTarget,
        Action::SetHead,
        Action::CheckoutHead(Checkout::Forced),
        Action::Finish(Ok(())),
    ]);
}

/// When a fast-forward is possible but the branch does not exist yet, the
/// attempt creates it at the incoming commit, makes it HEAD, and overwrites
/// the working set by force, conflicting paths included.
pub proof fn fast_forward_creates_missing_branch(a: MergeAnalysis)
    requires
        a.fast_forward,
    ensures
        run(
            initial(),
            seq![Event::Analysis(a), Event::Answer(false), Event::Completed, Event::Completed, Event::Completed],
        ).1 == seq![
            Action::FindBranch,
            Action::CreateBranch,
            Action::SetHead,
            Action::CheckoutHead(Checkout::ForcedAllowConflicts),
            Action::Finish(Ok(())),
        ],
{
    let c = Event::Completed;
    let evs = seq![Event::Analysis(a), Event::Answer(false), c, c, c];
    let s1 = next(initial(), evs[0]).0;
    let s2 = next(s1, evs[1]).0;
    let s3 = next(s2, c).0;
    let s4 = next(s3, c).0;
    assert(evs.drop_first() =~= seq![Event::Answer(false), c, c, c]);
    assert(evs.drop_first().drop_first() =~= seq![c, c, c]);
    assert(seq![c, c, c].drop_first() =~= seq![c, c]);
    assert(seq![c, c].drop_first() =~= seq![c]);
    assert(seq![c].drop_first() =~= Seq::<Event>::empty());
    reveal_with_fuel(run, 6);
    assert(run(initial(), evs).1 =~= seq![
        Action::FindBranch,
        Action::CreateBranch,
        Action::SetHead,
        Action::CheckoutHead(Checkout::ForcedAllowConflicts),
        Action::Finish(Ok(())),
    ]);
}

/// When the incoming commit is already contained in HEAD, the attempt ends
/// successfully right after the analysis: nothing in the repository is
/// touched.
pub proof fn up_to_date_is_no_op(a: MergeAnalysis)
    requires
        !a.fast_forward,
        !a.normal,
    ensures
        next(initial(), Event::Analysis(a)).1 == Action::Finish(Ok(())),
        next(initial(), Event::Analysis(a)).0.phase is Finished,
{
}

/// When histories diverged and the tree merge reports no conflict, the
/// attempt writes the tree, overwrites the working set from it, re-stages the
/// index, commits with both parents, and synchronises the working set with
/// the new HEAD, whatever the re-scan reports.
pub proof fn clean_merge_commits(a: MergeAnalysis, found: Vec<Slots>, rescan: bool)
    requires
        !a.fast_forward,
        a.normal,
        found@.len() == 0,
    ensures
        run(
            initial(),
            seq![
                Event::Analysis(a),
                Event::Completed,
                Event::Conflicts(found),
                Event::Completed,
                Event::Completed,
                Event::Answer(rescan),
                Event::Completed,
                Event::Completed,
            ],
        ).1 == seq![
            Action::ResolveHead,
            Action::MergeTrees,
            Action::WriteTree,
            Action::CheckoutTree,
            Action::Restage,
            Action::CommitMerge,
            Action::CheckoutHead(Checkout::Safe),
            Action::Finish(Ok(())),
        ],
{
    let c = Event::Completed;
    let m = Event::Conflicts(found);
    let r = Event::Answer(rescan);
    let evs = seq![Event::Analysis(a), c, m, c, c, r, c, c];
    assert(evs.drop_first() =~= seq![c, m, c, c, r, c, c]);
    assert(seq![c, m, c, c, r, c, c].drop_first() =~= seq![m, c, c, r, c, c]);
    assert(seq![m, c, c, r, c, c].drop_first() =~= seq![c, c, r, c, c]);
    assert(seq![c, c, r, c, c].drop_first() =~= seq![c, r, c, c]);
    assert(seq![c, r, c, c].drop_first() =~= seq![r, c, c]);
    assert(seq![r, c, c].drop_first() =~= seq![c, c]);
    assert(seq![c, c].drop_first() =~= seq![c]);
    assert(seq![c].drop_first() =~= Seq::<Event>::empty());
    reveal_with_fuel(run, 9);
    assert(run(initial(), evs).1 =~= seq![
        Action::ResolveHead,
        Action::MergeTrees,
        Action::WriteTree,
        Action::CheckoutTree,
        Action::Restage,
        Action::CommitMerge,
        Action::CheckoutHead(Checkout::Safe),
        Action::Finish(Ok(())),
    ]);
}

/// When the re-scan after conflict resolution still reports conflicts, the
/// attempt resets the working set and the branch hard to the local commit and
/// fails with the number of resolved conflicts out of all of them; no merge
/// commit is made.
pub proof fn unresolved_conflicts_roll_back(v: SessionView, resolved: usize)
    requires
        v.phase == (Phase::Restaging { conflicted: true, resolved }),
    ensures
        run(v, seq![Event::Answer(true), Event::Completed]).1 == seq![
            Action::ResetHard,
            Action::Finish(
                Err(
                    MergeError::UnresolvableConflict {
                        resolved,
                        total: v.conflicts.len() as usize,
                    },
                ),
            ),
        ],
        run(v, seq![Event::Answer(true), Event::Completed]).0.phase is Finished,
{
    let evs = seq![Event::Answer(true), Event::Completed];
    assert(evs.drop_first() =~= seq![Event::Completed]);
    assert(seq![Event::Completed].drop_first() =~= Seq::<Event>::empty());
    reveal_with_fuel(run, 3);
    assert(run(v, evs).1 =~= seq![
        Action::ResetHard,
        Action::Finish(
            Err(MergeError::UnresolvableConflict { resolved, total: v.conflicts.len() as usize }),
        ),
    ]);
}

/// Resolution starts with no conflict counted.
pub proof fn resolution_starts_uncounted(v: SessionView, found: Vec<Slots>)
    requires
        v.phase is MergingTrees,
        found@.len() > 0,
    ensures
        resolved_of(next(v, Event::Conflicts(found)).0.phase) == Some(0usize),
        next(v, Event::Conflicts(found)).0.conflicts == found@,
{
}

/// The resolved count grows by one exactly when staging a resolved entry
/// succeeds, and by nothing on any other answer; the failure that ends an
/// unresolved attempt reports that count and the number of conflicts.
pub proof fn resolution_counts_successes(v: SessionView, ev: Event, r: usize)
    requires
        v.wf(),
        expects(v.phase, ev),
        resolved_of(v.phase) == Some(r),
        !(ev is Failed),
    ensures
        resolved_of(next(v, ev).0.phase) is Some ==> resolved_of(next(v, ev).0.phase)->Some_0 == r
            + (if v.phase is Staging && ev == Event::Answer(true) {
            1int
        } else {
            0int
        }),
        (match next(v, ev).1 {
            Action::Finish(Err(MergeError::UnresolvableConflict { resolved, total })) => resolved
                == r && total == v.conflicts.len(),
            _ => true,
        }),
        next(v, ev).0.conflicts == v.conflicts,
{
    if let Phase::Staging { pass, index, .. } = v.phase {
        lemma_handled_step(v.conflicts, pass, index as int, v.conflicts.len() as int);
        lemma_handled_le(v.conflicts, pass, index + 1, v.conflicts.len() as int);
    }
}

/// Every entry that an attempt stages resolves an existing conflict with the
/// slot that wins for it: ours over theirs over the ancestor.
pub proof fn staged_entry_follows_precedence(v: SessionView, ev: Event)
    requires
        v.wf(),
        expects(v.phase, ev),
        event_wf(ev),
    ensures
        (match next(v, ev).1 {
            Action::StageEntry { conflict, pick } => conflict < next(v, ev).0.conflicts.len()
                && pick_spec(next(v, ev).0.conflicts[conflict as int]) == Some(pick),
            _ => true,
        }),
{
    let cs = next(v, ev).0.conflicts;
    match (v.phase, ev) {
        (Phase::Staging { pass, index, .. }, Event::Answer(_)) => {
            lemma_next_in_pass_bounds(cs, pass, index + 1);
        },
        (Phase::Checking { pass, .. }, Event::Answer(_)) => {
            lemma_next_in_pass_bounds(cs, pass, 0);
        },
        (Phase::MergingTrees, Event::Conflicts(_)) => {
            lemma_next_in_pass_bounds(cs, 1, 0);
        },
        _ => {},
    }
}

/// How many answers in `evs`, given from state `v` on, report that staging a
/// resolved entry succeeded.
pub open spec fn successes(v: SessionView, evs: Seq<Event>) -> nat
    decreases evs.len(),
{
    if evs.len() == 0 {
        0
    } else {
        (if v.phase is Staging && evs[0] == Event::Answer(true) {
            1nat
        } else {
            0nat
        }) + successes(next(v, evs[0]).0, evs.drop_first())
    }
}

/// Whether each of `evs`, from state `v` on, answers the action before it
/// and reports no store failure.
pub open spec fn answers(v: SessionView, evs: Seq<Event>) -> bool
    decreases evs.len(),
{
    evs.len() == 0 || {
        &&& expects(v.phase, evs[0])
        &&& event_wf(evs[0])
        &&& !(evs[0] is Failed)
        &&& answers(next(v, evs[0]).0, evs.drop_first())
    }
}

proof fn lemma_no_counter_after_resolution(v: SessionView, evs: Seq<Event>)
    requires
        v.phase is Committing || v.phase is Syncing || v.phase is Finished,
        answers(v, evs),
    ensures
        resolved_of(run(v, evs).0.phase) is None,
    decreases evs.len(),
{
    if evs.len() > 0 {
        lemma_no_counter_after_resolution(next(v, evs[0]).0, evs.drop_first());
    }
}

/// Over any sequence of answers, the resolved count that an attempt carries
/// grows by exactly the number of successful stagings: the count that an
/// unresolved attempt reports is the number of conflicts whose entry was
/// staged.
pub proof fn resolved_count_is_successes(v: SessionView, evs: Seq<Event>, r: usize)
    requires
        v.wf(),
        resolved_of(v.phase) == Some(r),
        answers(v, evs),
        resolved_of(run(v, evs).0.phase) is Some,
    ensures
        resolved_of(run(v, evs).0.phase)->Some_0 == r + successes(v, evs),
    decreases evs.len(),
{
    if evs.len() > 0 {
        let e = evs[0];
        let v1 = next(v, e).0;
        assert(run(v, evs).0 == run(v1, evs.drop_first()).0);
        resolution_counts_successes(v, e, r);
        lemma_next_wf(v, e);
        match resolved_of(v1.phase) {
            Some(r1) => {
                resolved_count_is_successes(v1, evs.drop_first(), r1);
            },
            None => {
                lemma_no_counter_after_resolution(v1, evs.drop_first());
            },
        }
    }
}

/// When conflicts remain after the last resolution pass, the attempt resets
/// the working set and the branch hard to the local commit and fails with the
/// number of resolved conflicts out of all of them; no tree is written and
/// no merge commit is made. When none remain, it writes the tree.
pub proof fn conflicts_left_after_passes_roll_back(v: SessionView, resolved: usize)
    requires
        v.phase == (Phase::Rechecking { resolved }),
    ensures
        run(v, seq![Event::Answer(true), Event::Completed]).1 == seq![
            Action::ResetHard,
            Action::Finish(
                Err(
                    MergeError::UnresolvableConflict {
                        resolved,
                        total: v.conflicts.len() as usize,
                    },
                ),
            ),
        ],
        run(v, seq![Event::Answer(true), Event::Completed]).0.phase is Finished,
        next(v, Event::Answer(false)).1 == Action::WriteTree,
{
    let evs = seq![Event::Answer(true), Event::Completed];
    assert(evs.drop_first() =~= seq![Event::Completed]);
    assert(seq![Event::Completed].drop_first() =~= Seq::<Event>::empty());
    reveal_with_fuel(run, 3);
    assert(run(v, evs).1 =~= seq![
        Action::ResetHard,
        Action::Finish(
            Err(MergeError::UnresolvableConflict { resolved, total: v.conflicts.len() as usize }),
        ),
    ]);
}

/// The pass, and the position in it, from which an answer `ev` in state `v`
/// goes on looking for the next conflict to stage, if it does.
pub open spec fn search_from(v: SessionView, ev: Event) -> Option<(u8, int)> {
    match (v.phase, ev) {
        (Phase::Staging { pass, index, .. }, Event::Answer(_)) => Some((pass, index + 1)),
        (Phase::Checking { pass, .. }, Event::Answer(true)) => Some((pass, 0)),
        (Phase::MergingTrees, Event::Conflicts(found)) => if found@.len() > 0 {
            Some((1u8, 0))
        } else {
            None
        },
        _ => None,
    }
}

/// A pass skips no conflict of its own: the next conflict that it stages is
/// the first one of that pass after the previous one (or from the start of
/// the pass), and a pass ends only when no conflict of it is left.
pub proof fn passes_skip_no_conflict(v: SessionView, ev: Event)
    requires
        v.wf(),
        expects(v.phase, ev),
        event_wf(ev),
    ensures
        (match search_from(v, ev) {
            Some((pass, from)) => match next(v, ev).1 {
                Action::StageEntry { conflict, .. } => {
                    &&& from <= conflict < next(v, ev).0.conflicts.len()
                    &&& rank(next(v, ev).0.conflicts[conflict as int]) == pass
                    &&& forall|k: int|
                        from <= k < conflict ==> rank(#[trigger] next(v, ev).0.conflicts[k])
                            != pass
                },
                _ => forall|k: int|
                    from <= k < next(v, ev).0.conflicts.len() ==> rank(
                        #[trigger] next(v, ev).0.conflicts[k],
                    ) != pass,
            },
            None => true,
        }),
{
    let cs = next(v, ev).0.conflicts;
    match search_from(v, ev) {
        Some((pass, from)) => {
            lemma_next_in_pass_bounds(cs, pass, from);
        },
        None => {},
    }
}

} // verus!
