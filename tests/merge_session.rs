use merge_engine::analysis::{route, MergeAnalysis, Route};
use merge_engine::messages::{
    branch_refname, create_branch_message, fast_forward_message, merge_message,
    unresolved_message,
};
use merge_engine::resolver::{find_in_pass, pass_of, pick_for, slot_of_pass, Pick, Slots};
use merge_engine::session::{
    Action, Checkout, Event, MergeError, Phase, Session, StoreError,
};

fn flags(unborn: bool, up_to_date: bool, fast_forward: bool, normal: bool) -> MergeAnalysis {
    MergeAnalysis { unborn, up_to_date, fast_forward, normal }
}

fn slots(ours: bool, theirs: bool, ancestor: bool) -> Slots {
    Slots { ours, theirs, ancestor }
}

/// Starts an attempt and answers each action in turn with `events`,
/// returning every action handed out, the first one included.
fn drive(events: Vec<Event>) -> (Session, Vec<Action>) {
    let (mut s, first) = Session::start();
    let mut actions = vec![first];
    for ev in events {
        assert!(s.accepts(&ev));
        actions.push(s.step(ev));
    }
    (s, actions)
}

#[test]
fn fast_forward_moves_existing_branch() {
    let (s, actions) = drive(vec![
        Event::Analysis(flags(false, false, true, false)),
        Event::Answer(true),
        Event::Completed,
        Event::Completed,
        Event::Completed,
    ]);
    assert_eq!(
        actions,
        vec![
            Action::Analyze,
            Action::FindBranch,
            Action::SetBranchTarget,
            Action::SetHead,
            Action::CheckoutHead(Checkout::Forced),
            Action::Finish(Ok(())),
        ]
    );
    assert!(s.is_finished());
}

#[test]
fn unborn_branch_is_created_at_incoming() {
    let (_, actions) = drive(vec![
        Event::Analysis(flags(true, false, true, false)),
        Event::Answer(false),
        Event::Completed,
        Event::Completed,
        Event::Completed,
    ]);
    assert_eq!(
        actions,
        vec![
            Action::Analyze,
            Action::FindBranch,
            Action::CreateBranch,
            Action::SetHead,
            Action::CheckoutHead(Checkout::ForcedAllowConflicts),
            Action::Finish(Ok(())),
        ]
    );
}

#[test]
fn up_to_date_does_nothing() {
    let (s, actions) = drive(vec![Event::Analysis(flags(false, true, false, false))]);
    assert_eq!(actions, vec![Action::Analyze, Action::Finish(Ok(()))]);
    assert!(s.is_finished());
    assert!(!s.accepts(&Event::Completed));
}

#[test]
fn clean_three_way_merge_commits_with_two_parents() {
    let (_, actions) = drive(vec![
        Event::Analysis(flags(false, false, false, true)),
        Event::Completed,
        Event::Conflicts(vec![]),
        Event::Completed,
        Event::Completed,
        Event::Answer(false),
        Event::Completed,
        Event::Completed,
    ]);
    assert_eq!(
        actions,
        vec![
            Action::Analyze,
            Action::ResolveHead,
            Action::MergeTrees,
            Action::WriteTree,
            Action::CheckoutTree,
            Action::Restage,
            Action::CommitMerge,
            Action::CheckoutHead(Checkout::Safe),
            Action::Finish(Ok(())),
        ]
    );
}

#[test]
fn resolver_precedence() {
    assert_eq!(pick_for(slots(true, true, true)), Some(Pick::Ours));
    assert_eq!(pick_for(slots(true, false, false)), Some(Pick::Ours));
    assert_eq!(pick_for(slots(false, true, true)), Some(Pick::Theirs));
    assert_eq!(pick_for(slots(false, true, false)), Some(Pick::Theirs));
    assert_eq!(pick_for(slots(false, false, true)), Some(Pick::Ancestor));
    assert_eq!(pick_for(slots(false, false, false)), None);
    assert_eq!(pass_of(slots(false, true, true)), 2);
    assert_eq!(slot_of_pass(3), Pick::Ancestor);
}

#[test]
fn passes_find_their_conflicts_in_order() {
    let cs = vec![slots(false, false, true), slots(true, true, true), slots(false, true, true)];
    assert_eq!(find_in_pass(&cs, 1, 0), 1);
    assert_eq!(find_in_pass(&cs, 1, 2), 3);
    assert_eq!(find_in_pass(&cs, 2, 0), 2);
    assert_eq!(find_in_pass(&cs, 3, 0), 0);
    assert_eq!(find_in_pass(&cs, 3, 1), 3);
}

#[test]
fn all_conflicts_resolved_then_committed() {
    let cs = vec![slots(false, false, true), slots(true, true, true), slots(false, true, true)];
    let (_, actions) = drive(vec![
        Event::Analysis(flags(false, false, false, true)),
        Event::Completed,
        Event::Conflicts(cs),
        Event::Answer(true),
        Event::Answer(true),
        Event::Answer(true),
        Event::Answer(true),
        Event::Answer(true),
        Event::Answer(false),
        Event::Completed,
        Event::Completed,
        Event::Answer(false),
        Event::Completed,
        Event::Completed,
    ]);
    assert_eq!(
        actions,
        vec![
            Action::Analyze,
            Action::ResolveHead,
            Action::MergeTrees,
            Action::StageEntry { conflict: 1, pick: Pick::Ours },
            Action::CheckConflicts,
            Action::StageEntry { conflict: 2, pick: Pick::Theirs },
            Action::CheckConflicts,
            Action::StageEntry { conflict: 0, pick: Pick::Ancestor },
            Action::CheckConflicts,
            Action::WriteTree,
            Action::CheckoutTree,
            Action::Restage,
            Action::CommitMerge,
            Action::CheckoutHead(Checkout::Safe),
            Action::Finish(Ok(())),
        ]
    );
}

#[test]
fn later_passes_skipped_when_no_conflicts_remain() {
    let cs = vec![slots(true, false, true), slots(true, true, false)];
    let (_, actions) = drive(vec![
        Event::Analysis(flags(false, false, false, true)),
        Event::Completed,
        Event::Conflicts(cs),
        Event::Answer(true),
        Event::Answer(true),
        Event::Answer(false),
        Event::Answer(false),
        Event::Answer(false),
    ]);
    assert_eq!(
        actions,
        vec![
            Action::Analyze,
            Action::ResolveHead,
            Action::MergeTrees,
            Action::StageEntry { conflict: 0, pick: Pick::Ours },
            Action::StageEntry { conflict: 1, pick: Pick::Ours },
            Action::CheckConflicts,
            Action::CheckConflicts,
            Action::CheckConflicts,
            Action::WriteTree,
        ]
    );
}

#[test]
fn residual_conflict_rolls_back() {
    let cs = vec![slots(true, true, true)];
    let (s, actions) = drive(vec![
        Event::Analysis(flags(false, false, false, true)),
        Event::Completed,
        Event::Conflicts(cs),
        Event::Answer(false),
        Event::Answer(true),
        Event::Answer(true),
        Event::Answer(true),
        Event::Completed,
    ]);
    assert_eq!(
        actions,
        vec![
            Action::Analyze,
            Action::ResolveHead,
            Action::MergeTrees,
            Action::StageEntry { conflict: 0, pick: Pick::Ours },
            Action::CheckConflicts,
            Action::CheckConflicts,
            Action::CheckConflicts,
            Action::ResetHard,
            Action::Finish(Err(MergeError::UnresolvableConflict { resolved: 0, total: 1 })),
        ]
    );
    assert!(s.is_finished());
}

#[test]
fn conflicts_after_rescan_roll_back() {
    let cs = vec![slots(false, true, false)];
    let (_, actions) = drive(vec![
        Event::Analysis(flags(false, false, false, true)),
        Event::Completed,
        Event::Conflicts(cs),
        Event::Answer(true),
        Event::Answer(true),
        Event::Answer(false),
        Event::Answer(false),
        Event::Completed,
        Event::Completed,
        Event::Answer(true),
        Event::Completed,
    ]);
    assert_eq!(
        &actions[3..],
        &[
            Action::CheckConflicts,
            Action::StageEntry { conflict: 0, pick: Pick::Theirs },
            Action::CheckConflicts,
            Action::CheckConflicts,
            Action::WriteTree,
            Action::CheckoutTree,
            Action::Restage,
            Action::ResetHard,
            Action::Finish(Err(MergeError::UnresolvableConflict { resolved: 1, total: 1 })),
        ][..]
    );
    assert!(!actions.contains(&Action::CommitMerge));
}

#[test]
fn conflict_counts_report_resolved_out_of_total() {
    let cs = vec![
        slots(true, true, true),
        slots(false, true, true),
        slots(false, false, true),
        slots(true, false, true),
    ];
    let (_, actions) = drive(vec![
        Event::Analysis(flags(false, false, false, true)),
        Event::Completed,
        Event::Conflicts(cs),
        Event::Answer(true),
        Event::Answer(false),
        Event::Answer(true),
        Event::Answer(true),
        Event::Answer(true),
        Event::Answer(true),
        Event::Answer(true),
        Event::Completed,
    ]);
    assert_eq!(actions[actions.len() - 2], Action::ResetHard);
    assert_eq!(
        &actions[3..9],
        &[
            Action::StageEntry { conflict: 0, pick: Pick::Ours },
            Action::StageEntry { conflict: 3, pick: Pick::Ours },
            Action::CheckConflicts,
            Action::StageEntry { conflict: 1, pick: Pick::Theirs },
            Action::CheckConflicts,
            Action::StageEntry { conflict: 2, pick: Pick::Ancestor },
        ][..]
    );
    assert_eq!(
        actions[actions.len() - 1],
        Action::Finish(Err(MergeError::UnresolvableConflict { resolved: 3, total: 4 }))
    );
}

#[test]
fn clean_merge_ignores_rescan_report() {
    let (_, actions) = drive(vec![
        Event::Analysis(flags(false, false, false, true)),
        Event::Completed,
        Event::Conflicts(vec![]),
        Event::Completed,
        Event::Completed,
        Event::Answer(true),
    ]);
    assert_eq!(actions[actions.len() - 1], Action::CommitMerge);
}

#[test]
fn store_failure_ends_attempt_unchanged() {
    let err = StoreError { code: -3, class: 4, message: "reference not found".to_string() };
    let (s, actions) = drive(vec![
        Event::Analysis(flags(false, false, false, true)),
        Event::Failed(err.clone()),
    ]);
    assert_eq!(actions[2], Action::Finish(Err(MergeError::Store(err))));
    assert_eq!(s.phase(), Phase::Finished);
}

#[test]
fn answers_must_fit_the_action() {
    let (s, _) = Session::start();
    assert!(!s.accepts(&Event::Completed));
    assert!(!s.accepts(&Event::Answer(true)));
    assert!(s.accepts(&Event::Analysis(flags(false, false, true, false))));
    assert!(s.accepts(&Event::Failed(StoreError { code: -1, class: 0, message: String::new() })));
}

#[test]
fn routing_prefers_fast_forward() {
    assert_eq!(route(flags(true, false, true, false)), Route::FastForward);
    assert_eq!(route(flags(false, false, true, true)), Route::FastForward);
    assert_eq!(route(flags(false, false, false, true)), Route::ThreeWay);
    assert_eq!(route(flags(false, true, false, false)), Route::NothingToDo);
    assert_eq!(route(flags(false, false, false, false)), Route::NothingToDo);
}

#[test]
fn messages_name_branch_and_ids() {
    assert_eq!(branch_refname("main"), "refs/heads/main");
    assert_eq!(
        fast_forward_message("refs/heads/main", "abc123"),
        "Fast-Forward: Setting refs/heads/main to id: abc123"
    );
    assert_eq!(create_branch_message("main", "abc123"), "Setting main to abc123");
    assert_eq!(merge_message("r1", "l2"), "Merge: r1 into l2");
    assert_eq!(unresolved_message(), "Could not resolve all merge conflicts automatically");
}
