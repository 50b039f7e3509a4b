use tiber::board_validation::{
    decide_validate_task_board, evolve_task_board_state, open_stems, task_board_repair_plan, BoardTask,
    ValidateTaskBoardState, ValidationRepair,
};
use tiber::final_review::{FinalReviewOutcome, FinalReviewRecord};
use tiber::status_table::StatusTable;
use tiber::task_closing::{
    decide_close_tasks_from_commit_trailers, evolve_close_tasks_state, CloseIntent, CloseTasksState,
};
use tiber::task_commands::BOARD_STREAM;
use tiber::task_creation::{backlog_admission_allowed, task_stem_for_creation};
use tiber::task_lifecycle::{
    decide_create_task, decide_prioritize_task, decide_transition_task, evolve_board_statuses,
    evolve_transition_state, BoardCommandError, BoardStatusState, TransitionIntent, TransitionTaskState,
};
use tiber::task_projection::{Claim, CompletionSnapshot, LinkChange, TaskFact, TaskRecord};

fn s(x: &str) -> String {
    x.to_string()
}

fn task(stem: &str) -> TaskRecord {
    TaskRecord {
        stem: s(stem),
        title: s("Task"),
        status: s("backlog"),
        claim: None,
        tags: vec![],
        summary: String::new(),
        context: String::new(),
        pr_mr_url: None,
        pr_mr_status: None,
        blocks: vec![],
        blocked_by: vec![],
        subtasks: vec![],
        acceptance: vec![],
        notes: vec![],
        completion_snapshot: None,
        reviews: vec![],
        clean_reviews: vec![],
    }
}

fn created(t: TaskRecord) -> TaskFact {
    TaskFact::TaskCreated { stream_id: s(BOARD_STREAM), task: t }
}

fn ordered(order: &[&str]) -> TaskFact {
    TaskFact::BoardReordered { order: order.iter().map(|x| s(x)).collect() }
}

fn final_review_fixture(review_id: &str, reviewer_identity: &str, outcome: FinalReviewOutcome) -> FinalReviewRecord {
    FinalReviewRecord {
        review_id: s(review_id),
        reviewer_identity: s(reviewer_identity),
        reviewer_type: s("independent-final-review"),
        requested_scope: vec![s("src/**")],
        scope: vec![s("src/lib.rs")],
        commit_range: s("1111111..2222222"),
        outcome,
        evidence: s("verification-receipt"),
        timestamp: s("2026-08-28T12:00:00Z"),
        source_fingerprint: s("source-fingerprint"),
        requested_verification_scope: vec![s("tests/**")],
        verification_scope: vec![s("tests/final_review.rs")],
        verification_fingerprint: s("verification-fingerprint"),
    }
}

fn final_review_event(review: FinalReviewRecord) -> TaskFact {
    TaskFact::TaskFinalReviewRecorded { stem: s("task-a"), review }
}

fn snapshot(source: &str, verification: &str) -> CompletionSnapshot {
    CompletionSnapshot {
        commit_oid: s("c"),
        tree_oid: s("t"),
        source_fingerprint: s(source),
        verification_fingerprint: s(verification),
    }
}

fn clean_three() -> Vec<FinalReviewRecord> {
    vec![
        final_review_fixture("review-1", "person-1", FinalReviewOutcome::Clean),
        final_review_fixture("review-2", "person-2", FinalReviewOutcome::Clean),
        final_review_fixture("review-3", "person-3", FinalReviewOutcome::Clean),
    ]
}

fn transition(stem: &str, status: &str) -> TransitionIntent {
    TransitionIntent {
        stem: s(stem),
        status: s(status),
        claim: None,
        max_queued: None,
        minimum_clean_reviews: 0,
        expected_clean_reviews: vec![],
        completion_snapshot: None,
    }
}

fn transition_state(facts: Vec<TaskFact>, target: &str) -> TransitionTaskState {
    let mut st = TransitionTaskState::default();
    for f in &facts {
        st = evolve_transition_state(st, &s(target), f);
    }
    st
}

fn close_state(facts: Vec<TaskFact>) -> CloseTasksState {
    let mut st = CloseTasksState::default();
    for f in &facts {
        st = evolve_close_tasks_state(st, f);
    }
    st
}

#[test]
fn lifecycle_commands_reject_a_finding_refreshed_after_the_filesystem_gate() {
    let clean_reviews = clean_three();
    let finding = final_review_event(final_review_fixture("review-4", "person-4", FinalReviewOutcome::Finding));
    let mut facts = vec![created(task("task-a")), ordered(&["task-a"])];
    for r in &clean_reviews {
        facts.push(final_review_event(r.duplicate()));
    }
    facts.push(finding);

    let st = transition_state(facts.iter().map(copy_fact).collect(), "task-a");
    let mut intent = transition("task-a", "done");
    intent.minimum_clean_reviews = 3;
    intent.expected_clean_reviews = clean_reviews.iter().map(|r| r.duplicate()).collect();
    let err = decide_transition_task(&st, &intent).expect_err("refreshed finding must block transition");
    assert!(err.code().contains("tiber.final_review_evidence_changed_during_completion"));

    let cst = close_state(facts);
    let close = CloseIntent {
        stems: vec![s("task-a")],
        minimum_clean_reviews: 3,
        expected_clean_reviews: vec![(s("task-a"), clean_reviews)],
        completion_snapshots: vec![],
    };
    let err = decide_close_tasks_from_commit_trailers(&cst, &close)
        .expect_err("refreshed finding must block trailer closure");
    assert!(err.code().contains("tiber.final_review_evidence_changed_during_completion"));
}

fn copy_fact(f: &TaskFact) -> TaskFact {
    match f {
        TaskFact::TaskCreated { stream_id, task } => TaskFact::TaskCreated {
            stream_id: stream_id.clone(),
            task: task.duplicate(),
        },
        TaskFact::BoardReordered { order } => TaskFact::BoardReordered { order: order.clone() },
        TaskFact::TaskFinalReviewRecorded { stem, review } => TaskFact::TaskFinalReviewRecorded {
            stem: stem.clone(),
            review: review.duplicate(),
        },
        other => panic!("unexpected fixture fact {other:?}"),
    }
}

#[test]
fn trailer_closure_decides_from_task_statuses_not_full_task_documents() {
    let mut t = task("task-a");
    t.title = s("Original title");
    let st = close_state(vec![created(t), ordered(&["task-a"])]);
    let intent = CloseIntent {
        stems: vec![s("task-a")],
        minimum_clean_reviews: 0,
        expected_clean_reviews: vec![],
        completion_snapshots: vec![],
    };
    let emitted = decide_close_tasks_from_commit_trailers(&st, &intent).expect("open trailer-referenced task may close");
    match emitted {
        Some(TaskFact::TasksClosedFromCommitTrailers { stems, order, .. }) => {
            assert_eq!(stems, vec![s("task-a")]);
            assert!(order.is_empty());
        }
        other => panic!("unexpected decision {other:?}"),
    }
}

#[test]
fn trailer_closure_of_done_or_unknown_tasks() {
    let st = close_state(vec![
        created(task("task-a")),
        ordered(&["task-a"]),
        TaskFact::TaskTransitioned { stem: s("task-a"), status: s("done"), claim: None, completion_snapshot: None },
    ]);
    let intent = CloseIntent {
        stems: vec![s("task-a")],
        minimum_clean_reviews: 0,
        expected_clean_reviews: vec![],
        completion_snapshots: vec![],
    };
    assert!(decide_close_tasks_from_commit_trailers(&st, &intent).unwrap().is_none());
    let missing = CloseIntent {
        stems: vec![s("task-a"), s("ghost")],
        minimum_clean_reviews: 0,
        expected_clean_reviews: vec![],
        completion_snapshots: vec![],
    };
    assert_eq!(
        decide_close_tasks_from_commit_trailers(&st, &missing).unwrap_err(),
        BoardCommandError::TrailerTaskMissing
    );
}

#[test]
fn trailer_closure_with_reviews_needs_a_matching_snapshot() {
    let reviews = clean_three();
    let mut facts = vec![created(task("task-a")), created(task("task-b")), ordered(&["task-a", "task-b"])];
    for r in &reviews {
        facts.push(final_review_event(r.duplicate()));
    }
    let st = close_state(facts);
    let mut intent = CloseIntent {
        stems: vec![s("task-a")],
        minimum_clean_reviews: 3,
        expected_clean_reviews: vec![(s("task-a"), reviews.iter().map(|r| r.duplicate()).collect())],
        completion_snapshots: vec![],
    };
    assert_eq!(
        decide_close_tasks_from_commit_trailers(&st, &intent).unwrap_err(),
        BoardCommandError::CompletionSnapshotMissing
    );
    intent.completion_snapshots = vec![(s("task-a"), snapshot("other", "verification-fingerprint"))];
    assert_eq!(
        decide_close_tasks_from_commit_trailers(&st, &intent).unwrap_err(),
        BoardCommandError::CompletionSnapshotChanged { required: 3 }
    );
    intent.completion_snapshots = vec![(s("task-a"), snapshot("source-fingerprint", "verification-fingerprint"))];
    match decide_close_tasks_from_commit_trailers(&st, &intent).unwrap() {
        Some(TaskFact::TasksClosedFromCommitTrailers { stems, order, completion_snapshots }) => {
            assert_eq!(stems, vec![s("task-a")]);
            assert_eq!(order, vec![s("task-b")]);
            assert_eq!(completion_snapshots.len(), 1);
            assert_eq!(completion_snapshots[0].0, "task-a");
        }
        other => panic!("unexpected decision {other:?}"),
    }
}

#[test]
fn status_table_records_updates_and_forgets() {
    let mut t = StatusTable::new();
    t.set(&s("a"), &s("backlog"));
    t.set(&s("b"), &s("backlog"));
    t.set(&s("a"), &s("done"));
    assert_eq!(t.status(&s("a")).map(|x| x.as_str()), Some("done"));
    assert_eq!(t.count("backlog"), 1);
    t.set_existing(&s("c"), &s("done"));
    assert!(!t.contains(&s("c")));
    t.set_existing(&s("b"), &s("in-progress"));
    assert_eq!(t.status(&s("b")).map(|x| x.as_str()), Some("in-progress"));
    t.remove(&s("a"));
    assert!(t.status(&s("a")).is_none());
    assert_eq!(t.entries.len(), 1);
}

#[test]
fn creation_numbers_the_nickname_until_it_is_free() {
    let mut t = StatusTable::new();
    assert_eq!(task_stem_for_creation(&t, &s("write-docs"), &s("20250101-abcd")), "20250101-abcd-write-docs");
    t.set(&s("20240101-zzzz-write-docs"), &s("backlog"));
    assert_eq!(task_stem_for_creation(&t, &s("write-docs"), &s("20250101-abcd")), "20250101-abcd-write-docs-2");
    t.set(&s("20240102-yyyy-write-docs-2"), &s("done"));
    t.set(&s("20240103-xxxx-write-docs-3"), &s("done"));
    assert_eq!(task_stem_for_creation(&t, &s("write-docs"), &s("20250101-abcd")), "20250101-abcd-write-docs-4");
    // Only a whole `-<nickname>` suffix counts.
    let mut u = StatusTable::new();
    u.set(&s("20240101-zzzz-rewrite-docs"), &s("backlog"));
    assert_eq!(task_stem_for_creation(&u, &s("write-docs"), &s("id")), "id-write-docs");
    let mut w = StatusTable::new();
    w.set(&s("20240101-zzzz-overwrite"), &s("backlog"));
    assert_eq!(task_stem_for_creation(&w, &s("write"), &s("id")), "id-write");
}

#[test]
fn creation_respects_the_backlog_limit_and_appends_to_the_order() {
    assert!(backlog_admission_allowed(1, 2));
    assert!(!backlog_admission_allowed(2, 2));
    let mut st = BoardStatusState::default();
    st = evolve_board_statuses(st, &created(task("20240101-aaaa-one")));
    st = evolve_board_statuses(st, &ordered(&["20240101-aaaa-one"]));
    let plan = decide_create_task(&st, &s("two"), &s("20250101-bbbb"), Some(2)).unwrap();
    assert_eq!(plan.stem, "20250101-bbbb-two");
    assert_eq!(plan.order, vec![s("20240101-aaaa-one"), s("20250101-bbbb-two")]);
    assert_eq!(
        decide_create_task(&st, &s("two"), &s("20250101-bbbb"), Some(1)).unwrap_err(),
        BoardCommandError::BacklogCapacityExceeded { queued: 1, max_queued: 1 }
    );
    assert!(decide_create_task(&st, &s("two"), &s("20250101-bbbb"), None).is_ok());
    assert_eq!(st.board_task_stems, vec![s("20240101-aaaa-one")]);
}

#[test]
fn prioritizing_moves_a_task_before_another() {
    let order = vec![s("a"), s("b"), s("c")];
    match decide_prioritize_task(&order, &s("c"), &s("a")).unwrap() {
        Some(TaskFact::TaskPriorityChanged { order }) => assert_eq!(order, vec![s("c"), s("a"), s("b")]),
        other => panic!("unexpected decision {other:?}"),
    }
    assert!(decide_prioritize_task(&order, &s("a"), &s("b")).unwrap().is_none());
    match decide_prioritize_task(&order, &s("x"), &s("b")).unwrap() {
        Some(TaskFact::TaskPriorityChanged { order }) => assert_eq!(order, vec![s("a"), s("x"), s("b"), s("c")]),
        other => panic!("unexpected decision {other:?}"),
    }
    assert_eq!(
        decide_prioritize_task(&order, &s("a"), &s("zz")).unwrap_err(),
        BoardCommandError::PrioritizationTargetNotOnBoard
    );
    assert_eq!(
        decide_prioritize_task(&order, &s("a"), &s("a")).unwrap_err(),
        BoardCommandError::PrioritizationTargetNotOnBoard
    );
    assert_eq!(BoardCommandError::PrioritizationTargetNotOnBoard.code(), "tiber_prioritization_target_not_on_board");
}

#[test]
fn transitions_record_lifecycle_and_order_changes() {
    let facts = vec![created(task("a")), created(task("b")), ordered(&["a", "b"])];
    let st = transition_state(facts, "a");
    let mut intent = transition("a", "in-progress");
    intent.claim = Some(Claim { host: s("h"), session: s("s") });
    let out = decide_transition_task(&st, &intent).unwrap();
    assert_eq!(out.len(), 1);
    match &out[0] {
        TaskFact::TaskTransitioned { stem, status, claim, .. } => {
            assert_eq!(stem, "a");
            assert_eq!(status, "in-progress");
            assert_eq!(claim.as_ref().map(|c| c.host.as_str()), Some("h"));
        }
        other => panic!("unexpected fact {other:?}"),
    }
    let out = decide_transition_task(&st, &transition("a", "abandoned")).unwrap();
    assert_eq!(out.len(), 2);
    match &out[1] {
        TaskFact::BoardReordered { order } => assert_eq!(order, &vec![s("b")]),
        other => panic!("unexpected fact {other:?}"),
    }
    assert!(decide_transition_task(&st, &transition("a", "backlog")).unwrap().is_empty());
    assert_eq!(
        decide_transition_task(&st, &transition("ghost", "done")).unwrap_err(),
        BoardCommandError::TaskMissing
    );
}

#[test]
fn transitions_into_a_full_backlog_are_refused() {
    let facts = vec![
        created(task("a")),
        created(task("b")),
        TaskFact::TaskTransitioned { stem: s("b"), status: s("in-progress"), claim: None, completion_snapshot: None },
    ];
    let st = transition_state(facts, "b");
    let mut intent = transition("b", "backlog");
    intent.max_queued = Some(1);
    assert_eq!(
        decide_transition_task(&st, &intent).unwrap_err(),
        BoardCommandError::BacklogCapacityExceeded { queued: 1, max_queued: 1 }
    );
    intent.max_queued = Some(2);
    let out = decide_transition_task(&st, &intent).unwrap();
    assert_eq!(out.len(), 2);
}

#[test]
fn completion_with_reviews_needs_the_reviewed_snapshot() {
    let reviews = clean_three();
    let mut facts = vec![created(task("task-a")), ordered(&["task-a"])];
    for r in &reviews {
        facts.push(final_review_event(r.duplicate()));
    }
    let st = transition_state(facts, "task-a");
    let mut intent = transition("task-a", "done");
    intent.minimum_clean_reviews = 3;
    intent.expected_clean_reviews = reviews.iter().map(|r| r.duplicate()).collect();
    assert_eq!(decide_transition_task(&st, &intent).unwrap_err(), BoardCommandError::CompletionSnapshotMissing);
    intent.completion_snapshot = Some(snapshot("source-fingerprint", "changed"));
    assert_eq!(
        decide_transition_task(&st, &intent).unwrap_err(),
        BoardCommandError::CompletionSnapshotChanged { required: 3 }
    );
    intent.completion_snapshot = Some(snapshot("source-fingerprint", "verification-fingerprint"));
    let out = decide_transition_task(&st, &intent).unwrap();
    assert_eq!(out.len(), 2);
    intent.minimum_clean_reviews = 4;
    match decide_transition_task(&st, &intent).unwrap_err() {
        BoardCommandError::FinalReview(e) => assert_eq!(e.code(), "tiber.final_review_evidence_incomplete"),
        other => panic!("unexpected refusal {other:?}"),
    }
}

fn links_task(stem: &str, blocks: &[&str], blocked_by: &[&str]) -> BoardTask {
    BoardTask {
        stem: s(stem),
        status: s("backlog"),
        blocks: blocks.iter().map(|x| s(x)).collect(),
        blocked_by: blocked_by.iter().map(|x| s(x)).collect(),
    }
}

#[test]
fn board_validation_decides_from_status_and_link_facts() {
    let order = vec![s("task-a"), s("task-b")];
    let tasks = vec![links_task("task-a", &["task-b"], &[]), links_task("task-b", &[], &[])];
    let reconciled = open_stems(&tasks);
    let plan = task_board_repair_plan(&order, &tasks, &reconciled);
    assert!(plan.order_change.is_none());
    assert_eq!(plan.link_changes.len(), 1);
    assert_eq!(plan.link_changes[0].stem, "task-b");
    assert_eq!(plan.link_changes[0].blocked_by, vec![s("task-a")]);
    assert_eq!(plan.repairs.len(), 1);
    match &plan.repairs[0] {
        ValidationRepair::ReciprocalLinkAdded { task, field, target } => {
            assert_eq!(task, "task-b");
            assert_eq!(field, "blocked_by");
            assert_eq!(target, "task-a");
        }
        other => panic!("unexpected repair {other:?}"),
    }
}

#[test]
fn board_validation_reconciles_the_order_and_folds_in_stem_order() {
    let mut st = ValidateTaskBoardState::default();
    for f in [
        created(task("c")),
        created(task("a")),
        created(task("b")),
        ordered(&["c", "gone"]),
        TaskFact::TaskTransitioned { stem: s("b"), status: s("done"), claim: None, completion_snapshot: None },
        TaskFact::TaskLinksChanged {
            change: LinkChange { stem: s("a"), blocks: vec![], blocked_by: vec![s("c")] },
        },
    ] {
        st = evolve_task_board_state(st, &f);
    }
    let stems: Vec<&str> = st.tasks.tasks.iter().map(|t| t.stem.as_str()).collect();
    assert_eq!(stems, vec!["a", "b", "c"]);
    assert_eq!(open_stems(&st.tasks.tasks), vec![s("a"), s("c")]);
    let reconciled = vec![s("c"), s("a")];
    match decide_validate_task_board(&st, &reconciled) {
        Some(TaskFact::TaskValidationRepaired { link_changes, order_change }) => {
            assert_eq!(link_changes.len(), 1);
            assert_eq!(link_changes[0].stem, "c");
            assert_eq!(link_changes[0].blocks, vec![s("a")]);
            assert_eq!(order_change, Some(reconciled.clone()));
        }
        other => panic!("unexpected decision {other:?}"),
    }
    let plan = task_board_repair_plan(&st.board_order, &st.tasks.tasks, &reconciled);
    let kinds: Vec<String> = plan
        .repairs
        .iter()
        .map(|r| match r {
            ValidationRepair::ReciprocalLinkAdded { task, field, target } => format!("link {task} {field} {target}"),
            ValidationRepair::BoardEntryAdded { task } => format!("added {task}"),
            ValidationRepair::BoardEntryRemoved { task } => format!("removed {task}"),
        })
        .collect();
    assert_eq!(kinds, vec![s("link c blocks a"), s("added a"), s("removed gone")]);
    let repaired = decide_validate_task_board(&st, &reconciled).unwrap();
    st = evolve_task_board_state(st, &repaired);
    assert!(decide_validate_task_board(&st, &reconciled).is_none());
}

#[test]
fn repair_plan_links_end_reciprocal_and_only_grow() {
    let tasks = vec![
        links_task("a", &["b", "c"], &["c"]),
        links_task("b", &[], &["c"]),
        links_task("c", &["b"], &[]),
    ];
    let order = open_stems(&tasks);
    let plan = task_board_repair_plan(&order, &tasks, &order);
    assert!(plan.order_change.is_none());
    let mut after: Vec<(String, Vec<String>, Vec<String>)> =
        tasks.iter().map(|t| (t.stem.clone(), t.blocks.clone(), t.blocked_by.clone())).collect();
    for change in &plan.link_changes {
        let entry = after.iter_mut().find(|e| e.0 == change.stem).expect("change for a board task");
        assert!(change.blocks.starts_with(&entry.1) && change.blocked_by.starts_with(&entry.2));
        entry.1 = change.blocks.clone();
        entry.2 = change.blocked_by.clone();
        assert!(plan.repairs.iter().any(|r| matches!(r, ValidationRepair::ReciprocalLinkAdded { task, .. } if *task == change.stem)));
    }
    for (stem, blocks, blocked_by) in &after {
        for other in &after {
            if blocks.contains(&other.0) {
                assert!(other.2.contains(stem), "{} blocks {} without reciprocal", stem, other.0);
            }
            if blocked_by.contains(&other.0) {
                assert!(other.1.contains(stem), "{} blocked by {} without reciprocal", stem, other.0);
            }
        }
    }
    assert_eq!(after[0], (s("a"), vec![s("b"), s("c")], vec![s("c")]));
    assert_eq!(after[1], (s("b"), vec![], vec![s("c"), s("a")]));
    assert_eq!(after[2], (s("c"), vec![s("b"), s("a")], vec![s("a")]));
}
