use tiber::ci_state::{CiFoldError, CiRecoveryFact};
use tiber::ci_types::CiRecoveryParticipant;
use tiber::final_review::{FinalReviewOutcome, FinalReviewRecord};
use tiber::task_projection::{
    apply_task_fact, project_tiber, ChecklistItem, Claim, CompletionSnapshot, LinkChange, Note,
    Subtask, TaskFact, TaskFoldError, TaskProjection, TaskRecord, TiberFact, TiberFoldError,
};

fn s(x: &str) -> String {
    x.to_string()
}

fn task(stem: &str) -> TaskRecord {
    TaskRecord {
        stem: s(stem),
        title: s("Task"),
        status: s("todo"),
        claim: None,
        tags: vec![],
        summary: String::new(),
        context: String::new(),
        pr_mr_url: None,
        pr_mr_status: None,
        blocks: vec![],
        blocked_by: vec![],
        subtasks: vec![],
        acceptance: vec![],
        notes: vec![],
        completion_snapshot: None,
        reviews: vec![],
        clean_reviews: vec![],
    }
}

fn snapshot(commit: &str) -> CompletionSnapshot {
    CompletionSnapshot {
        commit_oid: s(commit),
        tree_oid: s("tree"),
        source_fingerprint: s("sha256:v5:aa"),
        verification_fingerprint: String::new(),
    }
}

fn review(id: &str, outcome: FinalReviewOutcome) -> FinalReviewRecord {
    FinalReviewRecord {
        review_id: s(id),
        reviewer_identity: format!("person-{id}"),
        reviewer_type: s("independent-final-review"),
        requested_scope: vec![s("src")],
        scope: vec![s("src")],
        commit_range: s("main..HEAD"),
        outcome,
        evidence: s("read"),
        timestamp: s("2025-01-01T00:00:00Z"),
        source_fingerprint: s("f"),
        requested_verification_scope: vec![],
        verification_scope: vec![],
        verification_fingerprint: String::new(),
    }
}

fn fold(facts: Vec<TaskFact>) -> Result<TaskProjection, TaskFoldError> {
    let mut p = TaskProjection::new();
    for f in &facts {
        p = apply_task_fact(p, f)?;
    }
    Ok(p)
}

fn created(stem: &str) -> TaskFact {
    TaskFact::TaskCreated { stream_id: s("tiber:board"), task: task(stem) }
}

#[test]
fn transitions_set_status_and_claim_and_keep_the_snapshot() {
    let p = fold(vec![
        TaskFact::RepositoryInitialized,
        created("t1"),
        TaskFact::TaskTransitioned {
            stem: s("t1"),
            status: s("done"),
            claim: None,
            completion_snapshot: Some(snapshot("c1")),
        },
        TaskFact::TaskTransitioned {
            stem: s("t1"),
            status: s("in-progress"),
            claim: Some(Claim { host: s("h"), session: s("s") }),
            completion_snapshot: None,
        },
    ])
    .expect("fold");
    assert!(p.initialized());
    let t = p.task(&s("t1")).expect("task");
    assert_eq!(t.status, "in-progress");
    assert_eq!(t.claim.as_ref().map(|c| c.host.as_str()), Some("h"));
    assert_eq!(t.completion_snapshot.as_ref().map(|c| c.commit_oid.as_str()), Some("c1"));
    assert!(p.task(&s("t2")).is_none());
}

#[test]
fn facts_about_unknown_tasks_are_refused() {
    let err = fold(vec![TaskFact::TaskNoteAdded { stem: s("ghost"), note: Note { date: s("d"), text: s("x") } }])
        .unwrap_err();
    assert_eq!(err, TaskFoldError::TaskMissing { stem: s("ghost") });
    let err = fold(vec![created("t1"), TaskFact::LegacyTaskRemoved { stem: s("t1") }, TaskFact::LegacyTaskClosedFromTrailer { stem: s("t1") }])
        .unwrap_err();
    assert_eq!(err, TaskFoldError::TaskMissing { stem: s("t1") });
}

#[test]
fn acceptance_criteria_are_added_checked_and_removed_by_position() {
    let item = |text: &str| ChecklistItem { checked: false, text: s(text) };
    let p = fold(vec![
        created("t1"),
        TaskFact::TaskAcceptanceAdded { stem: s("t1"), item: item("a") },
        TaskFact::TaskAcceptanceAdded { stem: s("t1"), item: item("b") },
        TaskFact::TaskAcceptanceAdded { stem: s("t1"), item: item("c") },
        TaskFact::TaskAcceptanceChecked { stem: s("t1"), index: 2, checked: true },
        TaskFact::TaskAcceptanceRemoved { stem: s("t1"), index: 0 },
    ])
    .expect("fold");
    let t = p.task(&s("t1")).expect("task");
    let texts: Vec<(&str, bool)> = t.acceptance.iter().map(|i| (i.text.as_str(), i.checked)).collect();
    assert_eq!(texts, vec![("b", false), ("c", true)]);
    let err = fold(vec![created("t1"), TaskFact::TaskAcceptanceChecked { stem: s("t1"), index: 0, checked: true }])
        .unwrap_err();
    assert_eq!(err, TaskFoldError::AcceptanceIndexMissing { index: 0 });
    let err = fold(vec![created("t1"), TaskFact::TaskAcceptanceRemoved { stem: s("t1"), index: 3 }]).unwrap_err();
    assert_eq!(err, TaskFoldError::AcceptanceIndexMissing { index: 3 });
}

#[test]
fn subtasks_are_checked_by_identifier() {
    let sub = |id: &str| Subtask { id: s(id), checked: false, title: s("step"), after: vec![] };
    let p = fold(vec![
        created("t1"),
        TaskFact::TaskSubtaskAdded { stem: s("t1"), subtask: sub("s1") },
        TaskFact::TaskSubtaskAdded { stem: s("t1"), subtask: sub("s2") },
        TaskFact::TaskSubtaskChecked { stem: s("t1"), subtask_id: s("s2"), checked: true },
    ])
    .expect("fold");
    let t = p.task(&s("t1")).expect("task");
    assert_eq!(t.subtasks.iter().map(|x| x.checked).collect::<Vec<_>>(), vec![false, true]);
    let err = fold(vec![created("t1"), TaskFact::TaskSubtaskChecked { stem: s("t1"), subtask_id: s("s9"), checked: true }])
        .unwrap_err();
    assert_eq!(err, TaskFoldError::SubtaskMissing { subtask_id: s("s9") });
}

#[test]
fn details_links_and_pull_requests_replace_their_fields() {
    let p = fold(vec![
        created("t1"),
        created("t2"),
        TaskFact::TaskDetailsUpdated {
            stem: s("t1"),
            title: s("New"),
            tags: vec![s("x")],
            summary: s("sum"),
            context: s("ctx"),
        },
        TaskFact::TaskLinksChanged { change: LinkChange { stem: s("t1"), blocks: vec![s("t2")], blocked_by: vec![] } },
        TaskFact::TaskPullRequestChanged { stem: s("t2"), url: Some(s("https://example.invalid/pr/1")), status: Some(s("open")) },
        TaskFact::BoardReordered { order: vec![s("t2"), s("t1")] },
    ])
    .expect("fold");
    let t1 = p.task(&s("t1")).expect("t1");
    assert_eq!((t1.title.as_str(), t1.summary.as_str(), t1.context.as_str()), ("New", "sum", "ctx"));
    assert_eq!(t1.blocks, vec![s("t2")]);
    assert_eq!(p.task(&s("t2")).expect("t2").pr_mr_status.as_deref(), Some("open"));
    assert_eq!(p.order(), &vec![s("t2"), s("t1")]);
}

#[test]
fn final_reviews_are_kept_and_fold_the_clean_run() {
    let p = fold(vec![
        created("t1"),
        TaskFact::TaskFinalReviewRecorded { stem: s("t1"), review: review("r1", FinalReviewOutcome::Clean) },
        TaskFact::TaskFinalReviewRecorded { stem: s("t1"), review: review("r2", FinalReviewOutcome::Finding) },
        TaskFact::TaskFinalReviewRecorded { stem: s("t1"), review: review("r3", FinalReviewOutcome::Clean) },
    ])
    .expect("fold");
    let t = p.task(&s("t1")).expect("task");
    assert_eq!(t.reviews.len(), 3);
    assert_eq!(t.clean_reviews.iter().map(|r| r.review_id.as_str()).collect::<Vec<_>>(), vec!["r3"]);
}

#[test]
fn trailer_closures_finish_tasks_and_record_snapshots() {
    let p = fold(vec![
        created("t1"),
        created("t2"),
        TaskFact::TaskTransitioned {
            stem: s("t1"),
            status: s("in-progress"),
            claim: Some(Claim { host: s("h"), session: s("s") }),
            completion_snapshot: None,
        },
        TaskFact::TasksClosedFromCommitTrailers {
            stems: vec![s("t1"), s("t2")],
            order: vec![s("t2")],
            completion_snapshots: vec![(s("t1"), snapshot("c9"))],
        },
    ])
    .expect("fold");
    let t1 = p.task(&s("t1")).expect("t1");
    assert_eq!(t1.status, "done");
    assert!(t1.claim.is_none());
    assert_eq!(t1.completion_snapshot.as_ref().map(|c| c.commit_oid.as_str()), Some("c9"));
    assert_eq!(p.task(&s("t2")).expect("t2").status, "done");
    assert_eq!(p.order(), &vec![s("t2")]);
    let err = fold(vec![
        created("t1"),
        TaskFact::TasksClosedFromCommitTrailers { stems: vec![s("t1"), s("t3")], order: vec![], completion_snapshots: vec![] },
    ])
    .unwrap_err();
    assert_eq!(err, TaskFoldError::TaskMissing { stem: s("t3") });
}

#[test]
fn validation_repairs_relink_and_reorder() {
    let p = fold(vec![
        created("t1"),
        created("t2"),
        TaskFact::TaskValidationRepaired {
            link_changes: vec![LinkChange { stem: s("t2"), blocks: vec![], blocked_by: vec![s("t1")] }],
            order_change: Some(vec![s("t1"), s("t2")]),
        },
    ])
    .expect("fold");
    assert_eq!(p.task(&s("t2")).expect("t2").blocked_by, vec![s("t1")]);
    assert_eq!(p.order(), &vec![s("t1"), s("t2")]);
}

#[test]
fn the_stream_folds_tasks_and_recovery_facts_together() {
    let facts = vec![TiberFact::Task(created("t1")), TiberFact::Task(TaskFact::LegacyTaskStatePublished)];
    let p = project_tiber(&facts).expect("fold");
    assert!(p.tasks.task(&s("t1")).is_some());
    assert!(p.ci_recovery.is_none());
    let facts = vec![
        TiberFact::Task(created("t1")),
        TiberFact::Ci(CiRecoveryFact::Joined {
            trigger: None,
            participant: Some(CiRecoveryParticipant { host: s("h"), session: s("s") }),
        }),
    ];
    assert_eq!(project_tiber(&facts).unwrap_err(), TiberFoldError::Ci(CiFoldError::JoinWithoutClaim));
    let facts = vec![TiberFact::Task(TaskFact::TaskNoteAdded { stem: s("t9"), note: Note { date: s("d"), text: s("x") } })];
    assert_eq!(project_tiber(&facts).unwrap_err(), TiberFoldError::Task(TaskFoldError::TaskMissing { stem: s("t9") }));
}
