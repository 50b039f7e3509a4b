use tiber::final_review::{FinalReviewOutcome, FinalReviewRecord};
use tiber::task_commands::BOARD_STREAM;
use tiber::task_details::{
    decide_add_task_note, decide_record_final_review, decide_update_task, evolve_task_stems_state,
    evolve_update_task_state, TaskStemsState, UpdateIntent, UpdateTaskState,
};
use tiber::task_lifecycle::BoardCommandError;
use tiber::task_links::{decide_link_tasks, decide_unlink_tasks, evolve_task_links, TaskLinkState};
use tiber::task_projection::{apply_task_fact, LinkChange, Note, TaskFact, TaskProjection, TaskRecord, TaskRefError};

fn s(x: &str) -> String {
    x.to_string()
}

fn task(stem: &str) -> TaskRecord {
    TaskRecord {
        stem: s(stem),
        title: s("Task"),
        status: s("backlog"),
        claim: None,
        tags: vec![s("a")],
        summary: s("sum"),
        context: s("ctx"),
        pr_mr_url: None,
        pr_mr_status: None,
        blocks: vec![],
        blocked_by: vec![],
        subtasks: vec![],
        acceptance: vec![],
        notes: vec![],
        completion_snapshot: None,
        reviews: vec![],
        clean_reviews: vec![],
    }
}

fn created(t: TaskRecord) -> TaskFact {
    TaskFact::TaskCreated { stream_id: s(BOARD_STREAM), task: t }
}

fn link_state(facts: Vec<TaskFact>, from: &str, to: &str) -> TaskLinkState {
    let mut st = TaskLinkState::default();
    for f in &facts {
        st = evolve_task_links(st, &s(from), &s(to), f);
    }
    st
}

fn links_of(f: &TaskFact) -> (String, Vec<String>, Vec<String>) {
    match f {
        TaskFact::TaskLinksChanged { change } => (change.stem.clone(), change.blocks.clone(), change.blocked_by.clone()),
        other => panic!("unexpected fact {other:?}"),
    }
}

#[test]
fn linking_records_both_sides_once() {
    let st = link_state(vec![created(task("a")), created(task("b"))], "a", "b");
    let facts = decide_link_tasks(&st, &s("a"), &s("b")).unwrap();
    assert_eq!(facts.len(), 2);
    assert_eq!(links_of(&facts[0]), (s("a"), vec![s("b")], vec![]));
    assert_eq!(links_of(&facts[1]), (s("b"), vec![], vec![s("a")]));
    let mut st = st;
    for f in &facts {
        st = evolve_task_links(st, &s("a"), &s("b"), f);
    }
    assert!(decide_link_tasks(&st, &s("a"), &s("b")).unwrap().is_empty());
    let facts = decide_unlink_tasks(&st, &s("a"), &s("b")).unwrap();
    assert_eq!(facts.len(), 2);
    assert_eq!(links_of(&facts[0]), (s("a"), vec![], vec![]));
    assert_eq!(links_of(&facts[1]), (s("b"), vec![], vec![]));
}

#[test]
fn linking_a_task_to_itself_is_one_fact() {
    let st = link_state(vec![created(task("a"))], "a", "a");
    let facts = decide_link_tasks(&st, &s("a"), &s("a")).unwrap();
    assert_eq!(facts.len(), 1);
    assert_eq!(links_of(&facts[0]), (s("a"), vec![s("a")], vec![s("a")]));
}

#[test]
fn linking_repairs_only_the_side_that_lacks_it() {
    let st = link_state(
        vec![
            created(task("a")),
            created(task("b")),
            TaskFact::TaskLinksChanged { change: LinkChange { stem: s("a"), blocks: vec![s("b")], blocked_by: vec![] } },
        ],
        "a",
        "b",
    );
    let facts = decide_link_tasks(&st, &s("a"), &s("b")).unwrap();
    assert_eq!(facts.len(), 1);
    assert_eq!(links_of(&facts[0]), (s("b"), vec![], vec![s("a")]));
    assert!(decide_unlink_tasks(&link_state(vec![created(task("a")), created(task("b"))], "a", "b"), &s("a"), &s("b"))
        .unwrap()
        .is_empty());
}

#[test]
fn linking_unknown_tasks_is_refused() {
    let st = link_state(vec![created(task("a"))], "a", "b");
    assert_eq!(decide_link_tasks(&st, &s("a"), &s("b")).unwrap_err(), BoardCommandError::LinkTargetMissing);
    let st = link_state(vec![created(task("b"))], "a", "b");
    assert_eq!(decide_unlink_tasks(&st, &s("a"), &s("b")).unwrap_err(), BoardCommandError::LinkSourceMissing);
    assert_eq!(BoardCommandError::LinkSourceMissing.code(), "tiber_link_source_missing");
    let st = link_state(vec![created(task("a")), created(task("b")), TaskFact::LegacyTaskRemoved { stem: s("b") }], "a", "b");
    assert_eq!(decide_link_tasks(&st, &s("a"), &s("b")).unwrap_err(), BoardCommandError::LinkTargetMissing);
}

fn no_change() -> UpdateIntent {
    UpdateIntent { title: None, tags: None, summary: None, context: None, pr_mr_url: None, pr_mr_status: None }
}

#[test]
fn updates_record_only_what_changes() {
    let target = s("a");
    let mut st = UpdateTaskState::default();
    st = evolve_update_task_state(st, &target, &created(task("a")));
    st = evolve_update_task_state(st, &target, &created(task("b")));
    assert!(decide_update_task(&st, &target, &no_change()).unwrap().is_empty());
    let mut intent = no_change();
    intent.title = Some(s("Task"));
    assert!(decide_update_task(&st, &target, &intent).unwrap().is_empty());
    intent.title = Some(s("New title"));
    let facts = decide_update_task(&st, &target, &intent).unwrap();
    assert_eq!(facts.len(), 1);
    match &facts[0] {
        TaskFact::TaskDetailsUpdated { stem, title, tags, summary, context } => {
            assert_eq!(stem, "a");
            assert_eq!(title, "New title");
            assert_eq!(tags, &vec![s("a")]);
            assert_eq!(summary, "sum");
            assert_eq!(context, "ctx");
        }
        other => panic!("unexpected fact {other:?}"),
    }
    let mut pr = no_change();
    pr.pr_mr_url = Some(Some(s("https://example.invalid/pr/1")));
    let facts = decide_update_task(&st, &target, &pr).unwrap();
    assert_eq!(facts.len(), 1);
    match &facts[0] {
        TaskFact::TaskPullRequestChanged { stem, url, status } => {
            assert_eq!(stem, "a");
            assert_eq!(url.as_deref(), Some("https://example.invalid/pr/1"));
            assert!(status.is_none());
        }
        other => panic!("unexpected fact {other:?}"),
    }
    st = evolve_update_task_state(st, &target, &facts[0]);
    assert!(decide_update_task(&st, &target, &pr).unwrap().is_empty());
    let mut clear = no_change();
    clear.pr_mr_url = Some(None);
    clear.summary = Some(s("new"));
    assert_eq!(decide_update_task(&st, &target, &clear).unwrap().len(), 2);
    assert_eq!(
        decide_update_task(&UpdateTaskState::default(), &target, &no_change()).unwrap_err(),
        BoardCommandError::UpdateTaskMissing
    );
}

fn review() -> FinalReviewRecord {
    FinalReviewRecord {
        review_id: s("r1"),
        reviewer_identity: s("p1"),
        reviewer_type: s("independent-final-review"),
        requested_scope: vec![],
        scope: vec![],
        commit_range: s("a..b"),
        outcome: FinalReviewOutcome::Clean,
        evidence: s("e"),
        timestamp: s("t"),
        source_fingerprint: s("f"),
        requested_verification_scope: vec![],
        verification_scope: vec![],
        verification_fingerprint: String::new(),
    }
}

#[test]
fn notes_and_reviews_need_an_existing_task() {
    let mut st = TaskStemsState::default();
    st = evolve_task_stems_state(st, &TaskFact::TaskCreated { stream_id: s("tiber:task:a"), task: task("a") });
    assert!(st.board_task_stems.is_empty());
    let note = Note { date: s("2025-01-01"), text: s("hello") };
    match decide_add_task_note(&st, &s("a"), &note).unwrap() {
        TaskFact::TaskNoteAdded { stem, note } => {
            assert_eq!(stem, "a");
            assert_eq!(note.text, "hello");
        }
        other => panic!("unexpected fact {other:?}"),
    }
    assert_eq!(decide_add_task_note(&st, &s("b"), &note).unwrap_err(), BoardCommandError::NoteTaskMissing);
    match decide_record_final_review(&st, &s("a"), &review()).unwrap() {
        TaskFact::TaskFinalReviewRecorded { stem, review } => {
            assert_eq!(stem, "a");
            assert_eq!(review.review_id, "r1");
        }
        other => panic!("unexpected fact {other:?}"),
    }
    st = evolve_task_stems_state(st, &TaskFact::LegacyTaskRemoved { stem: s("a") });
    assert_eq!(
        decide_record_final_review(&st, &s("a"), &review()).unwrap_err(),
        BoardCommandError::FinalReviewTaskMissing
    );
}

fn projection(stems: &[&str]) -> TaskProjection {
    let mut p = TaskProjection::new();
    for stem in stems {
        p = apply_task_fact(p, &created(task(stem))).expect("fold");
    }
    p
}

#[test]
fn task_references_resolve_by_stem_identifier_or_nickname() {
    let p = projection(&["20250102-efgh-write-docs", "20250101-abcd-write-docs", "20250103-ijkl-ship"]);
    assert_eq!(p.resolve_task_stem("20250101-abcd").unwrap(), "20250101-abcd-write-docs");
    assert_eq!(p.resolve_task_stem("ship").unwrap(), "20250103-ijkl-ship");
    assert_eq!(p.resolve_task_stem("20250103-ijkl-ship").unwrap(), "20250103-ijkl-ship");
    assert_eq!(
        p.resolve_task_stem("write-docs").unwrap_err(),
        TaskRefError::Ambiguous { matches: vec![s("20250101-abcd-write-docs"), s("20250102-efgh-write-docs")] }
    );
    assert_eq!(p.resolve_task_stem("nope").unwrap_err(), TaskRefError::Missing);
    assert_eq!(p.resolve_task_stem("dir/ship").unwrap_err(), TaskRefError::Invalid);
    assert_eq!(p.resolve_task_stem("ship.md").unwrap_err(), TaskRefError::Invalid);
    assert_eq!(p.resolve_task_stem("   ").unwrap_err(), TaskRefError::Invalid);
    assert_eq!(p.resolve_task_stem("docs").unwrap_err(), TaskRefError::Missing);
}

#[test]
fn next_task_is_the_first_unblocked_task_on_the_order() {
    let mut p = TaskProjection::new();
    let mut blocked = task("b");
    blocked.blocked_by = vec![s("a")];
    let mut c = task("c");
    c.title = s("Third");
    for f in [
        created(task("a")),
        created(blocked),
        created(c),
        TaskFact::BoardReordered { order: vec![s("ghost"), s("b"), s("c"), s("a")] },
    ] {
        p = apply_task_fact(p, &f).expect("fold");
    }
    let next = p.next_task().expect("a ready task");
    assert_eq!(next.path, "c");
    assert_eq!(next.title, "Third");
    let entries: Vec<String> = p.board_entries().iter().map(|t| t.path.clone()).collect();
    assert_eq!(entries, vec![s("b"), s("c"), s("a")]);
    p = apply_task_fact(
        p,
        &TaskFact::TaskTransitioned { stem: s("a"), status: s("done"), claim: None, completion_snapshot: None },
    )
    .expect("fold");
    assert_eq!(p.next_task().map(|t| t.path), Some(s("b")));
    let backlog: Vec<String> = p.tasks_with_status("backlog").iter().map(|t| t.path.clone()).collect();
    assert_eq!(backlog, vec![s("b"), s("c")]);
    let done: Vec<String> = p.tasks_with_status("done").iter().map(|t| t.path.clone()).collect();
    assert_eq!(done, vec![s("a")]);
    assert!(TaskProjection::new().next_task().is_none());
}

#[test]
fn search_matches_title_summary_or_context_ignoring_case() {
    let mut p = TaskProjection::new();
    let mut a = task("b-task");
    a.title = s("Write DOCS");
    let mut b = task("a-task");
    b.summary = s("the docs are stale");
    b.status = s("in-progress");
    let mut c = task("c-task");
    c.context = s("Docs");
    let d = task("d-task");
    for t in [a, b, c, d] {
        p = apply_task_fact(p, &created(t)).expect("fold");
    }
    let found: Vec<(String, String)> = p.search_tasks("docs").iter().map(|r| (r.status.clone(), r.id.clone())).collect();
    assert_eq!(
        found,
        vec![(s("backlog"), s("b-task")), (s("backlog"), s("c-task")), (s("in-progress"), s("a-task"))]
    );
    let first = &p.search_tasks("DOCS")[0];
    assert_eq!(first.title, "Write DOCS");
    assert_eq!(first.summary, "sum");
    assert!(p.search_tasks("nothing here").is_empty());
}
