use tiber::task_commands::{
    decide_add_acceptance, decide_add_subtask, decide_remove_acceptance,
    decide_set_acceptance_checked, decide_set_subtask_checked, evolve_acceptance_state,
    evolve_subtask_state, legacy_task_streams, AcceptanceState, ChecklistCommandError,
    SubtaskState, BOARD_STREAM,
};
use tiber::task_projection::{ChecklistItem, Subtask, TaskFact, TaskRecord};

fn s(x: &str) -> String {
    x.to_string()
}

fn task(stem: &str) -> TaskRecord {
    TaskRecord {
        stem: s(stem),
        title: s("Task"),
        status: s("todo"),
        claim: None,
        tags: vec![],
        summary: String::new(),
        context: String::new(),
        pr_mr_url: None,
        pr_mr_status: None,
        blocks: vec![],
        blocked_by: vec![],
        subtasks: vec![],
        acceptance: vec![],
        notes: vec![],
        completion_snapshot: None,
        reviews: vec![],
        clean_reviews: vec![],
    }
}

fn item(text: &str, checked: bool) -> ChecklistItem {
    ChecklistItem { checked, text: s(text) }
}

fn subtask(id: &str, checked: bool) -> Subtask {
    Subtask { id: s(id), checked, title: s("step"), after: vec![] }
}

fn created(stream: &str, t: TaskRecord) -> TaskFact {
    TaskFact::TaskCreated { stream_id: s(stream), task: t }
}

#[test]
fn acceptance_state_follows_the_target_task_only() {
    let mut t = task("a");
    t.acceptance = vec![item("builds", false)];
    let target = s("a");
    let mut st = AcceptanceState::default();
    st = evolve_acceptance_state(st, &target, &created(BOARD_STREAM, t));
    st = evolve_acceptance_state(st, &target, &created(BOARD_STREAM, task("b")));
    st = evolve_acceptance_state(
        st,
        &target,
        &TaskFact::TaskAcceptanceAdded { stem: s("a"), item: item("tested", false) },
    );
    st = evolve_acceptance_state(
        st,
        &target,
        &TaskFact::TaskAcceptanceAdded { stem: s("b"), item: item("other", false) },
    );
    st = evolve_acceptance_state(
        st,
        &target,
        &TaskFact::TaskAcceptanceChecked { stem: s("a"), index: 0, checked: true },
    );
    st = evolve_acceptance_state(st, &target, &TaskFact::BoardReordered { order: vec![s("b"), s("a")] });
    assert_eq!(st.board_order, vec![s("b"), s("a")]);
    assert_eq!(st.board_task_stems, vec![s("a"), s("b")]);
    let items = st.target.as_ref().unwrap();
    assert_eq!(items.len(), 2);
    assert!(items[0].checked);
    assert_eq!(items[0].text, "builds");
    assert!(!items[1].checked);
    assert_eq!(items[1].text, "tested");

    st = evolve_acceptance_state(st, &target, &TaskFact::TaskAcceptanceRemoved { stem: s("a"), index: 0 });
    let items = st.target.as_ref().unwrap();
    assert_eq!(items.len(), 1);
    assert_eq!(items[0].text, "tested");

    st = evolve_acceptance_state(st, &target, &TaskFact::LegacyTaskRemoved { stem: s("a") });
    assert!(st.target.is_none());
    assert_eq!(st.board_task_stems, vec![s("b")]);
}

#[test]
fn tasks_created_outside_the_board_stream_are_not_members() {
    let target = s("a");
    let st = evolve_acceptance_state(
        AcceptanceState::default(),
        &target,
        &created("tiber:task:a", task("a")),
    );
    assert!(st.board_task_stems.is_empty());
    assert_eq!(st.target.as_ref().map(|v| v.len()), Some(0));
}

#[test]
fn acceptance_decisions_record_what_was_asked() {
    let missing = AcceptanceState::default();
    assert_eq!(
        decide_add_acceptance(&missing, &s("a"), &s("x")).unwrap_err(),
        ChecklistCommandError::AcceptanceTaskMissing
    );
    assert_eq!(
        decide_set_acceptance_checked(&missing, &s("a"), 0, true).unwrap_err(),
        ChecklistCommandError::AcceptanceMissing
    );
    assert_eq!(
        decide_remove_acceptance(&missing, &s("a"), 0).unwrap_err(),
        ChecklistCommandError::AcceptanceMissing
    );

    let st = AcceptanceState {
        board_order: vec![],
        board_task_stems: vec![],
        target: Some(vec![item("builds", true)]),
    };
    match decide_add_acceptance(&st, &s("a"), &s("documented")).unwrap() {
        TaskFact::TaskAcceptanceAdded { stem, item } => {
            assert_eq!(stem, "a");
            assert!(!item.checked);
            assert_eq!(item.text, "documented");
        }
        other => panic!("unexpected fact {other:?}"),
    }
    assert!(decide_set_acceptance_checked(&st, &s("a"), 0, true).unwrap().is_none());
    match decide_set_acceptance_checked(&st, &s("a"), 0, false).unwrap() {
        Some(TaskFact::TaskAcceptanceChecked { stem, index, checked }) => {
            assert_eq!(stem, "a");
            assert_eq!(index, 0);
            assert!(!checked);
        }
        other => panic!("unexpected decision {other:?}"),
    }
    assert_eq!(
        decide_set_acceptance_checked(&st, &s("a"), 1, true).unwrap_err(),
        ChecklistCommandError::AcceptanceMissing
    );
    match decide_remove_acceptance(&st, &s("a"), 0).unwrap() {
        TaskFact::TaskAcceptanceRemoved { stem, index } => {
            assert_eq!(stem, "a");
            assert_eq!(index, 0);
        }
        other => panic!("unexpected fact {other:?}"),
    }
    assert_eq!(
        decide_remove_acceptance(&st, &s("a"), 3).unwrap_err(),
        ChecklistCommandError::AcceptanceMissing
    );
}

#[test]
fn new_subtask_takes_the_number_after_the_largest() {
    let st = SubtaskState {
        board_order: vec![],
        board_task_stems: vec![],
        target: Some(vec![subtask("s1", false), subtask("s3", true), subtask("x", false)]),
    };
    match decide_add_subtask(&st, &s("a"), &s("write docs"), &vec![s("s1")]).unwrap() {
        TaskFact::TaskSubtaskAdded { stem, subtask } => {
            assert_eq!(stem, "a");
            assert_eq!(subtask.id, "s4");
            assert!(!subtask.checked);
            assert_eq!(subtask.title, "write docs");
            assert_eq!(subtask.after, vec![s("s1")]);
        }
        other => panic!("unexpected fact {other:?}"),
    }
    let empty = SubtaskState { board_order: vec![], board_task_stems: vec![], target: Some(vec![]) };
    match decide_add_subtask(&empty, &s("a"), &s("first"), &vec![]).unwrap() {
        TaskFact::TaskSubtaskAdded { subtask, .. } => assert_eq!(subtask.id, "s1"),
        other => panic!("unexpected fact {other:?}"),
    }
    assert_eq!(
        decide_add_subtask(&SubtaskState::default(), &s("a"), &s("t"), &vec![]).unwrap_err(),
        ChecklistCommandError::SubtaskTaskMissing
    );
}

#[test]
fn subtask_check_decisions() {
    let st = SubtaskState {
        board_order: vec![],
        board_task_stems: vec![],
        target: Some(vec![subtask("s1", false), subtask("s2", true)]),
    };
    assert!(decide_set_subtask_checked(&st, &s("a"), &s("s2"), true).unwrap().is_none());
    match decide_set_subtask_checked(&st, &s("a"), &s("s1"), true).unwrap() {
        Some(TaskFact::TaskSubtaskChecked { stem, subtask_id, checked }) => {
            assert_eq!(stem, "a");
            assert_eq!(subtask_id, "s1");
            assert!(checked);
        }
        other => panic!("unexpected decision {other:?}"),
    }
    assert_eq!(
        decide_set_subtask_checked(&st, &s("a"), &s("s9"), true).unwrap_err(),
        ChecklistCommandError::SubtaskMissing
    );
    assert_eq!(
        decide_set_subtask_checked(&SubtaskState::default(), &s("a"), &s("s1"), true).unwrap_err(),
        ChecklistCommandError::SubtaskMissing
    );
}

#[test]
fn subtask_state_replays_added_and_checked_subtasks() {
    let target = s("a");
    let mut st = SubtaskState::default();
    let mut t = task("a");
    t.subtasks = vec![subtask("s1", false)];
    st = evolve_subtask_state(st, &target, &created(BOARD_STREAM, t));
    let add = decide_add_subtask(&st, &target, &s("second"), &vec![]).unwrap();
    st = evolve_subtask_state(st, &target, &add);
    let check = decide_set_subtask_checked(&st, &target, &s("s2"), true).unwrap().unwrap();
    st = evolve_subtask_state(st, &target, &check);
    let items = st.target.as_ref().unwrap();
    assert_eq!(items.len(), 2);
    assert_eq!(items[1].id, "s2");
    assert!(items[1].checked);
    assert!(!items[0].checked);
    assert!(decide_set_subtask_checked(&st, &target, &s("s2"), true).unwrap().is_none());
    st = evolve_subtask_state(st, &target, &TaskFact::TaskPriorityChanged { order: vec![s("a")] });
    assert_eq!(st.board_order, vec![s("a")]);
    assert_eq!(st.board_task_stems, vec![s("a")]);
}

#[test]
fn acceptance_state_replays_its_own_decisions() {
    let target = s("a");
    let mut st = evolve_acceptance_state(AcceptanceState::default(), &target, &created(BOARD_STREAM, task("a")));
    let add = decide_add_acceptance(&st, &target, &s("ships")).unwrap();
    st = evolve_acceptance_state(st, &target, &add);
    let check = decide_set_acceptance_checked(&st, &target, 0, true).unwrap().unwrap();
    st = evolve_acceptance_state(st, &target, &check);
    assert!(st.target.as_ref().unwrap()[0].checked);
    assert!(decide_set_acceptance_checked(&st, &target, 0, true).unwrap().is_none());
    let remove = decide_remove_acceptance(&st, &target, 0).unwrap();
    st = evolve_acceptance_state(st, &target, &remove);
    assert!(st.target.as_ref().unwrap().is_empty());
}

#[test]
fn legacy_streams_are_the_order_entries_the_board_never_created() {
    let order = vec![s("a"), s("legacy"), s("b"), s("bad*stem")];
    let members = vec![s("a"), s("b")];
    let streams = legacy_task_streams(&order, &members);
    assert_eq!(streams, vec![s("tiber:task:legacy")]);
    assert!(legacy_task_streams(&vec![], &members).is_empty());
}

#[test]
fn checklist_error_codes() {
    assert_eq!(ChecklistCommandError::AcceptanceTaskMissing.as_str(), "tiber_acceptance_task_missing");
    assert_eq!(ChecklistCommandError::AcceptanceMissing.as_str(), "tiber_acceptance_missing");
    assert_eq!(ChecklistCommandError::SubtaskTaskMissing.as_str(), "tiber_subtask_task_missing");
    assert_eq!(ChecklistCommandError::SubtaskMissing.as_str(), "tiber_subtask_missing");
}

#[test]
fn task_collection_states_fold_only_the_command_target() {
    let mut target = task("task-a");
    target.title = s("Target");
    target.subtasks.push(Subtask { id: s("s1"), checked: false, title: s("target subtask"), after: vec![] });
    target.acceptance.push(ChecklistItem { checked: false, text: s("target criterion") });
    let mut unrelated = task("task-b");
    unrelated.title = s("Unrelated");
    unrelated.subtasks.push(Subtask { id: s("s9"), checked: false, title: s("unrelated subtask"), after: vec![] });
    unrelated.acceptance.push(ChecklistItem { checked: false, text: s("unrelated criterion") });
    let target_created = created(BOARD_STREAM, target);
    let unrelated_created = created(BOARD_STREAM, unrelated);

    let stem = s("task-a");
    let subtask_state = evolve_subtask_state(
        evolve_subtask_state(SubtaskState::default(), &stem, &target_created),
        &stem,
        &unrelated_created,
    );
    let acceptance_state = evolve_acceptance_state(
        evolve_acceptance_state(AcceptanceState::default(), &stem, &target_created),
        &stem,
        &unrelated_created,
    );

    assert_eq!(
        subtask_state.target.expect("target subtasks").iter().map(|item| item.id.clone()).collect::<Vec<_>>(),
        vec![s("s1")]
    );
    assert_eq!(
        acceptance_state.target.expect("target acceptance").iter().map(|item| item.text.clone()).collect::<Vec<_>>(),
        vec![s("target criterion")]
    );
}
