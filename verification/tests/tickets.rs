use tiber::tickets::{
    AddTicketDependency, BoardDependencyState, ClaimTicket, ClaimTicketState, CompleteTicket,
    CreateTicket, PrioritizeTicket, ReleaseTicket, RemoveTicketDependency, TicketCommandError,
    TicketEvent, TicketState,
};

fn s(x: &str) -> String {
    x.to_string()
}

fn open_ticket() -> TicketState {
    TicketState { exists: true, owner: None, completed: false }
}

fn board(tickets: &[&str], deps: &[(&str, &str)], completed: &[&str]) -> BoardDependencyState {
    BoardDependencyState {
        tickets: tickets.iter().map(|t| s(t)).collect(),
        dependencies: deps.iter().map(|(a, b)| (s(a), s(b))).collect(),
        completed: completed.iter().map(|t| s(t)).collect(),
    }
}

fn claim(ticket: &str, owner: &str) -> ClaimTicket {
    ClaimTicket { ticket_id: s(ticket), board_id: s("board-local"), owner: s(owner) }
}

#[test]
fn creating_a_ticket_twice_is_refused() {
    let cmd = CreateTicket { ticket_id: s("ticket-1"), title: s("Write docs") };
    let events = cmd.handle(false).expect("first creation");
    assert_eq!(events.len(), 1);
    assert!(matches!(&events[0], TicketEvent::TicketCreatedV1 { ticket_id, title }
        if ticket_id == "ticket-1" && title == "Write docs"));
    assert_eq!(cmd.handle(true).unwrap_err(), TicketCommandError::TicketAlreadyExists);
    assert!(cmd.apply(false, &events[0]));
}

#[test]
fn a_claim_needs_an_open_unclaimed_ticket_with_completed_dependencies() {
    let missing = ClaimTicketState { ticket: TicketState::default(), board: board(&[], &[], &[]) };
    assert_eq!(claim("t1", "ann").handle(missing).unwrap_err(), TicketCommandError::TicketDoesNotExist);

    let done = ClaimTicketState {
        ticket: TicketState { exists: true, owner: None, completed: true },
        board: board(&["t1"], &[], &[]),
    };
    assert_eq!(claim("t1", "ann").handle(done).unwrap_err(), TicketCommandError::TicketAlreadyCompleted);

    let held = ClaimTicketState {
        ticket: TicketState { exists: true, owner: Some(s("bob")), completed: false },
        board: board(&["t1"], &[], &[]),
    };
    assert_eq!(claim("t1", "ann").handle(held).unwrap_err(), TicketCommandError::TicketAlreadyClaimed);

    let blocked = ClaimTicketState { ticket: open_ticket(), board: board(&["t1", "t2"], &[("t1", "t2")], &[]) };
    assert_eq!(claim("t1", "ann").handle(blocked).unwrap_err(), TicketCommandError::UnresolvedDependencies);

    let resolved = ClaimTicketState { ticket: open_ticket(), board: board(&["t1", "t2"], &[("t1", "t2")], &["t2"]) };
    let events = claim("t1", "ann").handle(resolved).expect("claim");
    assert_eq!(events.len(), 2);
    assert!(matches!(&events[0], TicketEvent::TicketClaimedV1 { ticket_id, owner } if ticket_id == "t1" && owner == "ann"));
    assert!(matches!(&events[1], TicketEvent::BoardTicketClaimedV1 { board_id, ticket_id, owner }
        if board_id == "board-local" && ticket_id == "t1" && owner == "ann"));
}

#[test]
fn claim_state_folds_the_ticket_and_the_board() {
    let cmd = claim("t1", "ann");
    let mut state = ClaimTicketState::default();
    state = cmd.apply(state, &TicketEvent::TicketCreatedV1 { ticket_id: s("t1"), title: s("x") });
    state = cmd.apply(state, &TicketEvent::TicketClaimedV1 { ticket_id: s("t1"), owner: s("bob") });
    assert!(state.ticket.exists);
    assert_eq!(state.ticket.owner.as_deref(), Some("bob"));
    state = cmd.apply(state, &TicketEvent::TicketClaimReleasedV1 { ticket_id: s("t1"), owner: s("bob") });
    assert_eq!(state.ticket.owner, None);
    assert!(cmd.handle(state).is_ok());
}

#[test]
fn release_and_completion_belong_to_the_owner() {
    let held = || TicketState { exists: true, owner: Some(s("ann")), completed: false };
    let release = ReleaseTicket { ticket_id: s("t1"), board_id: s("b"), owner: s("bob") };
    assert_eq!(release.handle(held()).unwrap_err(), TicketCommandError::NotClaimedByOwner);
    let release = ReleaseTicket { ticket_id: s("t1"), board_id: s("b"), owner: s("ann") };
    let events = release.handle(held()).expect("release");
    assert!(matches!(&events[1], TicketEvent::BoardTicketClaimReleasedV1 { owner, .. } if owner == "ann"));

    let complete = CompleteTicket { ticket_id: s("t1"), board_id: s("b"), owner: s("ann") };
    assert_eq!(complete.handle(TicketState::default()).unwrap_err(), TicketCommandError::TicketDoesNotExist);
    assert_eq!(complete.handle(open_ticket()).unwrap_err(), TicketCommandError::NotClaimedByOwner);
    let events = complete.handle(held()).expect("complete");
    assert!(matches!(&events[0], TicketEvent::TicketCompletedV1 { ticket_id, .. } if ticket_id == "t1"));
    let finished = TicketState { exists: true, owner: None, completed: true };
    assert_eq!(complete.handle(finished).unwrap_err(), TicketCommandError::TicketAlreadyCompleted);
}

#[test]
fn priority_is_set_on_existing_tickets() {
    let cmd = PrioritizeTicket { ticket_id: s("t1"), board_id: s("b"), priority: 0 };
    assert_eq!(cmd.handle(TicketState::default()).unwrap_err(), TicketCommandError::TicketDoesNotExist);
    let events = cmd.handle(open_ticket()).expect("prioritize");
    assert!(matches!(&events[0], TicketEvent::BoardTicketPrioritySetV1 { priority: 0, .. }));
}

#[test]
fn dependencies_refuse_self_duplicates_and_cycles() {
    let add = |t: &str, d: &str| AddTicketDependency { ticket_id: s(t), dependency_id: s(d), board_id: s("b") };
    assert_eq!(add("t1", "t9").handle(board(&["t1"], &[], &[])).unwrap_err(), TicketCommandError::TicketDoesNotExist);
    assert_eq!(add("t1", "t1").handle(board(&["t1"], &[], &[])).unwrap_err(), TicketCommandError::SelfDependency);
    assert_eq!(
        add("t1", "t2").handle(board(&["t1", "t2"], &[("t1", "t2")], &[])).unwrap_err(),
        TicketCommandError::DependencyAlreadyExists
    );
    assert_eq!(
        add("t1", "t3").handle(board(&["t1", "t2", "t3"], &[("t3", "t2"), ("t2", "t1")], &[])).unwrap_err(),
        TicketCommandError::DependencyCycle
    );
    let events = add("t1", "t2").handle(board(&["t1", "t2"], &[], &[])).expect("add");
    assert!(matches!(&events[0], TicketEvent::BoardTicketDependencyAddedV1 { ticket_id, dependency_id, .. }
        if ticket_id == "t1" && dependency_id == "t2"));

    let remove = RemoveTicketDependency { ticket_id: s("t1"), dependency_id: s("t2"), board_id: s("b") };
    assert_eq!(remove.handle(board(&["t1", "t2"], &[], &[])).unwrap_err(), TicketCommandError::DependencyDoesNotExist);
    assert!(remove.handle(board(&["t1", "t2"], &[("t1", "t2")], &[])).is_ok());
}

#[test]
fn board_state_answers_dependency_questions() {
    let b = board(&["t1", "t2", "t3"], &[("t1", "t2"), ("t1", "t3"), ("t2", "t3")], &["t3"]);
    assert!(b.contains_ticket(&s("t2")));
    assert!(!b.contains_ticket(&s("t4")));
    assert!(b.has_dependency(&s("t1"), &s("t2")));
    assert!(!b.has_dependency(&s("t2"), &s("t1")));
    assert_eq!(b.unresolved_dependencies(&s("t1")), vec![s("t2")]);
    assert!(b.would_create_cycle(&s("t3"), &s("t1")));
    assert!(!b.would_create_cycle(&s("t3"), &s("t4")));
}

#[test]
fn error_texts_match_the_command_line_messages() {
    assert_eq!(TicketCommandError::TicketAlreadyClaimed.as_str(), "ticket already claimed");
    assert_eq!(TicketCommandError::DependencyCycle.as_str(), "dependency would create a cycle");
    assert_eq!(TicketCommandError::UnresolvedDependencies.as_str(), "ticket has unresolved dependencies");
}
