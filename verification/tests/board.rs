use tiber::board::{board_projection_path, join_path, next_available_row, BoardProjection};
use tiber::cli::{dependency_argument, flag_value, priority_argument, stream_id, ticket_argument};
use tiber::tickets::TicketEvent;

fn s(x: &str) -> String {
    x.to_string()
}

fn created(id: &str, title: &str) -> TicketEvent {
    TicketEvent::TicketCreatedV1 { ticket_id: s(id), title: s(title) }
}

#[test]
fn rows_follow_priority_then_creation() {
    let mut board = BoardProjection::new();
    board.apply(&created("ticket-b", "second"));
    board.apply(&created("ticket-a", "first"));
    board.apply(&created("ticket-c", "third"));
    board.apply(&TicketEvent::BoardTicketPrioritySetV1 { board_id: s("board-local"), ticket_id: s("ticket-c"), priority: 0 });
    let rows = board.rows();
    let ids: Vec<&str> = rows.iter().map(|r| r.ticket_id.as_str()).collect();
    assert_eq!(ids, vec!["ticket-c", "ticket-b", "ticket-a"]);
    assert_eq!(rows[0].priority, 0);
    assert_eq!(rows[1].priority, 2);
    assert_eq!(rows[1].creation_position, 0);
    assert_eq!(rows[2].title, "first");
}

#[test]
fn blocked_claimed_and_completed_tickets_are_not_next() {
    let mut board = BoardProjection::new();
    board.apply(&created("t1", "one"));
    board.apply(&created("t2", "two"));
    board.apply(&created("t3", "three"));
    board.apply(&TicketEvent::BoardTicketDependencyAddedV1 { board_id: s("b"), ticket_id: s("t1"), dependency_id: s("t3") });
    board.apply(&TicketEvent::TicketClaimedV1 { ticket_id: s("t2"), owner: s("ann") });
    let rows = board.rows();
    assert_eq!(rows[0].blocked_by, vec![s("t3")]);
    assert_eq!(rows[1].state.owner.as_deref(), Some("ann"));
    assert_eq!(next_available_row(&rows), Some(2));

    board.apply(&TicketEvent::TicketClaimedV1 { ticket_id: s("t3"), owner: s("bob") });
    board.apply(&TicketEvent::TicketCompletedV1 { ticket_id: s("t3"), owner: s("bob") });
    let rows = board.rows();
    assert!(rows[2].state.completed);
    assert!(rows[0].blocked_by.is_empty());
    assert_eq!(next_available_row(&rows), Some(0));

    board.apply(&TicketEvent::TicketClaimedV1 { ticket_id: s("t1"), owner: s("cy") });
    assert_eq!(next_available_row(&board.rows()), None);
}

#[test]
fn releases_only_count_for_the_owner() {
    let mut board = BoardProjection::new();
    board.apply(&created("t1", "one"));
    board.apply(&TicketEvent::TicketClaimedV1 { ticket_id: s("t1"), owner: s("ann") });
    board.apply(&TicketEvent::TicketClaimReleasedV1 { ticket_id: s("t1"), owner: s("bob") });
    assert_eq!(board.rows()[0].state.owner.as_deref(), Some("ann"));
    board.apply(&TicketEvent::TicketClaimReleasedV1 { ticket_id: s("t1"), owner: s("ann") });
    assert_eq!(board.rows()[0].state.owner, None);
}

#[test]
fn a_saved_board_restores_to_the_same_rows() {
    let mut board = BoardProjection::new();
    board.apply(&created("t1", "one"));
    board.apply(&created("t2", "two"));
    board.apply(&TicketEvent::BoardTicketDependencyAddedV1 { board_id: s("b"), ticket_id: s("t2"), dependency_id: s("t1") });
    let (tickets, priorities, deps, completed, next) = board.parts();
    let restored = BoardProjection::restore(tickets.clone(), priorities.clone(), deps.clone(), completed.clone(), next);
    let a: Vec<String> = board.rows().iter().map(|r| r.ticket_id.clone()).collect();
    let b: Vec<String> = restored.rows().iter().map(|r| r.ticket_id.clone()).collect();
    assert_eq!(a, b);
    assert_eq!(restored.rows()[1].blocked_by, vec![s("t1")]);
}

#[test]
fn projection_file_lives_under_checkpoints() {
    assert_eq!(join_path("", "x"), "x");
    assert_eq!(join_path("a/", "x"), "a/x");
    assert_eq!(
        board_projection_path(".development-system/tiber/store"),
        ".development-system/tiber/store/checkpoints/board-projection-v1.json"
    );
}

#[test]
fn stream_names_are_trimmed_and_free_of_glob_characters() {
    assert_eq!(stream_id("  ticket-1 ").as_deref(), Some("ticket-1"));
    assert_eq!(stream_id("   "), None);
    assert_eq!(stream_id("a*b"), None);
    assert_eq!(stream_id(&"x".repeat(256)), None);
    assert_eq!(stream_id(&"x".repeat(255)).map(|v| v.len()), Some(255));
}

#[test]
fn command_line_flags_are_read_in_order() {
    let args: Vec<String> = ["t1", "--owner", "ann", "--priority", "9", "--priority", "1"].iter().map(|a| s(a)).collect();
    assert_eq!(flag_value(&args, "--owner").as_deref(), Some("ann"));
    assert_eq!(flag_value(&args, "--missing"), None);
    assert_eq!(priority_argument(&args), None);
    let args: Vec<String> = ["t1", "--priority", "x", "--priority", "3"].iter().map(|a| s(a)).collect();
    assert_eq!(priority_argument(&args), Some(3));
    assert_eq!(ticket_argument(&args).as_deref(), Some("t1"));
    assert_eq!(ticket_argument(&[]), None);
    let dep: Vec<String> = ["t1", "--on", " t2 "].iter().map(|a| s(a)).collect();
    assert_eq!(dependency_argument(&dep).as_deref(), Some("t2"));
    assert_eq!(dependency_argument(&dep[..2]), None);
}

#[test]
fn rows_hold_each_ticket_once() {
    let mut board = BoardProjection::new();
    assert!(board.rows().is_empty());
    for id in ["t3", "t1", "t2"] {
        board.apply(&created(id, "title"));
    }
    board.apply(&created("t1", "again"));
    board.apply(&TicketEvent::BoardTicketPrioritySetV1 { board_id: s("b"), ticket_id: s("t2"), priority: 4 });
    let rows = board.rows();
    let mut ids: Vec<&str> = rows.iter().map(|r| r.ticket_id.as_str()).collect();
    assert_eq!(rows.len(), 3);
    ids.sort();
    ids.dedup();
    assert_eq!(ids, vec!["t1", "t2", "t3"]);
}
