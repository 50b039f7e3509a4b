//! The ticket board read model: a replayed projection of all ticket facts,
//! listed in priority order.
use vstd::prelude::*;
use crate::graph::{contains_name, edge_set, names, Node};
use crate::text::{chars_of, string_from_chars};
use crate::order::{lemma_lt_total, lemma_lt_transitive, seq_lt, string_lt};
use crate::table::{
    keys_distinct, lemma_table_empty, lemma_table_index, lemma_table_push, lemma_table_update,
    table_find, table_view,
};
use crate::tickets::{insert_edge, insert_name, remove_edge, same_opt, opt_view, TicketEvent, TicketFact, TicketState, TicketStateView};

verus! {

/// Format revision of the saved board projection.
pub const BOARD_PROJECTION_REVISION: u8 = 1;

/// File name of the saved board projection.
pub const BOARD_PROJECTION_FILE: &'static str = "board-projection-v1.json";

/// How many facts one replay page reads.
pub const BOARD_PROJECTION_BATCH_SIZE: usize = 100;

/// `Path::join` of a relative component without separators: it is the whole
/// path when the base is empty, and is otherwise appended after a single
/// separator.
pub open spec fn path_join(base: Seq<char>, part: Seq<char>) -> Seq<char> {
    if base.len() == 0 {
        part
    } else if base.last() == '/' {
        base + part
    } else {
        base + seq!['/'] + part
    }
}

pub fn join_path(base: &str, part: &str) -> (r: String)
    ensures
        r@ == path_join(base@, part@),
{
    let mut v = chars_of(base);
    let p = chars_of(part);
    if v.len() > 0 && v[v.len() - 1] != '/' {
        v.push('/');
    }
    let ghost prefix = v@;
    let mut i: usize = 0;
    while i < p.len()
        invariant
            i <= p@.len(),
            v@ == prefix + p@.subrange(0, i as int),
        decreases p.len() - i,
    {
        v.push(p[i]);
        i = i + 1;
    }
    assert(p@.subrange(0, p@.len() as int) =~= p@);
    proof {
        if base@.len() > 0 && base@.last() != '/' {
            assert(prefix =~= base@ + seq!['/']);
            assert(v@ =~= base@ + seq!['/'] + part@);
        } else {
            assert(v@ =~= base@ + part@);
        }
    }
    string_from_chars(v.as_slice())
}

/// Where the board projection is saved below the store root.
pub fn board_projection_path(store_root: &str) -> (r: String)
    ensures
        r@ == path_join(path_join(store_root@, "checkpoints"@), BOARD_PROJECTION_FILE@),
{
    let checkpoints = join_path(store_root, "checkpoints");
    join_path(checkpoints.as_str(), BOARD_PROJECTION_FILE)
}

/// Priority of a ticket that was never prioritized.
pub const DEFAULT_PRIORITY: u8 = 2;

/// What the board remembers of one ticket.
#[derive(Debug, Clone)]
pub struct ProjectedTicket {
    pub title: String,
    pub owner: Option<String>,
    pub completed: bool,
    pub creation_position: u64,
}

pub struct ProjectedTicketView {
    pub title: Seq<char>,
    pub owner: Option<Seq<char>>,
    pub completed: bool,
    pub creation_position: u64,
}

impl View for ProjectedTicket {
    type V = ProjectedTicketView;

    open spec fn view(&self) -> ProjectedTicketView {
        ProjectedTicketView {
            title: self.title@,
            owner: opt_view(self.owner),
            completed: self.completed,
            creation_position: self.creation_position,
        }
    }
}

/// The board as maps and sets.
pub struct BoardView {
    pub tickets: Map<Node, ProjectedTicketView>,
    pub priorities: Map<Node, u8>,
    pub dependencies: Set<(Node, Node)>,
    pub completed: Set<Node>,
    pub next_creation_position: u64,
}

/// The replayed board.
#[derive(Debug)]
pub struct BoardProjection {
    tickets: Vec<(String, ProjectedTicket)>,
    priorities: Vec<(String, u8)>,
    dependencies: Vec<(String, String)>,
    completed: Vec<String>,
    next_creation_position: u64,
}

impl View for BoardProjection {
    type V = BoardView;

    closed spec fn view(&self) -> BoardView {
        BoardView {
            tickets: table_view(self.tickets@),
            priorities: table_view(self.priorities@),
            dependencies: edge_set(self.dependencies@),
            completed: names(self.completed@),
            next_creation_position: self.next_creation_position,
        }
    }
}

/// The fold of one fact into the board.
pub open spec fn board_step(b: BoardView, f: TicketFact) -> BoardView {
    match f {
        TicketFact::Created { ticket, title } => if b.tickets.contains_key(ticket) {
            b
        } else {
            BoardView {
                tickets: b.tickets.insert(
                    ticket,
                    ProjectedTicketView {
                        title,
                        owner: None,
                        completed: false,
                        creation_position: b.next_creation_position,
                    },
                ),
                next_creation_position: (b.next_creation_position + 1) as u64,
                ..b
            }
        },
        TicketFact::Claimed { ticket, owner } => if b.tickets.contains_key(ticket) && !b.tickets[ticket].completed {
            BoardView {
                tickets: b.tickets.insert(ticket, ProjectedTicketView { owner: Some(owner), ..b.tickets[ticket] }),
                ..b
            }
        } else {
            b
        },
        TicketFact::ClaimReleased { ticket, owner } => if b.tickets.contains_key(ticket) && b.tickets[ticket].owner
            == Some(owner) {
            BoardView {
                tickets: b.tickets.insert(ticket, ProjectedTicketView { owner: None, ..b.tickets[ticket] }),
                ..b
            }
        } else {
            b
        },
        TicketFact::Completed { ticket, owner } => if b.tickets.contains_key(ticket) && b.tickets[ticket].owner
            == Some(owner) {
            BoardView {
                tickets: b.tickets.insert(
                    ticket,
                    ProjectedTicketView { owner: None, completed: true, ..b.tickets[ticket] },
                ),
                completed: b.completed.insert(ticket),
                ..b
            }
        } else {
            b
        },
        TicketFact::BoardPrioritySet { ticket, priority, .. } => BoardView {
            priorities: b.priorities.insert(ticket, priority),
            ..b
        },
        TicketFact::BoardDependencyAdded { ticket, dependency, .. } => BoardView {
            dependencies: b.dependencies.insert((ticket, dependency)),
            ..b
        },
        TicketFact::BoardDependencyRemoved { ticket, dependency, .. } => BoardView {
            dependencies: b.dependencies.remove((ticket, dependency)),
            ..b
        },
        TicketFact::BoardCompleted { ticket, .. } => BoardView { completed: b.completed.insert(ticket), ..b },
        _ => b,
    }
}

/// Whether one more ticket can be numbered.
pub open spec fn can_number(b: BoardView) -> bool {
    b.next_creation_position < u64::MAX
}


impl BoardProjection {
    /// The board's representation is sound: each ticket and each priority
    /// is recorded once.
    pub closed spec fn wf(&self) -> bool {
        keys_distinct(self.tickets@) && keys_distinct(self.priorities@)
    }

    /// The empty board.
    pub fn new() -> (b: Self)
        ensures
            b.wf(),
            b@.tickets == Map::<Node, ProjectedTicketView>::empty(),
            b@.priorities == Map::<Node, u8>::empty(),
            b@.dependencies == Set::<(Node, Node)>::empty(),
            b@.completed == Set::<Node>::empty(),
            b@.next_creation_position == 0,
    {
        let b = BoardProjection {
            tickets: Vec::new(),
            priorities: Vec::new(),
            dependencies: Vec::new(),
            completed: Vec::new(),
            next_creation_position: 0,
        };
        proof {
            lemma_table_empty(b.tickets@);
            lemma_table_empty(b.priorities@);
            assert(edge_set(b.dependencies@) =~= Set::<(Node, Node)>::empty());
            assert(names(b.completed@) =~= Set::<Node>::empty());
        }
        b
    }

    fn set_ticket(&mut self, i: usize, ticket: ProjectedTicket)
        requires
            old(self).wf(),
            i < old(self).tickets@.len(),
        ensures
            final(self).wf(),
            final(self)@ == (BoardView {
                tickets: old(self)@.tickets.insert(old(self).tickets@[i as int].0@, ticket@),
                ..old(self)@
            }),
    {
        let key = self.tickets[i].0.clone();
        proof {
            lemma_table_update(self.tickets@, i as int, ticket);
        }
        self.tickets.set(i, (key, ticket));
    }

    /// Folds one fact into the board.
    pub fn apply(&mut self, event: &TicketEvent)
        requires
            old(self).wf(),
            can_number(old(self)@),
        ensures
            final(self).wf(),
            final(self)@ == board_step(old(self)@, event@),
    {
        match event {
            TicketEvent::TicketCreatedV1 { ticket_id, title } => {
                match table_find(&self.tickets, ticket_id) {
                    Some(i) => {
                        proof {
                            lemma_table_index(self.tickets@, i as int);
                        }
                    },
                    None => {
                        let ticket = ProjectedTicket {
                            title: title.clone(),
                            owner: None,
                            completed: false,
                            creation_position: self.next_creation_position,
                        };
                        let key = ticket_id.clone();
                        proof {
                            lemma_table_push(self.tickets@, key, ticket);
                        }
                        self.tickets.push((key, ticket));
                        self.next_creation_position = self.next_creation_position + 1;
                    },
                }
            },
            TicketEvent::TicketClaimedV1 { ticket_id, owner } => {
                if let Some(i) = table_find(&self.tickets, ticket_id) {
                    proof {
                        lemma_table_index(self.tickets@, i as int);
                    }
                    if !self.tickets[i].1.completed {
                        let current = &self.tickets[i].1;
                        let ticket = ProjectedTicket {
                            title: current.title.clone(),
                            owner: Some(owner.clone()),
                            completed: current.completed,
                            creation_position: current.creation_position,
                        };
                        self.set_ticket(i, ticket);
                    }
                }
            },
            TicketEvent::TicketClaimReleasedV1 { ticket_id, owner } => {
                if let Some(i) = table_find(&self.tickets, ticket_id) {
                    proof {
                        lemma_table_index(self.tickets@, i as int);
                    }
                    if same_opt(&self.tickets[i].1.owner, owner) {
                        let current = &self.tickets[i].1;
                        let ticket = ProjectedTicket {
                            title: current.title.clone(),
                            owner: None,
                            completed: current.completed,
                            creation_position: current.creation_position,
                        };
                        self.set_ticket(i, ticket);
                    }
                }
            },
            TicketEvent::TicketCompletedV1 { ticket_id, owner } => {
                if let Some(i) = table_find(&self.tickets, ticket_id) {
                    proof {
                        lemma_table_index(self.tickets@, i as int);
                    }
                    if same_opt(&self.tickets[i].1.owner, owner) {
                        let current = &self.tickets[i].1;
                        let ticket = ProjectedTicket {
                            title: current.title.clone(),
                            owner: None,
                            completed: true,
                            creation_position: current.creation_position,
                        };
                        self.set_ticket(i, ticket);
                        insert_name(&mut self.completed, ticket_id);
                    }
                }
            },
            TicketEvent::BoardTicketPrioritySetV1 { ticket_id, priority, .. } => {
                match table_find(&self.priorities, ticket_id) {
                    Some(i) => {
                        let key = self.priorities[i].0.clone();
                        proof {
                            lemma_table_update(self.priorities@, i as int, *priority);
                        }
                        self.priorities.set(i, (key, *priority));
                    },
                    None => {
                        let key = ticket_id.clone();
                        proof {
                            lemma_table_push(self.priorities@, key, *priority);
                        }
                        self.priorities.push((key, *priority));
                    },
                }
            },
            TicketEvent::BoardTicketDependencyAddedV1 { ticket_id, dependency_id, .. } => {
                insert_edge(&mut self.dependencies, ticket_id, dependency_id);
            },
            TicketEvent::BoardTicketDependencyRemovedV1 { ticket_id, dependency_id, .. } => {
                remove_edge(&mut self.dependencies, ticket_id, dependency_id);
            },
            TicketEvent::BoardTicketCompletedV1 { ticket_id, .. } => {
                insert_name(&mut self.completed, ticket_id);
            },
            _ => {},
        }
    }
}


/// One listed ticket.
#[derive(Debug)]
pub struct BoardTicketRow {
    pub priority: u8,
    pub creation_position: u64,
    pub ticket_id: String,
    pub title: String,
    pub state: TicketState,
    pub blocked_by: Vec<String>,
}

pub open spec fn strictly_ascending(v: Seq<String>) -> bool {
    forall|i: int, j: int| 0 <= i < j < v.len() ==> seq_lt((#[trigger] v[i])@, (#[trigger] v[j])@)
}

/// The uncompleted dependencies of ticket `id`.
pub open spec fn blocked_by_of(b: BoardView, id: Node) -> Set<Node> {
    Set::new(|d: Node| b.dependencies.contains((id, d)) && !b.completed.contains(d))
}

pub open spec fn priority_of(b: BoardView, id: Node) -> u8 {
    if b.priorities.contains_key(id) {
        b.priorities[id]
    } else {
        DEFAULT_PRIORITY
    }
}

/// A row lists ticket `r.ticket_id` as the board knows it, with the
/// uncompleted dependencies in ascending order.
pub open spec fn row_describes(b: BoardView, r: BoardTicketRow) -> bool {
    let id = r.ticket_id@;
    &&& b.tickets.contains_key(id)
    &&& r.priority == priority_of(b, id)
    &&& r.creation_position == b.tickets[id].creation_position
    &&& r.title@ == b.tickets[id].title
    &&& r.state@ == (TicketStateView { exists: true, owner: b.tickets[id].owner, completed: b.tickets[id].completed })
    &&& names(r.blocked_by@) == blocked_by_of(b, id)
    &&& strictly_ascending(r.blocked_by@)
}

/// Rows are listed by priority, then creation, then ticket id.
pub open spec fn row_before(a: BoardTicketRow, b: BoardTicketRow) -> bool {
    a.priority < b.priority || (a.priority == b.priority && (a.creation_position < b.creation_position || (
    a.creation_position == b.creation_position && seq_lt(a.ticket_id@, b.ticket_id@))))
}

proof fn lemma_row_before_transitive(a: BoardTicketRow, b: BoardTicketRow, c: BoardTicketRow)
    requires
        row_before(a, b),
        row_before(b, c),
    ensures
        row_before(a, c),
{
    if a.priority == b.priority && b.priority == c.priority && a.creation_position == b.creation_position
        && b.creation_position == c.creation_position {
        lemma_lt_transitive(a.ticket_id@, b.ticket_id@, c.ticket_id@);
    }
}

proof fn lemma_row_before_total(a: BoardTicketRow, b: BoardTicketRow)
    requires
        a.ticket_id@ != b.ticket_id@,
    ensures
        row_before(a, b) || row_before(b, a),
{
    lemma_lt_total(a.ticket_id@, b.ticket_id@);
}

/// Inserts a name into a strictly ascending vector, keeping it so.
pub(crate) fn insert_sorted_name(v: &mut Vec<String>, s: &String)
    requires
        strictly_ascending(old(v)@),
    ensures
        strictly_ascending(final(v)@),
        names(final(v)@) == names(old(v)@).insert(s@),
{
    let mut j: usize = 0;
    while j < v.len() && string_lt(&v[j], s)
        invariant
            j <= v@.len(),
            forall|k: int| 0 <= k < j ==> seq_lt((#[trigger] v@[k])@, s@),
        decreases v.len() - j,
    {
        j = j + 1;
    }
    if j < v.len() && v[j] == *s {
        assert(names(v@) =~= names(v@).insert(s@)) by {
            assert(names(v@).contains(s@)) by {
                assert(v@[j as int]@ == s@);
            }
        }
        return;
    }
    let ghost before = v@;
    proof {
        if j < before.len() {
            lemma_lt_total(before[j as int]@, s@);
        }
    }
    v.insert(j, s.clone());
    proof {
        assert(v@ =~= before.insert(j as int, *s));
        assert forall|a: int, b: int| 0 <= a < b < v@.len() implies seq_lt((#[trigger] v@[a])@, (#[trigger] v@[b])@) by {
            if b < j {
                assert(v@[a] == before[a] && v@[b] == before[b]);
            } else if b == j {
                assert(v@[a] == before[a]);
            } else if a == j {
                assert(v@[b] == before[b - 1]);
                if b - 1 > j {
                    assert(seq_lt(before[j as int]@, before[b - 1]@));
                    lemma_lt_transitive(s@, before[j as int]@, before[b - 1]@);
                }
            } else if a < j {
                assert(v@[a] == before[a] && v@[b] == before[b - 1]);
                if j < before.len() {
                    assert(seq_lt(before[a]@, s@));
                    if b - 1 == j {
                        lemma_lt_transitive(before[a]@, s@, before[j as int]@);
                    } else {
                        assert(seq_lt(before[a]@, before[b - 1]@));
                    }
                }
            } else {
                assert(v@[a] == before[a - 1] && v@[b] == before[b - 1]);
            }
        }
        assert forall|y: Node| names(v@).contains(y) <==> names(before).insert(s@).contains(y) by {
            if names(v@).contains(y) {
                let k = choose|k: int| 0 <= k < v@.len() && (#[trigger] v@[k])@ == y;
                if k < j {
                    assert(v@[k] == before[k]);
                } else if k > j {
                    assert(v@[k] == before[k - 1]);
                }
            }
            if names(before).contains(y) {
                let k = choose|k: int| 0 <= k < before.len() && (#[trigger] before[k])@ == y;
                if k < j {
                    assert(v@[k] == before[k]);
                } else {
                    assert(v@[k + 1] == before[k]);
                }
            }
            if y == s@ {
                assert(v@[j as int]@ == s@);
            }
        }
        assert(names(v@) =~= names(before).insert(s@));
    }
}

fn clone_owner(o: &Option<String>) -> (r: Option<String>)
    ensures
        opt_view(r) == opt_view(*o),
{
    match o {
        Some(s) => Some(s.clone()),
        None => None,
    }
}


pub open spec fn rows_ordered(rows: Seq<BoardTicketRow>) -> bool {
    forall|i: int, j: int| 0 <= i < j < rows.len() ==> row_before(#[trigger] rows[i], #[trigger] rows[j])
}

fn insert_row(rows: &mut Vec<BoardTicketRow>, row: BoardTicketRow)
    requires
        rows_ordered(old(rows)@),
        forall|i: int| 0 <= i < old(rows)@.len() ==> (#[trigger] old(rows)@[i]).ticket_id@ != row.ticket_id@,
    ensures
        rows_ordered(final(rows)@),
        exists|j: int| 0 <= j <= old(rows)@.len() && final(rows)@ == old(rows)@.insert(j, row),
{
    let mut j: usize = 0;
    while j < rows.len() && (rows[j].priority < row.priority || (rows[j].priority == row.priority && (
    rows[j].creation_position < row.creation_position || (rows[j].creation_position
        == row.creation_position && string_lt(&rows[j].ticket_id, &row.ticket_id)))))
        invariant
            j <= rows@.len(),
            forall|k: int| 0 <= k < j ==> row_before(#[trigger] rows@[k], row),
        decreases rows.len() - j,
    {
        j = j + 1;
    }
    let ghost before = rows@;
    proof {
        if j < before.len() {
            lemma_row_before_total(before[j as int], row);
        }
    }
    rows.insert(j, row);
    proof {
        assert forall|a: int, b: int| 0 <= a < b < rows@.len() implies row_before(#[trigger] rows@[a], #[trigger] rows@[b]) by {
            if b < j {
                assert(rows@[a] == before[a] && rows@[b] == before[b]);
            } else if b == j {
                assert(rows@[a] == before[a]);
            } else if a == j {
                assert(rows@[b] == before[b - 1]);
                if b - 1 > j {
                    lemma_row_before_transitive(row, before[j as int], before[b - 1]);
                }
            } else if a < j {
                assert(rows@[a] == before[a] && rows@[b] == before[b - 1]);
                if b - 1 == j {
                    lemma_row_before_transitive(before[a], row, before[j as int]);
                }
            } else {
                assert(rows@[a] == before[a - 1] && rows@[b] == before[b - 1]);
            }
        }
        assert(rows@ == before.insert(j as int, row));
    }
}

impl BoardProjection {
    /// The uncompleted dependencies of ticket `id`, in ascending order.
    fn blocked_by(&self, id: &String) -> (r: Vec<String>)
        ensures
            names(r@) == blocked_by_of(self@, id@),
            strictly_ascending(r@),
    {
        let mut r: Vec<String> = Vec::new();
        let mut i: usize = 0;
        while i < self.dependencies.len()
            invariant
                i <= self.dependencies@.len(),
                strictly_ascending(r@),
                forall|d: Node| names(r@).contains(d) <==> (!self@.completed.contains(d) && exists|j: int| 0 <= j < i && (#[trigger] self.dependencies@[j]).0@ == id@ && self.dependencies@[j].1@ == d),
            decreases self.dependencies.len() - i,
        {
            let ghost prev = names(r@);
            if self.dependencies[i].0 == *id && !contains_name(&self.completed, &self.dependencies[i].1) {
                insert_sorted_name(&mut r, &self.dependencies[i].1);
            }
            proof {
                assert forall|d: Node| names(r@).contains(d) <==> (!self@.completed.contains(d) && exists|j: int| 0 <= j < i + 1 && (#[trigger] self.dependencies@[j]).0@ == id@ && self.dependencies@[j].1@ == d) by {
                    if !self@.completed.contains(d) && exists|j: int| 0 <= j < i + 1 && (#[trigger] self.dependencies@[j]).0@ == id@ && self.dependencies@[j].1@ == d {
                        let j = choose|j: int| 0 <= j < i + 1 && (#[trigger] self.dependencies@[j]).0@ == id@ && self.dependencies@[j].1@ == d;
                        if j < i {
                            assert(prev.contains(d));
                        }
                    }
                }
            }
            i = i + 1;
        }
        assert(names(r@) =~= blocked_by_of(self@, id@));
        r
    }

    fn row_for(&self, k: usize) -> (row: BoardTicketRow)
        requires
            self.wf(),
            k < self.tickets@.len(),
        ensures
            row_describes(self@, row),
            row.ticket_id@ == self.tickets@[k as int].0@,
    {
        let id = &self.tickets[k].0;
        let ticket = &self.tickets[k].1;
        proof {
            lemma_table_index(self.tickets@, k as int);
        }
        let priority = match table_find(&self.priorities, id) {
            Some(p) => {
                proof {
                    lemma_table_index(self.priorities@, p as int);
                }
                self.priorities[p].1
            },
            None => DEFAULT_PRIORITY,
        };
        BoardTicketRow {
            priority,
            creation_position: ticket.creation_position,
            ticket_id: id.clone(),
            title: ticket.title.clone(),
            state: TicketState { exists: true, owner: clone_owner(&ticket.owner), completed: ticket.completed },
            blocked_by: self.blocked_by(id),
        }
    }

    /// Every ticket as a row, ordered by priority, creation and id.
    #[verifier::rlimit(60)]
    pub fn rows(&self) -> (rows: Vec<BoardTicketRow>)
        requires
            self.wf(),
        ensures
            rows_ordered(rows@),
            forall|i: int| 0 <= i < rows@.len() ==> row_describes(self@, #[trigger] rows@[i]),
            forall|id: Node| #[trigger] self@.tickets.contains_key(id) ==> exists|i: int| 0 <= i < rows@.len() && (#[trigger] rows@[i]).ticket_id@ == id,
            rows@.len() == self@.tickets.len(),
            forall|i: int, j: int| 0 <= i < rows@.len() && 0 <= j < rows@.len() && i != j ==> (#[trigger] rows@[i]).ticket_id@ != (#[trigger] rows@[j]).ticket_id@,
    {
        let mut rows: Vec<BoardTicketRow> = Vec::new();
        let mut k: usize = 0;
        proof {
            reveal(rows_from_prefix);
            reveal(prefix_has_rows);
        }
        while k < self.tickets.len()
            invariant
                self.wf(),
                k <= self.tickets@.len(),
                rows_ordered(rows@),
                forall|i: int| 0 <= i < rows@.len() ==> row_describes(self@, #[trigger] rows@[i]),
                rows_from_prefix(rows@, self.tickets@, k as int),
                prefix_has_rows(rows@, self.tickets@, k as int),
                rows@.len() == k,
                forall|i: int, j: int| 0 <= i < rows@.len() && 0 <= j < rows@.len() && i != j ==> (#[trigger] rows@[i]).ticket_id@ != (#[trigger] rows@[j]).ticket_id@,
            decreases self.tickets.len() - k,
        {
            let row = self.row_for(k);
            proof {
                lemma_new_row_is_fresh(self.tickets@, rows@, k as int);
            }
            let ghost before = rows@;
            let ghost tickets = self.tickets@;
            insert_row(&mut rows, row);
            proof {
                let j = choose|j: int| 0 <= j <= before.len() && rows@ == before.insert(j, row);
                lemma_rows_extend(self@, tickets, before, rows@, row, j, k as int);
                assert forall|a: int, b: int| 0 <= a < rows@.len() && 0 <= b < rows@.len() && a != b implies (#[trigger] rows@[a]).ticket_id@ != (#[trigger] rows@[b]).ticket_id@ by {
                    let fa = if a < j { a } else { a - 1 };
                    let fb = if b < j { b } else { b - 1 };
                    if a != j {
                        assert(rows@[a] == before[fa]);
                    }
                    if b != j {
                        assert(rows@[b] == before[fb]);
                    }
                }
            }
            k = k + 1;
        }
        proof {
            reveal(prefix_has_rows);
            crate::table::lemma_table_len(self.tickets@);
            assert forall|id: Node| #[trigger] self@.tickets.contains_key(id) implies exists|i: int| 0 <= i < rows@.len() && (#[trigger] rows@[i]).ticket_id@ == id by {
                let m = choose|m: int| 0 <= m < self.tickets@.len() && (#[trigger] self.tickets@[m]).0@ == id;
                let i = choose|i: int| 0 <= i < rows@.len() && (#[trigger] rows@[i]).ticket_id@ == (#[trigger] self.tickets@[m]).0@;
            }
        }
        rows
    }
}

/// Every row lists one of the first `k` tickets.
#[verifier::opaque]
pub open spec fn rows_from_prefix(rows: Seq<BoardTicketRow>, tickets: Seq<(String, ProjectedTicket)>, k: int) -> bool {
    forall|i: int| 0 <= i < rows.len() ==> exists|m: int| 0 <= m < k && (#[trigger] rows[i]).ticket_id@ == (#[trigger] tickets[m]).0@
}

/// Each of the first `k` tickets has a row.
#[verifier::opaque]
pub open spec fn prefix_has_rows(rows: Seq<BoardTicketRow>, tickets: Seq<(String, ProjectedTicket)>, k: int) -> bool {
    forall|m: int| 0 <= m < k ==> exists|i: int| 0 <= i < rows.len() && (#[trigger] rows[i]).ticket_id@ == (#[trigger] tickets[m]).0@
}

proof fn lemma_new_row_is_fresh(tickets: Seq<(String, ProjectedTicket)>, rows: Seq<BoardTicketRow>, k: int)
    requires
        keys_distinct(tickets),
        0 <= k < tickets.len(),
        rows_from_prefix(rows, tickets, k),
    ensures
        forall|i: int| 0 <= i < rows.len() ==> (#[trigger] rows[i]).ticket_id@ != tickets[k].0@,
{
    reveal(rows_from_prefix);
    assert forall|i: int| 0 <= i < rows.len() implies (#[trigger] rows[i]).ticket_id@ != tickets[k].0@ by {
        let m = choose|m: int| 0 <= m < k && (#[trigger] rows[i]).ticket_id@ == (#[trigger] tickets[m]).0@;
        assert(tickets[m].0@ != tickets[k].0@);
    }
}

proof fn lemma_rows_extend(
    b: BoardView,
    tickets: Seq<(String, ProjectedTicket)>,
    before: Seq<BoardTicketRow>,
    rows: Seq<BoardTicketRow>,
    row: BoardTicketRow,
    j: int,
    k: int,
)
    requires
        0 <= k < tickets.len(),
        0 <= j <= before.len(),
        rows == before.insert(j, row),
        row_describes(b, row),
        row.ticket_id@ == tickets[k].0@,
        forall|i: int| 0 <= i < before.len() ==> row_describes(b, #[trigger] before[i]),
        rows_from_prefix(before, tickets, k),
        prefix_has_rows(before, tickets, k),
    ensures
        forall|i: int| 0 <= i < rows.len() ==> row_describes(b, #[trigger] rows[i]),
        rows_from_prefix(rows, tickets, k + 1),
        prefix_has_rows(rows, tickets, k + 1),
{
    reveal(rows_from_prefix);
    reveal(prefix_has_rows);
    assert forall|i: int| 0 <= i < rows.len() implies row_describes(b, #[trigger] rows[i]) by {
        if i < j {
            assert(rows[i] == before[i]);
        } else if i > j {
            assert(rows[i] == before[i - 1]);
        }
    }
    assert forall|i: int| 0 <= i < rows.len() implies exists|m: int| 0 <= m < k + 1 && (#[trigger] rows[i]).ticket_id@ == (#[trigger] tickets[m]).0@ by {
        if i < j {
            assert(rows[i] == before[i]);
            let m = choose|m: int| 0 <= m < k && (#[trigger] before[i]).ticket_id@ == (#[trigger] tickets[m]).0@;
            assert(rows[i].ticket_id@ == tickets[m].0@);
        } else if i > j {
            assert(rows[i] == before[i - 1]);
            let m = choose|m: int| 0 <= m < k && (#[trigger] before[i - 1]).ticket_id@ == (#[trigger] tickets[m]).0@;
            assert(rows[i].ticket_id@ == tickets[m].0@);
        } else {
            assert(rows[i].ticket_id@ == tickets[k].0@);
        }
    }
    assert forall|m: int| 0 <= m < k + 1 implies exists|i: int| 0 <= i < rows.len() && (#[trigger] rows[i]).ticket_id@ == (#[trigger] tickets[m]).0@ by {
        if m < k {
            let i = choose|i: int| 0 <= i < before.len() && (#[trigger] before[i]).ticket_id@ == (#[trigger] tickets[m]).0@;
            if i < j {
                assert(rows[i] == before[i]);
            } else {
                assert(rows[i + 1] == before[i]);
            }
        } else {
            assert(rows[j] == row);
        }
    }
}

/// A row that `next` may offer: unclaimed, not completed and not blocked.
pub open spec fn row_is_available(r: BoardTicketRow) -> bool {
    r.state@.owner is None && !r.state@.completed && r.blocked_by@.len() == 0
}

/// The first available row, if any.
pub fn next_available_row(rows: &Vec<BoardTicketRow>) -> (r: Option<usize>)
    ensures
        match r {
            Some(i) => i < rows@.len() && row_is_available(rows@[i as int]) && forall|j: int| 0 <= j < i ==> !row_is_available(#[trigger] rows@[j]),
            None => forall|j: int| 0 <= j < rows@.len() ==> !row_is_available(#[trigger] rows@[j]),
        },
{
    let mut i: usize = 0;
    while i < rows.len()
        invariant
            i <= rows@.len(),
            forall|j: int| 0 <= j < i ==> !row_is_available(#[trigger] rows@[j]),
        decreases rows.len() - i,
    {
        if rows[i].state.owner.is_none() && !rows[i].state.completed && rows[i].blocked_by.len() == 0 {
            return Some(i);
        }
        i = i + 1;
    }
    None
}


/// The map that a list of entries builds when later entries replace
/// earlier ones with the same key.
pub open spec fn entries_map<V: View>(s: Seq<(String, V)>) -> Map<Node, V::V>
    decreases s.len(),
{
    if s.len() == 0 {
        Map::empty()
    } else {
        entries_map(s.drop_last()).insert(s.last().0@, s.last().1@)
    }
}

fn copy_ticket(t: &ProjectedTicket) -> (r: ProjectedTicket)
    ensures
        r@ == t@,
{
    ProjectedTicket {
        title: t.title.clone(),
        owner: clone_owner(&t.owner),
        completed: t.completed,
        creation_position: t.creation_position,
    }
}

fn upsert<V: View>(t: &mut Vec<(String, V)>, key: String, value: V)
    requires
        keys_distinct(old(t)@),
    ensures
        keys_distinct(final(t)@),
        table_view(final(t)@) == table_view(old(t)@).insert(key@, value@),
{
    match table_find(t, &key) {
        Some(i) => {
            proof {
                lemma_table_update(t@, i as int, value);
            }
            let k = t[i].0.clone();
            t.set(i, (k, value));
        },
        None => {
            proof {
                lemma_table_push(t@, key, value);
            }
            t.push((key, value));
        },
    }
}

impl BoardProjection {
    /// Rebuilds a board from its saved parts; a later entry for a key
    /// replaces an earlier one.
    pub fn restore(
        tickets: Vec<(String, ProjectedTicket)>,
        priorities: Vec<(String, u8)>,
        dependencies: Vec<(String, String)>,
        completed: Vec<String>,
        next_creation_position: u64,
    ) -> (b: Self)
        ensures
            b.wf(),
            b@.tickets == entries_map(tickets@),
            b@.priorities == entries_map(priorities@),
            b@.dependencies == edge_set(dependencies@),
            b@.completed == names(completed@),
            b@.next_creation_position == next_creation_position,
    {
        let mut table: Vec<(String, ProjectedTicket)> = Vec::new();
        proof {
            lemma_table_empty(table@);
        }
        let mut i: usize = 0;
        while i < tickets.len()
            invariant
                i <= tickets@.len(),
                keys_distinct(table@),
                table_view(table@) == entries_map(tickets@.subrange(0, i as int)),
            decreases tickets.len() - i,
        {
            proof {
                assert(tickets@.subrange(0, i + 1).drop_last() =~= tickets@.subrange(0, i as int));
            }
            upsert(&mut table, tickets[i].0.clone(), copy_ticket(&tickets[i].1));
            i = i + 1;
        }
        assert(tickets@.subrange(0, tickets@.len() as int) =~= tickets@);
        let mut ptable: Vec<(String, u8)> = Vec::new();
        proof {
            lemma_table_empty(ptable@);
        }
        let mut i: usize = 0;
        while i < priorities.len()
            invariant
                i <= priorities@.len(),
                keys_distinct(ptable@),
                table_view(ptable@) == entries_map(priorities@.subrange(0, i as int)),
            decreases priorities.len() - i,
        {
            proof {
                assert(priorities@.subrange(0, i + 1).drop_last() =~= priorities@.subrange(0, i as int));
            }
            upsert(&mut ptable, priorities[i].0.clone(), priorities[i].1);
            i = i + 1;
        }
        assert(priorities@.subrange(0, priorities@.len() as int) =~= priorities@);
        BoardProjection {
            tickets: table,
            priorities: ptable,
            dependencies,
            completed,
            next_creation_position,
        }
    }

    /// The saved parts of the board.
    pub fn parts(&self) -> (r: (&Vec<(String, ProjectedTicket)>, &Vec<(String, u8)>, &Vec<(String, String)>, &Vec<String>, u64))
        requires
            self.wf(),
        ensures
            keys_distinct(r.0@),
            keys_distinct(r.1@),
            table_view(r.0@) == self@.tickets,
            table_view(r.1@) == self@.priorities,
            edge_set(r.2@) == self@.dependencies,
            names(r.3@) == self@.completed,
            r.4 == self@.next_creation_position,
    {
        (&self.tickets, &self.priorities, &self.dependencies, &self.completed, self.next_creation_position)
    }
}

} // verus!
