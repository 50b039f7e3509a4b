//! The event-sourced ticket board: ticket facts, the per-ticket and board
//! dependency states folded from them, and the commands that decide new
//! facts.
use vstd::prelude::*;
use crate::graph::{
    acyclic, contains_name, edge_set, lemma_insert_keeps_acyclic, lemma_subset_keeps_acyclic, names,
    reaches, reaches_along, Node,
};

verus! {

pub open spec fn opt_view(o: Option<String>) -> Option<Seq<char>> {
    match o {
        Some(s) => Some(s@),
        None => None,
    }
}

/// A fact of a ticket or board stream.
#[derive(Debug, Clone)]
pub enum TicketEvent {
    TicketCreatedV1 { ticket_id: String, title: String },
    TicketClaimedV1 { ticket_id: String, owner: String },
    TicketClaimReleasedV1 { ticket_id: String, owner: String },
    TicketCompletedV1 { ticket_id: String, owner: String },
    BoardTicketClaimedV1 { board_id: String, ticket_id: String, owner: String },
    BoardTicketClaimReleasedV1 { board_id: String, ticket_id: String, owner: String },
    BoardTicketCompletedV1 { board_id: String, ticket_id: String, owner: String },
    BoardTicketPrioritySetV1 { board_id: String, ticket_id: String, priority: u8 },
    BoardTicketDependencyAddedV1 { board_id: String, ticket_id: String, dependency_id: String },
    BoardTicketDependencyRemovedV1 { board_id: String, ticket_id: String, dependency_id: String },
}

/// A ticket fact with its text as character sequences.
pub enum TicketFact {
    Created { ticket: Seq<char>, title: Seq<char> },
    Claimed { ticket: Seq<char>, owner: Seq<char> },
    ClaimReleased { ticket: Seq<char>, owner: Seq<char> },
    Completed { ticket: Seq<char>, owner: Seq<char> },
    BoardClaimed { board: Seq<char>, ticket: Seq<char>, owner: Seq<char> },
    BoardClaimReleased { board: Seq<char>, ticket: Seq<char>, owner: Seq<char> },
    BoardCompleted { board: Seq<char>, ticket: Seq<char>, owner: Seq<char> },
    BoardPrioritySet { board: Seq<char>, ticket: Seq<char>, priority: u8 },
    BoardDependencyAdded { board: Seq<char>, ticket: Seq<char>, dependency: Seq<char> },
    BoardDependencyRemoved { board: Seq<char>, ticket: Seq<char>, dependency: Seq<char> },
}

impl View for TicketEvent {
    type V = TicketFact;

    open spec fn view(&self) -> TicketFact {
        match self {
            TicketEvent::TicketCreatedV1 { ticket_id, title } => TicketFact::Created {
                ticket: ticket_id@,
                title: title@,
            },
            TicketEvent::TicketClaimedV1 { ticket_id, owner } => TicketFact::Claimed {
                ticket: ticket_id@,
                owner: owner@,
            },
            TicketEvent::TicketClaimReleasedV1 { ticket_id, owner } => TicketFact::ClaimReleased {
                ticket: ticket_id@,
                owner: owner@,
            },
            TicketEvent::TicketCompletedV1 { ticket_id, owner } => TicketFact::Completed {
                ticket: ticket_id@,
                owner: owner@,
            },
            TicketEvent::BoardTicketClaimedV1 { board_id, ticket_id, owner } => TicketFact::BoardClaimed {
                board: board_id@,
                ticket: ticket_id@,
                owner: owner@,
            },
            TicketEvent::BoardTicketClaimReleasedV1 {
                board_id,
                ticket_id,
                owner,
            } => TicketFact::BoardClaimReleased { board: board_id@, ticket: ticket_id@, owner: owner@ },
            TicketEvent::BoardTicketCompletedV1 { board_id, ticket_id, owner } => TicketFact::BoardCompleted {
                board: board_id@,
                ticket: ticket_id@,
                owner: owner@,
            },
            TicketEvent::BoardTicketPrioritySetV1 {
                board_id,
                ticket_id,
                priority,
            } => TicketFact::BoardPrioritySet { board: board_id@, ticket: ticket_id@, priority: *priority },
            TicketEvent::BoardTicketDependencyAddedV1 {
                board_id,
                ticket_id,
                dependency_id,
            } => TicketFact::BoardDependencyAdded {
                board: board_id@,
                ticket: ticket_id@,
                dependency: dependency_id@,
            },
            TicketEvent::BoardTicketDependencyRemovedV1 {
                board_id,
                ticket_id,
                dependency_id,
            } => TicketFact::BoardDependencyRemoved {
                board: board_id@,
                ticket: ticket_id@,
                dependency: dependency_id@,
            },
        }
    }
}

pub open spec fn fact_stream(f: TicketFact) -> Seq<char> {
    match f {
        TicketFact::Created { ticket, .. } => ticket,
        TicketFact::Claimed { ticket, .. } => ticket,
        TicketFact::ClaimReleased { ticket, .. } => ticket,
        TicketFact::Completed { ticket, .. } => ticket,
        TicketFact::BoardClaimed { board, .. } => board,
        TicketFact::BoardClaimReleased { board, .. } => board,
        TicketFact::BoardCompleted { board, .. } => board,
        TicketFact::BoardPrioritySet { board, .. } => board,
        TicketFact::BoardDependencyAdded { board, .. } => board,
        TicketFact::BoardDependencyRemoved { board, .. } => board,
    }
}

impl TicketEvent {
    /// The stream the fact belongs to: the ticket's own stream for ticket
    /// facts, the board's stream for board facts.
    pub fn stream_id(&self) -> (s: &String)
        ensures
            s@ == fact_stream(self@),
    {
        match self {
            TicketEvent::TicketCreatedV1 { ticket_id, .. } => ticket_id,
            TicketEvent::TicketClaimedV1 { ticket_id, .. } => ticket_id,
            TicketEvent::TicketClaimReleasedV1 { ticket_id, .. } => ticket_id,
            TicketEvent::TicketCompletedV1 { ticket_id, .. } => ticket_id,
            TicketEvent::BoardTicketClaimedV1 { board_id, .. } => board_id,
            TicketEvent::BoardTicketClaimReleasedV1 { board_id, .. } => board_id,
            TicketEvent::BoardTicketCompletedV1 { board_id, .. } => board_id,
            TicketEvent::BoardTicketPrioritySetV1 { board_id, .. } => board_id,
            TicketEvent::BoardTicketDependencyAddedV1 { board_id, .. } => board_id,
            TicketEvent::BoardTicketDependencyRemovedV1 { board_id, .. } => board_id,
        }
    }
}

/// What a ticket's own stream says of it.
#[derive(Debug, Default)]
pub struct TicketState {
    pub exists: bool,
    pub owner: Option<String>,
    pub completed: bool,
}

pub struct TicketStateView {
    pub exists: bool,
    pub owner: Option<Seq<char>>,
    pub completed: bool,
}

impl View for TicketState {
    type V = TicketStateView;

    open spec fn view(&self) -> TicketStateView {
        TicketStateView { exists: self.exists, owner: opt_view(self.owner), completed: self.completed }
    }
}

/// The fold of one fact into the state of ticket `ticket`: creation marks it
/// existing, a claim sets the owner unless completed, and a release or
/// completion by the current owner clears it (completion also marks it
/// completed). Facts of other tickets leave the state unchanged.
pub open spec fn ticket_step(s: TicketStateView, ticket: Seq<char>, f: TicketFact) -> TicketStateView {
    match f {
        TicketFact::Created { ticket: t, .. } => if t == ticket {
            TicketStateView { exists: true, ..s }
        } else {
            s
        },
        TicketFact::Claimed { ticket: t, owner } => if t == ticket && !s.completed {
            TicketStateView { owner: Some(owner), ..s }
        } else {
            s
        },
        TicketFact::ClaimReleased { ticket: t, owner } => if t == ticket && s.owner == Some(owner) {
            TicketStateView { owner: None, ..s }
        } else {
            s
        },
        TicketFact::Completed { ticket: t, owner } => if t == ticket && s.owner == Some(owner) {
            TicketStateView { owner: None, completed: true, ..s }
        } else {
            s
        },
        _ => s,
    }
}

pub(crate) fn same_opt(a: &Option<String>, b: &String) -> (r: bool)
    ensures
        r == (opt_view(*a) == Some(b@)),
{
    match a {
        Some(a) => *a == *b,
        None => false,
    }
}

pub fn apply_ticket_state(state: TicketState, ticket_id: &String, event: &TicketEvent) -> (r: TicketState)
    ensures
        r@ == ticket_step(state@, ticket_id@, event@),
{
    let mut state = state;
    match event {
        TicketEvent::TicketCreatedV1 { ticket_id: t, .. } => {
            if *t == *ticket_id {
                state.exists = true;
            }
        },
        TicketEvent::TicketClaimedV1 { ticket_id: t, owner } => {
            if *t == *ticket_id && !state.completed {
                state.owner = Some(owner.clone());
            }
        },
        TicketEvent::TicketClaimReleasedV1 { ticket_id: t, owner } => {
            if *t == *ticket_id && same_opt(&state.owner, owner) {
                state.owner = None;
            }
        },
        TicketEvent::TicketCompletedV1 { ticket_id: t, owner } => {
            if *t == *ticket_id && same_opt(&state.owner, owner) {
                state.owner = None;
                state.completed = true;
            }
        },
        _ => {},
    }
    state
}


/// What the board stream says of tickets and their dependencies.
#[derive(Debug, Default)]
pub struct BoardDependencyState {
    pub tickets: Vec<String>,
    /// `(ticket, dependency)`: the ticket waits for the dependency.
    pub dependencies: Vec<(String, String)>,
    pub completed: Vec<String>,
}

pub struct BoardDependencyView {
    pub tickets: Set<Node>,
    pub dependencies: Set<(Node, Node)>,
    pub completed: Set<Node>,
}

impl View for BoardDependencyState {
    type V = BoardDependencyView;

    open spec fn view(&self) -> BoardDependencyView {
        BoardDependencyView {
            tickets: names(self.tickets@),
            dependencies: edge_set(self.dependencies@),
            completed: names(self.completed@),
        }
    }
}

/// The fold of one fact into the dependency state.
pub open spec fn dependency_step(s: BoardDependencyView, f: TicketFact) -> BoardDependencyView {
    match f {
        TicketFact::Created { ticket, .. } => BoardDependencyView { tickets: s.tickets.insert(ticket), ..s },
        TicketFact::BoardDependencyAdded { ticket, dependency, .. } => BoardDependencyView {
            dependencies: s.dependencies.insert((ticket, dependency)),
            ..s
        },
        TicketFact::BoardDependencyRemoved { ticket, dependency, .. } => BoardDependencyView {
            dependencies: s.dependencies.remove((ticket, dependency)),
            ..s
        },
        TicketFact::BoardCompleted { ticket, .. } => BoardDependencyView {
            completed: s.completed.insert(ticket),
            ..s
        },
        _ => s,
    }
}

pub(crate) fn push_name(v: &mut Vec<String>, s: &String)
    ensures
        names(final(v)@) == names(old(v)@).insert(s@),
{
    let ghost before = v@;
    v.push(s.clone());
    proof {
        assert(v@[v@.len() - 1]@ == s@);
        assert forall|y: Node| names(v@).contains(y) implies names(before).insert(s@).contains(y) by {
            let k = choose|k: int| 0 <= k < v@.len() && (#[trigger] v@[k])@ == y;
            if k < before.len() {
                assert(v@[k] == before[k]);
            }
        }
        assert forall|y: Node| names(before).insert(s@).contains(y) implies names(v@).contains(y) by {
            if y != s@ {
                let k = choose|k: int| 0 <= k < before.len() && (#[trigger] before[k])@ == y;
                assert(v@[k] == before[k]);
            }
        }
        assert(names(v@) =~= names(before).insert(s@));
    }
}

pub(crate) fn insert_name(v: &mut Vec<String>, s: &String)
    ensures
        names(final(v)@) == names(old(v)@).insert(s@),
{
    if contains_name(v, s) {
        assert(names(v@) =~= names(v@).insert(s@));
    } else {
        push_name(v, s);
    }
}

pub(crate) fn contains_edge(v: &Vec<(String, String)>, a: &String, b: &String) -> (r: bool)
    ensures
        r == edge_set(v@).contains((a@, b@)),
{
    let mut i: usize = 0;
    while i < v.len()
        invariant
            i <= v.len(),
            forall|j: int| 0 <= j < i ==> !((#[trigger] v@[j]).0@ == a@ && v@[j].1@ == b@),
        decreases v.len() - i,
    {
        if v[i].0 == *a && v[i].1 == *b {
            assert(v@[i as int].0@ == a@ && v@[i as int].1@ == b@);
            return true;
        }
        i = i + 1;
    }
    false
}

pub(crate) fn insert_edge(v: &mut Vec<(String, String)>, a: &String, b: &String)
    ensures
        edge_set(final(v)@) == edge_set(old(v)@).insert((a@, b@)),
{
    if contains_edge(v, a, b) {
        assert(edge_set(v@) =~= edge_set(v@).insert((a@, b@)));
    } else {
        let ghost before = v@;
        v.push((a.clone(), b.clone()));
        proof {
            let e = (a@, b@);
            assert(v@[v@.len() - 1].0@ == a@ && v@[v@.len() - 1].1@ == b@);
            assert forall|y: (Node, Node)| edge_set(v@).contains(y) implies edge_set(before).insert(e).contains(y) by {
                let k = choose|k: int| 0 <= k < v@.len() && (#[trigger] v@[k]).0@ == y.0 && v@[k].1@ == y.1;
                if k < before.len() {
                    assert(v@[k] == before[k]);
                }
            }
            assert forall|y: (Node, Node)| edge_set(before).insert(e).contains(y) implies edge_set(v@).contains(y) by {
                if y != e {
                    let k = choose|k: int| 0 <= k < before.len() && (#[trigger] before[k]).0@ == y.0 && before[k].1@ == y.1;
                    assert(v@[k] == before[k]);
                }
            }
            assert(edge_set(v@) =~= edge_set(before).insert(e));
        }
    }
}

pub(crate) fn remove_edge(v: &mut Vec<(String, String)>, a: &String, b: &String)
    ensures
        edge_set(final(v)@) == edge_set(old(v)@).remove((a@, b@)),
{
    let ghost before = v@;
    let mut kept: Vec<(String, String)> = Vec::new();
    let mut i: usize = 0;
    while i < v.len()
        invariant
            i <= v.len(),
            v@ == before,
            forall|y: (Node, Node)| edge_set(kept@).contains(y) <==> (y != (a@, b@) && exists|j: int| 0 <= j < i && (#[trigger] before[j]).0@ == y.0 && before[j].1@ == y.1),
        decreases v.len() - i,
    {
        let ghost prev = kept@;
        if !(v[i].0 == *a && v[i].1 == *b) {
            kept.push((v[i].0.clone(), v[i].1.clone()));
            proof {
                assert forall|y: (Node, Node)| edge_set(kept@).contains(y) <==> (y != (a@, b@) && exists|j: int| 0 <= j < i + 1 && (#[trigger] before[j]).0@ == y.0 && before[j].1@ == y.1) by {
                    if edge_set(kept@).contains(y) {
                        let k = choose|k: int| 0 <= k < kept@.len() && (#[trigger] kept@[k]).0@ == y.0 && kept@[k].1@ == y.1;
                        if k < prev.len() {
                            assert(kept@[k] == prev[k]);
                            assert(edge_set(prev).contains(y));
                        } else {
                            assert(before[i as int].0@ == y.0);
                        }
                    }
                    if y != (a@, b@) && exists|j: int| 0 <= j < i + 1 && (#[trigger] before[j]).0@ == y.0 && before[j].1@ == y.1 {
                        let j = choose|j: int| 0 <= j < i + 1 && (#[trigger] before[j]).0@ == y.0 && before[j].1@ == y.1;
                        if j < i {
                            assert(edge_set(prev).contains(y));
                            let k = choose|k: int| 0 <= k < prev.len() && (#[trigger] prev[k]).0@ == y.0 && prev[k].1@ == y.1;
                            assert(kept@[k] == prev[k]);
                        } else {
                            assert(kept@[kept@.len() - 1].0@ == y.0);
                        }
                    }
                }
            }
        } else {
            proof {
                assert forall|y: (Node, Node)| edge_set(kept@).contains(y) <==> (y != (a@, b@) && exists|j: int| 0 <= j < i + 1 && (#[trigger] before[j]).0@ == y.0 && before[j].1@ == y.1) by {
                    if y != (a@, b@) && exists|j: int| 0 <= j < i + 1 && (#[trigger] before[j]).0@ == y.0 && before[j].1@ == y.1 {
                        let j = choose|j: int| 0 <= j < i + 1 && (#[trigger] before[j]).0@ == y.0 && before[j].1@ == y.1;
                        if j == i {
                            assert(y == (a@, b@));
                        }
                    }
                }
            }
        }
        i = i + 1;
    }
    *v = kept;
    assert(edge_set(v@) =~= edge_set(before).remove((a@, b@)));
}

pub fn apply_board_dependency_state(state: BoardDependencyState, event: &TicketEvent) -> (r: BoardDependencyState)
    ensures
        r@ == dependency_step(state@, event@),
{
    let mut state = state;
    match event {
        TicketEvent::TicketCreatedV1 { ticket_id, .. } => {
            insert_name(&mut state.tickets, ticket_id);
        },
        TicketEvent::BoardTicketDependencyAddedV1 { ticket_id, dependency_id, .. } => {
            insert_edge(&mut state.dependencies, ticket_id, dependency_id);
        },
        TicketEvent::BoardTicketDependencyRemovedV1 { ticket_id, dependency_id, .. } => {
            remove_edge(&mut state.dependencies, ticket_id, dependency_id);
        },
        TicketEvent::BoardTicketCompletedV1 { ticket_id, .. } => {
            insert_name(&mut state.completed, ticket_id);
        },
        _ => {},
    }
    state
}

/// The dependencies of `ticket` that are not completed yet.
pub open spec fn unresolved(s: BoardDependencyView, ticket: Node) -> Set<Node> {
    Set::new(|d: Node| s.dependencies.contains((ticket, d)) && !s.completed.contains(d))
}

impl BoardDependencyState {
    pub fn contains_ticket(&self, ticket_id: &String) -> (r: bool)
        ensures
            r == self@.tickets.contains(ticket_id@),
    {
        contains_name(&self.tickets, ticket_id)
    }

    pub fn has_dependency(&self, ticket_id: &String, dependency_id: &String) -> (r: bool)
        ensures
            r == self@.dependencies.contains((ticket_id@, dependency_id@)),
    {
        contains_edge(&self.dependencies, ticket_id, dependency_id)
    }

    /// The dependencies of `ticket_id` that still block it.
    pub fn unresolved_dependencies(&self, ticket_id: &String) -> (r: Vec<String>)
        ensures
            names(r@) == unresolved(self@, ticket_id@),
    {
        let mut r: Vec<String> = Vec::new();
        let mut i: usize = 0;
        while i < self.dependencies.len()
            invariant
                i <= self.dependencies.len(),
                forall|d: Node| names(r@).contains(d) <==> (!self@.completed.contains(d) && exists|j: int| 0 <= j < i && (#[trigger] self.dependencies@[j]).0@ == ticket_id@ && self.dependencies@[j].1@ == d),
            decreases self.dependencies.len() - i,
        {
            let ghost prev = names(r@);
            if self.dependencies[i].0 == *ticket_id && !contains_name(&self.completed, &self.dependencies[i].1) {
                push_name(&mut r, &self.dependencies[i].1);
            }
            proof {
                assert forall|d: Node| names(r@).contains(d) <==> (!self@.completed.contains(d) && exists|j: int| 0 <= j < i + 1 && (#[trigger] self.dependencies@[j]).0@ == ticket_id@ && self.dependencies@[j].1@ == d) by {
                    if !self@.completed.contains(d) && exists|j: int| 0 <= j < i + 1 && (#[trigger] self.dependencies@[j]).0@ == ticket_id@ && self.dependencies@[j].1@ == d {
                        let j = choose|j: int| 0 <= j < i + 1 && (#[trigger] self.dependencies@[j]).0@ == ticket_id@ && self.dependencies@[j].1@ == d;
                        if j < i {
                            assert(prev.contains(d));
                        }
                    }
                }
            }
            i = i + 1;
        }
        assert(names(r@) =~= unresolved(self@, ticket_id@));
        r
    }

    /// Whether depending `ticket_id` on `dependency_id` would close a cycle:
    /// whether the ticket is already reachable from the dependency.
    pub fn would_create_cycle(&self, ticket_id: &String, dependency_id: &String) -> (r: bool)
        ensures
            r == reaches(self@.dependencies, dependency_id@, ticket_id@),
    {
        reaches_along(&self.dependencies, dependency_id, ticket_id)
    }
}


/// Why a ticket command refuses to emit facts.
#[derive(Clone, Copy, Debug, PartialEq, Eq, Structural)]
pub enum TicketCommandError {
    TicketDoesNotExist,
    TicketAlreadyCompleted,
    TicketAlreadyClaimed,
    UnresolvedDependencies,
    NotClaimedByOwner,
    TicketAlreadyExists,
    SelfDependency,
    DependencyAlreadyExists,
    DependencyCycle,
    DependencyDoesNotExist,
}

pub open spec fn ticket_error_text(e: TicketCommandError) -> Seq<char> {
    match e {
        TicketCommandError::TicketDoesNotExist => "ticket does not exist"@,
        TicketCommandError::TicketAlreadyCompleted => "ticket is already completed"@,
        TicketCommandError::TicketAlreadyClaimed => "ticket already claimed"@,
        TicketCommandError::UnresolvedDependencies => "ticket has unresolved dependencies"@,
        TicketCommandError::NotClaimedByOwner => "ticket is not claimed by owner"@,
        TicketCommandError::TicketAlreadyExists => "ticket already exists"@,
        TicketCommandError::SelfDependency => "ticket cannot depend on itself"@,
        TicketCommandError::DependencyAlreadyExists => "dependency already exists"@,
        TicketCommandError::DependencyCycle => "dependency would create a cycle"@,
        TicketCommandError::DependencyDoesNotExist => "dependency does not exist"@,
    }
}

impl TicketCommandError {
    pub fn as_str(&self) -> (r: &'static str)
        ensures
            r@ == ticket_error_text(*self),
    {
        match self {
            TicketCommandError::TicketDoesNotExist => "ticket does not exist",
            TicketCommandError::TicketAlreadyCompleted => "ticket is already completed",
            TicketCommandError::TicketAlreadyClaimed => "ticket already claimed",
            TicketCommandError::UnresolvedDependencies => "ticket has unresolved dependencies",
            TicketCommandError::NotClaimedByOwner => "ticket is not claimed by owner",
            TicketCommandError::TicketAlreadyExists => "ticket already exists",
            TicketCommandError::SelfDependency => "ticket cannot depend on itself",
            TicketCommandError::DependencyAlreadyExists => "dependency already exists",
            TicketCommandError::DependencyCycle => "dependency would create a cycle",
            TicketCommandError::DependencyDoesNotExist => "dependency does not exist",
        }
    }
}

pub open spec fn fact_views(events: Seq<TicketEvent>) -> Seq<TicketFact> {
    events.map_values(|e: TicketEvent| e@)
}

/// What claiming a ticket needs: the ticket's own state and the board's
/// dependency facts.
#[derive(Debug, Default)]
pub struct ClaimTicketState {
    pub ticket: TicketState,
    pub board: BoardDependencyState,
}

/// Claims an unclaimed, open ticket whose dependencies are all completed.
#[derive(Debug, Clone)]
pub struct ClaimTicket {
    pub ticket_id: String,
    pub board_id: String,
    pub owner: String,
}

/// The claim decision.
pub open spec fn claim_decision(
    ticket: TicketStateView,
    board: BoardDependencyView,
    ticket_id: Seq<char>,
    board_id: Seq<char>,
    owner: Seq<char>,
) -> Result<Seq<TicketFact>, TicketCommandError> {
    if !ticket.exists {
        Err(TicketCommandError::TicketDoesNotExist)
    } else if ticket.completed {
        Err(TicketCommandError::TicketAlreadyCompleted)
    } else if ticket.owner is Some {
        Err(TicketCommandError::TicketAlreadyClaimed)
    } else if !unresolved(board, ticket_id).is_empty() {
        Err(TicketCommandError::UnresolvedDependencies)
    } else {
        Ok(
            seq![
                TicketFact::Claimed { ticket: ticket_id, owner },
                TicketFact::BoardClaimed { board: board_id, ticket: ticket_id, owner },
            ],
        )
    }
}

pub open spec fn same_result(r: Result<Vec<TicketEvent>, TicketCommandError>, s: Result<Seq<TicketFact>, TicketCommandError>) -> bool {
    match (r, s) {
        (Ok(events), Ok(facts)) => fact_views(events@) == facts,
        (Err(e), Err(f)) => e == f,
        _ => false,
    }
}

impl ClaimTicket {
    pub fn apply(&self, state: ClaimTicketState, event: &TicketEvent) -> (r: ClaimTicketState)
        ensures
            r.ticket@ == ticket_step(state.ticket@, self.ticket_id@, event@),
            r.board@ == dependency_step(state.board@, event@),
    {
        let ClaimTicketState { ticket, board } = state;
        ClaimTicketState {
            ticket: apply_ticket_state(ticket, &self.ticket_id, event),
            board: apply_board_dependency_state(board, event),
        }
    }

    pub fn handle(&self, state: ClaimTicketState) -> (r: Result<Vec<TicketEvent>, TicketCommandError>)
        ensures
            same_result(r, claim_decision(state.ticket@, state.board@, self.ticket_id@, self.board_id@, self.owner@)),
    {
        if !state.ticket.exists {
            return Err(TicketCommandError::TicketDoesNotExist);
        }
        if state.ticket.completed {
            return Err(TicketCommandError::TicketAlreadyCompleted);
        }
        if state.ticket.owner.is_some() {
            return Err(TicketCommandError::TicketAlreadyClaimed);
        }
        let unresolved_dependencies = state.board.unresolved_dependencies(&self.ticket_id);
        if unresolved_dependencies.len() > 0 {
            proof {
                assert(names(unresolved_dependencies@).contains(unresolved_dependencies@[0]@));
            }
            return Err(TicketCommandError::UnresolvedDependencies);
        }
        assert(names(unresolved_dependencies@) =~= Set::<Node>::empty());
        let mut events = Vec::new();
        events.push(TicketEvent::TicketClaimedV1 { ticket_id: self.ticket_id.clone(), owner: self.owner.clone() });
        events.push(
            TicketEvent::BoardTicketClaimedV1 {
                board_id: self.board_id.clone(),
                ticket_id: self.ticket_id.clone(),
                owner: self.owner.clone(),
            },
        );
        assert(fact_views(events@) =~= seq![
            TicketFact::Claimed { ticket: self.ticket_id@, owner: self.owner@ },
            TicketFact::BoardClaimed { board: self.board_id@, ticket: self.ticket_id@, owner: self.owner@ },
        ]);
        Ok(events)
    }
}

/// Releases a claim held by the given owner.
#[derive(Debug, Clone)]
pub struct ReleaseTicket {
    pub ticket_id: String,
    pub board_id: String,
    pub owner: String,
}

pub open spec fn release_decision(ticket: TicketStateView, ticket_id: Seq<char>, board_id: Seq<char>, owner: Seq<char>) -> Result<Seq<TicketFact>, TicketCommandError> {
    if !ticket.exists {
        Err(TicketCommandError::TicketDoesNotExist)
    } else if ticket.owner != Some(owner) {
        Err(TicketCommandError::NotClaimedByOwner)
    } else {
        Ok(
            seq![
                TicketFact::ClaimReleased { ticket: ticket_id, owner },
                TicketFact::BoardClaimReleased { board: board_id, ticket: ticket_id, owner },
            ],
        )
    }
}

impl ReleaseTicket {
    pub fn apply(&self, state: TicketState, event: &TicketEvent) -> (r: TicketState)
        ensures
            r@ == ticket_step(state@, self.ticket_id@, event@),
    {
        apply_ticket_state(state, &self.ticket_id, event)
    }

    pub fn handle(&self, state: TicketState) -> (r: Result<Vec<TicketEvent>, TicketCommandError>)
        ensures
            same_result(r, release_decision(state@, self.ticket_id@, self.board_id@, self.owner@)),
    {
        if !state.exists {
            return Err(TicketCommandError::TicketDoesNotExist);
        }
        if !same_opt(&state.owner, &self.owner) {
            return Err(TicketCommandError::NotClaimedByOwner);
        }
        let mut events = Vec::new();
        events.push(TicketEvent::TicketClaimReleasedV1 { ticket_id: self.ticket_id.clone(), owner: self.owner.clone() });
        events.push(
            TicketEvent::BoardTicketClaimReleasedV1 {
                board_id: self.board_id.clone(),
                ticket_id: self.ticket_id.clone(),
                owner: self.owner.clone(),
            },
        );
        assert(fact_views(events@) =~= seq![
            TicketFact::ClaimReleased { ticket: self.ticket_id@, owner: self.owner@ },
            TicketFact::BoardClaimReleased { board: self.board_id@, ticket: self.ticket_id@, owner: self.owner@ },
        ]);
        Ok(events)
    }
}

/// Completes a ticket claimed by the given owner.
#[derive(Debug, Clone)]
pub struct CompleteTicket {
    pub ticket_id: String,
    pub board_id: String,
    pub owner: String,
}

pub open spec fn complete_decision(ticket: TicketStateView, ticket_id: Seq<char>, board_id: Seq<char>, owner: Seq<char>) -> Result<Seq<TicketFact>, TicketCommandError> {
    if !ticket.exists {
        Err(TicketCommandError::TicketDoesNotExist)
    } else if ticket.completed {
        Err(TicketCommandError::TicketAlreadyCompleted)
    } else if ticket.owner != Some(owner) {
        Err(TicketCommandError::NotClaimedByOwner)
    } else {
        Ok(
            seq![
                TicketFact::Completed { ticket: ticket_id, owner },
                TicketFact::BoardCompleted { board: board_id, ticket: ticket_id, owner },
            ],
        )
    }
}

impl CompleteTicket {
    pub fn apply(&self, state: TicketState, event: &TicketEvent) -> (r: TicketState)
        ensures
            r@ == ticket_step(state@, self.ticket_id@, event@),
    {
        apply_ticket_state(state, &self.ticket_id, event)
    }

    pub fn handle(&self, state: TicketState) -> (r: Result<Vec<TicketEvent>, TicketCommandError>)
        ensures
            same_result(r, complete_decision(state@, self.ticket_id@, self.board_id@, self.owner@)),
    {
        if !state.exists {
            return Err(TicketCommandError::TicketDoesNotExist);
        }
        if state.completed {
            return Err(TicketCommandError::TicketAlreadyCompleted);
        }
        if !same_opt(&state.owner, &self.owner) {
            return Err(TicketCommandError::NotClaimedByOwner);
        }
        let mut events = Vec::new();
        events.push(TicketEvent::TicketCompletedV1 { ticket_id: self.ticket_id.clone(), owner: self.owner.clone() });
        events.push(
            TicketEvent::BoardTicketCompletedV1 {
                board_id: self.board_id.clone(),
                ticket_id: self.ticket_id.clone(),
                owner: self.owner.clone(),
            },
        );
        assert(fact_views(events@) =~= seq![
            TicketFact::Completed { ticket: self.ticket_id@, owner: self.owner@ },
            TicketFact::BoardCompleted { board: self.board_id@, ticket: self.ticket_id@, owner: self.owner@ },
        ]);
        Ok(events)
    }
}

/// Creates a ticket in its own, still empty, stream.
#[derive(Debug, Clone)]
pub struct CreateTicket {
    pub ticket_id: String,
    pub title: String,
}

impl CreateTicket {
    /// Any fact in the ticket's stream means that the ticket exists.
    pub fn apply(&self, state: bool, event: &TicketEvent) -> (r: bool)
        ensures
            r,
    {
        true
    }

    pub fn handle(&self, exists: bool) -> (r: Result<Vec<TicketEvent>, TicketCommandError>)
        ensures
            same_result(
                r,
                if exists {
                    Err(TicketCommandError::TicketAlreadyExists)
                } else {
                    Ok(seq![TicketFact::Created { ticket: self.ticket_id@, title: self.title@ }])
                },
            ),
    {
        if exists {
            return Err(TicketCommandError::TicketAlreadyExists);
        }
        let mut events = Vec::new();
        events.push(TicketEvent::TicketCreatedV1 { ticket_id: self.ticket_id.clone(), title: self.title.clone() });
        assert(fact_views(events@) =~= seq![TicketFact::Created { ticket: self.ticket_id@, title: self.title@ }]);
        Ok(events)
    }
}

/// Sets the board priority of an existing ticket.
#[derive(Debug, Clone)]
pub struct PrioritizeTicket {
    pub ticket_id: String,
    pub board_id: String,
    pub priority: u8,
}

impl PrioritizeTicket {
    pub fn apply(&self, state: TicketState, event: &TicketEvent) -> (r: TicketState)
        ensures
            r@ == ticket_step(state@, self.ticket_id@, event@),
    {
        apply_ticket_state(state, &self.ticket_id, event)
    }

    pub fn handle(&self, state: TicketState) -> (r: Result<Vec<TicketEvent>, TicketCommandError>)
        ensures
            same_result(
                r,
                if !state@.exists {
                    Err(TicketCommandError::TicketDoesNotExist)
                } else {
                    Ok(seq![TicketFact::BoardPrioritySet { board: self.board_id@, ticket: self.ticket_id@, priority: self.priority }])
                },
            ),
    {
        if !state.exists {
            return Err(TicketCommandError::TicketDoesNotExist);
        }
        let mut events = Vec::new();
        events.push(
            TicketEvent::BoardTicketPrioritySetV1 {
                board_id: self.board_id.clone(),
                ticket_id: self.ticket_id.clone(),
                priority: self.priority,
            },
        );
        assert(fact_views(events@) =~= seq![TicketFact::BoardPrioritySet { board: self.board_id@, ticket: self.ticket_id@, priority: self.priority }]);
        Ok(events)
    }
}

/// Makes one existing ticket wait for another.
#[derive(Debug, Clone)]
pub struct AddTicketDependency {
    pub ticket_id: String,
    pub dependency_id: String,
    pub board_id: String,
}

pub open spec fn add_dependency_decision(board: BoardDependencyView, ticket_id: Seq<char>, dependency_id: Seq<char>, board_id: Seq<char>) -> Result<Seq<TicketFact>, TicketCommandError> {
    if !board.tickets.contains(ticket_id) || !board.tickets.contains(dependency_id) {
        Err(TicketCommandError::TicketDoesNotExist)
    } else if ticket_id == dependency_id {
        Err(TicketCommandError::SelfDependency)
    } else if board.dependencies.contains((ticket_id, dependency_id)) {
        Err(TicketCommandError::DependencyAlreadyExists)
    } else if reaches(board.dependencies, dependency_id, ticket_id) {
        Err(TicketCommandError::DependencyCycle)
    } else {
        Ok(seq![TicketFact::BoardDependencyAdded { board: board_id, ticket: ticket_id, dependency: dependency_id }])
    }
}

impl AddTicketDependency {
    pub fn apply(&self, state: BoardDependencyState, event: &TicketEvent) -> (r: BoardDependencyState)
        ensures
            r@ == dependency_step(state@, event@),
    {
        apply_board_dependency_state(state, event)
    }

    pub fn handle(&self, state: BoardDependencyState) -> (r: Result<Vec<TicketEvent>, TicketCommandError>)
        ensures
            same_result(r, add_dependency_decision(state@, self.ticket_id@, self.dependency_id@, self.board_id@)),
    {
        if !state.contains_ticket(&self.ticket_id) || !state.contains_ticket(&self.dependency_id) {
            return Err(TicketCommandError::TicketDoesNotExist);
        }
        if self.ticket_id == self.dependency_id {
            return Err(TicketCommandError::SelfDependency);
        }
        if state.has_dependency(&self.ticket_id, &self.dependency_id) {
            return Err(TicketCommandError::DependencyAlreadyExists);
        }
        if state.would_create_cycle(&self.ticket_id, &self.dependency_id) {
            return Err(TicketCommandError::DependencyCycle);
        }
        let mut events = Vec::new();
        events.push(
            TicketEvent::BoardTicketDependencyAddedV1 {
                board_id: self.board_id.clone(),
                ticket_id: self.ticket_id.clone(),
                dependency_id: self.dependency_id.clone(),
            },
        );
        assert(fact_views(events@) =~= seq![TicketFact::BoardDependencyAdded { board: self.board_id@, ticket: self.ticket_id@, dependency: self.dependency_id@ }]);
        Ok(events)
    }
}

/// Removes an existing dependency between two existing tickets.
#[derive(Debug, Clone)]
pub struct RemoveTicketDependency {
    pub ticket_id: String,
    pub dependency_id: String,
    pub board_id: String,
}

pub open spec fn remove_dependency_decision(board: BoardDependencyView, ticket_id: Seq<char>, dependency_id: Seq<char>, board_id: Seq<char>) -> Result<Seq<TicketFact>, TicketCommandError> {
    if !board.tickets.contains(ticket_id) || !board.tickets.contains(dependency_id) {
        Err(TicketCommandError::TicketDoesNotExist)
    } else if !board.dependencies.contains((ticket_id, dependency_id)) {
        Err(TicketCommandError::DependencyDoesNotExist)
    } else {
        Ok(seq![TicketFact::BoardDependencyRemoved { board: board_id, ticket: ticket_id, dependency: dependency_id }])
    }
}

impl RemoveTicketDependency {
    pub fn apply(&self, state: BoardDependencyState, event: &TicketEvent) -> (r: BoardDependencyState)
        ensures
            r@ == dependency_step(state@, event@),
    {
        apply_board_dependency_state(state, event)
    }

    pub fn handle(&self, state: BoardDependencyState) -> (r: Result<Vec<TicketEvent>, TicketCommandError>)
        ensures
            same_result(r, remove_dependency_decision(state@, self.ticket_id@, self.dependency_id@, self.board_id@)),
    {
        if !state.contains_ticket(&self.ticket_id) || !state.contains_ticket(&self.dependency_id) {
            return Err(TicketCommandError::TicketDoesNotExist);
        }
        if !state.has_dependency(&self.ticket_id, &self.dependency_id) {
            return Err(TicketCommandError::DependencyDoesNotExist);
        }
        let mut events = Vec::new();
        events.push(
            TicketEvent::BoardTicketDependencyRemovedV1 {
                board_id: self.board_id.clone(),
                ticket_id: self.ticket_id.clone(),
                dependency_id: self.dependency_id.clone(),
            },
        );
        assert(fact_views(events@) =~= seq![TicketFact::BoardDependencyRemoved { board: self.board_id@, ticket: self.ticket_id@, dependency: self.dependency_id@ }]);
        Ok(events)
    }
}

/// Folds a sequence of facts into a dependency state.
pub open spec fn dependency_fold(s: BoardDependencyView, facts: Seq<TicketFact>) -> BoardDependencyView
    decreases facts.len(),
{
    if facts.len() == 0 {
        s
    } else {
        dependency_fold(dependency_step(s, facts[0]), facts.drop_first())
    }
}

/// The board never holds a dependency cycle: every fact that a dependency
/// command decides keeps an acyclic board acyclic.
pub proof fn lemma_dependency_commands_keep_acyclic(board: BoardDependencyView, ticket_id: Seq<char>, dependency_id: Seq<char>, board_id: Seq<char>)
    requires
        acyclic(board.dependencies),
    ensures
        add_dependency_decision(board, ticket_id, dependency_id, board_id) matches Ok(facts)
            ==> acyclic(dependency_fold(board, facts).dependencies),
        remove_dependency_decision(board, ticket_id, dependency_id, board_id) matches Ok(facts)
            ==> acyclic(dependency_fold(board, facts).dependencies),
{
    reveal_with_fuel(dependency_fold, 2);
    if let Ok(facts) = add_dependency_decision(board, ticket_id, dependency_id, board_id) {
        lemma_insert_keeps_acyclic(board.dependencies, ticket_id, dependency_id);
        assert(facts.drop_first() =~= Seq::<TicketFact>::empty());
    }
    if let Ok(facts) = remove_dependency_decision(board, ticket_id, dependency_id, board_id) {
        lemma_subset_keeps_acyclic(board.dependencies, board.dependencies.remove((ticket_id, dependency_id)));
        assert(facts.drop_first() =~= Seq::<TicketFact>::empty());
    }
}

/// Folds facts into the state of one ticket.
pub open spec fn ticket_fold(s: TicketStateView, ticket: Seq<char>, facts: Seq<TicketFact>) -> TicketStateView
    decreases facts.len(),
{
    if facts.len() == 0 {
        s
    } else {
        ticket_fold(ticket_step(s, ticket, facts[0]), ticket, facts.drop_first())
    }
}

/// What a successful claim, release or completion decides is what replaying
/// its facts gives: a claim makes the owner the claimant, a release clears
/// the claim, and a completion clears it and marks the ticket completed.
pub proof fn lemma_ticket_decisions_replay(ticket: TicketStateView, board: BoardDependencyView, ticket_id: Seq<char>, board_id: Seq<char>, owner: Seq<char>)
    requires
        board_id != ticket_id,
    ensures
        claim_decision(ticket, board, ticket_id, board_id, owner) matches Ok(facts)
            ==> ticket_fold(ticket, ticket_id, facts) == (TicketStateView { owner: Some(owner), ..ticket }),
        release_decision(ticket, ticket_id, board_id, owner) matches Ok(facts)
            ==> ticket_fold(ticket, ticket_id, facts) == (TicketStateView { owner: None, ..ticket }),
        complete_decision(ticket, ticket_id, board_id, owner) matches Ok(facts)
            ==> ticket_fold(ticket, ticket_id, facts) == (TicketStateView { owner: None, completed: true, ..ticket }),
{
    reveal_with_fuel(ticket_fold, 3);
    if let Ok(facts) = claim_decision(ticket, board, ticket_id, board_id, owner) {
        assert(facts.drop_first().drop_first() =~= Seq::<TicketFact>::empty());
    }
    if let Ok(facts) = release_decision(ticket, ticket_id, board_id, owner) {
        assert(facts.drop_first().drop_first() =~= Seq::<TicketFact>::empty());
    }
    if let Ok(facts) = complete_decision(ticket, ticket_id, board_id, owner) {
        assert(facts.drop_first().drop_first() =~= Seq::<TicketFact>::empty());
    }
}

} // verus!
