//! Creating, prioritizing and transitioning tasks on the board: what each
//! command folds from the board's facts, and the facts it decides.
use vstd::prelude::*;
use crate::ci_types::{duplicate_strings, strings_view};
use crate::graph::{contains_name, names, Node};
use crate::status_table::{
    count_status, status_of, with_status, without_stem, StatusEntries, StatusTable,
};
use crate::task_commands::{remove_name, BOARD_STREAM};
use crate::task_creation::{creation_stem, task_stem_for_creation};
use crate::task_projection::{
    duplicate_claim, duplicate_snapshot, opt_view, Claim, ClaimView, CompletionSnapshot, TaskFact,
};
use crate::final_review::{
    apply_final_review_record_to_clean_sequence, authority_decision, enforce_final_review_authority_snapshot,
    next_clean_run, FinalReviewRecord, ReviewView,
};
use crate::text::{owned, str_eq};

verus! {

/// Why a board command refuses.
#[derive(Clone, Copy, Debug, PartialEq, Eq, Structural)]
pub enum BoardCommandError {
    /// The command names a task the board does not have.
    TaskMissing,
    /// The chosen stem already names a task.
    TaskAlreadyExists,
    /// The backlog is full.
    BacklogCapacityExceeded { queued: usize, max_queued: usize },
    /// Completion is refused by the final-review barrier.
    FinalReview(crate::final_review::FinalReviewGateError),
    /// Completion names no immutable snapshot to complete at.
    CompletionSnapshotMissing,
    /// The snapshot is not the one the latest clean review saw.
    CompletionSnapshotChanged { required: usize },
    /// The task to place before is not on the board order.
    PrioritizationTargetNotOnBoard,
    /// A commit trailer names a task the board does not have.
    TrailerTaskMissing,
    /// The task a link starts from is unknown.
    LinkSourceMissing,
    /// The task a link points to is unknown.
    LinkTargetMissing,
    /// The task to update is unknown.
    UpdateTaskMissing,
    /// The task to note on is unknown.
    NoteTaskMissing,
    /// The task a final review is for is unknown.
    FinalReviewTaskMissing,
}

impl BoardCommandError {
    /// The stable code of the refusal.
    pub fn code(self) -> (r: &'static str)
        ensures
            r@ == board_error_code(self),
    {
        match self {
            BoardCommandError::TaskMissing => "tiber_task_missing",
            BoardCommandError::TaskAlreadyExists => "tiber_task_already_exists",
            BoardCommandError::BacklogCapacityExceeded { .. } => "tiber_backlog_capacity_exceeded",
            BoardCommandError::FinalReview(e) => e.code(),
            BoardCommandError::CompletionSnapshotMissing => "tiber.final_review_completion_snapshot_missing",
            BoardCommandError::CompletionSnapshotChanged { .. } => "tiber.final_review_completion_snapshot_changed",
            BoardCommandError::PrioritizationTargetNotOnBoard => "tiber_prioritization_target_not_on_board",
            BoardCommandError::TrailerTaskMissing => "tiber_trailer_task_missing",
            BoardCommandError::LinkSourceMissing => "tiber_link_source_missing",
            BoardCommandError::LinkTargetMissing => "tiber_link_target_missing",
            BoardCommandError::UpdateTaskMissing => "tiber_update_task_missing",
            BoardCommandError::NoteTaskMissing => "tiber_note_task_missing",
            BoardCommandError::FinalReviewTaskMissing => "tiber_final_review_task_missing",
        }
    }
}

pub open spec fn board_error_code(e: BoardCommandError) -> Seq<char> {
    match e {
        BoardCommandError::TaskMissing => "tiber_task_missing"@,
        BoardCommandError::TaskAlreadyExists => "tiber_task_already_exists"@,
        BoardCommandError::BacklogCapacityExceeded { .. } => "tiber_backlog_capacity_exceeded"@,
        BoardCommandError::FinalReview(e) => crate::final_review::gate_error_code(e),
        BoardCommandError::CompletionSnapshotMissing => "tiber.final_review_completion_snapshot_missing"@,
        BoardCommandError::CompletionSnapshotChanged { .. } => "tiber.final_review_completion_snapshot_changed"@,
        BoardCommandError::PrioritizationTargetNotOnBoard => "tiber_prioritization_target_not_on_board"@,
        BoardCommandError::TrailerTaskMissing => "tiber_trailer_task_missing"@,
        BoardCommandError::LinkSourceMissing => "tiber_link_source_missing"@,
        BoardCommandError::LinkTargetMissing => "tiber_link_target_missing"@,
        BoardCommandError::UpdateTaskMissing => "tiber_update_task_missing"@,
        BoardCommandError::NoteTaskMissing => "tiber_note_task_missing"@,
        BoardCommandError::FinalReviewTaskMissing => "tiber_final_review_task_missing"@,
    }
}

// ---------------------------------------------------------------------------
// Orders

/// `s` without any entry equal to `x` (`retain`).
pub open spec fn seq_without(s: Seq<Seq<char>>, x: Seq<char>) -> Seq<Seq<char>>
    decreases s.len(),
{
    if s.len() == 0 {
        s
    } else {
        let rest = seq_without(s.drop_last(), x);
        if s.last() == x {
            rest
        } else {
            rest.push(s.last())
        }
    }
}

/// The first position of `x` in `s`.
pub open spec fn first_position(s: Seq<Seq<char>>, x: Seq<char>) -> Option<int>
    decreases s.len(),
{
    if s.len() == 0 {
        None
    } else if s[0] == x {
        Some(0)
    } else {
        match first_position(s.drop_first(), x) {
            Some(j) => Some(j + 1),
            None => None,
        }
    }
}

pub(crate) proof fn lemma_first_position_bounds(s: Seq<Seq<char>>, x: Seq<char>)
    ensures
        first_position(s, x) matches Some(i) ==> 0 <= i < s.len() && s[i] == x,
        first_position(s, x) is None <==> !s.contains(x),
    decreases s.len(),
{
    if s.len() > 0 && s[0] != x {
        lemma_first_position_bounds(s.drop_first(), x);
        if s.contains(x) {
            let j = choose|j: int| 0 <= j < s.len() && s[j] == x;
            assert(s.drop_first()[j - 1] == x);
        }
        if s.drop_first().contains(x) {
            let j = choose|j: int| 0 <= j < s.drop_first().len() && s.drop_first()[j] == x;
            assert(s[j + 1] == x);
        }
    } else if s.len() > 0 {
        assert(s[0] == x);
    }
}

pub(crate) fn without_name(v: &Vec<String>, x: &String) -> (r: Vec<String>)
    ensures
        strings_view(r@) == seq_without(strings_view(v@), x@),
{
    let ghost all = strings_view(v@);
    let mut kept: Vec<String> = Vec::new();
    let mut i: usize = 0;
    while i < v.len()
        invariant
            i <= v@.len(),
            all == strings_view(v@),
            strings_view(kept@) == seq_without(all.take(i as int), x@),
        decreases v.len() - i,
    {
        assert(all.take(i + 1).drop_last() =~= all.take(i as int));
        assert(all.take(i + 1).last() == v@[i as int]@);
        if !str_eq(v[i].as_str(), x.as_str()) {
            let ghost before = strings_view(kept@);
            kept.push(v[i].clone());
            assert(strings_view(kept@) =~= before.push(v@[i as int]@));
        }
        i = i + 1;
    }
    assert(all.take(i as int) =~= all);
    kept
}

pub(crate) fn position_of(v: &Vec<String>, x: &String) -> (r: Option<usize>)
    ensures
        match r {
            Some(i) => first_position(strings_view(v@), x@) == Some(i as int) && i < v@.len(),
            None => first_position(strings_view(v@), x@) is None,
        },
{
    let ghost all = strings_view(v@);
    let mut j: usize = 0;
    assert(all.skip(0) =~= all);
    while j < v.len()
        invariant
            j <= v@.len(),
            all == strings_view(v@),
            first_position(all, x@) == (match first_position(all.skip(j as int), x@) {
                Some(k) => Some(k + j),
                None => None,
            }),
        decreases v.len() - j,
    {
        assert(all.skip(j as int)[0] == v@[j as int]@);
        assert(all.skip(j as int).drop_first() =~= all.skip(j + 1));
        if str_eq(v[j].as_str(), x.as_str()) {
            return Some(j);
        }
        j = j + 1;
    }
    assert(all.skip(j as int) =~= Seq::<Seq<char>>::empty());
    None
}

pub(crate) proof fn lemma_names_contains(v: Seq<String>, x: Seq<char>)
    ensures
        names(v).contains(x) <==> strings_view(v).contains(x),
{
    if names(v).contains(x) {
        let i = choose|i: int| 0 <= i < v.len() && (#[trigger] v[i])@ == x;
        assert(strings_view(v)[i] == x);
    }
    if strings_view(v).contains(x) {
        let i = choose|i: int| 0 <= i < strings_view(v).len() && strings_view(v)[i] == x;
        assert(v[i]@ == x);
    }
}

/// The order with `task` moved to just before `before`.
pub open spec fn prioritized_order(order: Seq<Seq<char>>, task: Seq<char>, before: Seq<char>) -> Option<
    Seq<Seq<char>>,
> {
    let rest = seq_without(order, task);
    match first_position(rest, before) {
        Some(p) => Some(rest.insert(p, task)),
        None => None,
    }
}

/// Moves `task_stem` to just before `before_stem` on the board order;
/// nothing is recorded when it already stands there.
pub fn decide_prioritize_task(board_order: &Vec<String>, task_stem: &String, before_stem: &String) -> (r:
    Result<Option<TaskFact>, BoardCommandError>)
    ensures
        match prioritized_order(strings_view(board_order@), task_stem@, before_stem@) {
            None => r == Err::<Option<TaskFact>, BoardCommandError>(
                BoardCommandError::PrioritizationTargetNotOnBoard,
            ),
            Some(order) => if order == strings_view(board_order@) {
                r == Ok::<Option<TaskFact>, BoardCommandError>(None)
            } else {
                r matches Ok(Some(TaskFact::TaskPriorityChanged { order: o })) && strings_view(o@) == order
            },
        },
{
    let mut order = without_name(board_order, task_stem);
    let p = match position_of(&order, before_stem) {
        None => {
            return Err(BoardCommandError::PrioritizationTargetNotOnBoard);
        },
        Some(p) => p,
    };
    let ghost rest = strings_view(order@);
    order.insert(p, task_stem.clone());
    assert(strings_view(order@) =~= rest.insert(p as int, task_stem@));
    if crate::final_review::strings_eq(&order, board_order) {
        return Ok(None);
    }
    Ok(Some(TaskFact::TaskPriorityChanged { order }))
}

// ---------------------------------------------------------------------------
// The board and every task's status

/// What creating and transitioning fold: the board order and members, and
/// the status of every task.
#[derive(Debug, Default)]
pub struct BoardStatusState {
    pub board_order: Vec<String>,
    pub board_task_stems: Vec<String>,
    pub task_statuses: StatusTable,
}

pub struct BoardStatusView {
    pub board_order: Seq<Seq<char>>,
    pub board_task_stems: Set<Node>,
    pub task_statuses: StatusEntries,
}

impl View for BoardStatusState {
    type V = BoardStatusView;

    open spec fn view(&self) -> BoardStatusView {
        BoardStatusView {
            board_order: strings_view(self.board_order@),
            board_task_stems: names(self.board_task_stems@),
            task_statuses: self.task_statuses@,
        }
    }
}

/// Every stem of `stems` marked done, in turn.
pub open spec fn all_done(t: StatusEntries, stems: Seq<Seq<char>>) -> StatusEntries
    decreases stems.len(),
{
    if stems.len() == 0 {
        t
    } else {
        with_status(all_done(t, stems.drop_last()), stems.last(), "done"@)
    }
}

/// The board and statuses after one fact.
pub open spec fn board_status_step(s: BoardStatusView, f: TaskFact) -> BoardStatusView {
    match f {
        TaskFact::TaskCreated { stream_id, task } => BoardStatusView {
            board_task_stems: if stream_id@ == BOARD_STREAM@ {
                s.board_task_stems.insert(task.stem@)
            } else {
                s.board_task_stems
            },
            task_statuses: with_status(s.task_statuses, task.stem@, task.status@),
            ..s
        },
        TaskFact::TaskTransitioned { stem, status, .. } => BoardStatusView {
            task_statuses: with_status(s.task_statuses, stem@, status@),
            ..s
        },
        TaskFact::LegacyTaskClosedFromTrailer { stem } => BoardStatusView {
            task_statuses: with_status(s.task_statuses, stem@, "done"@),
            ..s
        },
        TaskFact::TasksClosedFromCommitTrailers { stems, order, .. } => BoardStatusView {
            board_order: strings_view(order@),
            task_statuses: all_done(s.task_statuses, strings_view(stems@)),
            ..s
        },
        TaskFact::LegacyTaskRemoved { stem } => BoardStatusView {
            board_task_stems: s.board_task_stems.remove(stem@),
            task_statuses: without_stem(s.task_statuses, stem@),
            ..s
        },
        TaskFact::TaskPriorityChanged { order } => BoardStatusView { board_order: strings_view(order@), ..s },
        TaskFact::BoardReordered { order } => BoardStatusView { board_order: strings_view(order@), ..s },
        _ => s,
    }
}

/// Folds one fact into the board and statuses.
pub fn evolve_board_statuses(state: BoardStatusState, f: &TaskFact) -> (r: BoardStatusState)
    ensures
        r@ == board_status_step(state@, *f),
{
    let BoardStatusState { board_order, board_task_stems, task_statuses } = state;
    let mut board_order = board_order;
    let mut board_task_stems = board_task_stems;
    let mut task_statuses = task_statuses;
    match f {
        TaskFact::TaskCreated { stream_id, task } => {
            if str_eq(stream_id.as_str(), BOARD_STREAM) {
                crate::tickets::insert_name(&mut board_task_stems, &task.stem);
            }
            task_statuses.set(&task.stem, &task.status);
        },
        TaskFact::TaskTransitioned { stem, status, .. } => {
            task_statuses.set(stem, status);
        },
        TaskFact::LegacyTaskClosedFromTrailer { stem } => {
            task_statuses.set(stem, &owned("done"));
        },
        TaskFact::TasksClosedFromCommitTrailers { stems, order, .. } => {
            let ghost all = strings_view(stems@);
            let ghost start = task_statuses@;
            let done = owned("done");
            let mut i: usize = 0;
            while i < stems.len()
                invariant
                    i <= stems@.len(),
                    all == strings_view(stems@),
                    done@ == "done"@,
                    task_statuses@ == all_done(start, all.take(i as int)),
                decreases stems.len() - i,
            {
                assert(all.take(i + 1).drop_last() =~= all.take(i as int));
                assert(all.take(i + 1).last() == stems@[i as int]@);
                task_statuses.set(&stems[i], &done);
                i = i + 1;
            }
            assert(all.take(i as int) =~= all);
            board_order = duplicate_strings(order);
        },
        TaskFact::LegacyTaskRemoved { stem } => {
            task_statuses.remove(stem);
            remove_name(&mut board_task_stems, stem);
        },
        TaskFact::TaskPriorityChanged { order } => {
            board_order = duplicate_strings(order);
        },
        TaskFact::BoardReordered { order } => {
            board_order = duplicate_strings(order);
        },
        _ => {},
    }
    BoardStatusState { board_order, board_task_stems, task_statuses }
}

/// Whether the backlog, holding `queued` tasks, is full under `max_queued`.
pub open spec fn backlog_full(queued: nat, max_queued: Option<usize>) -> bool {
    max_queued matches Some(m) && !(queued < m)
}

// ---------------------------------------------------------------------------
// Creating a task

/// What creating a task records: its stem and the board order with it at
/// the end.
#[derive(Debug)]
pub struct CreationPlan {
    pub stem: String,
    pub order: Vec<String>,
}

/// Decides the creation of a task whose title has the file stem `base`,
/// under the fresh identifier `task_id`.
pub fn decide_create_task(state: &BoardStatusState, base: &String, task_id: &String, max_queued: Option<
    usize,
>) -> (r: Result<CreationPlan, BoardCommandError>)
    requires
        state.task_statuses@.len() + 2 < usize::MAX,
    ensures
        ({
            let queued = count_status(state@.task_statuses, "backlog"@);
            let stem = creation_stem(state@.task_statuses, base@, task_id@);
            if backlog_full(queued, max_queued) {
                r == Err::<CreationPlan, BoardCommandError>(
                    BoardCommandError::BacklogCapacityExceeded { queued: queued as usize, max_queued: max_queued->0 },
                )
            } else if status_of(state@.task_statuses, stem) is Some {
                r == Err::<CreationPlan, BoardCommandError>(BoardCommandError::TaskAlreadyExists)
            } else {
                r matches Ok(plan) && plan.stem@ == stem && strings_view(plan.order@) == state@.board_order.push(
                    stem,
                )
            }
        }),
{
    let queued = state.task_statuses.count("backlog");
    match max_queued {
        Some(m) => {
            if !crate::task_creation::backlog_admission_allowed(queued, m) {
                return Err(BoardCommandError::BacklogCapacityExceeded { queued, max_queued: m });
            }
        },
        None => {},
    }
    let stem = task_stem_for_creation(&state.task_statuses, base, task_id);
    if state.task_statuses.contains(&stem) {
        return Err(BoardCommandError::TaskAlreadyExists);
    }
    let mut order = duplicate_strings(&state.board_order);
    let ghost before = strings_view(order@);
    order.push(stem.clone());
    assert(strings_view(order@) =~= before.push(stem@));
    Ok(CreationPlan { stem, order })
}


// ---------------------------------------------------------------------------
// Transitioning a task

/// Whether a status keeps a task on the board order.
pub open spec fn is_open_status(status: Seq<char>) -> bool {
    status == "backlog"@ || status == "in-progress"@
}

fn open_status(status: &String) -> (r: bool)
    ensures
        r == is_open_status(status@),
{
    str_eq(status.as_str(), "backlog") || str_eq(status.as_str(), "in-progress")
}

/// The board order once `stem` takes a status: kept (appended when absent)
/// for an open status, dropped otherwise.
pub open spec fn lifecycle_order(order: Seq<Seq<char>>, stem: Seq<char>, open: bool) -> Seq<Seq<char>> {
    if open {
        if order.contains(stem) {
            order
        } else {
            order.push(stem)
        }
    } else {
        seq_without(order, stem)
    }
}

/// What a transition folds: the board and statuses, the addressed task's
/// claim once it is known, and its run of clean final reviews.
#[derive(Debug, Default)]
pub struct TransitionTaskState {
    pub board: BoardStatusState,
    pub target_claim: Option<Option<Claim>>,
    pub target_clean_reviews: Vec<FinalReviewRecord>,
}

pub struct TransitionStateView {
    pub board: BoardStatusView,
    pub target_claim: Option<Option<ClaimView>>,
    pub target_clean_reviews: Seq<ReviewView>,
}

pub open spec fn claim_state_view(c: Option<Option<Claim>>) -> Option<Option<ClaimView>> {
    match c {
        Some(o) => Some(opt_view(o)),
        None => None,
    }
}

impl View for TransitionTaskState {
    type V = TransitionStateView;

    open spec fn view(&self) -> TransitionStateView {
        TransitionStateView {
            board: self.board@,
            target_claim: claim_state_view(self.target_claim),
            target_clean_reviews: self.target_clean_reviews.deep_view(),
        }
    }
}

/// The transition state of task `target` after one fact.
pub open spec fn transition_step(s: TransitionStateView, target: Seq<char>, f: TaskFact) -> TransitionStateView {
    let board = board_status_step(s.board, f);
    match f {
        TaskFact::TaskCreated { task, .. } => TransitionStateView {
            board,
            target_claim: if task.stem@ == target {
                Some(opt_view(task.claim))
            } else {
                s.target_claim
            },
            ..s
        },
        TaskFact::TaskTransitioned { stem, claim, .. } => TransitionStateView {
            board,
            target_claim: if stem@ == target {
                Some(opt_view(claim))
            } else {
                s.target_claim
            },
            ..s
        },
        TaskFact::LegacyTaskClosedFromTrailer { stem } => TransitionStateView {
            board,
            target_claim: if stem@ == target {
                Some(None)
            } else {
                s.target_claim
            },
            ..s
        },
        TaskFact::TasksClosedFromCommitTrailers { stems, .. } => TransitionStateView {
            board,
            target_claim: if strings_view(stems@).contains(target) {
                Some(None)
            } else {
                s.target_claim
            },
            ..s
        },
        TaskFact::TaskFinalReviewRecorded { stem, review } => TransitionStateView {
            board,
            target_clean_reviews: if stem@ == target {
                next_clean_run(s.target_clean_reviews, review@)
            } else {
                s.target_clean_reviews
            },
            ..s
        },
        TaskFact::LegacyTaskRemoved { stem } => TransitionStateView {
            board,
            target_claim: if stem@ == target {
                None
            } else {
                s.target_claim
            },
            ..s
        },
        _ => TransitionStateView { board, ..s },
    }
}

/// Folds one fact into the transition state of task `target`.
pub fn evolve_transition_state(state: TransitionTaskState, target: &String, f: &TaskFact) -> (r:
    TransitionTaskState)
    ensures
        r@ == transition_step(state@, target@, *f),
{
    let TransitionTaskState { board, target_claim, target_clean_reviews } = state;
    let board = evolve_board_statuses(board, f);
    let mut target_claim = target_claim;
    let mut reviews = target_clean_reviews;
    match f {
        TaskFact::TaskCreated { task, .. } => {
            if str_eq(task.stem.as_str(), target.as_str()) {
                target_claim = Some(duplicate_claim(&task.claim));
            }
        },
        TaskFact::TaskTransitioned { stem, claim, .. } => {
            if str_eq(stem.as_str(), target.as_str()) {
                target_claim = Some(duplicate_claim(claim));
            }
        },
        TaskFact::LegacyTaskClosedFromTrailer { stem } => {
            if str_eq(stem.as_str(), target.as_str()) {
                target_claim = Some(None);
            }
        },
        TaskFact::TasksClosedFromCommitTrailers { stems, .. } => {
            if contains_name(stems, target) {
                proof {
                    lemma_names_contains(stems@, target@);
                }
                target_claim = Some(None);
            } else {
                proof {
                    lemma_names_contains(stems@, target@);
                }
            }
        },
        TaskFact::TaskFinalReviewRecorded { stem, review } => {
            if str_eq(stem.as_str(), target.as_str()) {
                apply_final_review_record_to_clean_sequence(&mut reviews, review);
            }
        },
        TaskFact::LegacyTaskRemoved { stem } => {
            if str_eq(stem.as_str(), target.as_str()) {
                target_claim = None;
            }
        },
        _ => {},
    }
    TransitionTaskState { board, target_claim, target_clean_reviews: reviews }
}

/// What a transition asks for.
#[derive(Debug)]
pub struct TransitionIntent {
    pub stem: String,
    pub status: String,
    pub claim: Option<Claim>,
    pub max_queued: Option<usize>,
    pub minimum_clean_reviews: usize,
    pub expected_clean_reviews: Vec<FinalReviewRecord>,
    pub completion_snapshot: Option<CompletionSnapshot>,
}

/// The completion barrier: with reviews required, moving to done needs the
/// clean run the caller read to pass the review barrier, and a snapshot whose
/// fingerprints are those of the latest clean review.
pub open spec fn completion_check(s: TransitionStateView, i: TransitionIntent) -> Result<(), BoardCommandError> {
    if i.status@ == "done"@ && i.minimum_clean_reviews > 0 {
        match authority_decision(s.target_clean_reviews, i.expected_clean_reviews.deep_view(), i.minimum_clean_reviews) {
            Err(e) => Err(BoardCommandError::FinalReview(e)),
            Ok(_) => match i.completion_snapshot {
                None => Err(BoardCommandError::CompletionSnapshotMissing),
                Some(snap) => if s.target_clean_reviews.len() == 0 {
                    Err(BoardCommandError::CompletionSnapshotMissing)
                } else if snap.source_fingerprint@ != s.target_clean_reviews.last().source_fingerprint
                    || snap.verification_fingerprint@ != s.target_clean_reviews.last().verification_fingerprint {
                    Err(BoardCommandError::CompletionSnapshotChanged { required: i.minimum_clean_reviews })
                } else {
                    Ok(())
                },
            },
        }
    } else {
        Ok(())
    }
}

/// What a transition decides, short of the facts: whether the lifecycle
/// changes, and the board order it leaves.
pub open spec fn transition_check(s: TransitionStateView, i: TransitionIntent) -> Result<
    (bool, Seq<Seq<char>>),
    BoardCommandError,
> {
    let old_status = status_of(s.board.task_statuses, i.stem@);
    if old_status is None || s.target_claim is None {
        Err(BoardCommandError::TaskMissing)
    } else {
        match completion_check(s, i) {
            Err(e) => Err(e),
            Ok(_) => {
                let queued = count_status(s.board.task_statuses, "backlog"@);
                if i.status@ == "backlog"@ && old_status->0 != "backlog"@ && backlog_full(queued, i.max_queued) {
                    Err(
                        BoardCommandError::BacklogCapacityExceeded {
                            queued: queued as usize,
                            max_queued: i.max_queued->0,
                        },
                    )
                } else {
                    let order = lifecycle_order(s.board.board_order, i.stem@, is_open_status(i.status@));
                    let changed = old_status->0 != i.status@ || s.target_claim->0 != opt_view(i.claim);
                    Ok((changed, order))
                }
            },
        }
    }
}

/// `f` records the lifecycle the transition asked for.
pub open spec fn records_transition(f: TaskFact, i: TransitionIntent) -> bool {
    f matches TaskFact::TaskTransitioned { stem, status, claim, completion_snapshot } && stem@ == i.stem@
        && status@ == i.status@ && opt_view(claim) == opt_view(i.claim) && opt_view(completion_snapshot)
        == opt_view(i.completion_snapshot)
}

/// `f` records the board order `order`.
pub open spec fn records_order(f: TaskFact, order: Seq<Seq<char>>) -> bool {
    f matches TaskFact::BoardReordered { order: o } && strings_view(o@) == order
}

/// The facts a transition records: the lifecycle fact when status or claim
/// change, then the new board order when it changes.
pub open spec fn transition_facts_ok(s: TransitionStateView, i: TransitionIntent, facts: Seq<TaskFact>) -> bool {
    match transition_check(s, i) {
        Err(_) => false,
        Ok((changed, order)) => {
            let reordered = order != s.board.board_order;
            &&& facts.len() == (if changed { 1int } else { 0int }) + (if reordered { 1int } else { 0int })
            &&& changed ==> records_transition(facts[0], i)
            &&& reordered ==> records_order(facts[facts.len() - 1], order)
        },
    }
}

fn claims_equal(a: &Option<Claim>, b: &Option<Claim>) -> (r: bool)
    ensures
        r == (opt_view(*a) == opt_view(*b)),
{
    match (a, b) {
        (Some(x), Some(y)) => x.host == y.host && x.session == y.session,
        (None, None) => true,
        _ => false,
    }
}

fn completion_gate(state: &TransitionTaskState, intent: &TransitionIntent) -> (r: Result<(), BoardCommandError>)
    ensures
        r == completion_check(state@, *intent),
{
    if str_eq(intent.status.as_str(), "done") && intent.minimum_clean_reviews > 0 {
        match enforce_final_review_authority_snapshot(
            &state.target_clean_reviews,
            &intent.expected_clean_reviews,
            intent.minimum_clean_reviews,
        ) {
            Err(e) => {
                return Err(BoardCommandError::FinalReview(e));
            },
            Ok(_) => {},
        }
        let snap = match &intent.completion_snapshot {
            None => {
                return Err(BoardCommandError::CompletionSnapshotMissing);
            },
            Some(s) => s,
        };
        let n = state.target_clean_reviews.len();
        if n == 0 {
            return Err(BoardCommandError::CompletionSnapshotMissing);
        }
        let latest = &state.target_clean_reviews[n - 1];
        assert(state.target_clean_reviews.deep_view().last() == latest@);
        if !str_eq(snap.source_fingerprint.as_str(), latest.source_fingerprint.as_str()) || !str_eq(
            snap.verification_fingerprint.as_str(),
            latest.verification_fingerprint.as_str(),
        ) {
            return Err(BoardCommandError::CompletionSnapshotChanged { required: intent.minimum_clean_reviews });
        }
    }
    Ok(())
}

/// Decides a transition of `intent.stem` to `intent.status` with the
/// requested claim: the lifecycle fact when status or claim change, then the
/// new board order when it changes.
pub fn decide_transition_task(state: &TransitionTaskState, intent: &TransitionIntent) -> (r: Result<
    Vec<TaskFact>,
    BoardCommandError,
>)
    ensures
        match transition_check(state@, *intent) {
            Err(e) => r == Err::<Vec<TaskFact>, BoardCommandError>(e),
            Ok(_) => r matches Ok(facts) && transition_facts_ok(state@, *intent, facts@),
        },
{
    let old_status = match state.board.task_statuses.status(&intent.stem) {
        None => {
            return Err(BoardCommandError::TaskMissing);
        },
        Some(s) => s,
    };
    let old_claim = match &state.target_claim {
        None => {
            return Err(BoardCommandError::TaskMissing);
        },
        Some(c) => c,
    };
    match completion_gate(state, intent) {
        Err(e) => {
            return Err(e);
        },
        Ok(_) => {},
    }
    if str_eq(intent.status.as_str(), "backlog") && !str_eq(old_status.as_str(), "backlog") {
        let queued = state.board.task_statuses.count("backlog");
        match intent.max_queued {
            Some(m) => {
                if !crate::task_creation::backlog_admission_allowed(queued, m) {
                    return Err(BoardCommandError::BacklogCapacityExceeded { queued, max_queued: m });
                }
            },
            None => {},
        }
    }
    let open = open_status(&intent.status);
    let mut order = if open {
        duplicate_strings(&state.board.board_order)
    } else {
        without_name(&state.board.board_order, &intent.stem)
    };
    if open {
        proof {
            lemma_names_contains(state.board.board_order@, intent.stem@);
        }
        if !contains_name(&state.board.board_order, &intent.stem) {
            let ghost before = strings_view(order@);
            order.push(intent.stem.clone());
            assert(strings_view(order@) =~= before.push(intent.stem@));
        }
    }
    let changed = !str_eq(old_status.as_str(), intent.status.as_str()) || !claims_equal(old_claim, &intent.claim);
    let reordered = !crate::final_review::strings_eq(&order, &state.board.board_order);
    let mut facts: Vec<TaskFact> = Vec::new();
    if changed {
        facts.push(
            TaskFact::TaskTransitioned {
                stem: intent.stem.clone(),
                status: intent.status.clone(),
                claim: duplicate_claim(&intent.claim),
                completion_snapshot: duplicate_snapshot(&intent.completion_snapshot),
            },
        );
    }
    if reordered {
        facts.push(TaskFact::BoardReordered { order });
    }
    Ok(facts)
}


// ---------------------------------------------------------------------------
// Laws

/// The transition state of `target` after folding `facts` in turn.
pub open spec fn transition_fold(s: TransitionStateView, target: Seq<char>, facts: Seq<TaskFact>) -> TransitionStateView
    decreases facts.len(),
{
    if facts.len() == 0 {
        s
    } else {
        transition_fold(transition_step(s, target, facts[0]), target, facts.drop_first())
    }
}

/// Replaying what a transition decides leaves the task with the requested
/// status and claim, and the board order with the transition's order.
pub proof fn lemma_transition_decisions_replay(s: TransitionStateView, i: TransitionIntent, facts: Seq<TaskFact>)
    requires
        transition_facts_ok(s, i, facts),
    ensures
        ({
            let after = transition_fold(s, i.stem@, facts);
            &&& status_of(after.board.task_statuses, i.stem@) == Some(i.status@)
            &&& after.target_claim == Some(opt_view(i.claim))
            &&& after.board.board_order == transition_check(s, i)->Ok_0.1
        }),
{
    let order = transition_check(s, i)->Ok_0.1;
    crate::status_table::lemma_with_status_reads_back(s.board.task_statuses, i.stem@, i.status@);
    if facts.len() == 0 {
        assert(transition_fold(s, i.stem@, facts) == s);
    } else if facts.len() == 1 {
        let s1 = transition_step(s, i.stem@, facts[0]);
        assert(facts.drop_first() =~= Seq::<TaskFact>::empty());
        assert(transition_fold(s1, i.stem@, facts.drop_first()) == s1);
    } else {
        let s1 = transition_step(s, i.stem@, facts[0]);
        let rest = facts.drop_first();
        assert(rest[0] == facts[1]);
        let s2 = transition_step(s1, i.stem@, rest[0]);
        assert(rest.drop_first() =~= Seq::<TaskFact>::empty());
        assert(transition_fold(s2, i.stem@, rest.drop_first()) == s2);
        assert(transition_fold(s1, i.stem@, rest) == s2);
    }
}


/// Prioritizing leaves the task immediately before its target, and the
/// other tasks in their order.
pub proof fn lemma_prioritized_places_before(order: Seq<Seq<char>>, task: Seq<char>, before: Seq<char>)
    requires
        prioritized_order(order, task, before) is Some,
    ensures
        ({
            let rest = seq_without(order, task);
            let p = first_position(rest, before)->0;
            let next = prioritized_order(order, task, before)->0;
            &&& 0 <= p && p + 1 < next.len()
            &&& next[p] == task
            &&& next[p + 1] == before
            &&& next.remove(p) == rest
        }),
{
    let rest = seq_without(order, task);
    lemma_first_position_bounds(rest, before);
    let p = first_position(rest, before)->0;
    let next = rest.insert(p, task);
    assert(next[p + 1] == rest[p]);
    assert(next.remove(p) =~= rest);
}


/// Replaying a created task and the creation's board order leaves the task
/// with its status, on the board, at the end of the order.
pub proof fn lemma_creation_replay(
    s: BoardStatusView,
    stream_id: String,
    task: crate::task_projection::TaskRecord,
    order: Vec<String>,
)
    requires
        stream_id@ == BOARD_STREAM@,
        strings_view(order@) == s.board_order.push(task.stem@),
    ensures
        ({
            let created = board_status_step(
                s,
                TaskFact::TaskCreated { stream_id, task },
            );
            let after = board_status_step(created, TaskFact::BoardReordered { order });
            &&& status_of(after.task_statuses, task.stem@) == Some(task.status@)
            &&& after.board_task_stems.contains(task.stem@)
            &&& after.board_order.last() == task.stem@
        }),
{
    crate::status_table::lemma_with_status_reads_back(s.task_statuses, task.stem@, task.status@);
}

} // verus!
