//! Closing the tasks that a commit's trailers name: what the command folds,
//! the completion barrier it applies to each task, and the fact it records.
use vstd::prelude::*;
use crate::ci_types::{duplicate_strings, strings_view};
use crate::final_review::{
    apply_final_review_record_to_clean_sequence, authority_decision, enforce_final_review_authority_snapshot,
    next_clean_run, FinalReviewRecord, ReviewView,
};
use crate::graph::{names, Node};
use crate::status_table::{status_of, with_existing_status, with_status, without_stem, StatusEntries, StatusTable};
use crate::task_commands::{remove_name, BOARD_STREAM};
use crate::task_lifecycle::{first_position, BoardCommandError};
use crate::task_projection::{duplicate_reviews, CompletionSnapshot, SnapshotView, TaskFact};
use crate::text::{owned, str_eq};

verus! {

/// The keys of a table of pairs.
pub open spec fn keys_of<V>(t: Seq<(String, V)>) -> Seq<Seq<char>> {
    t.map_values(|e: (String, V)| e.0@)
}

/// The first entry of `t` whose key is `k`.
pub fn find_key<V>(t: &Vec<(String, V)>, k: &String) -> (r: Option<usize>)
    ensures
        match r {
            Some(i) => first_position(keys_of(t@), k@) == Some(i as int) && i < t@.len(),
            None => first_position(keys_of(t@), k@) is None,
        },
{
    let ghost all = keys_of(t@);
    let mut j: usize = 0;
    assert(all.skip(0) =~= all);
    while j < t.len()
        invariant
            j <= t@.len(),
            all == keys_of(t@),
            first_position(all, k@) == (match first_position(all.skip(j as int), k@) {
                Some(q) => Some(q + j),
                None => None,
            }),
        decreases t.len() - j,
    {
        assert(all.skip(j as int)[0] == t@[j as int].0@);
        assert(all.skip(j as int).drop_first() =~= all.skip(j + 1));
        if str_eq(t[j].0.as_str(), k.as_str()) {
            return Some(j);
        }
        j = j + 1;
    }
    assert(all.skip(j as int) =~= Seq::<Seq<char>>::empty());
    None
}

// ---------------------------------------------------------------------------
// Runs of clean reviews, by task

pub type RunEntries = Seq<(Seq<char>, Seq<ReviewView>)>;

pub open spec fn run_views(t: Seq<(String, Vec<FinalReviewRecord>)>) -> RunEntries {
    t.map_values(|e: (String, Vec<FinalReviewRecord>)| (e.0@, e.1.deep_view()))
}

pub open spec fn run_keys(t: RunEntries) -> Seq<Seq<char>> {
    t.map_values(|e: (Seq<char>, Seq<ReviewView>)| e.0)
}

/// The clean run recorded for `stem`; empty when there is none.
pub open spec fn run_of(t: RunEntries, stem: Seq<char>) -> Seq<ReviewView> {
    match first_position(run_keys(t), stem) {
        Some(i) => t[i].1,
        None => Seq::empty(),
    }
}

/// The runs once `review` of `stem` is folded in.
pub open spec fn runs_with_review(t: RunEntries, stem: Seq<char>, review: ReviewView) -> RunEntries {
    match first_position(run_keys(t), stem) {
        Some(i) => t.update(i, (stem, next_clean_run(t[i].1, review))),
        None => t.push((stem, next_clean_run(Seq::empty(), review))),
    }
}

/// The clean runs of every task.
#[derive(Debug, Default)]
pub struct ReviewRuns {
    pub entries: Vec<(String, Vec<FinalReviewRecord>)>,
}

impl View for ReviewRuns {
    type V = RunEntries;

    open spec fn view(&self) -> RunEntries {
        run_views(self.entries@)
    }
}

impl ReviewRuns {
    /// Folds `review` into the run of `stem`.
    pub fn record(&mut self, stem: &String, review: &FinalReviewRecord)
        ensures
            final(self)@ == runs_with_review(old(self)@, stem@, review@),
    {
        let ghost before = self@;
        assert(keys_of(self.entries@) =~= run_keys(before));
        match find_key(&self.entries, stem) {
            Some(i) => {
                let mut run = duplicate_reviews(&self.entries[i].1);
                apply_final_review_record_to_clean_sequence(&mut run, review);
                self.entries.set(i, (stem.clone(), run));
                assert(self@ =~= before.update(i as int, (stem@, next_clean_run(before[i as int].1, review@))));
            },
            None => {
                let mut run: Vec<FinalReviewRecord> = Vec::new();
                assert(run.deep_view() =~= Seq::<ReviewView>::empty());
                apply_final_review_record_to_clean_sequence(&mut run, review);
                self.entries.push((stem.clone(), run));
                assert(self@ =~= before.push((stem@, next_clean_run(Seq::empty(), review@))));
            },
        }
    }
}

// ---------------------------------------------------------------------------
// The state trailer closure folds

/// What trailer closure folds: the board order and members, every task's
/// status, and every task's clean run.
#[derive(Debug, Default)]
pub struct CloseTasksState {
    pub board_order: Vec<String>,
    pub board_task_stems: Vec<String>,
    pub task_statuses: StatusTable,
    pub clean_reviews: ReviewRuns,
}

pub struct CloseTasksView {
    pub board_order: Seq<Seq<char>>,
    pub board_task_stems: Set<Node>,
    pub task_statuses: StatusEntries,
    pub clean_reviews: RunEntries,
}

impl View for CloseTasksState {
    type V = CloseTasksView;

    open spec fn view(&self) -> CloseTasksView {
        CloseTasksView {
            board_order: strings_view(self.board_order@),
            board_task_stems: names(self.board_task_stems@),
            task_statuses: self.task_statuses@,
            clean_reviews: self.clean_reviews@,
        }
    }
}

/// Every stem of `stems` that has a status marked done, in turn.
pub open spec fn existing_done(t: StatusEntries, stems: Seq<Seq<char>>) -> StatusEntries
    decreases stems.len(),
{
    if stems.len() == 0 {
        t
    } else {
        with_existing_status(existing_done(t, stems.drop_last()), stems.last(), "done"@)
    }
}

/// The trailer-closure state after one fact.
pub open spec fn close_state_step(s: CloseTasksView, f: TaskFact) -> CloseTasksView {
    match f {
        TaskFact::TaskCreated { stream_id, task } => CloseTasksView {
            task_statuses: with_status(s.task_statuses, task.stem@, task.status@),
            board_task_stems: if stream_id@ == BOARD_STREAM@ {
                s.board_task_stems.insert(task.stem@)
            } else {
                s.board_task_stems
            },
            ..s
        },
        TaskFact::TaskTransitioned { stem, status, .. } => CloseTasksView {
            task_statuses: with_existing_status(s.task_statuses, stem@, status@),
            ..s
        },
        TaskFact::LegacyTaskClosedFromTrailer { stem } => CloseTasksView {
            task_statuses: with_existing_status(s.task_statuses, stem@, "done"@),
            ..s
        },
        TaskFact::TasksClosedFromCommitTrailers { stems, order, .. } => CloseTasksView {
            task_statuses: existing_done(s.task_statuses, strings_view(stems@)),
            board_order: strings_view(order@),
            ..s
        },
        TaskFact::TaskFinalReviewRecorded { stem, review } => CloseTasksView {
            clean_reviews: runs_with_review(s.clean_reviews, stem@, review@),
            ..s
        },
        TaskFact::LegacyTaskRemoved { stem } => CloseTasksView {
            task_statuses: without_stem(s.task_statuses, stem@),
            board_task_stems: s.board_task_stems.remove(stem@),
            ..s
        },
        TaskFact::TaskPriorityChanged { order } => CloseTasksView { board_order: strings_view(order@), ..s },
        TaskFact::BoardReordered { order } => CloseTasksView { board_order: strings_view(order@), ..s },
        _ => s,
    }
}

/// Folds one fact into the trailer-closure state.
pub fn evolve_close_tasks_state(state: CloseTasksState, f: &TaskFact) -> (r: CloseTasksState)
    ensures
        r@ == close_state_step(state@, *f),
{
    let CloseTasksState { board_order, board_task_stems, task_statuses, clean_reviews } = state;
    let mut board_order = board_order;
    let mut board_task_stems = board_task_stems;
    let mut task_statuses = task_statuses;
    let mut clean_reviews = clean_reviews;
    match f {
        TaskFact::TaskCreated { stream_id, task } => {
            task_statuses.set(&task.stem, &task.status);
            if str_eq(stream_id.as_str(), BOARD_STREAM) {
                crate::tickets::insert_name(&mut board_task_stems, &task.stem);
            }
        },
        TaskFact::TaskTransitioned { stem, status, .. } => {
            task_statuses.set_existing(stem, status);
        },
        TaskFact::LegacyTaskClosedFromTrailer { stem } => {
            task_statuses.set_existing(stem, &owned("done"));
        },
        TaskFact::TasksClosedFromCommitTrailers { stems, order, .. } => {
            let ghost all = strings_view(stems@);
            let ghost start = task_statuses@;
            let done = owned("done");
            let mut i: usize = 0;
            while i < stems.len()
                invariant
                    i <= stems@.len(),
                    all == strings_view(stems@),
                    done@ == "done"@,
                    task_statuses@ == existing_done(start, all.take(i as int)),
                decreases stems.len() - i,
            {
                assert(all.take(i + 1).drop_last() =~= all.take(i as int));
                assert(all.take(i + 1).last() == stems@[i as int]@);
                task_statuses.set_existing(&stems[i], &done);
                i = i + 1;
            }
            assert(all.take(i as int) =~= all);
            board_order = duplicate_strings(order);
        },
        TaskFact::TaskFinalReviewRecorded { stem, review } => {
            clean_reviews.record(stem, review);
        },
        TaskFact::LegacyTaskRemoved { stem } => {
            task_statuses.remove(stem);
            remove_name(&mut board_task_stems, stem);
        },
        TaskFact::TaskPriorityChanged { order } => {
            board_order = duplicate_strings(order);
        },
        TaskFact::BoardReordered { order } => {
            board_order = duplicate_strings(order);
        },
        _ => {},
    }
    CloseTasksState { board_order, board_task_stems, task_statuses, clean_reviews }
}


// ---------------------------------------------------------------------------
// Deciding the closure

/// What trailer closure asks for: the tasks the trailers name, and for each
/// the clean run the caller read and the snapshot to complete at.
#[derive(Debug)]
pub struct CloseIntent {
    pub stems: Vec<String>,
    pub minimum_clean_reviews: usize,
    pub expected_clean_reviews: Vec<(String, Vec<FinalReviewRecord>)>,
    pub completion_snapshots: Vec<(String, CompletionSnapshot)>,
}

/// The clean run the caller read for `stem`; empty when it gave none.
pub open spec fn expected_run(i: CloseIntent, stem: Seq<char>) -> Seq<ReviewView> {
    match first_position(keys_of(i.expected_clean_reviews@), stem) {
        Some(j) => i.expected_clean_reviews@[j].1.deep_view(),
        None => Seq::empty(),
    }
}

/// The snapshot the caller gave for `stem`.
pub open spec fn snapshot_for(i: CloseIntent, stem: Seq<char>) -> Option<SnapshotView> {
    match first_position(keys_of(i.completion_snapshots@), stem) {
        Some(j) => Some(i.completion_snapshots@[j].1@),
        None => None,
    }
}

pub open spec fn snapshot_pairs(v: Seq<(String, CompletionSnapshot)>) -> Seq<(Seq<char>, SnapshotView)> {
    v.map_values(|e: (String, CompletionSnapshot)| (e.0@, e.1@))
}

/// Whether task `stem` may close: it exists, and with reviews required its
/// clean run is the one the caller read, passes the review barrier, and
/// saw the snapshot's fingerprints last.
pub open spec fn close_one(s: CloseTasksView, i: CloseIntent, stem: Seq<char>) -> Result<(), BoardCommandError> {
    if status_of(s.task_statuses, stem) is None {
        Err(BoardCommandError::TrailerTaskMissing)
    } else if i.minimum_clean_reviews > 0 {
        let run = run_of(s.clean_reviews, stem);
        match authority_decision(run, expected_run(i, stem), i.minimum_clean_reviews) {
            Err(e) => Err(BoardCommandError::FinalReview(e)),
            Ok(_) => match snapshot_for(i, stem) {
                None => Err(BoardCommandError::CompletionSnapshotMissing),
                Some(snap) => if run.len() == 0 {
                    Err(BoardCommandError::CompletionSnapshotMissing)
                } else if snap.source_fingerprint != run.last().source_fingerprint
                    || snap.verification_fingerprint != run.last().verification_fingerprint {
                    Err(BoardCommandError::CompletionSnapshotChanged { required: i.minimum_clean_reviews })
                } else {
                    Ok(())
                },
            },
        }
    } else {
        Ok(())
    }
}

/// The first refusal among `stems`, in order.
pub open spec fn close_all(s: CloseTasksView, i: CloseIntent, stems: Seq<Seq<char>>) -> Result<(), BoardCommandError>
    decreases stems.len(),
{
    if stems.len() == 0 {
        Ok(())
    } else {
        match close_all(s, i, stems.drop_last()) {
            Err(e) => Err(e),
            Ok(_) => close_one(s, i, stems.last()),
        }
    }
}

/// The stems of `stems` whose task is not done yet.
pub open spec fn still_open(t: StatusEntries, stems: Seq<Seq<char>>) -> Seq<Seq<char>>
    decreases stems.len(),
{
    if stems.len() == 0 {
        stems
    } else {
        let rest = still_open(t, stems.drop_last());
        match status_of(t, stems.last()) {
            Some(st) => if st != "done"@ {
                rest.push(stems.last())
            } else {
                rest
            },
            None => rest,
        }
    }
}

/// `order` without the entries in `closed`.
pub open spec fn order_without(order: Seq<Seq<char>>, closed: Seq<Seq<char>>) -> Seq<Seq<char>>
    decreases order.len(),
{
    if order.len() == 0 {
        order
    } else {
        let rest = order_without(order.drop_last(), closed);
        if closed.contains(order.last()) {
            rest
        } else {
            rest.push(order.last())
        }
    }
}

fn expected_for<'a>(intent: &'a CloseIntent, stem: &String, empty: &'a Vec<FinalReviewRecord>) -> (r: &'a Vec<
    FinalReviewRecord,
>)
    requires
        empty@.len() == 0,
    ensures
        r.deep_view() == expected_run(*intent, stem@),
{
    match find_key(&intent.expected_clean_reviews, stem) {
        Some(j) => &intent.expected_clean_reviews[j].1,
        None => {
            assert(empty.deep_view() =~= Seq::<ReviewView>::empty());
            empty
        },
    }
}

fn close_check_one(state: &CloseTasksState, intent: &CloseIntent, stem: &String) -> (r: Result<(), BoardCommandError>)
    ensures
        r == close_one(state@, *intent, stem@),
{
    if !state.task_statuses.contains(stem) {
        return Err(BoardCommandError::TrailerTaskMissing);
    }
    if intent.minimum_clean_reviews == 0 {
        return Ok(());
    }
    let empty: Vec<FinalReviewRecord> = Vec::new();
    let ghost runs = state.clean_reviews@;
    assert(keys_of(state.clean_reviews.entries@) =~= run_keys(runs));
    let run: &Vec<FinalReviewRecord> = match find_key(&state.clean_reviews.entries, stem) {
        Some(j) => &state.clean_reviews.entries[j].1,
        None => {
            assert(empty.deep_view() =~= Seq::<ReviewView>::empty());
            &empty
        },
    };
    assert(run.deep_view() == run_of(runs, stem@));
    let expected = expected_for(intent, stem, &empty);
    match enforce_final_review_authority_snapshot(run, expected, intent.minimum_clean_reviews) {
        Err(e) => {
            return Err(BoardCommandError::FinalReview(e));
        },
        Ok(_) => {},
    }
    let snap = match find_key(&intent.completion_snapshots, stem) {
        None => {
            return Err(BoardCommandError::CompletionSnapshotMissing);
        },
        Some(j) => &intent.completion_snapshots[j].1,
    };
    let n = run.len();
    if n == 0 {
        return Err(BoardCommandError::CompletionSnapshotMissing);
    }
    let latest = &run[n - 1];
    assert(run.deep_view().last() == latest@);
    if !str_eq(snap.source_fingerprint.as_str(), latest.source_fingerprint.as_str()) || !str_eq(
        snap.verification_fingerprint.as_str(),
        latest.verification_fingerprint.as_str(),
    ) {
        return Err(BoardCommandError::CompletionSnapshotChanged { required: intent.minimum_clean_reviews });
    }
    Ok(())
}

fn duplicate_snapshot_pairs(v: &Vec<(String, CompletionSnapshot)>) -> (r: Vec<(String, CompletionSnapshot)>)
    ensures
        snapshot_pairs(r@) == snapshot_pairs(v@),
{
    let mut r: Vec<(String, CompletionSnapshot)> = Vec::new();
    let mut i: usize = 0;
    while i < v.len()
        invariant
            i <= v@.len(),
            snapshot_pairs(r@) == snapshot_pairs(v@).take(i as int),
        decreases v.len() - i,
    {
        let ghost before = snapshot_pairs(r@);
        r.push((v[i].0.clone(), v[i].1.duplicate()));
        assert(snapshot_pairs(r@) =~= before.push(snapshot_pairs(v@)[i as int]));
        assert(snapshot_pairs(r@) =~= snapshot_pairs(v@).take(i + 1));
        i = i + 1;
    }
    assert(snapshot_pairs(v@).take(i as int) =~= snapshot_pairs(v@));
    r
}

/// Decides closing the tasks that a commit's trailers name: refused at the
/// first task that is missing or fails the completion barrier; nothing is
/// recorded when every named task is done already and no snapshot is given;
/// else the named open tasks close and leave the board order.
pub fn decide_close_tasks_from_commit_trailers(state: &CloseTasksState, intent: &CloseIntent) -> (r: Result<
    Option<TaskFact>,
    BoardCommandError,
>)
    ensures
        ({
            let stems = strings_view(intent.stems@);
            let closed = still_open(state@.task_statuses, stems);
            match close_all(state@, *intent, stems) {
                Err(e) => r == Err::<Option<TaskFact>, BoardCommandError>(e),
                Ok(_) => if closed.len() == 0 && intent.completion_snapshots@.len() == 0 {
                    r == Ok::<Option<TaskFact>, BoardCommandError>(None)
                } else {
                    r matches Ok(Some(TaskFact::TasksClosedFromCommitTrailers { stems: s, order, completion_snapshots }))
                        && strings_view(s@) == closed && strings_view(order@) == order_without(
                        state@.board_order,
                        closed,
                    ) && snapshot_pairs(completion_snapshots@) == snapshot_pairs(intent.completion_snapshots@)
                },
            }
        }),
{
    let ghost all = strings_view(intent.stems@);
    let ghost t = state@.task_statuses;
    let mut closed: Vec<String> = Vec::new();
    let mut i: usize = 0;
    while i < intent.stems.len()
        invariant
            i <= intent.stems@.len(),
            all == strings_view(intent.stems@),
            t == state@.task_statuses,
            close_all(state@, *intent, all.take(i as int)) == Ok::<(), BoardCommandError>(()),
            strings_view(closed@) == still_open(t, all.take(i as int)),
        decreases intent.stems.len() - i,
    {
        let stem = &intent.stems[i];
        assert(all.take(i + 1).drop_last() =~= all.take(i as int));
        assert(all.take(i + 1).last() == stem@);
        match close_check_one(state, intent, stem) {
            Err(e) => {
                proof {
                    lemma_close_all_stops(state@, *intent, all, (i + 1) as int);
                }
                return Err(e);
            },
            Ok(_) => {},
        }
        match state.task_statuses.status(stem) {
            Some(st) => {
                if !str_eq(st.as_str(), "done") {
                    let ghost before = strings_view(closed@);
                    closed.push(stem.clone());
                    assert(strings_view(closed@) =~= before.push(stem@));
                }
            },
            None => {},
        }
        i = i + 1;
    }
    assert(all.take(i as int) =~= all);
    if closed.len() == 0 && intent.completion_snapshots.len() == 0 {
        return Ok(None);
    }
    let ghost cl = strings_view(closed@);
    let ghost ord = state@.board_order;
    let mut order: Vec<String> = Vec::new();
    let mut k: usize = 0;
    while k < state.board_order.len()
        invariant
            k <= state.board_order@.len(),
            ord == strings_view(state.board_order@),
            cl == strings_view(closed@),
            strings_view(order@) == order_without(ord.take(k as int), cl),
        decreases state.board_order.len() - k,
    {
        assert(ord.take(k + 1).drop_last() =~= ord.take(k as int));
        assert(ord.take(k + 1).last() == state.board_order@[k as int]@);
        let inside = crate::graph::contains_name(&closed, &state.board_order[k]);
        proof {
            crate::task_lifecycle::lemma_names_contains(closed@, state.board_order@[k as int]@);
        }
        if !inside {
            let ghost before = strings_view(order@);
            order.push(state.board_order[k].clone());
            assert(strings_view(order@) =~= before.push(state.board_order@[k as int]@));
        }
        k = k + 1;
    }
    assert(ord.take(k as int) =~= ord);
    Ok(
        Some(
            TaskFact::TasksClosedFromCommitTrailers {
                stems: closed,
                order,
                completion_snapshots: duplicate_snapshot_pairs(&intent.completion_snapshots),
            },
        ),
    )
}

proof fn lemma_close_all_stops(s: CloseTasksView, i: CloseIntent, all: Seq<Seq<char>>, n: int)
    requires
        0 < n <= all.len(),
        close_all(s, i, all.take(n - 1)) == Ok::<(), BoardCommandError>(()),
        close_one(s, i, all[n - 1]) is Err,
    ensures
        close_all(s, i, all) == close_one(s, i, all[n - 1]),
    decreases all.len() - n,
{
    assert(all.take(n).drop_last() =~= all.take(n - 1));
    if n < all.len() {
        assert(close_all(s, i, all.take(n)) == close_one(s, i, all[n - 1]));
        lemma_close_all_prefix_err(s, i, all, n);
    } else {
        assert(all.take(n) =~= all);
    }
}

proof fn lemma_close_all_prefix_err(s: CloseTasksView, i: CloseIntent, all: Seq<Seq<char>>, n: int)
    requires
        0 <= n <= all.len(),
        close_all(s, i, all.take(n)) is Err,
    ensures
        close_all(s, i, all) == close_all(s, i, all.take(n)),
    decreases all.len() - n,
{
    if n < all.len() {
        assert(all.take(n + 1).drop_last() =~= all.take(n));
        lemma_close_all_prefix_err(s, i, all, n + 1);
    } else {
        assert(all.take(n) =~= all);
    }
}


// ---------------------------------------------------------------------------
// Laws

proof fn lemma_existing_done(t: StatusEntries, stems: Seq<Seq<char>>, x: Seq<char>)
    ensures
        status_of(existing_done(t, stems), x) is Some <==> status_of(t, x) is Some,
        stems.contains(x) && status_of(t, x) is Some ==> status_of(existing_done(t, stems), x) == Some("done"@),
    decreases stems.len(),
{
    if stems.len() > 0 {
        let prefix = stems.drop_last();
        lemma_existing_done(t, prefix, x);
        crate::status_table::lemma_with_existing_status(existing_done(t, prefix), stems.last(), "done"@, x);
        if stems.contains(x) && x != stems.last() {
            let j = choose|j: int| 0 <= j < stems.len() && stems[j] == x;
            assert(prefix[j] == x);
        }
    }
}

proof fn lemma_still_open_members(t: StatusEntries, stems: Seq<Seq<char>>, x: Seq<char>)
    ensures
        still_open(t, stems).contains(x) ==> stems.contains(x) && status_of(t, x) is Some,
    decreases stems.len(),
{
    if stems.len() > 0 {
        let prefix = stems.drop_last();
        lemma_still_open_members(t, prefix, x);
        let w = still_open(t, stems);
        if w.contains(x) {
            let k = choose|k: int| 0 <= k < w.len() && w[k] == x;
            let wp = still_open(t, prefix);
            if k < wp.len() {
                assert(wp[k] == x);
                let j = choose|j: int| 0 <= j < prefix.len() && prefix[j] == x;
                assert(stems[j] == x);
            } else {
                assert(stems[stems.len() - 1] == x);
            }
        }
    }
}

proof fn lemma_order_without_excludes(order: Seq<Seq<char>>, closed: Seq<Seq<char>>, x: Seq<char>)
    ensures
        order_without(order, closed).contains(x) ==> !closed.contains(x),
    decreases order.len(),
{
    if order.len() > 0 {
        lemma_order_without_excludes(order.drop_last(), closed, x);
        let w = order_without(order, closed);
        let wp = order_without(order.drop_last(), closed);
        if w.contains(x) {
            let k = choose|k: int| 0 <= k < w.len() && w[k] == x;
            if k < wp.len() {
                assert(wp[k] == x);
            }
        }
    }
}

/// Replaying what trailer closure decides leaves every closed task done and
/// off the board order.
pub proof fn lemma_trailer_closure_replay(s: CloseTasksView, stems: Seq<Seq<char>>, f: TaskFact, x: Seq<char>)
    requires
        f matches TaskFact::TasksClosedFromCommitTrailers { stems: closed, order, .. } && strings_view(closed@)
            == still_open(s.task_statuses, stems) && strings_view(order@) == order_without(
            s.board_order,
            still_open(s.task_statuses, stems),
        ),
        still_open(s.task_statuses, stems).contains(x),
    ensures
        status_of(close_state_step(s, f).task_statuses, x) == Some("done"@),
        !close_state_step(s, f).board_order.contains(x),
{
    let closed = still_open(s.task_statuses, stems);
    lemma_still_open_members(s.task_statuses, stems, x);
    let j = choose|j: int| 0 <= j < closed.len() && closed[j] == x;
    assert(closed.contains(x));
    lemma_existing_done(s.task_statuses, closed, x);
    lemma_order_without_excludes(s.board_order, closed, x);
}

/// With reviews required, a task is closed only against the evidence its
/// latest clean review saw: when the completion snapshot's source or
/// verification fingerprint differs from that review's, closing the task
/// refuses, and once the review barrier has passed the refusal is that the
/// snapshot changed.
pub proof fn lemma_close_needs_reviewed_snapshot(s: CloseTasksView, i: CloseIntent, stem: Seq<char>)
    requires
        i.minimum_clean_reviews > 0,
        run_of(s.clean_reviews, stem).len() > 0,
        snapshot_for(i, stem) is Some,
        snapshot_for(i, stem)->0.source_fingerprint != run_of(s.clean_reviews, stem).last().source_fingerprint
            || snapshot_for(i, stem)->0.verification_fingerprint != run_of(s.clean_reviews, stem).last().verification_fingerprint,
    ensures
        close_one(s, i, stem) is Err,
        status_of(s.task_statuses, stem) is Some && authority_decision(
            run_of(s.clean_reviews, stem),
            expected_run(i, stem),
            i.minimum_clean_reviews,
        ) is Ok ==> close_one(s, i, stem) == Err::<(), BoardCommandError>(
            BoardCommandError::CompletionSnapshotChanged { required: i.minimum_clean_reviews },
        ),
{
}

/// Closing the tasks of a commit refuses as a whole when any task it names
/// may not close.
pub proof fn lemma_close_all_refuses_any(s: CloseTasksView, i: CloseIntent, stems: Seq<Seq<char>>, stem: Seq<char>)
    requires
        stems.contains(stem),
        close_one(s, i, stem) is Err,
    ensures
        close_all(s, i, stems) is Err,
    decreases stems.len(),
{
    if stems.last() != stem {
        let p = stems.drop_last();
        let k = choose|k: int| 0 <= k < stems.len() && stems[k] == stem;
        assert(p[k] == stem);
        lemma_close_all_refuses_any(s, i, p, stem);
    }
}

} // verus!
