//! The task board as the event stream builds it: every task by its stem,
//! the board order, and the fold of each recorded task fact.
use vstd::prelude::*;
use crate::ci_types::{duplicate_strings, strings_view};
use crate::ci_state::{apply_ci_fact, ci_step, CiFoldError, CiRecoveryFact, CiRecoveryState, CiStateView};
use crate::final_review::{
    consistent_run, lemma_clean_run_stays_consistent, next_clean_run, FinalReviewRecord, ReviewView,
};
use crate::table::{
    has_key, keys_distinct, lemma_table_empty, lemma_table_index, lemma_table_push,
    lemma_table_update, table_find, table_view,
};

verus! {

/// Who holds a task in progress.
#[derive(Debug)]
pub struct Claim {
    pub host: String,
    pub session: String,
}

pub struct ClaimView {
    pub host: Seq<char>,
    pub session: Seq<char>,
}

impl View for Claim {
    type V = ClaimView;

    open spec fn view(&self) -> ClaimView {
        ClaimView { host: self.host@, session: self.session@ }
    }
}

impl Claim {
    pub fn duplicate(&self) -> (r: Self)
        ensures
            r@ == self@,
    {
        Claim { host: self.host.clone(), session: self.session.clone() }
    }
}

/// A dated note on a task.
#[derive(Debug)]
pub struct Note {
    pub date: String,
    pub text: String,
}

pub struct NoteView {
    pub date: Seq<char>,
    pub text: Seq<char>,
}

impl View for Note {
    type V = NoteView;

    open spec fn view(&self) -> NoteView {
        NoteView { date: self.date@, text: self.text@ }
    }
}

impl Note {
    pub fn duplicate(&self) -> (r: Self)
        ensures
            r@ == self@,
    {
        Note { date: self.date.clone(), text: self.text.clone() }
    }
}

/// The immutable commit a completed task was reviewed at.
#[derive(Debug)]
pub struct CompletionSnapshot {
    pub commit_oid: String,
    pub tree_oid: String,
    pub source_fingerprint: String,
    pub verification_fingerprint: String,
}

pub struct SnapshotView {
    pub commit_oid: Seq<char>,
    pub tree_oid: Seq<char>,
    pub source_fingerprint: Seq<char>,
    pub verification_fingerprint: Seq<char>,
}

impl View for CompletionSnapshot {
    type V = SnapshotView;

    open spec fn view(&self) -> SnapshotView {
        SnapshotView {
            commit_oid: self.commit_oid@,
            tree_oid: self.tree_oid@,
            source_fingerprint: self.source_fingerprint@,
            verification_fingerprint: self.verification_fingerprint@,
        }
    }
}

impl CompletionSnapshot {
    pub fn duplicate(&self) -> (r: Self)
        ensures
            r@ == self@,
    {
        CompletionSnapshot {
            commit_oid: self.commit_oid.clone(),
            tree_oid: self.tree_oid.clone(),
            source_fingerprint: self.source_fingerprint.clone(),
            verification_fingerprint: self.verification_fingerprint.clone(),
        }
    }
}

/// One step of a task's plan.
#[derive(Debug)]
pub struct Subtask {
    pub id: String,
    pub checked: bool,
    pub title: String,
    pub after: Vec<String>,
}

pub struct SubtaskView {
    pub id: Seq<char>,
    pub checked: bool,
    pub title: Seq<char>,
    pub after: Seq<Seq<char>>,
}

impl View for Subtask {
    type V = SubtaskView;

    open spec fn view(&self) -> SubtaskView {
        SubtaskView {
            id: self.id@,
            checked: self.checked,
            title: self.title@,
            after: strings_view(self.after@),
        }
    }
}

impl Subtask {
    pub fn duplicate(&self) -> (r: Self)
        ensures
            r@ == self@,
    {
        Subtask {
            id: self.id.clone(),
            checked: self.checked,
            title: self.title.clone(),
            after: duplicate_strings(&self.after),
        }
    }
}

/// One acceptance criterion.
#[derive(Debug)]
pub struct ChecklistItem {
    pub checked: bool,
    pub text: String,
}

pub struct ChecklistView {
    pub checked: bool,
    pub text: Seq<char>,
}

impl View for ChecklistItem {
    type V = ChecklistView;

    open spec fn view(&self) -> ChecklistView {
        ChecklistView { checked: self.checked, text: self.text@ }
    }
}

impl ChecklistItem {
    pub fn duplicate(&self) -> (r: Self)
        ensures
            r@ == self@,
    {
        ChecklistItem { checked: self.checked, text: self.text.clone() }
    }
}

pub open spec fn opt_view<T: View>(o: Option<T>) -> Option<T::V> {
    match o {
        Some(x) => Some(x@),
        None => None,
    }
}

pub open spec fn views<T: View>(v: Seq<T>) -> Seq<T::V> {
    v.map_values(|x: T| x@)
}

pub(crate) fn duplicate_claim(o: &Option<Claim>) -> (r: Option<Claim>)
    ensures
        opt_view(r) == opt_view(*o),
{
    match o {
        Some(c) => Some(c.duplicate()),
        None => None,
    }
}

pub(crate) fn duplicate_snapshot(o: &Option<CompletionSnapshot>) -> (r: Option<CompletionSnapshot>)
    ensures
        opt_view(r) == opt_view(*o),
{
    match o {
        Some(c) => Some(c.duplicate()),
        None => None,
    }
}

pub(crate) fn duplicate_text(o: &Option<String>) -> (r: Option<String>)
    ensures
        opt_view(r) == opt_view(*o),
{
    match o {
        Some(c) => Some(c.clone()),
        None => None,
    }
}

fn duplicate_subtasks(v: &Vec<Subtask>) -> (r: Vec<Subtask>)
    ensures
        views(r@) == views(v@),
{
    let mut r: Vec<Subtask> = Vec::new();
    let mut i: usize = 0;
    while i < v.len()
        invariant
            i <= v@.len(),
            views(r@) == views(v@).take(i as int),
        decreases v.len() - i,
    {
        let x = v[i].duplicate();
        let ghost before = views(r@);
        r.push(x);
        assert(views(r@) =~= before.push(v@[i as int]@));
        assert(views(r@) =~= views(v@).take(i + 1));
        i = i + 1;
    }
    assert(views(v@).take(i as int) =~= views(v@));
    r
}

fn duplicate_checklist(v: &Vec<ChecklistItem>) -> (r: Vec<ChecklistItem>)
    ensures
        views(r@) == views(v@),
{
    let mut r: Vec<ChecklistItem> = Vec::new();
    let mut i: usize = 0;
    while i < v.len()
        invariant
            i <= v@.len(),
            views(r@) == views(v@).take(i as int),
        decreases v.len() - i,
    {
        let x = v[i].duplicate();
        let ghost before = views(r@);
        r.push(x);
        assert(views(r@) =~= before.push(v@[i as int]@));
        assert(views(r@) =~= views(v@).take(i + 1));
        i = i + 1;
    }
    assert(views(v@).take(i as int) =~= views(v@));
    r
}

fn duplicate_notes(v: &Vec<Note>) -> (r: Vec<Note>)
    ensures
        views(r@) == views(v@),
{
    let mut r: Vec<Note> = Vec::new();
    let mut i: usize = 0;
    while i < v.len()
        invariant
            i <= v@.len(),
            views(r@) == views(v@).take(i as int),
        decreases v.len() - i,
    {
        let x = v[i].duplicate();
        let ghost before = views(r@);
        r.push(x);
        assert(views(r@) =~= before.push(v@[i as int]@));
        assert(views(r@) =~= views(v@).take(i + 1));
        i = i + 1;
    }
    assert(views(v@).take(i as int) =~= views(v@));
    r
}

pub(crate) fn duplicate_reviews(v: &Vec<FinalReviewRecord>) -> (r: Vec<FinalReviewRecord>)
    ensures
        r.deep_view() == v.deep_view(),
{
    let mut r: Vec<FinalReviewRecord> = Vec::new();
    let mut i: usize = 0;
    while i < v.len()
        invariant
            i <= v@.len(),
            r.deep_view() == v.deep_view().take(i as int),
        decreases v.len() - i,
    {
        let x = v[i].duplicate();
        let ghost before = r.deep_view();
        r.push(x);
        assert(r.deep_view() =~= before.push(v@[i as int]@));
        assert(r.deep_view() =~= v.deep_view().take(i + 1));
        i = i + 1;
    }
    assert(v.deep_view().take(i as int) =~= v.deep_view());
    r
}

/// A task of the board.
#[derive(Debug)]
pub struct TaskRecord {
    pub stem: String,
    pub title: String,
    pub status: String,
    pub claim: Option<Claim>,
    pub tags: Vec<String>,
    pub summary: String,
    pub context: String,
    pub pr_mr_url: Option<String>,
    pub pr_mr_status: Option<String>,
    pub blocks: Vec<String>,
    pub blocked_by: Vec<String>,
    pub subtasks: Vec<Subtask>,
    pub acceptance: Vec<ChecklistItem>,
    pub notes: Vec<Note>,
    pub completion_snapshot: Option<CompletionSnapshot>,
    pub reviews: Vec<FinalReviewRecord>,
    pub clean_reviews: Vec<FinalReviewRecord>,
}

pub struct TaskView {
    pub stem: Seq<char>,
    pub title: Seq<char>,
    pub status: Seq<char>,
    pub claim: Option<ClaimView>,
    pub tags: Seq<Seq<char>>,
    pub summary: Seq<char>,
    pub context: Seq<char>,
    pub pr_mr_url: Option<Seq<char>>,
    pub pr_mr_status: Option<Seq<char>>,
    pub blocks: Seq<Seq<char>>,
    pub blocked_by: Seq<Seq<char>>,
    pub subtasks: Seq<SubtaskView>,
    pub acceptance: Seq<ChecklistView>,
    pub notes: Seq<NoteView>,
    pub completion_snapshot: Option<SnapshotView>,
    pub reviews: Seq<ReviewView>,
    pub clean_reviews: Seq<ReviewView>,
}

impl View for TaskRecord {
    type V = TaskView;

    open spec fn view(&self) -> TaskView {
        TaskView {
            stem: self.stem@,
            title: self.title@,
            status: self.status@,
            claim: opt_view(self.claim),
            tags: strings_view(self.tags@),
            summary: self.summary@,
            context: self.context@,
            pr_mr_url: opt_view(self.pr_mr_url),
            pr_mr_status: opt_view(self.pr_mr_status),
            blocks: strings_view(self.blocks@),
            blocked_by: strings_view(self.blocked_by@),
            subtasks: views(self.subtasks@),
            acceptance: views(self.acceptance@),
            notes: views(self.notes@),
            completion_snapshot: opt_view(self.completion_snapshot),
            reviews: self.reviews.deep_view(),
            clean_reviews: self.clean_reviews.deep_view(),
        }
    }
}

impl TaskRecord {
    pub fn duplicate(&self) -> (r: Self)
        ensures
            r@ == self@,
    {
        TaskRecord {
            stem: self.stem.clone(),
            title: self.title.clone(),
            status: self.status.clone(),
            claim: duplicate_claim(&self.claim),
            tags: duplicate_strings(&self.tags),
            summary: self.summary.clone(),
            context: self.context.clone(),
            pr_mr_url: duplicate_text(&self.pr_mr_url),
            pr_mr_status: duplicate_text(&self.pr_mr_status),
            blocks: duplicate_strings(&self.blocks),
            blocked_by: duplicate_strings(&self.blocked_by),
            subtasks: duplicate_subtasks(&self.subtasks),
            acceptance: duplicate_checklist(&self.acceptance),
            notes: duplicate_notes(&self.notes),
            completion_snapshot: duplicate_snapshot(&self.completion_snapshot),
            reviews: duplicate_reviews(&self.reviews),
            clean_reviews: duplicate_reviews(&self.clean_reviews),
        }
    }
}

/// New links of one task.
#[derive(Debug)]
pub struct LinkChange {
    pub stem: String,
    pub blocks: Vec<String>,
    pub blocked_by: Vec<String>,
}

/// A recorded fact about tasks or the board.
#[derive(Debug)]
pub enum TaskFact {
    RepositoryInitialized,
    TaskCreated { stream_id: String, task: TaskRecord },
    TaskTransitioned {
        stem: String,
        status: String,
        claim: Option<Claim>,
        completion_snapshot: Option<CompletionSnapshot>,
    },
    TaskPriorityChanged { order: Vec<String> },
    BoardReordered { order: Vec<String> },
    TaskLinksChanged { change: LinkChange },
    TaskSubtaskAdded { stem: String, subtask: Subtask },
    TaskSubtaskChecked { stem: String, subtask_id: String, checked: bool },
    TaskDetailsUpdated {
        stem: String,
        title: String,
        tags: Vec<String>,
        summary: String,
        context: String,
    },
    LegacyTaskClaimChanged { stem: String, claim: Option<Claim> },
    TaskPullRequestChanged { stem: String, url: Option<String>, status: Option<String> },
    TaskAcceptanceAdded { stem: String, item: ChecklistItem },
    TaskAcceptanceChecked { stem: String, index: usize, checked: bool },
    TaskAcceptanceRemoved { stem: String, index: usize },
    TaskNoteAdded { stem: String, note: Note },
    TaskFinalReviewRecorded { stem: String, review: FinalReviewRecord },
    TaskValidationRepaired { link_changes: Vec<LinkChange>, order_change: Option<Vec<String>> },
    TasksClosedFromCommitTrailers {
        stems: Vec<String>,
        order: Vec<String>,
        completion_snapshots: Vec<(String, CompletionSnapshot)>,
    },
    LegacyTaskClosedFromTrailer { stem: String },
    LegacyTaskRemoved { stem: String },
    LegacyTaskStatePublished,
}

/// Why a task fact cannot be folded.
#[derive(Debug, PartialEq, Eq)]
pub enum TaskFoldError {
    /// The fact names a task that was never created.
    TaskMissing { stem: String },
    /// The fact names a subtask the task does not have.
    SubtaskMissing { subtask_id: String },
    /// The fact names an acceptance criterion past the end of the list.
    AcceptanceIndexMissing { index: usize },
}

pub enum TaskFoldErrorView {
    TaskMissing { stem: Seq<char> },
    SubtaskMissing { subtask_id: Seq<char> },
    AcceptanceIndexMissing { index: usize },
}

impl View for TaskFoldError {
    type V = TaskFoldErrorView;

    open spec fn view(&self) -> TaskFoldErrorView {
        match self {
            TaskFoldError::TaskMissing { stem } => TaskFoldErrorView::TaskMissing { stem: stem@ },
            TaskFoldError::SubtaskMissing { subtask_id } => TaskFoldErrorView::SubtaskMissing {
                subtask_id: subtask_id@,
            },
            TaskFoldError::AcceptanceIndexMissing { index } => {
                TaskFoldErrorView::AcceptanceIndexMissing { index: *index }
            },
        }
    }
}

/// The tasks by stem, whether the repository was initialized, and the
/// board order.
pub struct ProjectionView {
    pub initialized: bool,
    pub tasks: Map<Seq<char>, TaskView>,
    pub order: Seq<Seq<char>>,
}

/// The folded task board.
#[derive(Debug)]
pub struct TaskProjection {
    initialized: bool,
    tasks: Vec<(String, TaskRecord)>,
    order: Vec<String>,
}

impl View for TaskProjection {
    type V = ProjectionView;

    closed spec fn view(&self) -> ProjectionView {
        ProjectionView {
            initialized: self.initialized,
            tasks: table_view(self.tasks@),
            order: strings_view(self.order@),
        }
    }
}

// ---------------------------------------------------------------------------
// The fold, as a function of the facts

pub open spec fn missing(stem: Seq<char>) -> TaskFoldErrorView {
    TaskFoldErrorView::TaskMissing { stem }
}

pub open spec fn with_task(p: ProjectionView, stem: Seq<char>, t: TaskView) -> ProjectionView {
    ProjectionView { tasks: p.tasks.insert(stem, t), ..p }
}

/// Changes the task `stem` by `g`, refusing a task that was never created.
pub open spec fn update(p: ProjectionView, stem: Seq<char>, g: spec_fn(TaskView) -> TaskView) -> Result<
    ProjectionView,
    TaskFoldErrorView,
> {
    if p.tasks.contains_key(stem) {
        Ok(with_task(p, stem, g(p.tasks[stem])))
    } else {
        Err(missing(stem))
    }
}

pub open spec fn link_step(p: ProjectionView, c: LinkChange) -> Result<ProjectionView, TaskFoldErrorView> {
    update(p, c.stem@, |t: TaskView| TaskView { blocks: strings_view(c.blocks@), blocked_by: strings_view(c.blocked_by@), ..t })
}

pub open spec fn links_fold(p: ProjectionView, cs: Seq<LinkChange>) -> Result<ProjectionView, TaskFoldErrorView>
    decreases cs.len(),
{
    if cs.len() == 0 {
        Ok(p)
    } else {
        match link_step(p, cs[0]) {
            Err(e) => Err(e),
            Ok(q) => links_fold(q, cs.drop_first()),
        }
    }
}

/// Marks a task done and unclaimed.
pub open spec fn close_step(p: ProjectionView, stem: Seq<char>) -> Result<ProjectionView, TaskFoldErrorView> {
    update(p, stem, |t: TaskView| TaskView { status: seq!['d', 'o', 'n', 'e'], claim: None, ..t })
}

pub open spec fn close_fold(p: ProjectionView, stems: Seq<Seq<char>>) -> Result<ProjectionView, TaskFoldErrorView>
    decreases stems.len(),
{
    if stems.len() == 0 {
        Ok(p)
    } else {
        match close_step(p, stems[0]) {
            Err(e) => Err(e),
            Ok(q) => close_fold(q, stems.drop_first()),
        }
    }
}

pub open spec fn snapshot_fold(p: ProjectionView, pairs: Seq<(String, CompletionSnapshot)>) -> Result<
    ProjectionView,
    TaskFoldErrorView,
>
    decreases pairs.len(),
{
    if pairs.len() == 0 {
        Ok(p)
    } else {
        match update(p, pairs[0].0@, |t: TaskView| TaskView { completion_snapshot: Some(pairs[0].1@), ..t }) {
            Err(e) => Err(e),
            Ok(q) => snapshot_fold(q, pairs.drop_first()),
        }
    }
}

/// The first subtask with identifier `id`.
pub open spec fn first_subtask(s: Seq<SubtaskView>, id: Seq<char>) -> Option<int>
    decreases s.len(),
{
    if s.len() == 0 {
        None
    } else if s[0].id == id {
        Some(0)
    } else {
        match first_subtask(s.drop_first(), id) {
            Some(j) => Some(j + 1),
            None => None,
        }
    }
}

/// What folding one fact makes of the board.
pub open spec fn task_step(p: ProjectionView, f: TaskFact) -> Result<ProjectionView, TaskFoldErrorView> {
    match f {
        TaskFact::RepositoryInitialized => Ok(ProjectionView { initialized: true, ..p }),
        TaskFact::TaskCreated { task, .. } => Ok(with_task(p, task.stem@, task@)),
        TaskFact::TaskTransitioned { stem, status, claim, completion_snapshot } => update(
            p,
            stem@,
            |t: TaskView|
                TaskView {
                    status: status@,
                    claim: opt_view(claim),
                    completion_snapshot: if completion_snapshot is Some {
                        opt_view(completion_snapshot)
                    } else {
                        t.completion_snapshot
                    },
                    ..t
                },
        ),
        TaskFact::TaskPriorityChanged { order } => Ok(ProjectionView { order: strings_view(order@), ..p }),
        TaskFact::BoardReordered { order } => Ok(ProjectionView { order: strings_view(order@), ..p }),
        TaskFact::TaskLinksChanged { change } => link_step(p, change),
        TaskFact::TaskSubtaskAdded { stem, subtask } => update(
            p,
            stem@,
            |t: TaskView| TaskView { subtasks: t.subtasks.push(subtask@), ..t },
        ),
        TaskFact::TaskSubtaskChecked { stem, subtask_id, checked } => if !p.tasks.contains_key(stem@) {
            Err(missing(stem@))
        } else {
            let t = p.tasks[stem@];
            match first_subtask(t.subtasks, subtask_id@) {
                None => Err(TaskFoldErrorView::SubtaskMissing { subtask_id: subtask_id@ }),
                Some(j) => Ok(
                    with_task(
                        p,
                        stem@,
                        TaskView {
                            subtasks: t.subtasks.update(j, SubtaskView { checked, ..t.subtasks[j] }),
                            ..t
                        },
                    ),
                ),
            }
        },
        TaskFact::TaskDetailsUpdated { stem, title, tags, summary, context } => update(
            p,
            stem@,
            |t: TaskView|
                TaskView {
                    title: title@,
                    tags: strings_view(tags@),
                    summary: summary@,
                    context: context@,
                    ..t
                },
        ),
        TaskFact::LegacyTaskClaimChanged { stem, claim } => update(
            p,
            stem@,
            |t: TaskView| TaskView { claim: opt_view(claim), ..t },
        ),
        TaskFact::TaskPullRequestChanged { stem, url, status } => update(
            p,
            stem@,
            |t: TaskView| TaskView { pr_mr_url: opt_view(url), pr_mr_status: opt_view(status), ..t },
        ),
        TaskFact::TaskAcceptanceAdded { stem, item } => update(
            p,
            stem@,
            |t: TaskView| TaskView { acceptance: t.acceptance.push(item@), ..t },
        ),
        TaskFact::TaskAcceptanceChecked { stem, index, checked } => if !p.tasks.contains_key(stem@) {
            Err(missing(stem@))
        } else {
            let t = p.tasks[stem@];
            if index >= t.acceptance.len() {
                Err(TaskFoldErrorView::AcceptanceIndexMissing { index })
            } else {
                Ok(
                    with_task(
                        p,
                        stem@,
                        TaskView {
                            acceptance: t.acceptance.update(
                                index as int,
                                ChecklistView { checked, ..t.acceptance[index as int] },
                            ),
                            ..t
                        },
                    ),
                )
            }
        },
        TaskFact::TaskAcceptanceRemoved { stem, index } => if !p.tasks.contains_key(stem@) {
            Err(missing(stem@))
        } else {
            let t = p.tasks[stem@];
            if index >= t.acceptance.len() {
                Err(TaskFoldErrorView::AcceptanceIndexMissing { index })
            } else {
                Ok(with_task(p, stem@, TaskView { acceptance: t.acceptance.remove(index as int), ..t }))
            }
        },
        TaskFact::TaskNoteAdded { stem, note } => update(
            p,
            stem@,
            |t: TaskView| TaskView { notes: t.notes.push(note@), ..t },
        ),
        TaskFact::TaskFinalReviewRecorded { stem, review } => update(
            p,
            stem@,
            |t: TaskView|
                TaskView {
                    reviews: t.reviews.push(review@),
                    clean_reviews: next_clean_run(t.clean_reviews, review@),
                    ..t
                },
        ),
        TaskFact::TaskValidationRepaired { link_changes, order_change } => match links_fold(
            p,
            link_changes@,
        ) {
            Err(e) => Err(e),
            Ok(q) => match order_change {
                Some(o) => Ok(ProjectionView { order: strings_view(o@), ..q }),
                None => Ok(q),
            },
        },
        TaskFact::TasksClosedFromCommitTrailers { stems, order, completion_snapshots } => match close_fold(
            p,
            strings_view(stems@),
        ) {
            Err(e) => Err(e),
            Ok(q) => match snapshot_fold(q, completion_snapshots@) {
                Err(e) => Err(e),
                Ok(r) => Ok(ProjectionView { order: strings_view(order@), ..r }),
            },
        },
        TaskFact::LegacyTaskClosedFromTrailer { stem } => close_step(p, stem@),
        TaskFact::LegacyTaskRemoved { stem } => Ok(ProjectionView { tasks: p.tasks.remove(stem@), ..p }),
        TaskFact::LegacyTaskStatePublished => Ok(p),
    }
}

// ---------------------------------------------------------------------------
// The table of tasks

proof fn lemma_table_remove(t: Seq<(String, TaskRecord)>, i: int)
    requires
        keys_distinct(t),
        0 <= i < t.len(),
    ensures
        keys_distinct(t.remove(i)),
        table_view(t.remove(i)) == table_view(t).remove(t[i].0@),
{
    let t2 = t.remove(i);
    let k = t[i].0@;
    assert forall|a: int, b: int| 0 <= a < t2.len() && 0 <= b < t2.len() && a != b implies (#[trigger] t2[a]).0@ != (#[trigger] t2[b]).0@ by {
        let ia = if a < i { a } else { a + 1 };
        let ib = if b < i { b } else { b + 1 };
        assert(t2[a] == t[ia]);
        assert(t2[b] == t[ib]);
    }
    let m = table_view(t).remove(k);
    assert forall|x: Seq<char>| #[trigger] table_view(t2).contains_key(x) <==> m.contains_key(x) by {
        if has_key(t2, x) {
            let j = choose|j: int| 0 <= j < t2.len() && (#[trigger] t2[j]).0@ == x;
            let jj = if j < i { j } else { j + 1 };
            assert(t2[j] == t[jj]);
            assert(has_key(t, x));
            assert(jj != i);
            assert(x != k);
        }
        if has_key(t, x) && x != k {
            let j = choose|j: int| 0 <= j < t.len() && (#[trigger] t[j]).0@ == x;
            assert(j != i);
            let jj = if j < i { j } else { j - 1 };
            assert(t2[jj] == t[j]);
            assert(has_key(t2, x));
        }
    }
    assert forall|x: Seq<char>| #[trigger] table_view(t2).contains_key(x) implies table_view(t2)[x] == m[x] by {
        let j = crate::table::key_index(t2, x);
        lemma_table_index(t2, j);
        let jj = if j < i { j } else { j + 1 };
        assert(t2[j] == t[jj]);
        lemma_table_index(t, jj);
    }
    assert(table_view(t2) =~= m);
}

fn find_task(tasks: &Vec<(String, TaskRecord)>, stem: &String) -> (r: Option<usize>)
    requires
        keys_distinct(tasks@),
    ensures
        match r {
            Some(i) => i < tasks@.len() && tasks@[i as int].0@ == stem@ && table_view(
                tasks@,
            ).contains_key(stem@) && table_view(tasks@)[stem@] == tasks@[i as int].1@,
            None => !table_view(tasks@).contains_key(stem@),
        },
{
    match table_find(tasks, stem) {
        Some(i) => {
            proof {
                lemma_table_index(tasks@, i as int);
            }
            Some(i)
        },
        None => None,
    }
}

/// Every task is kept under its own stem.
pub open spec fn keys_match(t: Seq<(String, TaskRecord)>) -> bool {
    forall|i: int| 0 <= i < t.len() ==> (#[trigger] t[i]).0@ == t[i].1@.stem
}

fn set_task(tasks: &mut Vec<(String, TaskRecord)>, i: usize, t: TaskRecord)
    requires
        t@.stem == old(tasks)@[i as int].0@,
        keys_distinct(old(tasks)@),
        keys_match(old(tasks)@),
        i < old(tasks)@.len(),
    ensures
        keys_distinct(final(tasks)@),
        keys_match(final(tasks)@),
        table_view(final(tasks)@) == table_view(old(tasks)@).insert(old(tasks)@[i as int].0@, t@),
{
    let ghost before = tasks@;
    let (k, _previous) = tasks.remove(i);
    tasks.insert(i, (k, t));
    proof {
        assert(tasks@ =~= before.update(i as int, (before[i as int].0, t)));
        lemma_table_update(before, i as int, t);
    }
}

fn put_task(tasks: &mut Vec<(String, TaskRecord)>, t: TaskRecord)
    requires
        keys_distinct(old(tasks)@),
        keys_match(old(tasks)@),
    ensures
        keys_distinct(final(tasks)@),
        keys_match(final(tasks)@),
        table_view(final(tasks)@) == table_view(old(tasks)@).insert(t@.stem, t@),
{
    match find_task(tasks, &t.stem) {
        Some(i) => {
            set_task(tasks, i, t);
        },
        None => {
            let k = t.stem.clone();
            proof {
                assert(!has_key(tasks@, k@));
                lemma_table_push(tasks@, k, t);
            }
            tasks.push((k, t));
        },
    }
}

fn drop_task(tasks: &mut Vec<(String, TaskRecord)>, stem: &String)
    requires
        keys_distinct(old(tasks)@),
        keys_match(old(tasks)@),
    ensures
        keys_distinct(final(tasks)@),
        keys_match(final(tasks)@),
        table_view(final(tasks)@) == table_view(old(tasks)@).remove(stem@),
{
    match find_task(tasks, stem) {
        Some(i) => {
            proof {
                lemma_table_remove(tasks@, i as int);
            }
            tasks.remove(i);
        },
        None => {
            assert(table_view(tasks@).remove(stem@) =~= table_view(tasks@));
        },
    }
}

pub open spec fn projection_of(
    initialized: bool,
    tasks: Seq<(String, TaskRecord)>,
    order: Seq<String>,
) -> ProjectionView {
    ProjectionView { initialized, tasks: table_view(tasks), order: strings_view(order) }
}

impl TaskProjection {
    #[verifier::type_invariant]
    spec fn keys_unique(self) -> bool {
        keys_distinct(self.tasks@) && keys_match(self.tasks@)
    }

    /// The board before any fact.
    pub fn new() -> (p: Self)
        ensures
            !p@.initialized,
            p@.tasks == Map::<Seq<char>, TaskView>::empty(),
            p@.order == Seq::<Seq<char>>::empty(),
    {
        let tasks: Vec<(String, TaskRecord)> = Vec::new();
        proof {
            lemma_table_empty(tasks@);
        }
        let p = TaskProjection { initialized: false, tasks, order: Vec::new() };
        assert(p@.order =~= Seq::<Seq<char>>::empty());
        p
    }

    /// Whether the repository was initialized.
    pub fn initialized(&self) -> (r: bool)
        ensures
            r == self@.initialized,
    {
        self.initialized
    }

    /// The board order of task stems.
    pub fn order(&self) -> (r: &Vec<String>)
        ensures
            strings_view(r@) == self@.order,
    {
        &self.order
    }

    /// The task with stem `stem`.
    pub fn task(&self, stem: &String) -> (r: Option<&TaskRecord>)
        ensures
            match r {
                Some(t) => self@.tasks.contains_key(stem@) && self@.tasks[stem@] == t@,
                None => !self@.tasks.contains_key(stem@),
            },
    {
        proof {
            use_type_invariant(self);
        }
        match find_task(&self.tasks, stem) {
            Some(i) => Some(&self.tasks[i].1),
            None => None,
        }
    }
}

/// Why a task reference resolves to no single task.
#[derive(Debug, PartialEq, Eq)]
pub enum TaskRefError {
    /// A path, a file name, or blank.
    Invalid,
    /// No task has that stem, identifier, or nickname.
    Missing,
    /// Several tasks answer to it; their stems, in order.
    Ambiguous { matches: Vec<String> },
}

/// The stems of the board that `task_ref` names.
pub open spec fn named_stems(p: ProjectionView, task_ref: Seq<char>) -> Set<Seq<char>> {
    p.tasks.dom().filter(|k: Seq<char>| crate::task_refs::ref_names(k, task_ref))
}

impl TaskProjection {
    /// The one task that `task_ref` names, by stem, identifier or nickname.
    pub fn resolve_task_stem(&self, task_ref: &str) -> (r: Result<String, TaskRefError>)
        ensures
            crate::task_refs::invalid_ref(task_ref@) ==> r matches Err(TaskRefError::Invalid),
            !crate::task_refs::invalid_ref(task_ref@) ==> exists|ms: Seq<Seq<char>>|
                crate::task_refs::strictly_sorted(ms) && #[trigger] ms.to_set() == named_stems(self@, task_ref@)
                    && match r {
                    Ok(s) => ms == seq![s@],
                    Err(TaskRefError::Missing) => ms.len() == 0,
                    Err(TaskRefError::Ambiguous { matches }) => ms.len() >= 2 && strings_view(matches@) == ms,
                    Err(TaskRefError::Invalid) => false,
                },
    {
        proof {
            use_type_invariant(self);
        }
        let r = crate::text::chars_of(task_ref);
        if crate::task_refs::ref_is_invalid(&r) {
            return Err(TaskRefError::Invalid);
        }
        let ghost t = self.tasks@;
        let mut ms: Vec<String> = Vec::new();
        let mut i: usize = 0;
        assert(strings_view(ms@).to_set() =~= Set::new(
            |k: Seq<char>| exists|j: int| 0 <= j < 0 && (#[trigger] t[j]).0@ == k && crate::task_refs::ref_names(k, r@),
        ));
        while i < self.tasks.len()
            invariant
                i <= t.len(),
                t == self.tasks@,
                keys_distinct(t),
                crate::task_refs::strictly_sorted(strings_view(ms@)),
                strings_view(ms@).to_set() == Set::new(
                    |k: Seq<char>| exists|j: int| 0 <= j < i && (#[trigger] t[j]).0@ == k && crate::task_refs::ref_names(k, r@),
                ),
            decreases t.len() - i,
        {
            let key = &self.tasks[i].0;
            let ghost before = strings_view(ms@).to_set();
            if crate::task_refs::names_task(key, &r) {
                assert(!strings_view(ms@).contains(key@)) by {
                    if strings_view(ms@).contains(key@) {
                        assert(strings_view(ms@).to_set().contains(key@));
                        let j = choose|j: int| 0 <= j < i && (#[trigger] t[j]).0@ == key@ && crate::task_refs::ref_names(key@, r@);
                        assert(t[j].0@ != t[i as int].0@);
                    }
                }
                crate::task_refs::insert_sorted_name(&mut ms, key);
                assert(strings_view(ms@).to_set() =~= Set::new(
                    |k: Seq<char>| exists|j: int| 0 <= j < i + 1 && (#[trigger] t[j]).0@ == k && crate::task_refs::ref_names(k, r@),
                )) by {
                    assert forall|k: Seq<char>| #[trigger] strings_view(ms@).to_set().contains(k) <==> (exists|j: int| 0 <= j < i + 1 && (#[trigger] t[j]).0@ == k && crate::task_refs::ref_names(k, r@)) by {
                        if exists|j: int| 0 <= j < i + 1 && (#[trigger] t[j]).0@ == k && crate::task_refs::ref_names(k, r@) {
                            let j = choose|j: int| 0 <= j < i + 1 && (#[trigger] t[j]).0@ == k && crate::task_refs::ref_names(k, r@);
                            if j < i {
                                assert(before.contains(k));
                            }
                        }
                        if before.contains(k) {
                            assert(exists|j: int| 0 <= j < i && (#[trigger] t[j]).0@ == k && crate::task_refs::ref_names(k, r@));
                        }
                    }
                }
            } else {
                assert(strings_view(ms@).to_set() =~= Set::new(
                    |k: Seq<char>| exists|j: int| 0 <= j < i + 1 && (#[trigger] t[j]).0@ == k && crate::task_refs::ref_names(k, r@),
                )) by {
                    assert forall|k: Seq<char>| #[trigger] strings_view(ms@).to_set().contains(k) <==> (exists|j: int| 0 <= j < i + 1 && (#[trigger] t[j]).0@ == k && crate::task_refs::ref_names(k, r@)) by {
                        if exists|j: int| 0 <= j < i + 1 && (#[trigger] t[j]).0@ == k && crate::task_refs::ref_names(k, r@) {
                            let j = choose|j: int| 0 <= j < i + 1 && (#[trigger] t[j]).0@ == k && crate::task_refs::ref_names(k, r@);
                            if j < i {
                                assert(before.contains(k));
                            }
                        }
                    }
                }
            }
            i = i + 1;
        }
        let ghost found = strings_view(ms@);
        assert(found.to_set() =~= named_stems(self@, task_ref@)) by {
            assert forall|k: Seq<char>| found.to_set().contains(k) <==> named_stems(self@, task_ref@).contains(k) by {
                if found.to_set().contains(k) {
                    let j = choose|j: int| 0 <= j < i && (#[trigger] t[j]).0@ == k && crate::task_refs::ref_names(k, r@);
                    assert(has_key(t, k));
                }
                if named_stems(self@, task_ref@).contains(k) {
                    assert(has_key(t, k));
                    let j = choose|j: int| 0 <= j < t.len() && (#[trigger] t[j]).0@ == k;
                }
            }
        }
        if ms.len() == 0 {
            return Err(TaskRefError::Missing);
        }
        if ms.len() == 1 {
            let s = ms[0].clone();
            assert(found =~= seq![s@]);
            return Ok(s);
        }
        Err(TaskRefError::Ambiguous { matches: ms })
    }
}

/// A task as listings show it: its stem and title.
#[derive(Debug, PartialEq, Eq)]
pub struct TaskSummary {
    pub path: String,
    pub title: String,
}

pub open spec fn summary_views(v: Seq<TaskSummary>) -> Seq<(Seq<char>, Seq<char>)> {
    v.map_values(|t: TaskSummary| (t.path@, t.title@))
}

/// Whether task `stem` exists and every task blocking it is done.
pub open spec fn ready(p: ProjectionView, stem: Seq<char>) -> bool {
    &&& p.tasks.contains_key(stem)
    &&& forall|k: int| 0 <= k < p.tasks[stem].blocked_by.len() ==> {
        let b = #[trigger] p.tasks[stem].blocked_by[k];
        p.tasks.contains_key(b) && p.tasks[b].status == "done"@
    }
}

/// The first position of `order` whose task is ready.
pub open spec fn first_ready(p: ProjectionView, order: Seq<Seq<char>>) -> Option<int>
    decreases order.len(),
{
    if order.len() == 0 {
        None
    } else if ready(p, order[0]) {
        Some(0)
    } else {
        match first_ready(p, order.drop_first()) {
            Some(j) => Some(j + 1),
            None => None,
        }
    }
}

/// The tasks of `order` that exist, with their titles, in order.
pub open spec fn ordered_entries(p: ProjectionView, order: Seq<Seq<char>>) -> Seq<(Seq<char>, Seq<char>)>
    decreases order.len(),
{
    if order.len() == 0 {
        Seq::empty()
    } else {
        let rest = ordered_entries(p, order.drop_last());
        if p.tasks.contains_key(order.last()) {
            rest.push((order.last(), p.tasks[order.last()].title))
        } else {
            rest
        }
    }
}

/// The stems of the tasks with status `status`.
pub open spec fn stems_with_status(p: ProjectionView, status: Seq<char>) -> Set<Seq<char>> {
    p.tasks.dom().filter(|k: Seq<char>| p.tasks[k].status == status)
}

impl TaskProjection {
    fn is_ready(&self, stem: &String) -> (r: bool)
        ensures
            r == ready(self@, stem@),
    {
        let t = match self.task(stem) {
            None => {
                return false;
            },
            Some(t) => t,
        };
        let mut k: usize = 0;
        while k < t.blocked_by.len()
            invariant
                k <= t.blocked_by@.len(),
                self@.tasks.contains_key(stem@),
                self@.tasks[stem@] == t@,
                forall|j: int| 0 <= j < k ==> {
                    let b = #[trigger] self@.tasks[stem@].blocked_by[j];
                    self@.tasks.contains_key(b) && self@.tasks[b].status == "done"@
                },
            decreases t.blocked_by.len() - k,
        {
            let b = &t.blocked_by[k];
            assert(self@.tasks[stem@].blocked_by[k as int] == b@);
            match self.task(b) {
                None => {
                    return false;
                },
                Some(bt) => {
                    if !crate::text::str_eq(bt.status.as_str(), "done") {
                        return false;
                    }
                },
            }
            k = k + 1;
        }
        true
    }

    /// The first task on the board order that nothing open blocks.
    pub fn next_task(&self) -> (r: Option<TaskSummary>)
        ensures
            match first_ready(self@, self@.order) {
                Some(k) => r matches Some(t) && t.path@ == self@.order[k] && t.title@ == self@.tasks[self@.order[k]].title,
                None => r is None,
            },
    {
        let ghost all = self@.order;
        let mut j: usize = 0;
        assert(all.skip(0) =~= all);
        while j < self.order.len()
            invariant
                j <= self@.order.len(),
                all == self@.order,
                first_ready(self@, all) == (match first_ready(self@, all.skip(j as int)) {
                    Some(k) => Some(k + j),
                    None => None,
                }),
            decreases self.order.len() - j,
        {
            assert(all.skip(j as int)[0] == self.order@[j as int]@);
            assert(all.skip(j as int).drop_first() =~= all.skip(j + 1));
            let stem = &self.order[j];
            if self.is_ready(stem) {
                let t = self.task(stem).unwrap();
                return Some(TaskSummary { path: stem.clone(), title: t.title.clone() });
            }
            j = j + 1;
        }
        assert(all.skip(j as int) =~= Seq::<Seq<char>>::empty());
        None
    }

    /// The tasks on the board order, with their titles.
    pub fn board_entries(&self) -> (r: Vec<TaskSummary>)
        ensures
            summary_views(r@) == ordered_entries(self@, self@.order),
    {
        let ghost all = self@.order;
        let mut out: Vec<TaskSummary> = Vec::new();
        let mut i: usize = 0;
        while i < self.order.len()
            invariant
                i <= self@.order.len(),
                all == self@.order,
                summary_views(out@) == ordered_entries(self@, all.take(i as int)),
            decreases self.order.len() - i,
        {
            assert(all.take(i + 1).drop_last() =~= all.take(i as int));
            assert(all.take(i + 1).last() == self.order@[i as int]@);
            let stem = &self.order[i];
            match self.task(stem) {
                Some(t) => {
                    let ghost before = summary_views(out@);
                    out.push(TaskSummary { path: stem.clone(), title: t.title.clone() });
                    assert(summary_views(out@) =~= before.push((stem@, t@.title)));
                },
                None => {},
            }
            i = i + 1;
        }
        assert(all.take(i as int) =~= all);
        out
    }

    /// The tasks with status `status`, by stem.
    pub fn tasks_with_status(&self, status: &str) -> (r: Vec<TaskSummary>)
        ensures
            crate::task_refs::strictly_sorted(summary_views(r@).map_values(|e: (Seq<char>, Seq<char>)| e.0)),
            summary_views(r@).map_values(|e: (Seq<char>, Seq<char>)| e.0).to_set() == stems_with_status(self@, status@),
            forall|k: int| 0 <= k < r@.len() ==> #[trigger] r@[k].title@ == self@.tasks[r@[k].path@].title,
    {
        proof {
            use_type_invariant(self);
        }
        let ghost t = self.tasks@;
        let mut stems: Vec<String> = Vec::new();
        let mut i: usize = 0;
        assert(strings_view(stems@).to_set() =~= Set::new(
            |k: Seq<char>| exists|j: int| 0 <= j < 0 && (#[trigger] t[j]).0@ == k && t[j].1@.status == status@,
        ));
        while i < self.tasks.len()
            invariant
                i <= t.len(),
                t == self.tasks@,
                keys_distinct(t),
                crate::task_refs::strictly_sorted(strings_view(stems@)),
                strings_view(stems@).to_set() == Set::new(
                    |k: Seq<char>| exists|j: int| 0 <= j < i && (#[trigger] t[j]).0@ == k && t[j].1@.status == status@,
                ),
            decreases t.len() - i,
        {
            let key = &self.tasks[i].0;
            let ghost before = strings_view(stems@).to_set();
            if crate::text::str_eq(self.tasks[i].1.status.as_str(), status) {
                assert(!strings_view(stems@).contains(key@)) by {
                    if strings_view(stems@).contains(key@) {
                        assert(strings_view(stems@).to_set().contains(key@));
                        let j = choose|j: int| 0 <= j < i && (#[trigger] t[j]).0@ == key@ && t[j].1@.status == status@;
                        assert(t[j].0@ != t[i as int].0@);
                    }
                }
                crate::task_refs::insert_sorted_name(&mut stems, key);
            }
            assert(strings_view(stems@).to_set() =~= Set::new(
                |k: Seq<char>| exists|j: int| 0 <= j < i + 1 && (#[trigger] t[j]).0@ == k && t[j].1@.status == status@,
            )) by {
                assert forall|k: Seq<char>| #[trigger] strings_view(stems@).to_set().contains(k) <==> (exists|j: int| 0 <= j < i + 1 && (#[trigger] t[j]).0@ == k && t[j].1@.status == status@) by {
                    if exists|j: int| 0 <= j < i + 1 && (#[trigger] t[j]).0@ == k && t[j].1@.status == status@ {
                        let j = choose|j: int| 0 <= j < i + 1 && (#[trigger] t[j]).0@ == k && t[j].1@.status == status@;
                        if j < i {
                            assert(before.contains(k));
                        }
                    }
                    if before.contains(k) {
                        assert(exists|j: int| 0 <= j < i && (#[trigger] t[j]).0@ == k && t[j].1@.status == status@);
                    }
                }
            }
            i = i + 1;
        }
        assert(strings_view(stems@).to_set() =~= stems_with_status(self@, status@)) by {
            assert forall|k: Seq<char>| strings_view(stems@).to_set().contains(k) <==> stems_with_status(self@, status@).contains(k) by {
                if strings_view(stems@).to_set().contains(k) {
                    let j = choose|j: int| 0 <= j < i && (#[trigger] t[j]).0@ == k && t[j].1@.status == status@;
                    assert(has_key(t, k));
                    lemma_table_index(t, j);
                }
                if stems_with_status(self@, status@).contains(k) {
                    assert(has_key(t, k));
                    let j = choose|j: int| 0 <= j < t.len() && (#[trigger] t[j]).0@ == k;
                    lemma_table_index(t, j);
                }
            }
        }
        let mut out: Vec<TaskSummary> = Vec::new();
        let mut k: usize = 0;
        while k < stems.len()
            invariant
                k <= stems@.len(),
                strings_view(stems@).to_set() == stems_with_status(self@, status@),
                out@.len() == k,
                forall|q: int| 0 <= q < k ==> (#[trigger] out@[q]).path@ == stems@[q]@ && out@[q].title@
                    == self@.tasks[out@[q].path@].title,
            decreases stems.len() - k,
        {
            let stem = &stems[k];
            assert(strings_view(stems@)[k as int] == stem@);
            assert(strings_view(stems@).to_set().contains(stem@));
            let task = self.task(stem).unwrap();
            out.push(TaskSummary { path: stem.clone(), title: task.title.clone() });
            k = k + 1;
        }
        assert(summary_views(out@).map_values(|e: (Seq<char>, Seq<char>)| e.0) =~= strings_view(stems@));
        out
    }
}

/// A task found by a search.
#[derive(Debug, PartialEq, Eq)]
pub struct TaskSearchResult {
    pub id: String,
    pub status: String,
    pub title: String,
    pub summary: String,
    pub context: String,
}

/// Whether the title, summary or context of `t` holds `query`, in lower case.
pub open spec fn search_matches(t: TaskView, query: Seq<char>) -> bool {
    let q = crate::task_search::lowercase(query);
    ||| crate::task_search::has_substring(crate::task_search::lowercase(t.title), q)
    ||| crate::task_search::has_substring(crate::task_search::lowercase(t.summary), q)
    ||| crate::task_search::has_substring(crate::task_search::lowercase(t.context), q)
}

pub open spec fn search_keys(v: Seq<TaskSearchResult>) -> Seq<(Seq<char>, Seq<char>)> {
    v.map_values(|r: TaskSearchResult| (r.status@, r.id@))
}

pub open spec fn pairs_sorted(s: Seq<(Seq<char>, Seq<char>)>) -> bool {
    forall|i: int, j: int| 0 <= i < j < s.len() ==> crate::task_search::pair_lt(#[trigger] s[i], #[trigger] s[j])
}

/// `r` shows task `t`.
pub open spec fn shows_task(r: TaskSearchResult, t: TaskView) -> bool {
    r.id@ == t.stem && r.status@ == t.status && r.title@ == t.title && r.summary@ == t.summary && r.context@
        == t.context
}

fn insert_result(v: &mut Vec<TaskSearchResult>, x: TaskSearchResult)
    requires
        pairs_sorted(search_keys(old(v)@)),
        forall|q: int| 0 <= q < old(v)@.len() ==> (#[trigger] old(v)@[q]).id@ != x.id@,
    ensures
        pairs_sorted(search_keys(final(v)@)),
        exists|i: int| 0 <= i <= old(v)@.len() && final(v)@ == old(v)@.insert(i, x),
{
    let ghost before = v@;
    let ghost kb = search_keys(before);
    let ghost kx = (x.status@, x.id@);
    let mut i: usize = 0;
    while i < v.len() && crate::task_search::pair_less(&v[i].status, &v[i].id, &x.status, &x.id)
        invariant
            i <= v@.len(),
            v@ == before,
            kb == search_keys(before),
            kx == (x.status@, x.id@),
            forall|j: int| 0 <= j < i ==> crate::task_search::pair_lt(#[trigger] kb[j], kx),
        decreases v.len() - i,
    {
        i = i + 1;
    }
    v.insert(i, x);
    let ghost after = search_keys(v@);
    assert(after =~= kb.insert(i as int, kx));
    assert forall|a: int, b: int| 0 <= a < b < after.len() implies crate::task_search::pair_lt(#[trigger] after[a], #[trigger] after[b]) by {
        if b < i {
            assert(after[a] == kb[a] && after[b] == kb[b]);
        } else if b == i {
            assert(after[a] == kb[a]);
        } else if a == i {
            assert(after[b] == kb[b - 1]);
            assert(before[i as int].id@ != x.id@);
            assert(kb[i as int] != kx);
            assert(!crate::task_search::pair_lt(kb[i as int], kx));
            crate::task_search::lemma_pair_order(kb[i as int], kx, kb[b - 1]);
            crate::task_search::lemma_pair_order(kx, kb[i as int], kb[b - 1]);
        } else if a < i {
            assert(after[a] == kb[a] && after[b] == kb[b - 1]);
            if a < b - 1 {
                assert(crate::task_search::pair_lt(kb[a], kb[b - 1]));
            }
        } else {
            assert(after[a] == kb[a - 1] && after[b] == kb[b - 1]);
        }
    }
}

impl TaskProjection {
    /// The tasks whose title, summary or context holds `query` in lower
    /// case, by status and then stem.
    pub fn search_tasks(&self, query: &str) -> (r: Vec<TaskSearchResult>)
        ensures
            pairs_sorted(search_keys(r@)),
            r@.map_values(|x: TaskSearchResult| x.id@).to_set() == self@.tasks.dom().filter(
                |k: Seq<char>| search_matches(self@.tasks[k], query@),
            ),
            forall|q: int| 0 <= q < r@.len() ==> self@.tasks.contains_key((#[trigger] r@[q]).id@) && shows_task(
                r@[q],
                self@.tasks[r@[q].id@],
            ),
    {
        proof {
            use_type_invariant(self);
        }
        let ghost t = self.tasks@;
        let ghost m = table_view(t);
        let lq = crate::task_search::to_lowercase(query);
        let mut out: Vec<TaskSearchResult> = Vec::new();
        let mut i: usize = 0;
        assert(out@.map_values(|x: TaskSearchResult| x.id@).to_set() =~= Set::new(
            |k: Seq<char>| exists|j: int| 0 <= j < 0 && (#[trigger] t[j]).0@ == k && search_matches(t[j].1@, query@),
        ));
        while i < self.tasks.len()
            invariant
                i <= t.len(),
                t == self.tasks@,
                m == table_view(t),
                keys_distinct(t),
                keys_match(t),
                lq@ == crate::task_search::lowercase(query@),
                pairs_sorted(search_keys(out@)),
                out@.map_values(|x: TaskSearchResult| x.id@).to_set() == Set::new(
                    |k: Seq<char>| exists|j: int| 0 <= j < i && (#[trigger] t[j]).0@ == k && search_matches(t[j].1@, query@),
                ),
                forall|q: int| 0 <= q < out@.len() ==> exists|j: int| 0 <= j < i && (#[trigger] t[j]).0@ == (#[trigger] out@[q]).id@
                    && shows_task(out@[q], t[j].1@),
            decreases t.len() - i,
        {
            let entry = &self.tasks[i];
            let task = &entry.1;
            let ghost before = out@;
            let ghost ids = out@.map_values(|x: TaskSearchResult| x.id@);
            let hit = crate::task_search::contains_text(crate::task_search::to_lowercase(task.title.as_str()).as_str(), lq.as_str())
                || crate::task_search::contains_text(crate::task_search::to_lowercase(task.summary.as_str()).as_str(), lq.as_str())
                || crate::task_search::contains_text(crate::task_search::to_lowercase(task.context.as_str()).as_str(), lq.as_str());
            assert(hit == search_matches(t[i as int].1@, query@));
            if hit {
                assert(task@.stem == entry.0@);
                let x = TaskSearchResult {
                    id: task.stem.clone(),
                    status: task.status.clone(),
                    title: task.title.clone(),
                    summary: task.summary.clone(),
                    context: task.context.clone(),
                };
                assert forall|q: int| 0 <= q < out@.len() implies (#[trigger] out@[q]).id@ != x.id@ by {
                    let j = choose|j: int| 0 <= j < i && (#[trigger] t[j]).0@ == out@[q].id@ && shows_task(out@[q], t[j].1@);
                    assert(t[j].0@ != t[i as int].0@);
                }
                let ghost xg = x;
                insert_result(&mut out, x);
                proof {
                    let ii = choose|ii: int| 0 <= ii <= before.len() && out@ == before.insert(ii, xg);
                    let now = out@.map_values(|y: TaskSearchResult| y.id@);
                    assert(now =~= ids.insert(ii, xg.id@));
                    assert(now.to_set() =~= Set::new(
                        |k: Seq<char>| exists|j: int| 0 <= j < i + 1 && (#[trigger] t[j]).0@ == k && search_matches(t[j].1@, query@),
                    )) by {
                        assert forall|k: Seq<char>| now.to_set().contains(k) <==> (exists|j: int| 0 <= j < i + 1 && (#[trigger] t[j]).0@ == k && search_matches(t[j].1@, query@)) by {
                            if now.to_set().contains(k) {
                                let p = choose|p: int| 0 <= p < now.len() && now[p] == k;
                                if p < ii {
                                    assert(ids[p] == k);
                                    assert(ids.to_set().contains(k));
                                } else if p > ii {
                                    assert(ids[p - 1] == k);
                                    assert(ids.to_set().contains(k));
                                } else {
                                    assert(t[i as int].0@ == k);
                                }
                            }
                            if exists|j: int| 0 <= j < i + 1 && (#[trigger] t[j]).0@ == k && search_matches(t[j].1@, query@) {
                                let j = choose|j: int| 0 <= j < i + 1 && (#[trigger] t[j]).0@ == k && search_matches(t[j].1@, query@);
                                if j < i {
                                    assert(ids.to_set().contains(k));
                                    let p = choose|p: int| 0 <= p < ids.len() && ids[p] == k;
                                    if p < ii {
                                        assert(now[p] == k);
                                    } else {
                                        assert(now[p + 1] == k);
                                    }
                                } else {
                                    assert(now[ii] == k);
                                }
                            }
                        }
                    }
                    assert forall|q: int| 0 <= q < out@.len() implies exists|j: int| 0 <= j < i + 1 && (#[trigger] t[j]).0@ == (#[trigger] out@[q]).id@
                        && shows_task(out@[q], t[j].1@) by {
                        if q < ii {
                            assert(out@[q] == before[q]);
                        } else if q > ii {
                            assert(out@[q] == before[q - 1]);
                        } else {
                            assert(out@[q] == xg);
                            assert(t[i as int].0@ == out@[q].id@ && shows_task(out@[q], t[i as int].1@));
                        }
                    }
                }
            } else {
                assert(ids.to_set() =~= Set::new(
                    |k: Seq<char>| exists|j: int| 0 <= j < i + 1 && (#[trigger] t[j]).0@ == k && search_matches(t[j].1@, query@),
                )) by {
                    assert forall|k: Seq<char>| #[trigger] ids.to_set().contains(k) <==> (exists|j: int| 0 <= j < i + 1 && (#[trigger] t[j]).0@ == k && search_matches(t[j].1@, query@)) by {
                        if exists|j: int| 0 <= j < i + 1 && (#[trigger] t[j]).0@ == k && search_matches(t[j].1@, query@) {
                            let j = choose|j: int| 0 <= j < i + 1 && (#[trigger] t[j]).0@ == k && search_matches(t[j].1@, query@);
                            assert(j < i);
                        }
                    }
                }
            }
            i = i + 1;
        }
        proof {
            let ids = out@.map_values(|y: TaskSearchResult| y.id@);
            assert(ids.to_set() =~= self@.tasks.dom().filter(|k: Seq<char>| search_matches(self@.tasks[k], query@))) by {
                assert forall|k: Seq<char>| ids.to_set().contains(k) <==> self@.tasks.dom().filter(|k: Seq<char>| search_matches(self@.tasks[k], query@)).contains(k) by {
                    if ids.to_set().contains(k) {
                        let j = choose|j: int| 0 <= j < i && (#[trigger] t[j]).0@ == k && search_matches(t[j].1@, query@);
                        lemma_table_index(t, j);
                    }
                    if self@.tasks.dom().filter(|k: Seq<char>| search_matches(self@.tasks[k], query@)).contains(k) {
                        assert(has_key(t, k));
                        let j = choose|j: int| 0 <= j < t.len() && (#[trigger] t[j]).0@ == k;
                        lemma_table_index(t, j);
                    }
                }
            }
            assert forall|q: int| 0 <= q < out@.len() implies self@.tasks.contains_key((#[trigger] out@[q]).id@) && shows_task(
                out@[q],
                self@.tasks[out@[q].id@],
            ) by {
                let j = choose|j: int| 0 <= j < i && (#[trigger] t[j]).0@ == out@[q].id@ && shows_task(out@[q], t[j].1@);
                lemma_table_index(t, j);
            }
        }
        out
    }
}

// ---------------------------------------------------------------------------
// Folding facts

fn apply_links(
    tasks: &mut Vec<(String, TaskRecord)>,
    changes: &Vec<LinkChange>,
    Ghost(initialized): Ghost<bool>,
    Ghost(order): Ghost<Seq<String>>,
) -> (r: Result<(), TaskFoldError>)
    requires
        keys_distinct(old(tasks)@),
        keys_match(old(tasks)@),
    ensures
        keys_distinct(final(tasks)@),
        keys_match(final(tasks)@),
        match r {
            Ok(_) => links_fold(projection_of(initialized, old(tasks)@, order), changes@) == Ok::<
                ProjectionView,
                TaskFoldErrorView,
            >(projection_of(initialized, final(tasks)@, order)),
            Err(e) => links_fold(projection_of(initialized, old(tasks)@, order), changes@) == Err::<
                ProjectionView,
                TaskFoldErrorView,
            >(e@),
        },
{
    let ghost start = projection_of(initialized, tasks@, order);
    let mut i: usize = 0;
    assert(changes@.skip(0) =~= changes@);
    while i < changes.len()
        invariant
            i <= changes@.len(),
            keys_distinct(tasks@),
            keys_match(tasks@),
            start == projection_of(initialized, old(tasks)@, order),
            links_fold(start, changes@) == links_fold(projection_of(initialized, tasks@, order), changes@.skip(i as int)),
        decreases changes.len() - i,
    {
        let ghost rest = changes@.skip(i as int);
        assert(rest[0] == changes@[i as int]);
        assert(rest.drop_first() =~= changes@.skip(i + 1));
        let c = &changes[i];
        match find_task(tasks, &c.stem) {
            None => {
                let e = TaskFoldError::TaskMissing { stem: c.stem.clone() };
                proof {
                    let here = projection_of(initialized, tasks@, order);
                    assert(link_step(here, rest[0]) == Err::<ProjectionView, TaskFoldErrorView>(e@));
                    assert(links_fold(here, rest) == Err::<ProjectionView, TaskFoldErrorView>(e@));
                }
                return Err(e);
            },
            Some(k) => {
                let mut t = tasks[k].1.duplicate();
                t.blocks = duplicate_strings(&c.blocks);
                t.blocked_by = duplicate_strings(&c.blocked_by);
                set_task(tasks, k, t);
            },
        }
        i = i + 1;
    }
    assert(changes@.skip(i as int) =~= Seq::<LinkChange>::empty());
    Ok(())
}

fn done_text() -> (r: String)
    ensures
        r@ == seq!['d', 'o', 'n', 'e'],
{
    let mut r = String::new();
    crate::text::push_char(&mut r, 'd');
    crate::text::push_char(&mut r, 'o');
    crate::text::push_char(&mut r, 'n');
    crate::text::push_char(&mut r, 'e');
    r
}

fn close_task(
    tasks: &mut Vec<(String, TaskRecord)>,
    stem: &String,
    Ghost(initialized): Ghost<bool>,
    Ghost(order): Ghost<Seq<String>>,
) -> (r: Result<(), TaskFoldError>)
    requires
        keys_distinct(old(tasks)@),
        keys_match(old(tasks)@),
    ensures
        keys_distinct(final(tasks)@),
        keys_match(final(tasks)@),
        match r {
            Ok(_) => close_step(projection_of(initialized, old(tasks)@, order), stem@) == Ok::<
                ProjectionView,
                TaskFoldErrorView,
            >(projection_of(initialized, final(tasks)@, order)),
            Err(e) => close_step(projection_of(initialized, old(tasks)@, order), stem@) == Err::<
                ProjectionView,
                TaskFoldErrorView,
            >(e@),
        },
{
    match find_task(tasks, stem) {
        None => Err(TaskFoldError::TaskMissing { stem: stem.clone() }),
        Some(k) => {
            let mut t = tasks[k].1.duplicate();
            t.status = done_text();
            t.claim = None;
            set_task(tasks, k, t);
            Ok(())
        },
    }
}

fn close_tasks(
    tasks: &mut Vec<(String, TaskRecord)>,
    stems: &Vec<String>,
    Ghost(initialized): Ghost<bool>,
    Ghost(order): Ghost<Seq<String>>,
) -> (r: Result<(), TaskFoldError>)
    requires
        keys_distinct(old(tasks)@),
        keys_match(old(tasks)@),
    ensures
        keys_distinct(final(tasks)@),
        keys_match(final(tasks)@),
        match r {
            Ok(_) => close_fold(projection_of(initialized, old(tasks)@, order), strings_view(stems@))
                == Ok::<ProjectionView, TaskFoldErrorView>(projection_of(initialized, final(tasks)@, order)),
            Err(e) => close_fold(projection_of(initialized, old(tasks)@, order), strings_view(stems@))
                == Err::<ProjectionView, TaskFoldErrorView>(e@),
        },
{
    let ghost start = projection_of(initialized, tasks@, order);
    let ghost all = strings_view(stems@);
    let mut i: usize = 0;
    assert(all.skip(0) =~= all);
    while i < stems.len()
        invariant
            i <= stems@.len(),
            all == strings_view(stems@),
            keys_distinct(tasks@),
            keys_match(tasks@),
            start == projection_of(initialized, old(tasks)@, order),
            close_fold(start, all) == close_fold(projection_of(initialized, tasks@, order), all.skip(i as int)),
        decreases stems.len() - i,
    {
        assert(all.skip(i as int)[0] == stems@[i as int]@);
        assert(all.skip(i as int).drop_first() =~= all.skip(i + 1));
        let ghost here = projection_of(initialized, tasks@, order);
        match close_task(tasks, &stems[i], Ghost(initialized), Ghost(order)) {
            Err(e) => {
                assert(close_fold(here, all.skip(i as int)) == Err::<ProjectionView, TaskFoldErrorView>(e@));
                return Err(e);
            },
            Ok(()) => {},
        }
        i = i + 1;
    }
    assert(all.skip(i as int) =~= Seq::<Seq<char>>::empty());
    Ok(())
}

fn record_snapshots(
    tasks: &mut Vec<(String, TaskRecord)>,
    pairs: &Vec<(String, CompletionSnapshot)>,
    Ghost(initialized): Ghost<bool>,
    Ghost(order): Ghost<Seq<String>>,
) -> (r: Result<(), TaskFoldError>)
    requires
        keys_distinct(old(tasks)@),
        keys_match(old(tasks)@),
    ensures
        keys_distinct(final(tasks)@),
        keys_match(final(tasks)@),
        match r {
            Ok(_) => snapshot_fold(projection_of(initialized, old(tasks)@, order), pairs@) == Ok::<
                ProjectionView,
                TaskFoldErrorView,
            >(projection_of(initialized, final(tasks)@, order)),
            Err(e) => snapshot_fold(projection_of(initialized, old(tasks)@, order), pairs@) == Err::<
                ProjectionView,
                TaskFoldErrorView,
            >(e@),
        },
{
    let ghost start = projection_of(initialized, tasks@, order);
    let mut i: usize = 0;
    assert(pairs@.skip(0) =~= pairs@);
    while i < pairs.len()
        invariant
            i <= pairs@.len(),
            keys_distinct(tasks@),
            keys_match(tasks@),
            start == projection_of(initialized, old(tasks)@, order),
            snapshot_fold(start, pairs@) == snapshot_fold(projection_of(initialized, tasks@, order), pairs@.skip(i as int)),
        decreases pairs.len() - i,
    {
        assert(pairs@.skip(i as int)[0] == pairs@[i as int]);
        assert(pairs@.skip(i as int).drop_first() =~= pairs@.skip(i + 1));
        let pair = &pairs[i];
        match find_task(tasks, &pair.0) {
            None => {
                let e = TaskFoldError::TaskMissing { stem: pair.0.clone() };
                proof {
                    let here = projection_of(initialized, tasks@, order);
                    assert(snapshot_fold(here, pairs@.skip(i as int)) == Err::<ProjectionView, TaskFoldErrorView>(e@));
                }
                return Err(e);
            },
            Some(k) => {
                let mut t = tasks[k].1.duplicate();
                t.completion_snapshot = Some(pair.1.duplicate());
                set_task(tasks, k, t);
            },
        }
        i = i + 1;
    }
    assert(pairs@.skip(i as int) =~= Seq::<(String, CompletionSnapshot)>::empty());
    Ok(())
}

fn find_subtask(s: &Vec<Subtask>, id: &String) -> (r: Option<usize>)
    ensures
        match r {
            Some(j) => j < s@.len() && first_subtask(views(s@), id@) == Some(j as int),
            None => first_subtask(views(s@), id@) is None,
        },
{
    let ghost all = views(s@);
    let mut j: usize = 0;
    assert(all.skip(0) =~= all);
    while j < s.len()
        invariant
            j <= s@.len(),
            all == views(s@),
            forall|k: int| 0 <= k < j ==> #[trigger] all[k].id != id@,
            first_subtask(all, id@) == (match first_subtask(all.skip(j as int), id@) {
                Some(k) => Some(k + j),
                None => None,
            }),
        decreases s.len() - j,
    {
        assert(all.skip(j as int)[0] == s@[j as int]@);
        assert(all.skip(j as int).drop_first() =~= all.skip(j + 1));
        if s[j].id == *id {
            return Some(j);
        }
        j = j + 1;
    }
    assert(all.skip(j as int) =~= Seq::<SubtaskView>::empty());
    None
}

/// Folds one recorded fact into the board. A fact that names a missing
/// task, subtask or acceptance criterion is refused.
pub fn apply_task_fact(p: TaskProjection, f: &TaskFact) -> (r: Result<TaskProjection, TaskFoldError>)
    ensures
        match r {
            Ok(q) => task_step(p@, *f) == Ok::<ProjectionView, TaskFoldErrorView>(q@),
            Err(e) => task_step(p@, *f) == Err::<ProjectionView, TaskFoldErrorView>(e@),
        },
{
    proof {
        use_type_invariant(&p);
    }
    let ghost start = p@;
    let TaskProjection { initialized, mut tasks, mut order } = p;
    assert(start == projection_of(initialized, tasks@, order@));
    match f {
        TaskFact::RepositoryInitialized => Ok(TaskProjection { initialized: true, tasks, order }),
        TaskFact::TaskCreated { task, .. } => {
            put_task(&mut tasks, task.duplicate());
            Ok(TaskProjection { initialized, tasks, order })
        },
        TaskFact::TaskTransitioned { stem, status, claim, completion_snapshot } => {
            let k = match find_task(&tasks, stem) {
                None => {
                    return Err(TaskFoldError::TaskMissing { stem: stem.clone() });
                },
                Some(k) => k,
            };
            let mut t = tasks[k].1.duplicate();
            t.status = status.clone();
            t.claim = duplicate_claim(claim);
            if completion_snapshot.is_some() {
                t.completion_snapshot = duplicate_snapshot(completion_snapshot);
            }
            set_task(&mut tasks, k, t);
            Ok(TaskProjection { initialized, tasks, order })
        },
        TaskFact::TaskPriorityChanged { order: o } => {
            Ok(TaskProjection { initialized, tasks, order: duplicate_strings(o) })
        },
        TaskFact::BoardReordered { order: o } => {
            Ok(TaskProjection { initialized, tasks, order: duplicate_strings(o) })
        },
        TaskFact::TaskLinksChanged { change } => {
            let k = match find_task(&tasks, &change.stem) {
                None => {
                    return Err(TaskFoldError::TaskMissing { stem: change.stem.clone() });
                },
                Some(k) => k,
            };
            let mut t = tasks[k].1.duplicate();
            t.blocks = duplicate_strings(&change.blocks);
            t.blocked_by = duplicate_strings(&change.blocked_by);
            set_task(&mut tasks, k, t);
            Ok(TaskProjection { initialized, tasks, order })
        },
        TaskFact::TaskSubtaskAdded { stem, subtask } => {
            let k = match find_task(&tasks, stem) {
                None => {
                    return Err(TaskFoldError::TaskMissing { stem: stem.clone() });
                },
                Some(k) => k,
            };
            let mut t = tasks[k].1.duplicate();
            let ghost before = views(t.subtasks@);
            t.subtasks.push(subtask.duplicate());
            assert(views(t.subtasks@) =~= before.push(subtask@));
            set_task(&mut tasks, k, t);
            Ok(TaskProjection { initialized, tasks, order })
        },
        TaskFact::TaskSubtaskChecked { stem, subtask_id, checked } => {
            let k = match find_task(&tasks, stem) {
                None => {
                    return Err(TaskFoldError::TaskMissing { stem: stem.clone() });
                },
                Some(k) => k,
            };
            let mut t = tasks[k].1.duplicate();
            let j = match find_subtask(&t.subtasks, subtask_id) {
                None => {
                    return Err(TaskFoldError::SubtaskMissing { subtask_id: subtask_id.clone() });
                },
                Some(j) => j,
            };
            let mut item = t.subtasks[j].duplicate();
            item.checked = *checked;
            let ghost before = views(t.subtasks@);
            t.subtasks.set(j, item);
            assert(views(t.subtasks@) =~= before.update(j as int, SubtaskView { checked: *checked, ..before[j as int] }));
            set_task(&mut tasks, k, t);
            Ok(TaskProjection { initialized, tasks, order })
        },
        TaskFact::TaskDetailsUpdated { stem, title, tags, summary, context } => {
            let k = match find_task(&tasks, stem) {
                None => {
                    return Err(TaskFoldError::TaskMissing { stem: stem.clone() });
                },
                Some(k) => k,
            };
            let mut t = tasks[k].1.duplicate();
            t.title = title.clone();
            t.tags = duplicate_strings(tags);
            t.summary = summary.clone();
            t.context = context.clone();
            set_task(&mut tasks, k, t);
            Ok(TaskProjection { initialized, tasks, order })
        },
        TaskFact::LegacyTaskClaimChanged { stem, claim } => {
            let k = match find_task(&tasks, stem) {
                None => {
                    return Err(TaskFoldError::TaskMissing { stem: stem.clone() });
                },
                Some(k) => k,
            };
            let mut t = tasks[k].1.duplicate();
            t.claim = duplicate_claim(claim);
            set_task(&mut tasks, k, t);
            Ok(TaskProjection { initialized, tasks, order })
        },
        TaskFact::TaskPullRequestChanged { stem, url, status } => {
            let k = match find_task(&tasks, stem) {
                None => {
                    return Err(TaskFoldError::TaskMissing { stem: stem.clone() });
                },
                Some(k) => k,
            };
            let mut t = tasks[k].1.duplicate();
            t.pr_mr_url = duplicate_text(url);
            t.pr_mr_status = duplicate_text(status);
            set_task(&mut tasks, k, t);
            Ok(TaskProjection { initialized, tasks, order })
        },
        TaskFact::TaskAcceptanceAdded { stem, item } => {
            let k = match find_task(&tasks, stem) {
                None => {
                    return Err(TaskFoldError::TaskMissing { stem: stem.clone() });
                },
                Some(k) => k,
            };
            let mut t = tasks[k].1.duplicate();
            let ghost before = views(t.acceptance@);
            t.acceptance.push(item.duplicate());
            assert(views(t.acceptance@) =~= before.push(item@));
            set_task(&mut tasks, k, t);
            Ok(TaskProjection { initialized, tasks, order })
        },
        TaskFact::TaskAcceptanceChecked { stem, index, checked } => {
            let k = match find_task(&tasks, stem) {
                None => {
                    return Err(TaskFoldError::TaskMissing { stem: stem.clone() });
                },
                Some(k) => k,
            };
            let mut t = tasks[k].1.duplicate();
            if *index >= t.acceptance.len() {
                return Err(TaskFoldError::AcceptanceIndexMissing { index: *index });
            }
            let mut item = t.acceptance[*index].duplicate();
            item.checked = *checked;
            let ghost before = views(t.acceptance@);
            t.acceptance.set(*index, item);
            assert(views(t.acceptance@) =~= before.update(*index as int, ChecklistView { checked: *checked, ..before[*index as int] }));
            set_task(&mut tasks, k, t);
            Ok(TaskProjection { initialized, tasks, order })
        },
        TaskFact::TaskAcceptanceRemoved { stem, index } => {
            let k = match find_task(&tasks, stem) {
                None => {
                    return Err(TaskFoldError::TaskMissing { stem: stem.clone() });
                },
                Some(k) => k,
            };
            let mut t = tasks[k].1.duplicate();
            if *index >= t.acceptance.len() {
                return Err(TaskFoldError::AcceptanceIndexMissing { index: *index });
            }
            let ghost before = views(t.acceptance@);
            t.acceptance.remove(*index);
            assert(views(t.acceptance@) =~= before.remove(*index as int));
            set_task(&mut tasks, k, t);
            Ok(TaskProjection { initialized, tasks, order })
        },
        TaskFact::TaskNoteAdded { stem, note } => {
            let k = match find_task(&tasks, stem) {
                None => {
                    return Err(TaskFoldError::TaskMissing { stem: stem.clone() });
                },
                Some(k) => k,
            };
            let mut t = tasks[k].1.duplicate();
            let ghost before = views(t.notes@);
            t.notes.push(note.duplicate());
            assert(views(t.notes@) =~= before.push(note@));
            set_task(&mut tasks, k, t);
            Ok(TaskProjection { initialized, tasks, order })
        },
        TaskFact::TaskFinalReviewRecorded { stem, review } => {
            let k = match find_task(&tasks, stem) {
                None => {
                    return Err(TaskFoldError::TaskMissing { stem: stem.clone() });
                },
                Some(k) => k,
            };
            let mut t = tasks[k].1.duplicate();
            let ghost before = t.reviews.deep_view();
            t.reviews.push(review.duplicate());
            assert(t.reviews.deep_view() =~= before.push(review@));
            crate::final_review::apply_final_review_record_to_clean_sequence(&mut t.clean_reviews, review);
            set_task(&mut tasks, k, t);
            Ok(TaskProjection { initialized, tasks, order })
        },
        TaskFact::TaskValidationRepaired { link_changes, order_change } => {
            match apply_links(&mut tasks, link_changes, Ghost(initialized), Ghost(order@)) {
                Err(e) => {
                    return Err(e);
                },
                Ok(()) => {},
            }
            match order_change {
                Some(o) => Ok(TaskProjection { initialized, tasks, order: duplicate_strings(o) }),
                None => Ok(TaskProjection { initialized, tasks, order }),
            }
        },
        TaskFact::TasksClosedFromCommitTrailers { stems, order: o, completion_snapshots } => {
            match close_tasks(&mut tasks, stems, Ghost(initialized), Ghost(order@)) {
                Err(e) => {
                    return Err(e);
                },
                Ok(()) => {},
            }
            match record_snapshots(&mut tasks, completion_snapshots, Ghost(initialized), Ghost(order@)) {
                Err(e) => {
                    return Err(e);
                },
                Ok(()) => {},
            }
            Ok(TaskProjection { initialized, tasks, order: duplicate_strings(o) })
        },
        TaskFact::LegacyTaskClosedFromTrailer { stem } => {
            match close_task(&mut tasks, stem, Ghost(initialized), Ghost(order@)) {
                Err(e) => Err(e),
                Ok(()) => Ok(TaskProjection { initialized, tasks, order }),
            }
        },
        TaskFact::LegacyTaskRemoved { stem } => {
            drop_task(&mut tasks, stem);
            Ok(TaskProjection { initialized, tasks, order })
        },
        TaskFact::LegacyTaskStatePublished => Ok(TaskProjection { initialized, tasks, order }),
    }
}

// ---------------------------------------------------------------------------
// The whole stream: task facts and recovery facts

/// A recorded fact of the repository's stream.
#[derive(Debug)]
pub enum TiberFact {
    Task(TaskFact),
    Ci(CiRecoveryFact),
}

/// Why a fact of the stream cannot be folded.
#[derive(Debug, PartialEq, Eq)]
pub enum TiberFoldError {
    Task(TaskFoldError),
    Ci(CiFoldError),
}

pub enum TiberFoldErrorView {
    Task(TaskFoldErrorView),
    Ci(CiFoldError),
}

impl View for TiberFoldError {
    type V = TiberFoldErrorView;

    open spec fn view(&self) -> TiberFoldErrorView {
        match self {
            TiberFoldError::Task(e) => TiberFoldErrorView::Task(e@),
            TiberFoldError::Ci(e) => TiberFoldErrorView::Ci(*e),
        }
    }
}

/// The board and the recovery incident folded from the stream.
#[derive(Debug)]
pub struct TiberProjection {
    pub tasks: TaskProjection,
    pub ci_recovery: Option<CiRecoveryState>,
}

pub struct TiberView {
    pub tasks: ProjectionView,
    pub ci_recovery: Option<CiStateView>,
}

impl View for TiberProjection {
    type V = TiberView;

    open spec fn view(&self) -> TiberView {
        TiberView { tasks: self.tasks@, ci_recovery: self.ci_recovery.deep_view() }
    }
}

/// What folding one fact of the stream makes of the projection.
pub open spec fn tiber_step(v: TiberView, f: TiberFact) -> Result<TiberView, TiberFoldErrorView> {
    match f {
        TiberFact::Task(t) => match task_step(v.tasks, t) {
            Ok(tasks) => Ok(TiberView { tasks, ..v }),
            Err(e) => Err(TiberFoldErrorView::Task(e)),
        },
        TiberFact::Ci(c) => match ci_step(v.ci_recovery, c@) {
            Ok(ci_recovery) => Ok(TiberView { ci_recovery, ..v }),
            Err(e) => Err(TiberFoldErrorView::Ci(e)),
        },
    }
}

/// The projection of a whole stream, refused at its first refused fact.
pub open spec fn tiber_fold(start: TiberView, facts: Seq<TiberFact>) -> Result<TiberView, TiberFoldErrorView>
    decreases facts.len(),
{
    if facts.len() == 0 {
        Ok(start)
    } else {
        match tiber_fold(start, facts.drop_last()) {
            Err(e) => Err(e),
            Ok(v) => tiber_step(v, facts.last()),
        }
    }
}

/// The empty projection: no task, no incident.
pub open spec fn empty_tiber_view() -> TiberView {
    TiberView {
        tasks: ProjectionView {
            initialized: false,
            tasks: Map::<Seq<char>, TaskView>::empty(),
            order: Seq::<Seq<char>>::empty(),
        },
        ci_recovery: None,
    }
}

/// Folds one fact of the stream.
pub fn apply_tiber_fact(p: TiberProjection, f: &TiberFact) -> (r: Result<TiberProjection, TiberFoldError>)
    ensures
        match r {
            Ok(q) => tiber_step(p@, *f) == Ok::<TiberView, TiberFoldErrorView>(q@),
            Err(e) => tiber_step(p@, *f) == Err::<TiberView, TiberFoldErrorView>(e@),
        },
{
    let TiberProjection { tasks, mut ci_recovery } = p;
    match f {
        TiberFact::Task(t) => match apply_task_fact(tasks, t) {
            Ok(tasks) => Ok(TiberProjection { tasks, ci_recovery }),
            Err(e) => Err(TiberFoldError::Task(e)),
        },
        TiberFact::Ci(c) => match apply_ci_fact(&mut ci_recovery, c) {
            Ok(()) => Ok(TiberProjection { tasks, ci_recovery }),
            Err(e) => Err(TiberFoldError::Ci(e)),
        },
    }
}

proof fn lemma_tiber_fold_error_sticks(start: TiberView, facts: Seq<TiberFact>, n: int, e: TiberFoldErrorView)
    requires
        0 <= n <= facts.len(),
        tiber_fold(start, facts.take(n)) == Err::<TiberView, TiberFoldErrorView>(e),
    ensures
        tiber_fold(start, facts) == Err::<TiberView, TiberFoldErrorView>(e),
    decreases facts.len() - n,
{
    if n < facts.len() {
        assert(facts.take(n + 1).drop_last() =~= facts.take(n));
        lemma_tiber_fold_error_sticks(start, facts, n + 1, e);
    } else {
        assert(facts.take(n) =~= facts);
    }
}

/// The projection of the repository's whole stream, read in order.
pub fn project_tiber(facts: &Vec<TiberFact>) -> (r: Result<TiberProjection, TiberFoldError>)
    ensures
        match r {
            Ok(p) => tiber_fold(empty_tiber_view(), facts@) == Ok::<TiberView, TiberFoldErrorView>(p@),
            Err(e) => tiber_fold(empty_tiber_view(), facts@) == Err::<TiberView, TiberFoldErrorView>(e@),
        },
{
    let mut p = TiberProjection { tasks: TaskProjection::new(), ci_recovery: None };
    assert(p@.tasks =~= empty_tiber_view().tasks);
    assert(tiber_fold(empty_tiber_view(), facts@.take(0)) == Ok::<TiberView, TiberFoldErrorView>(p@));
    let mut i: usize = 0;
    while i < facts.len()
        invariant
            i <= facts@.len(),
            tiber_fold(empty_tiber_view(), facts@.take(i as int)) == Ok::<TiberView, TiberFoldErrorView>(p@),
        decreases facts.len() - i,
    {
        assert(facts@.take(i + 1).drop_last() =~= facts@.take(i as int));
        assert(facts@.take(i + 1).last() == facts@[i as int]);
        match apply_tiber_fact(p, &facts[i]) {
            Ok(q) => {
                p = q;
            },
            Err(e) => {
                proof {
                    lemma_tiber_fold_error_sticks(empty_tiber_view(), facts@, i + 1, e@);
                }
                return Err(e);
            },
        }
        i = i + 1;
    }
    assert(facts@.take(i as int) =~= facts@);
    Ok(p)
}

// ---------------------------------------------------------------------------
// What the fold keeps

/// Every task's run of clean reviews holds only clean reviews of one and
/// the same evidence.
pub open spec fn runs_consistent(p: ProjectionView) -> bool {
    forall|s: Seq<char>| #[trigger] p.tasks.contains_key(s) ==> consistent_run(p.tasks[s].clean_reviews)
}

/// A created task comes with a consistent run of clean reviews.
pub open spec fn creates_consistent(f: TaskFact) -> bool {
    match f {
        TaskFact::TaskCreated { task, .. } => consistent_run(task@.clean_reviews),
        _ => true,
    }
}

proof fn lemma_update_keeps_runs(p: ProjectionView, stem: Seq<char>, g: spec_fn(TaskView) -> TaskView)
    requires
        runs_consistent(p),
        p.tasks.contains_key(stem) ==> g(p.tasks[stem]).clean_reviews == p.tasks[stem].clean_reviews,
    ensures
        update(p, stem, g) matches Ok(q) ==> runs_consistent(q),
{
    if p.tasks.contains_key(stem) {
        let q = with_task(p, stem, g(p.tasks[stem]));
        assert forall|x: Seq<char>| #[trigger] q.tasks.contains_key(x) implies consistent_run(q.tasks[x].clean_reviews) by {
            if x != stem {
                assert(p.tasks.contains_key(x));
            }
        }
    }
}

proof fn lemma_links_keep_runs(p: ProjectionView, cs: Seq<LinkChange>)
    requires
        runs_consistent(p),
    ensures
        links_fold(p, cs) matches Ok(q) ==> runs_consistent(q),
    decreases cs.len(),
{
    if cs.len() > 0 {
        let c = cs[0];
        lemma_update_keeps_runs(p, c.stem@, |t: TaskView| TaskView { blocks: strings_view(c.blocks@), blocked_by: strings_view(c.blocked_by@), ..t });
        if let Ok(q) = link_step(p, c) {
            lemma_links_keep_runs(q, cs.drop_first());
        }
    }
}

proof fn lemma_closing_keeps_runs(p: ProjectionView, stems: Seq<Seq<char>>)
    requires
        runs_consistent(p),
    ensures
        close_fold(p, stems) matches Ok(q) ==> runs_consistent(q),
    decreases stems.len(),
{
    if stems.len() > 0 {
        lemma_update_keeps_runs(p, stems[0], |t: TaskView| TaskView { status: seq!['d', 'o', 'n', 'e'], claim: None, ..t });
        if let Ok(q) = close_step(p, stems[0]) {
            lemma_closing_keeps_runs(q, stems.drop_first());
        }
    }
}

proof fn lemma_snapshots_keep_runs(p: ProjectionView, pairs: Seq<(String, CompletionSnapshot)>)
    requires
        runs_consistent(p),
    ensures
        snapshot_fold(p, pairs) matches Ok(q) ==> runs_consistent(q),
    decreases pairs.len(),
{
    if pairs.len() > 0 {
        let g = |t: TaskView| TaskView { completion_snapshot: Some(pairs[0].1@), ..t };
        lemma_update_keeps_runs(p, pairs[0].0@, g);
        if let Ok(q) = update(p, pairs[0].0@, g) {
            lemma_snapshots_keep_runs(q, pairs.drop_first());
        }
    }
}

/// Folding a fact keeps every task's clean-review run consistent, as long
/// as a created task arrives with a consistent run.
pub proof fn lemma_fold_keeps_clean_runs_consistent(p: ProjectionView, f: TaskFact)
    requires
        runs_consistent(p),
        creates_consistent(f),
    ensures
        task_step(p, f) matches Ok(q) ==> runs_consistent(q),
{
    match f {
        TaskFact::TaskCreated { task, .. } => {
            let q = with_task(p, task.stem@, task@);
            assert forall|x: Seq<char>| #[trigger] q.tasks.contains_key(x) implies consistent_run(q.tasks[x].clean_reviews) by {
                if x != task.stem@ {
                    assert(p.tasks.contains_key(x));
                }
            }
        },
        TaskFact::TaskTransitioned { stem, status, claim, completion_snapshot } => {
            lemma_update_keeps_runs(p, stem@, |t: TaskView|
                TaskView {
                    status: status@,
                    claim: opt_view(claim),
                    completion_snapshot: if completion_snapshot is Some {
                        opt_view(completion_snapshot)
                    } else {
                        t.completion_snapshot
                    },
                    ..t
                });
        },
        TaskFact::TaskLinksChanged { change } => {
            lemma_links_keep_runs(p, seq![change]);
            assert(seq![change].drop_first() =~= Seq::<LinkChange>::empty());
        },
        TaskFact::TaskSubtaskAdded { stem, subtask } => {
            lemma_update_keeps_runs(p, stem@, |t: TaskView| TaskView { subtasks: t.subtasks.push(subtask@), ..t });
        },
        TaskFact::TaskSubtaskChecked { stem, subtask_id, checked } => {
            if p.tasks.contains_key(stem@) {
                let t = p.tasks[stem@];
                if let Some(j) = first_subtask(t.subtasks, subtask_id@) {
                    lemma_update_keeps_runs(p, stem@, |u: TaskView| TaskView {
                        subtasks: t.subtasks.update(j, SubtaskView { checked, ..t.subtasks[j] }),
                        ..u
                    });
                }
            }
        },
        TaskFact::TaskDetailsUpdated { stem, title, tags, summary, context } => {
            lemma_update_keeps_runs(p, stem@, |t: TaskView|
                TaskView {
                    title: title@,
                    tags: strings_view(tags@),
                    summary: summary@,
                    context: context@,
                    ..t
                });
        },
        TaskFact::LegacyTaskClaimChanged { stem, claim } => {
            lemma_update_keeps_runs(p, stem@, |t: TaskView| TaskView { claim: opt_view(claim), ..t });
        },
        TaskFact::TaskPullRequestChanged { stem, url, status } => {
            lemma_update_keeps_runs(p, stem@, |t: TaskView| TaskView { pr_mr_url: opt_view(url), pr_mr_status: opt_view(status), ..t });
        },
        TaskFact::TaskAcceptanceAdded { stem, item } => {
            lemma_update_keeps_runs(p, stem@, |t: TaskView| TaskView { acceptance: t.acceptance.push(item@), ..t });
        },
        TaskFact::TaskAcceptanceChecked { stem, index, checked } => {
            if p.tasks.contains_key(stem@) {
                let t = p.tasks[stem@];
                lemma_update_keeps_runs(p, stem@, |u: TaskView| TaskView {
                    acceptance: t.acceptance.update(index as int, ChecklistView { checked, ..t.acceptance[index as int] }),
                    ..u
                });
            }
        },
        TaskFact::TaskAcceptanceRemoved { stem, index } => {
            if p.tasks.contains_key(stem@) {
                let t = p.tasks[stem@];
                lemma_update_keeps_runs(p, stem@, |u: TaskView| TaskView { acceptance: t.acceptance.remove(index as int), ..u });
            }
        },
        TaskFact::TaskNoteAdded { stem, note } => {
            lemma_update_keeps_runs(p, stem@, |t: TaskView| TaskView { notes: t.notes.push(note@), ..t });
        },
        TaskFact::TaskFinalReviewRecorded { stem, review } => {
            if p.tasks.contains_key(stem@) {
                let t = p.tasks[stem@];
                lemma_clean_run_stays_consistent(t.clean_reviews, review@);
                let q = with_task(p, stem@, TaskView {
                    reviews: t.reviews.push(review@),
                    clean_reviews: next_clean_run(t.clean_reviews, review@),
                    ..t
                });
                assert forall|x: Seq<char>| #[trigger] q.tasks.contains_key(x) implies consistent_run(q.tasks[x].clean_reviews) by {
                    if x != stem@ {
                        assert(p.tasks.contains_key(x));
                    }
                }
            }
        },
        TaskFact::TaskValidationRepaired { link_changes, order_change } => {
            lemma_links_keep_runs(p, link_changes@);
        },
        TaskFact::TasksClosedFromCommitTrailers { stems, order, completion_snapshots } => {
            lemma_closing_keeps_runs(p, strings_view(stems@));
            if let Ok(q) = close_fold(p, strings_view(stems@)) {
                lemma_snapshots_keep_runs(q, completion_snapshots@);
            }
        },
        TaskFact::LegacyTaskClosedFromTrailer { stem } => {
            lemma_closing_keeps_runs(p, seq![stem@]);
            assert(seq![stem@].drop_first() =~= Seq::<Seq<char>>::empty());
        },
        TaskFact::LegacyTaskRemoved { stem } => {
            let q = ProjectionView { tasks: p.tasks.remove(stem@), ..p };
            assert forall|x: Seq<char>| #[trigger] q.tasks.contains_key(x) implies consistent_run(q.tasks[x].clean_reviews) by {
                assert(p.tasks.contains_key(x));
            }
        },
        _ => {},
    }
}

} // verus!
