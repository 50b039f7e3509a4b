//! Updating a task's details and pull request, adding a note, and recording
//! a final review: what each command folds and the fact it decides.
use vstd::prelude::*;
use crate::ci_types::{duplicate_strings, strings_view};
use crate::final_review::FinalReviewRecord;
use crate::graph::{contains_name, names, Node};
use crate::task_commands::{remove_name, BOARD_STREAM};
use crate::task_lifecycle::BoardCommandError;
use crate::task_projection::{duplicate_text, opt_view, Note, TaskFact};
use crate::text::str_eq;

verus! {

/// The details of a task an update can change.
#[derive(Debug)]
pub struct TaskUpdateFacts {
    pub title: String,
    pub tags: Vec<String>,
    pub summary: String,
    pub context: String,
    pub pr_mr_url: Option<String>,
    pub pr_mr_status: Option<String>,
}

pub struct UpdateFactsView {
    pub title: Seq<char>,
    pub tags: Seq<Seq<char>>,
    pub summary: Seq<char>,
    pub context: Seq<char>,
    pub pr_mr_url: Option<Seq<char>>,
    pub pr_mr_status: Option<Seq<char>>,
}

impl View for TaskUpdateFacts {
    type V = UpdateFactsView;

    open spec fn view(&self) -> UpdateFactsView {
        UpdateFactsView {
            title: self.title@,
            tags: strings_view(self.tags@),
            summary: self.summary@,
            context: self.context@,
            pr_mr_url: opt_view(self.pr_mr_url),
            pr_mr_status: opt_view(self.pr_mr_status),
        }
    }
}

/// What an update folds: the board order and members, and the addressed
/// task's details once it is known.
#[derive(Debug, Default)]
pub struct UpdateTaskState {
    pub board_order: Vec<String>,
    pub board_task_stems: Vec<String>,
    pub target_task: Option<TaskUpdateFacts>,
}

pub struct UpdateStateView {
    pub board_order: Seq<Seq<char>>,
    pub board_task_stems: Set<Node>,
    pub target_task: Option<UpdateFactsView>,
}

impl View for UpdateTaskState {
    type V = UpdateStateView;

    open spec fn view(&self) -> UpdateStateView {
        UpdateStateView {
            board_order: strings_view(self.board_order@),
            board_task_stems: names(self.board_task_stems@),
            target_task: opt_view(self.target_task),
        }
    }
}

/// The update state of task `target` after one fact.
pub open spec fn update_state_step(s: UpdateStateView, target: Seq<char>, f: TaskFact) -> UpdateStateView {
    match f {
        TaskFact::TaskCreated { stream_id, task } => UpdateStateView {
            board_task_stems: if stream_id@ == BOARD_STREAM@ {
                s.board_task_stems.insert(task.stem@)
            } else {
                s.board_task_stems
            },
            target_task: if task.stem@ == target {
                Some(
                    UpdateFactsView {
                        title: task.title@,
                        tags: strings_view(task.tags@),
                        summary: task.summary@,
                        context: task.context@,
                        pr_mr_url: opt_view(task.pr_mr_url),
                        pr_mr_status: opt_view(task.pr_mr_status),
                    },
                )
            } else {
                s.target_task
            },
            ..s
        },
        TaskFact::TaskDetailsUpdated { stem, title, tags, summary, context } => UpdateStateView {
            target_task: if stem@ == target && s.target_task is Some {
                Some(
                    UpdateFactsView {
                        title: title@,
                        tags: strings_view(tags@),
                        summary: summary@,
                        context: context@,
                        ..s.target_task->0
                    },
                )
            } else {
                s.target_task
            },
            ..s
        },
        TaskFact::TaskPullRequestChanged { stem, url, status } => UpdateStateView {
            target_task: if stem@ == target && s.target_task is Some {
                Some(UpdateFactsView { pr_mr_url: opt_view(url), pr_mr_status: opt_view(status), ..s.target_task->0 })
            } else {
                s.target_task
            },
            ..s
        },
        TaskFact::LegacyTaskRemoved { stem } => UpdateStateView {
            target_task: if stem@ == target {
                None
            } else {
                s.target_task
            },
            board_task_stems: s.board_task_stems.remove(stem@),
            ..s
        },
        TaskFact::TaskPriorityChanged { order } => UpdateStateView { board_order: strings_view(order@), ..s },
        TaskFact::BoardReordered { order } => UpdateStateView { board_order: strings_view(order@), ..s },
        _ => s,
    }
}

/// Folds one fact into the update state of task `target`.
pub fn evolve_update_task_state(state: UpdateTaskState, target: &String, f: &TaskFact) -> (r: UpdateTaskState)
    ensures
        r@ == update_state_step(state@, target@, *f),
{
    let UpdateTaskState { board_order, board_task_stems, target_task } = state;
    let mut board_order = board_order;
    let mut board_task_stems = board_task_stems;
    let mut target_task = target_task;
    match f {
        TaskFact::TaskCreated { stream_id, task } => {
            if str_eq(stream_id.as_str(), BOARD_STREAM) {
                crate::tickets::insert_name(&mut board_task_stems, &task.stem);
            }
            if str_eq(task.stem.as_str(), target.as_str()) {
                target_task = Some(
                    TaskUpdateFacts {
                        title: task.title.clone(),
                        tags: duplicate_strings(&task.tags),
                        summary: task.summary.clone(),
                        context: task.context.clone(),
                        pr_mr_url: duplicate_text(&task.pr_mr_url),
                        pr_mr_status: duplicate_text(&task.pr_mr_status),
                    },
                );
            }
        },
        TaskFact::TaskDetailsUpdated { stem, title, tags, summary, context } => {
            if str_eq(stem.as_str(), target.as_str()) {
                target_task = match target_task {
                    Some(t) => Some(
                        TaskUpdateFacts {
                            title: title.clone(),
                            tags: duplicate_strings(tags),
                            summary: summary.clone(),
                            context: context.clone(),
                            ..t
                        },
                    ),
                    None => None,
                };
            }
        },
        TaskFact::TaskPullRequestChanged { stem, url, status } => {
            if str_eq(stem.as_str(), target.as_str()) {
                target_task = match target_task {
                    Some(t) => Some(
                        TaskUpdateFacts { pr_mr_url: duplicate_text(url), pr_mr_status: duplicate_text(status), ..t },
                    ),
                    None => None,
                };
            }
        },
        TaskFact::LegacyTaskRemoved { stem } => {
            if str_eq(stem.as_str(), target.as_str()) {
                target_task = None;
            }
            remove_name(&mut board_task_stems, stem);
        },
        TaskFact::TaskPriorityChanged { order } => {
            board_order = duplicate_strings(order);
        },
        TaskFact::BoardReordered { order } => {
            board_order = duplicate_strings(order);
        },
        _ => {},
    }
    UpdateTaskState { board_order, board_task_stems, target_task }
}

/// What an update asks for; `None` keeps the current value.
#[derive(Debug)]
pub struct UpdateIntent {
    pub title: Option<String>,
    pub tags: Option<Vec<String>>,
    pub summary: Option<String>,
    pub context: Option<String>,
    pub pr_mr_url: Option<Option<String>>,
    pub pr_mr_status: Option<Option<String>>,
}

pub open spec fn or_current<T>(requested: Option<T>, current: T) -> T {
    match requested {
        Some(v) => v,
        None => current,
    }
}

/// The details once the update applies.
pub open spec fn updated_facts(cur: UpdateFactsView, i: UpdateIntent) -> UpdateFactsView {
    UpdateFactsView {
        title: or_current(opt_view(i.title), cur.title),
        tags: match i.tags {
            Some(t) => strings_view(t@),
            None => cur.tags,
        },
        summary: or_current(opt_view(i.summary), cur.summary),
        context: or_current(opt_view(i.context), cur.context),
        pr_mr_url: match i.pr_mr_url {
            Some(u) => opt_view(u),
            None => cur.pr_mr_url,
        },
        pr_mr_status: match i.pr_mr_status {
            Some(u) => opt_view(u),
            None => cur.pr_mr_status,
        },
    }
}

/// The facts an update records: the details when they change, then the
/// pull request when it changes.
pub open spec fn update_facts_ok(cur: UpdateFactsView, stem: Seq<char>, i: UpdateIntent, facts: Seq<TaskFact>) -> bool {
    let next = updated_facts(cur, i);
    let details = next.title != cur.title || next.tags != cur.tags || next.summary != cur.summary || next.context
        != cur.context;
    let pr = next.pr_mr_url != cur.pr_mr_url || next.pr_mr_status != cur.pr_mr_status;
    &&& facts.len() == (if details { 1int } else { 0int }) + (if pr { 1int } else { 0int })
    &&& details ==> (facts[0] matches TaskFact::TaskDetailsUpdated { stem: s, title, tags, summary, context } && s@
        == stem && title@ == next.title && strings_view(tags@) == next.tags && summary@ == next.summary && context@
        == next.context)
    &&& pr ==> (facts[facts.len() - 1] matches TaskFact::TaskPullRequestChanged { stem: s, url, status } && s@
        == stem && opt_view(url) == next.pr_mr_url && opt_view(status) == next.pr_mr_status)
}

fn pick_text(requested: &Option<String>, current: &String) -> (r: String)
    ensures
        r@ == or_current(opt_view(*requested), current@),
{
    match requested {
        Some(v) => v.clone(),
        None => current.clone(),
    }
}

fn pick_optional(requested: &Option<Option<String>>, current: &Option<String>) -> (r: Option<String>)
    ensures
        opt_view(r) == match *requested {
            Some(u) => opt_view(u),
            None => opt_view(*current),
        },
{
    match requested {
        Some(u) => duplicate_text(u),
        None => duplicate_text(current),
    }
}

fn same_text(a: &Option<String>, b: &Option<String>) -> (r: bool)
    ensures
        r == (opt_view(*a) == opt_view(*b)),
{
    match (a, b) {
        (Some(x), Some(y)) => str_eq(x.as_str(), y.as_str()),
        (None, None) => true,
        _ => false,
    }
}

/// Decides an update of task `stem`.
pub fn decide_update_task(state: &UpdateTaskState, stem: &String, intent: &UpdateIntent) -> (r: Result<
    Vec<TaskFact>,
    BoardCommandError,
>)
    ensures
        match state@.target_task {
            None => r == Err::<Vec<TaskFact>, BoardCommandError>(BoardCommandError::UpdateTaskMissing),
            Some(cur) => r matches Ok(facts) && update_facts_ok(cur, stem@, *intent, facts@),
        },
{
    let cur = match &state.target_task {
        None => {
            return Err(BoardCommandError::UpdateTaskMissing);
        },
        Some(c) => c,
    };
    let title = pick_text(&intent.title, &cur.title);
    let tags = match &intent.tags {
        Some(t) => duplicate_strings(t),
        None => duplicate_strings(&cur.tags),
    };
    let summary = pick_text(&intent.summary, &cur.summary);
    let context = pick_text(&intent.context, &cur.context);
    let url = pick_optional(&intent.pr_mr_url, &cur.pr_mr_url);
    let status = pick_optional(&intent.pr_mr_status, &cur.pr_mr_status);
    let details = !str_eq(title.as_str(), cur.title.as_str()) || !crate::final_review::strings_eq(&tags, &cur.tags)
        || !str_eq(summary.as_str(), cur.summary.as_str()) || !str_eq(context.as_str(), cur.context.as_str());
    let pr = !same_text(&url, &cur.pr_mr_url) || !same_text(&status, &cur.pr_mr_status);
    let mut facts: Vec<TaskFact> = Vec::new();
    if details {
        facts.push(TaskFact::TaskDetailsUpdated { stem: stem.clone(), title, tags, summary, context });
    }
    if pr {
        facts.push(TaskFact::TaskPullRequestChanged { stem: stem.clone(), url, status });
    }
    Ok(facts)
}

// ---------------------------------------------------------------------------
// Notes and final reviews

/// What adding a note or recording a final review folds: the board order
/// and members, and which tasks exist.
#[derive(Debug, Default)]
pub struct TaskStemsState {
    pub board_order: Vec<String>,
    pub board_task_stems: Vec<String>,
    pub task_stems: Vec<String>,
}

pub struct TaskStemsView {
    pub board_order: Seq<Seq<char>>,
    pub board_task_stems: Set<Node>,
    pub task_stems: Set<Node>,
}

impl View for TaskStemsState {
    type V = TaskStemsView;

    open spec fn view(&self) -> TaskStemsView {
        TaskStemsView {
            board_order: strings_view(self.board_order@),
            board_task_stems: names(self.board_task_stems@),
            task_stems: names(self.task_stems@),
        }
    }
}

/// The task set after one fact.
pub open spec fn task_stems_step(s: TaskStemsView, f: TaskFact) -> TaskStemsView {
    match f {
        TaskFact::TaskCreated { stream_id, task } => TaskStemsView {
            task_stems: s.task_stems.insert(task.stem@),
            board_task_stems: if stream_id@ == BOARD_STREAM@ {
                s.board_task_stems.insert(task.stem@)
            } else {
                s.board_task_stems
            },
            ..s
        },
        TaskFact::LegacyTaskRemoved { stem } => TaskStemsView {
            task_stems: s.task_stems.remove(stem@),
            board_task_stems: s.board_task_stems.remove(stem@),
            ..s
        },
        TaskFact::TaskPriorityChanged { order } => TaskStemsView { board_order: strings_view(order@), ..s },
        TaskFact::BoardReordered { order } => TaskStemsView { board_order: strings_view(order@), ..s },
        _ => s,
    }
}

/// Folds one fact into the task set.
pub fn evolve_task_stems_state(state: TaskStemsState, f: &TaskFact) -> (r: TaskStemsState)
    ensures
        r@ == task_stems_step(state@, *f),
{
    let TaskStemsState { board_order, board_task_stems, task_stems } = state;
    let mut board_order = board_order;
    let mut board_task_stems = board_task_stems;
    let mut task_stems = task_stems;
    match f {
        TaskFact::TaskCreated { stream_id, task } => {
            crate::tickets::insert_name(&mut task_stems, &task.stem);
            if str_eq(stream_id.as_str(), BOARD_STREAM) {
                crate::tickets::insert_name(&mut board_task_stems, &task.stem);
            }
        },
        TaskFact::LegacyTaskRemoved { stem } => {
            remove_name(&mut task_stems, stem);
            remove_name(&mut board_task_stems, stem);
        },
        TaskFact::TaskPriorityChanged { order } => {
            board_order = duplicate_strings(order);
        },
        TaskFact::BoardReordered { order } => {
            board_order = duplicate_strings(order);
        },
        _ => {},
    }
    TaskStemsState { board_order, board_task_stems, task_stems }
}

/// Adds `note` to task `stem`.
pub fn decide_add_task_note(state: &TaskStemsState, stem: &String, note: &Note) -> (r: Result<
    TaskFact,
    BoardCommandError,
>)
    ensures
        if state@.task_stems.contains(stem@) {
            r matches Ok(TaskFact::TaskNoteAdded { stem: s, note: n }) && s@ == stem@ && n@ == note@
        } else {
            r == Err::<TaskFact, BoardCommandError>(BoardCommandError::NoteTaskMissing)
        },
{
    if !contains_name(&state.task_stems, stem) {
        return Err(BoardCommandError::NoteTaskMissing);
    }
    Ok(TaskFact::TaskNoteAdded { stem: stem.clone(), note: note.duplicate() })
}

/// Records `review` for task `stem`.
pub fn decide_record_final_review(state: &TaskStemsState, stem: &String, review: &FinalReviewRecord) -> (r:
    Result<TaskFact, BoardCommandError>)
    ensures
        if state@.task_stems.contains(stem@) {
            r matches Ok(TaskFact::TaskFinalReviewRecorded { stem: s, review: v }) && s@ == stem@ && v@ == review@
        } else {
            r == Err::<TaskFact, BoardCommandError>(BoardCommandError::FinalReviewTaskMissing)
        },
{
    if !contains_name(&state.task_stems, stem) {
        return Err(BoardCommandError::FinalReviewTaskMissing);
    }
    Ok(TaskFact::TaskFinalReviewRecorded { stem: stem.clone(), review: review.duplicate() })
}


// ---------------------------------------------------------------------------
// Laws

/// The update state of `target` after folding `facts` in turn.
pub open spec fn update_state_fold(s: UpdateStateView, target: Seq<char>, facts: Seq<TaskFact>) -> UpdateStateView
    decreases facts.len(),
{
    if facts.len() == 0 {
        s
    } else {
        update_state_fold(update_state_step(s, target, facts[0]), target, facts.drop_first())
    }
}

/// Replaying what an update decides leaves the task with the requested
/// details and pull request, and every other detail as it was.
pub proof fn lemma_update_decisions_replay(s: UpdateStateView, stem: Seq<char>, i: UpdateIntent, facts: Seq<TaskFact>)
    requires
        s.target_task is Some,
        update_facts_ok(s.target_task->0, stem, i, facts),
    ensures
        update_state_fold(s, stem, facts).target_task == Some(updated_facts(s.target_task->0, i)),
{
    let cur = s.target_task->0;
    let next = updated_facts(cur, i);
    if facts.len() == 0 {
        assert(update_state_fold(s, stem, facts) == s);
        assert(next == cur);
    } else if facts.len() == 1 {
        let s1 = update_state_step(s, stem, facts[0]);
        assert(facts.drop_first() =~= Seq::<TaskFact>::empty());
        assert(update_state_fold(s1, stem, facts.drop_first()) == s1);
        assert(s1.target_task->0 == next);
    } else {
        let s1 = update_state_step(s, stem, facts[0]);
        let rest = facts.drop_first();
        assert(rest[0] == facts[1]);
        let s2 = update_state_step(s1, stem, rest[0]);
        assert(rest.drop_first() =~= Seq::<TaskFact>::empty());
        assert(update_state_fold(s2, stem, rest.drop_first()) == s2);
        assert(update_state_fold(s1, stem, rest) == s2);
        assert(s2.target_task->0 == next);
    }
}

} // verus!
