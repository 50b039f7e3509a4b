//! The checklist commands of a task: acceptance criteria and subtasks.
//! Each folds only what it decides from (the addressed task's list and the
//! board's order and members) and decides the fact to record.
use vstd::prelude::*;
use crate::graph::{contains_name, names, Node};
use crate::task_projection::{
    opt_view, views, ChecklistItem, ChecklistView, Subtask, SubtaskView, TaskFact,
};
use crate::text::{chars_of, decimal_string, decimal_text, parse_unsigned, parse_unsigned_chars, str_eq};
use crate::ci_types::{duplicate_strings, strings_view};

verus! {

/// The stream that holds the board's facts.
pub const BOARD_STREAM: &'static str = "tiber:board";

/// Why a checklist command refuses.
#[derive(Clone, Copy, Debug, PartialEq, Eq, Structural)]
pub enum ChecklistCommandError {
    AcceptanceTaskMissing,
    AcceptanceMissing,
    SubtaskTaskMissing,
    SubtaskMissing,
}

pub open spec fn checklist_error_text(e: ChecklistCommandError) -> Seq<char> {
    match e {
        ChecklistCommandError::AcceptanceTaskMissing => "tiber_acceptance_task_missing"@,
        ChecklistCommandError::AcceptanceMissing => "tiber_acceptance_missing"@,
        ChecklistCommandError::SubtaskTaskMissing => "tiber_subtask_task_missing"@,
        ChecklistCommandError::SubtaskMissing => "tiber_subtask_missing"@,
    }
}

impl ChecklistCommandError {
    /// The stable code of the refusal.
    pub fn as_str(self) -> (r: &'static str)
        ensures
            r@ == checklist_error_text(self),
    {
        match self {
            ChecklistCommandError::AcceptanceTaskMissing => "tiber_acceptance_task_missing",
            ChecklistCommandError::AcceptanceMissing => "tiber_acceptance_missing",
            ChecklistCommandError::SubtaskTaskMissing => "tiber_subtask_task_missing",
            ChecklistCommandError::SubtaskMissing => "tiber_subtask_missing",
        }
    }
}

pub(crate) fn remove_name(v: &mut Vec<String>, s: &String)
    ensures
        names(final(v)@) == names(old(v)@).remove(s@),
{
    let ghost before = v@;
    let mut kept: Vec<String> = Vec::new();
    let mut i: usize = 0;
    while i < v.len()
        invariant
            i <= v@.len(),
            v@ == before,
            forall|x: Node| #[trigger] names(kept@).contains(x) <==> (x != s@ && exists|j: int| 0 <= j < i && (#[trigger] before[j])@ == x),
        decreases v.len() - i,
    {
        if !str_eq(v[i].as_str(), s.as_str()) {
            let ghost old_kept = kept@;
            kept.push(v[i].clone());
            assert forall|x: Node| #[trigger] names(kept@).contains(x) <==> (x != s@ && exists|j: int| 0 <= j < i + 1 && (#[trigger] before[j])@ == x) by {
                if names(kept@).contains(x) {
                    let k = choose|k: int| 0 <= k < kept@.len() && (#[trigger] kept@[k])@ == x;
                    if k < old_kept.len() {
                        assert(names(old_kept).contains(x)) by {
                            assert(old_kept[k] == kept@[k]);
                        }
                    } else {
                        assert(before[i as int]@ == x);
                    }
                }
                if x != s@ && exists|j: int| 0 <= j < i + 1 && (#[trigger] before[j])@ == x {
                    let j = choose|j: int| 0 <= j < i + 1 && (#[trigger] before[j])@ == x;
                    if j < i {
                        assert(names(old_kept).contains(x));
                        let k = choose|k: int| 0 <= k < old_kept.len() && (#[trigger] old_kept[k])@ == x;
                        assert(kept@[k] == old_kept[k]);
                    } else {
                        assert(kept@[kept@.len() - 1]@ == x);
                    }
                }
            }
        } else {
            assert forall|x: Node| #[trigger] names(kept@).contains(x) <==> (x != s@ && exists|j: int| 0 <= j < i + 1 && (#[trigger] before[j])@ == x) by {
                if x != s@ && exists|j: int| 0 <= j < i + 1 && (#[trigger] before[j])@ == x {
                    let j = choose|j: int| 0 <= j < i + 1 && (#[trigger] before[j])@ == x;
                    assert(j < i);
                }
            }
        }
        i = i + 1;
    }
    *v = kept;
    assert(names(v@) =~= names(before).remove(s@));
}

// ---------------------------------------------------------------------------
// Acceptance criteria

/// What the acceptance commands fold: the board order and members, and the
/// addressed task's criteria once it is known.
#[derive(Debug, Default)]
pub struct AcceptanceState {
    pub board_order: Vec<String>,
    pub board_task_stems: Vec<String>,
    pub target: Option<Vec<ChecklistItem>>,
}

pub struct AcceptanceStateView {
    pub board_order: Seq<Seq<char>>,
    pub board_task_stems: Set<Node>,
    pub target: Option<Seq<ChecklistView>>,
}

impl View for AcceptanceState {
    type V = AcceptanceStateView;

    open spec fn view(&self) -> AcceptanceStateView {
        AcceptanceStateView {
            board_order: strings_view(self.board_order@),
            board_task_stems: names(self.board_task_stems@),
            target: match self.target {
                Some(v) => Some(views(v@)),
                None => None,
            },
        }
    }
}

pub open spec fn or_empty<T>(o: Option<Seq<T>>) -> Seq<T> {
    match o {
        Some(s) => s,
        None => Seq::empty(),
    }
}

/// The acceptance state after one fact, for the task `target`.
pub open spec fn acceptance_step(s: AcceptanceStateView, target: Seq<char>, f: TaskFact) -> AcceptanceStateView {
    match f {
        TaskFact::TaskCreated { stream_id, task } => AcceptanceStateView {
            board_task_stems: if stream_id@ == BOARD_STREAM@ {
                s.board_task_stems.insert(task.stem@)
            } else {
                s.board_task_stems
            },
            target: if task.stem@ == target {
                Some(views(task.acceptance@))
            } else {
                s.target
            },
            ..s
        },
        TaskFact::TaskAcceptanceAdded { stem, item } => if stem@ == target {
            AcceptanceStateView { target: Some(or_empty(s.target).push(item@)), ..s }
        } else {
            s
        },
        TaskFact::TaskAcceptanceChecked { stem, index, checked } => if stem@ == target {
            let items = or_empty(s.target);
            AcceptanceStateView {
                target: Some(
                    if index < items.len() {
                        items.update(index as int, ChecklistView { checked, ..items[index as int] })
                    } else {
                        items
                    },
                ),
                ..s
            }
        } else {
            s
        },
        TaskFact::TaskAcceptanceRemoved { stem, index } => if stem@ == target {
            let items = or_empty(s.target);
            AcceptanceStateView {
                target: Some(
                    if index < items.len() {
                        items.remove(index as int)
                    } else {
                        items
                    },
                ),
                ..s
            }
        } else {
            s
        },
        TaskFact::LegacyTaskRemoved { stem } => AcceptanceStateView {
            target: if stem@ == target {
                None
            } else {
                s.target
            },
            board_task_stems: s.board_task_stems.remove(stem@),
            ..s
        },
        TaskFact::TaskPriorityChanged { order } => AcceptanceStateView {
            board_order: strings_view(order@),
            ..s
        },
        TaskFact::BoardReordered { order } => AcceptanceStateView {
            board_order: strings_view(order@),
            ..s
        },
        _ => s,
    }
}

fn duplicate_items(v: &Vec<ChecklistItem>) -> (r: Vec<ChecklistItem>)
    ensures
        views(r@) == views(v@),
{
    let mut r: Vec<ChecklistItem> = Vec::new();
    let mut i: usize = 0;
    while i < v.len()
        invariant
            i <= v@.len(),
            views(r@) == views(v@).take(i as int),
        decreases v.len() - i,
    {
        let x = v[i].duplicate();
        let ghost before = views(r@);
        r.push(x);
        assert(views(r@) =~= before.push(v@[i as int]@));
        assert(views(r@) =~= views(v@).take(i + 1));
        i = i + 1;
    }
    assert(views(v@).take(i as int) =~= views(v@));
    r
}

/// Folds one fact into the acceptance state of task `target`.
pub fn evolve_acceptance_state(state: AcceptanceState, target: &String, f: &TaskFact) -> (r: AcceptanceState)
    ensures
        r@ == acceptance_step(state@, target@, *f),
{
    let ghost s0 = state@;
    let AcceptanceState { board_order, board_task_stems, target: items } = state;
    let mut board_order = board_order;
    let mut board_task_stems = board_task_stems;
    let mut items = items;
    match f {
        TaskFact::TaskCreated { stream_id, task } => {
            if str_eq(stream_id.as_str(), BOARD_STREAM) {
                crate::tickets::insert_name(&mut board_task_stems, &task.stem);
            }
            if str_eq(task.stem.as_str(), target.as_str()) {
                items = Some(duplicate_items(&task.acceptance));
            }
        },
        TaskFact::TaskAcceptanceAdded { stem, item } => {
            if str_eq(stem.as_str(), target.as_str()) {
                let mut v = match items {
                    Some(v) => v,
                    None => Vec::new(),
                };
                assert(views(v@) =~= or_empty(s0.target));
                let ghost before = views(v@);
                v.push(item.duplicate());
                assert(views(v@) =~= before.push(item@));
                items = Some(v);
            }
        },
        TaskFact::TaskAcceptanceChecked { stem, index, checked } => {
            if str_eq(stem.as_str(), target.as_str()) {
                let mut v = match items {
                    Some(v) => v,
                    None => Vec::new(),
                };
                assert(views(v@) =~= or_empty(s0.target));
                if *index < v.len() {
                    let mut x = v[*index].duplicate();
                    x.checked = *checked;
                    let ghost before = views(v@);
                    v.set(*index, x);
                    assert(views(v@) =~= before.update(*index as int, ChecklistView { checked: *checked, ..before[*index as int] }));
                }
                items = Some(v);
            }
        },
        TaskFact::TaskAcceptanceRemoved { stem, index } => {
            if str_eq(stem.as_str(), target.as_str()) {
                let mut v = match items {
                    Some(v) => v,
                    None => Vec::new(),
                };
                assert(views(v@) =~= or_empty(s0.target));
                if *index < v.len() {
                    let ghost before = views(v@);
                    v.remove(*index);
                    assert(views(v@) =~= before.remove(*index as int));
                }
                items = Some(v);
            }
        },
        TaskFact::LegacyTaskRemoved { stem } => {
            if str_eq(stem.as_str(), target.as_str()) {
                items = None;
            }
            remove_name(&mut board_task_stems, stem);
        },
        TaskFact::TaskPriorityChanged { order } => {
            board_order = duplicate_strings(order);
        },
        TaskFact::BoardReordered { order } => {
            board_order = duplicate_strings(order);
        },
        _ => {},
    }
    AcceptanceState { board_order, board_task_stems, target: items }
}

/// Adds an unchecked criterion to a task whose criteria are known.
pub fn decide_add_acceptance(state: &AcceptanceState, stem: &String, text: &String) -> (r: Result<
    TaskFact,
    ChecklistCommandError,
>)
    ensures
        match r {
            Ok(f) => state@.target is Some && (f matches TaskFact::TaskAcceptanceAdded { stem: s, item } && s@
                == stem@ && item@ == (ChecklistView { checked: false, text: text@ })),
            Err(e) => state@.target is None && e == ChecklistCommandError::AcceptanceTaskMissing,
        },
{
    if state.target.is_none() {
        return Err(ChecklistCommandError::AcceptanceTaskMissing);
    }
    Ok(TaskFact::TaskAcceptanceAdded {
        stem: stem.clone(),
        item: ChecklistItem { checked: false, text: text.clone() },
    })
}

/// The criterion at `index`, when there is one.
pub open spec fn criterion_at(s: AcceptanceStateView, index: usize) -> Option<ChecklistView> {
    match s.target {
        Some(items) => if index < items.len() {
            Some(items[index as int])
        } else {
            None
        },
        None => None,
    }
}

/// Checks or unchecks a criterion; nothing is recorded when it already is
/// as requested.
pub fn decide_set_acceptance_checked(state: &AcceptanceState, stem: &String, index: usize, checked: bool) -> (r:
    Result<Option<TaskFact>, ChecklistCommandError>)
    ensures
        match criterion_at(state@, index) {
            None => r == Err::<Option<TaskFact>, ChecklistCommandError>(ChecklistCommandError::AcceptanceMissing),
            Some(item) => if item.checked == checked {
                r == Ok::<Option<TaskFact>, ChecklistCommandError>(None)
            } else {
                r matches Ok(Some(TaskFact::TaskAcceptanceChecked { stem: s, index: i, checked: c }))
                    && s@ == stem@ && i == index && c == checked
            },
        },
{
    let current = match &state.target {
        None => {
            return Err(ChecklistCommandError::AcceptanceMissing);
        },
        Some(items) => {
            if index >= items.len() {
                return Err(ChecklistCommandError::AcceptanceMissing);
            }
            items[index].checked
        },
    };
    if current == checked {
        return Ok(None);
    }
    Ok(Some(TaskFact::TaskAcceptanceChecked { stem: stem.clone(), index, checked }))
}

/// Removes the criterion at `index`.
pub fn decide_remove_acceptance(state: &AcceptanceState, stem: &String, index: usize) -> (r: Result<
    TaskFact,
    ChecklistCommandError,
>)
    ensures
        match criterion_at(state@, index) {
            None => r == Err::<TaskFact, ChecklistCommandError>(ChecklistCommandError::AcceptanceMissing),
            Some(_) => r matches Ok(TaskFact::TaskAcceptanceRemoved { stem: s, index: i }) && s@ == stem@
                && i == index,
        },
{
    match &state.target {
        None => Err(ChecklistCommandError::AcceptanceMissing),
        Some(items) => {
            if index >= items.len() {
                return Err(ChecklistCommandError::AcceptanceMissing);
            }
            Ok(TaskFact::TaskAcceptanceRemoved { stem: stem.clone(), index })
        },
    }
}

// ---------------------------------------------------------------------------
// Subtasks

/// What the subtask commands fold: the board order and members, and the
/// addressed task's subtasks once it is known.
#[derive(Debug, Default)]
pub struct SubtaskState {
    pub board_order: Vec<String>,
    pub board_task_stems: Vec<String>,
    pub target: Option<Vec<Subtask>>,
}

pub struct SubtaskStateView {
    pub board_order: Seq<Seq<char>>,
    pub board_task_stems: Set<Node>,
    pub target: Option<Seq<SubtaskView>>,
}

impl View for SubtaskState {
    type V = SubtaskStateView;

    open spec fn view(&self) -> SubtaskStateView {
        SubtaskStateView {
            board_order: strings_view(self.board_order@),
            board_task_stems: names(self.board_task_stems@),
            target: match self.target {
                Some(v) => Some(views(v@)),
                None => None,
            },
        }
    }
}

/// The subtask state after one fact, for the task `target`.
pub open spec fn subtask_step(s: SubtaskStateView, target: Seq<char>, f: TaskFact) -> SubtaskStateView {
    match f {
        TaskFact::TaskCreated { stream_id, task } => SubtaskStateView {
            board_task_stems: if stream_id@ == BOARD_STREAM@ {
                s.board_task_stems.insert(task.stem@)
            } else {
                s.board_task_stems
            },
            target: if task.stem@ == target {
                Some(views(task.subtasks@))
            } else {
                s.target
            },
            ..s
        },
        TaskFact::TaskSubtaskAdded { stem, subtask } => if stem@ == target {
            SubtaskStateView { target: Some(or_empty(s.target).push(subtask@)), ..s }
        } else {
            s
        },
        TaskFact::TaskSubtaskChecked { stem, subtask_id, checked } => if stem@ == target {
            let items = or_empty(s.target);
            SubtaskStateView {
                target: Some(
                    match crate::task_projection::first_subtask(items, subtask_id@) {
                        Some(j) => items.update(j, SubtaskView { checked, ..items[j] }),
                        None => items,
                    },
                ),
                ..s
            }
        } else {
            s
        },
        TaskFact::LegacyTaskRemoved { stem } => SubtaskStateView {
            target: if stem@ == target {
                None
            } else {
                s.target
            },
            board_task_stems: s.board_task_stems.remove(stem@),
            ..s
        },
        TaskFact::TaskPriorityChanged { order } => SubtaskStateView {
            board_order: strings_view(order@),
            ..s
        },
        TaskFact::BoardReordered { order } => SubtaskStateView {
            board_order: strings_view(order@),
            ..s
        },
        _ => s,
    }
}

fn duplicate_subtask_list(v: &Vec<Subtask>) -> (r: Vec<Subtask>)
    ensures
        views(r@) == views(v@),
{
    let mut r: Vec<Subtask> = Vec::new();
    let mut i: usize = 0;
    while i < v.len()
        invariant
            i <= v@.len(),
            views(r@) == views(v@).take(i as int),
        decreases v.len() - i,
    {
        let x = v[i].duplicate();
        let ghost before = views(r@);
        r.push(x);
        assert(views(r@) =~= before.push(v@[i as int]@));
        assert(views(r@) =~= views(v@).take(i + 1));
        i = i + 1;
    }
    assert(views(v@).take(i as int) =~= views(v@));
    r
}

fn first_subtask_index(v: &Vec<Subtask>, id: &String) -> (r: Option<usize>)
    ensures
        match r {
            Some(j) => j < v@.len() && crate::task_projection::first_subtask(views(v@), id@) == Some(j as int),
            None => crate::task_projection::first_subtask(views(v@), id@) is None,
        },
{
    let ghost all = views(v@);
    let mut j: usize = 0;
    assert(all.skip(0) =~= all);
    while j < v.len()
        invariant
            j <= v@.len(),
            all == views(v@),
            crate::task_projection::first_subtask(all, id@) == (match crate::task_projection::first_subtask(all.skip(j as int), id@) {
                Some(k) => Some(k + j),
                None => None,
            }),
        decreases v.len() - j,
    {
        assert(all.skip(j as int)[0] == v@[j as int]@);
        assert(all.skip(j as int).drop_first() =~= all.skip(j + 1));
        if str_eq(v[j].id.as_str(), id.as_str()) {
            return Some(j);
        }
        j = j + 1;
    }
    assert(all.skip(j as int) =~= Seq::<SubtaskView>::empty());
    None
}

/// Folds one fact into the subtask state of task `target`.
pub fn evolve_subtask_state(state: SubtaskState, target: &String, f: &TaskFact) -> (r: SubtaskState)
    ensures
        r@ == subtask_step(state@, target@, *f),
{
    let ghost s0 = state@;
    let SubtaskState { board_order, board_task_stems, target: items } = state;
    let mut board_order = board_order;
    let mut board_task_stems = board_task_stems;
    let mut items = items;
    match f {
        TaskFact::TaskCreated { stream_id, task } => {
            if str_eq(stream_id.as_str(), BOARD_STREAM) {
                crate::tickets::insert_name(&mut board_task_stems, &task.stem);
            }
            if str_eq(task.stem.as_str(), target.as_str()) {
                items = Some(duplicate_subtask_list(&task.subtasks));
            }
        },
        TaskFact::TaskSubtaskAdded { stem, subtask } => {
            if str_eq(stem.as_str(), target.as_str()) {
                let mut v = match items {
                    Some(v) => v,
                    None => Vec::new(),
                };
                assert(views(v@) =~= or_empty(s0.target));
                let ghost before = views(v@);
                v.push(subtask.duplicate());
                assert(views(v@) =~= before.push(subtask@));
                items = Some(v);
            }
        },
        TaskFact::TaskSubtaskChecked { stem, subtask_id, checked } => {
            if str_eq(stem.as_str(), target.as_str()) {
                let mut v = match items {
                    Some(v) => v,
                    None => Vec::new(),
                };
                assert(views(v@) =~= or_empty(s0.target));
                match first_subtask_index(&v, subtask_id) {
                    Some(j) => {
                        let mut x = v[j].duplicate();
                        x.checked = *checked;
                        let ghost before = views(v@);
                        v.set(j, x);
                        assert(views(v@) =~= before.update(j as int, SubtaskView { checked: *checked, ..before[j as int] }));
                    },
                    None => {},
                }
                items = Some(v);
            }
        },
        TaskFact::LegacyTaskRemoved { stem } => {
            if str_eq(stem.as_str(), target.as_str()) {
                items = None;
            }
            remove_name(&mut board_task_stems, stem);
        },
        TaskFact::TaskPriorityChanged { order } => {
            board_order = duplicate_strings(order);
        },
        TaskFact::BoardReordered { order } => {
            board_order = duplicate_strings(order);
        },
        _ => {},
    }
    SubtaskState { board_order, board_task_stems, target: items }
}

/// The number of a subtask identifier `s<n>`.
pub open spec fn subtask_number(id: Seq<char>) -> Option<nat> {
    if id.len() > 0 && id[0] == 's' {
        parse_unsigned(id.drop_first(), usize::MAX as nat)
    } else {
        None
    }
}

/// The largest subtask number in use, or zero.
pub open spec fn max_subtask_number(items: Seq<SubtaskView>) -> nat
    decreases items.len(),
{
    if items.len() == 0 {
        0
    } else {
        let m = max_subtask_number(items.drop_last());
        match subtask_number(items.last().id) {
            Some(n) => if n > m {
                n
            } else {
                m
            },
            None => m,
        }
    }
}

/// The identifier a new subtask gets: one past the largest number in use.
pub open spec fn next_subtask_id(items: Seq<SubtaskView>) -> Seq<char> {
    seq!['s'] + decimal_text(max_subtask_number(items) + 1)
}

fn subtask_number_of(id: &String) -> (r: Option<usize>)
    ensures
        match r {
            Some(n) => subtask_number(id@) == Some(n as nat),
            None => subtask_number(id@) is None,
        },
{
    let c = chars_of(id.as_str());
    if c.len() == 0 || c[0] != 's' {
        return None;
    }
    let rest = crate::text::chars_from(c.as_slice(), 1);
    assert(rest@ =~= id@.drop_first());
    match parse_unsigned_chars(rest.as_slice(), usize::MAX as u64) {
        Some(n) => Some(n as usize),
        None => None,
    }
}

fn largest_subtask_number(v: &Vec<Subtask>) -> (r: usize)
    ensures
        r == max_subtask_number(views(v@)),
{
    let ghost all = views(v@);
    let mut m: usize = 0;
    let mut i: usize = 0;
    while i < v.len()
        invariant
            i <= v@.len(),
            all == views(v@),
            m == max_subtask_number(all.take(i as int)),
        decreases v.len() - i,
    {
        assert(all.take(i + 1).drop_last() =~= all.take(i as int));
        assert(all.take(i + 1).last() == v@[i as int]@);
        match subtask_number_of(&v[i].id) {
            Some(n) => {
                if n > m {
                    m = n;
                }
            },
            None => {},
        }
        i = i + 1;
    }
    assert(all.take(i as int) =~= all);
    m
}

/// Adds a subtask, numbered one past the largest number in use, to a task
/// whose subtasks are known.
pub fn decide_add_subtask(state: &SubtaskState, stem: &String, title: &String, after: &Vec<String>) -> (r:
    Result<TaskFact, ChecklistCommandError>)
    requires
        state@.target matches Some(items) ==> max_subtask_number(items) < usize::MAX,
    ensures
        match state@.target {
            None => r == Err::<TaskFact, ChecklistCommandError>(ChecklistCommandError::SubtaskTaskMissing),
            Some(items) => r matches Ok(TaskFact::TaskSubtaskAdded { stem: s, subtask }) && s@ == stem@
                && subtask@ == (SubtaskView {
                id: next_subtask_id(items),
                checked: false,
                title: title@,
                after: strings_view(after@),
            }),
        },
{
    match &state.target {
        None => Err(ChecklistCommandError::SubtaskTaskMissing),
        Some(items) => {
            let m = largest_subtask_number(items);
            let digits = chars_of(decimal_string((m + 1) as u64).as_str());
            let mut id = String::new();
            crate::text::push_char(&mut id, 's');
            let mut k: usize = 0;
            while k < digits.len()
                invariant
                    k <= digits@.len(),
                    id@ == seq!['s'] + digits@.take(k as int),
                decreases digits.len() - k,
            {
                crate::text::push_char(&mut id, digits[k]);
                assert(digits@.take(k + 1) =~= digits@.take(k as int).push(digits@[k as int]));
                k = k + 1;
            }
            assert(digits@.take(k as int) =~= digits@);
            Ok(TaskFact::TaskSubtaskAdded {
                stem: stem.clone(),
                subtask: Subtask { id, checked: false, title: title.clone(), after: duplicate_strings(after) },
            })
        },
    }
}

/// The first subtask with identifier `id`, when the task's subtasks are
/// known.
pub open spec fn subtask_with(s: SubtaskStateView, id: Seq<char>) -> Option<SubtaskView> {
    match s.target {
        Some(items) => match crate::task_projection::first_subtask(items, id) {
            Some(j) => Some(items[j]),
            None => None,
        },
        None => None,
    }
}

/// Checks or unchecks a subtask; nothing is recorded when it already is as
/// requested.
pub fn decide_set_subtask_checked(state: &SubtaskState, stem: &String, subtask_id: &String, checked: bool) -> (r:
    Result<Option<TaskFact>, ChecklistCommandError>)
    ensures
        match subtask_with(state@, subtask_id@) {
            None => r == Err::<Option<TaskFact>, ChecklistCommandError>(ChecklistCommandError::SubtaskMissing),
            Some(item) => if item.checked == checked {
                r == Ok::<Option<TaskFact>, ChecklistCommandError>(None)
            } else {
                r matches Ok(Some(TaskFact::TaskSubtaskChecked { stem: s, subtask_id: i, checked: c }))
                    && s@ == stem@ && i@ == subtask_id@ && c == checked
            },
        },
{
    let current = match &state.target {
        None => {
            return Err(ChecklistCommandError::SubtaskMissing);
        },
        Some(items) => match first_subtask_index(items, subtask_id) {
            None => {
                return Err(ChecklistCommandError::SubtaskMissing);
            },
            Some(j) => items[j].checked,
        },
    };
    if current == checked {
        return Ok(None);
    }
    Ok(Some(TaskFact::TaskSubtaskChecked { stem: stem.clone(), subtask_id: subtask_id.clone(), checked }))
}

// ---------------------------------------------------------------------------
// Legacy task streams

/// The streams of tasks on the board order that the board itself never
/// created: `tiber:task:<stem>`, when that names a valid stream.
pub open spec fn legacy_streams(order: Seq<Seq<char>>, stems: Set<Node>) -> Seq<Seq<char>>
    decreases order.len(),
{
    if order.len() == 0 {
        Seq::empty()
    } else {
        let rest = legacy_streams(order.drop_last(), stems);
        let s = order.last();
        if stems.contains(s) {
            rest
        } else {
            match crate::cli::stream_id_of("tiber:task:"@ + s) {
                Some(id) => rest.push(id),
                None => rest,
            }
        }
    }
}

/// The legacy task streams a command must also read.
pub fn legacy_task_streams(order: &Vec<String>, board_task_stems: &Vec<String>) -> (r: Vec<String>)
    ensures
        strings_view(r@) == legacy_streams(strings_view(order@), names(board_task_stems@)),
{
    let ghost all = strings_view(order@);
    let mut out: Vec<String> = Vec::new();
    let mut i: usize = 0;
    while i < order.len()
        invariant
            i <= order@.len(),
            all == strings_view(order@),
            strings_view(out@) == legacy_streams(all.take(i as int), names(board_task_stems@)),
        decreases order.len() - i,
    {
        assert(all.take(i + 1).drop_last() =~= all.take(i as int));
        assert(all.take(i + 1).last() == order@[i as int]@);
        if !contains_name(board_task_stems, &order[i]) {
            let prefix = chars_of("tiber:task:");
            let stem = chars_of(order[i].as_str());
            let mut name = crate::text::string_from_chars(prefix.as_slice());
            let mut k: usize = 0;
            while k < stem.len()
                invariant
                    k <= stem@.len(),
                    name@ == "tiber:task:"@ + stem@.take(k as int),
                decreases stem.len() - k,
            {
                crate::text::push_char(&mut name, stem[k]);
                assert(stem@.take(k + 1) =~= stem@.take(k as int).push(stem@[k as int]));
                assert(name@ =~= "tiber:task:"@ + stem@.take(k + 1));
                k = k + 1;
            }
            assert(stem@.take(k as int) =~= stem@);
            match crate::cli::stream_id(name.as_str()) {
                Some(id) => {
                    let ghost before = strings_view(out@);
                    out.push(id);
                    assert(strings_view(out@) =~= before.push(out@[out@.len() - 1]@));
                },
                None => {},
            }
        }
        i = i + 1;
    }
    assert(all.take(i as int) =~= all);
    out
}

// ---------------------------------------------------------------------------
// Laws

proof fn lemma_max_bounds_numbers(items: Seq<SubtaskView>, k: int)
    requires
        0 <= k < items.len(),
    ensures
        subtask_number(items[k].id) matches Some(n) ==> n <= max_subtask_number(items),
    decreases items.len(),
{
    if k < items.len() - 1 {
        lemma_max_bounds_numbers(items.drop_last(), k);
        assert(items.drop_last()[k] == items[k]);
    }
}

/// A new subtask's identifier is used by no subtask the task already has.
pub proof fn lemma_new_subtask_id_is_fresh(items: Seq<SubtaskView>)
    requires
        max_subtask_number(items) < usize::MAX,
    ensures
        forall|k: int| 0 <= k < items.len() ==> #[trigger] items[k].id != next_subtask_id(items),
{
    let m = max_subtask_number(items);
    let next = next_subtask_id(items);
    crate::lock_file::lemma_parse_decimal(m + 1, usize::MAX as nat);
    assert(next.drop_first() =~= decimal_text(m + 1));
    assert(subtask_number(next) == Some((m + 1) as nat));
    assert forall|k: int| 0 <= k < items.len() implies #[trigger] items[k].id != next by {
        lemma_max_bounds_numbers(items, k);
    }
}

/// Replaying what the acceptance commands decide does what was asked: an
/// added criterion ends the list unchecked, a checked criterion takes the
/// requested state, and a removed one leaves the list.
pub proof fn lemma_acceptance_decisions_replay(s: AcceptanceStateView, stem: String, text: String, index: usize, checked: bool)
    ensures
        s.target is Some ==> acceptance_step(
            s,
            stem@,
            TaskFact::TaskAcceptanceAdded { stem, item: ChecklistItem { checked: false, text } },
        ).target == Some(s.target->0.push(ChecklistView { checked: false, text: text@ })),
        criterion_at(s, index) is Some ==> acceptance_step(
            s,
            stem@,
            TaskFact::TaskAcceptanceChecked { stem, index, checked },
        ).target->0[index as int].checked == checked,
        criterion_at(s, index) is Some ==> acceptance_step(
            s,
            stem@,
            TaskFact::TaskAcceptanceRemoved { stem, index },
        ).target == Some(s.target->0.remove(index as int)),
{
}

/// Replaying what the subtask commands decide does what was asked: the new
/// subtask ends the list unchecked, and a checked subtask takes the
/// requested state.
pub proof fn lemma_subtask_decisions_replay(s: SubtaskStateView, stem: String, subtask: Subtask, subtask_id: String, checked: bool)
    ensures
        s.target is Some ==> subtask_step(s, stem@, TaskFact::TaskSubtaskAdded { stem, subtask }).target
            == Some(s.target->0.push(subtask@)),
        subtask_with(s, subtask_id@) is Some ==> subtask_with(
            subtask_step(s, stem@, TaskFact::TaskSubtaskChecked { stem, subtask_id, checked }),
            subtask_id@,
        )->0.checked == checked,
{
    if subtask_with(s, subtask_id@) is Some {
        let items = s.target->0;
        let j = crate::task_projection::first_subtask(items, subtask_id@)->0;
        lemma_first_subtask_after_update(items, subtask_id@, j, checked);
    }
}

proof fn lemma_first_subtask_after_update(items: Seq<SubtaskView>, id: Seq<char>, j: int, checked: bool)
    requires
        crate::task_projection::first_subtask(items, id) == Some(j),
    ensures
        0 <= j < items.len(),
        crate::task_projection::first_subtask(items.update(j, SubtaskView { checked, ..items[j] }), id) == Some(j),
    decreases items.len(),
{
    if items.len() > 0 && items[0].id != id {
        let rest = items.drop_first();
        lemma_first_subtask_after_update(rest, id, j - 1, checked);
        assert(items.update(j, SubtaskView { checked, ..items[j] }).drop_first() =~= rest.update(
            j - 1,
            SubtaskView { checked, ..rest[j - 1] },
        ));
    }
}

} // verus!
