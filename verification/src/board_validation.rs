//! Validating the task board: what validation folds (every task's status
//! and links, kept in stem order), and the repairs it decides: reciprocal
//! links that one side lacks, and the board order of the open tasks.
use vstd::prelude::*;
use crate::ci_types::{duplicate_strings, strings_view};
use crate::graph::{names, Node};
use crate::order::{lemma_lt_asymmetric, lemma_lt_total, lemma_lt_transitive, seq_lt, string_lt};
use crate::task_commands::{remove_name, BOARD_STREAM};
use crate::task_projection::{LinkChange, TaskFact};
use crate::text::{owned, str_eq};

verus! {

/// What validation knows of one task.
#[derive(Debug)]
pub struct BoardTask {
    pub stem: String,
    pub status: String,
    pub blocks: Vec<String>,
    pub blocked_by: Vec<String>,
}

pub struct BoardTaskView {
    pub stem: Seq<char>,
    pub status: Seq<char>,
    pub blocks: Seq<Seq<char>>,
    pub blocked_by: Seq<Seq<char>>,
}

impl View for BoardTask {
    type V = BoardTaskView;

    open spec fn view(&self) -> BoardTaskView {
        BoardTaskView {
            stem: self.stem@,
            status: self.status@,
            blocks: strings_view(self.blocks@),
            blocked_by: strings_view(self.blocked_by@),
        }
    }
}

impl BoardTask {
    pub fn duplicate(&self) -> (r: Self)
        ensures
            r@ == self@,
    {
        BoardTask {
            stem: self.stem.clone(),
            status: self.status.clone(),
            blocks: duplicate_strings(&self.blocks),
            blocked_by: duplicate_strings(&self.blocked_by),
        }
    }
}

pub type BoardTasks = Seq<BoardTaskView>;

pub open spec fn task_views(v: Seq<BoardTask>) -> BoardTasks {
    v.map_values(|t: BoardTask| t@)
}

/// Tasks kept in strictly increasing stem order, as a map by stem walks them.
pub open spec fn stems_sorted(t: BoardTasks) -> bool {
    forall|i: int, j: int| 0 <= i < j < t.len() ==> seq_lt(#[trigger] t[i].stem, #[trigger] t[j].stem)
}

/// How many tasks come before stem `k`.
pub open spec fn lower_bound(t: BoardTasks, k: Seq<char>) -> int
    decreases t.len(),
{
    if t.len() == 0 {
        0
    } else if seq_lt(t[0].stem, k) {
        1 + lower_bound(t.drop_first(), k)
    } else {
        0
    }
}

/// The tasks with `e` in its place: replacing the task of the same stem, or
/// inserted where its stem belongs.
pub open spec fn put_task(t: BoardTasks, e: BoardTaskView) -> BoardTasks {
    let i = lower_bound(t, e.stem);
    if i < t.len() && t[i].stem == e.stem {
        t.update(i, e)
    } else {
        t.insert(i, e)
    }
}

/// The tasks with task `stem` given `status`.
pub open spec fn with_task_status(t: BoardTasks, stem: Seq<char>, status: Seq<char>) -> BoardTasks {
    t.map_values(|e: BoardTaskView| if e.stem == stem { BoardTaskView { status, ..e } } else { e })
}

/// The tasks with task `stem` given the links `blocks` and `blocked_by`.
pub open spec fn with_task_links(
    t: BoardTasks,
    stem: Seq<char>,
    blocks: Seq<Seq<char>>,
    blocked_by: Seq<Seq<char>>,
) -> BoardTasks {
    t.map_values(|e: BoardTaskView| if e.stem == stem { BoardTaskView { blocks, blocked_by, ..e } } else { e })
}

/// The tasks without task `stem`.
pub open spec fn without_task(t: BoardTasks, stem: Seq<char>) -> BoardTasks
    decreases t.len(),
{
    if t.len() == 0 {
        t
    } else {
        let rest = without_task(t.drop_last(), stem);
        if t.last().stem == stem {
            rest
        } else {
            rest.push(t.last())
        }
    }
}

/// Every task of `stems` marked done, in turn.
pub open spec fn tasks_done(t: BoardTasks, stems: Seq<Seq<char>>) -> BoardTasks
    decreases stems.len(),
{
    if stems.len() == 0 {
        t
    } else {
        with_task_status(tasks_done(t, stems.drop_last()), stems.last(), "done"@)
    }
}

/// Every link change of `changes` applied, in turn.
pub open spec fn links_applied(t: BoardTasks, changes: Seq<LinkChange>) -> BoardTasks
    decreases changes.len(),
{
    if changes.len() == 0 {
        t
    } else {
        let c = changes.last();
        with_task_links(
            links_applied(t, changes.drop_last()),
            c.stem@,
            strings_view(c.blocks@),
            strings_view(c.blocked_by@),
        )
    }
}

fn find_slot(v: &Vec<BoardTask>, k: &String) -> (r: usize)
    ensures
        r == lower_bound(task_views(v@), k@),
        r <= v@.len(),
{
    let ghost all = task_views(v@);
    let mut i: usize = 0;
    assert(all.skip(0) =~= all);
    while i < v.len() && string_lt(&v[i].stem, k)
        invariant
            i <= v@.len(),
            all == task_views(v@),
            lower_bound(all, k@) == i + lower_bound(all.skip(i as int), k@),
        decreases v.len() - i,
    {
        assert(all.skip(i as int)[0] == v@[i as int]@);
        assert(all.skip(i as int).drop_first() =~= all.skip(i + 1));
        i = i + 1;
    }
    if i < v.len() {
        assert(all.skip(i as int)[0] == v@[i as int]@);
    } else {
        assert(all.skip(i as int) =~= Seq::<BoardTaskView>::empty());
    }
    i
}

proof fn lemma_lower_bound(t: BoardTasks, k: Seq<char>)
    requires
        stems_sorted(t),
    ensures
        0 <= lower_bound(t, k) <= t.len(),
        forall|j: int| 0 <= j < lower_bound(t, k) ==> seq_lt(#[trigger] t[j].stem, k),
        forall|j: int| lower_bound(t, k) <= j < t.len() ==> !seq_lt(#[trigger] t[j].stem, k),
    decreases t.len(),
{
    if t.len() > 0 {
        let rest = t.drop_first();
        assert(stems_sorted(rest)) by {
            assert forall|i: int, j: int| 0 <= i < j < rest.len() implies seq_lt(#[trigger] rest[i].stem, #[trigger] rest[j].stem) by {
                assert(rest[i] == t[i + 1] && rest[j] == t[j + 1]);
            }
        }
        lemma_lower_bound(rest, k);
        if seq_lt(t[0].stem, k) {
            assert forall|j: int| 0 <= j < lower_bound(t, k) implies seq_lt(#[trigger] t[j].stem, k) by {
                if j > 0 {
                    assert(t[j] == rest[j - 1]);
                }
            }
            assert forall|j: int| lower_bound(t, k) <= j < t.len() implies !seq_lt(#[trigger] t[j].stem, k) by {
                assert(t[j] == rest[j - 1]);
            }
        } else {
            assert forall|j: int| 0 <= j < t.len() implies !seq_lt(#[trigger] t[j].stem, k) by {
                if j > 0 && seq_lt(t[j].stem, k) {
                    assert(seq_lt(t[0].stem, t[j].stem));
                    lemma_lt_transitive(t[0].stem, t[j].stem, k);
                }
            }
        }
    }
}

proof fn lemma_put_task_sorted(t: BoardTasks, e: BoardTaskView)
    requires
        stems_sorted(t),
    ensures
        stems_sorted(put_task(t, e)),
{
    lemma_lower_bound(t, e.stem);
    let i = lower_bound(t, e.stem);
    let r = put_task(t, e);
    if i < t.len() && t[i].stem == e.stem {
        assert forall|a: int, b: int| 0 <= a < b < r.len() implies seq_lt(#[trigger] r[a].stem, #[trigger] r[b].stem) by {
            assert(r[a].stem == t[a].stem && r[b].stem == t[b].stem);
        }
    } else {
        assert forall|a: int, b: int| 0 <= a < b < r.len() implies seq_lt(#[trigger] r[a].stem, #[trigger] r[b].stem) by {
            if b < i {
                assert(r[a] == t[a] && r[b] == t[b]);
            } else if b == i {
                assert(r[a] == t[a] && r[b] == e);
            } else if a == i {
                assert(r[a] == e && r[b] == t[b - 1]);
                assert(!seq_lt(t[b - 1].stem, e.stem));
                if t[b - 1].stem != e.stem {
                    lemma_lt_total(t[b - 1].stem, e.stem);
                } else {
                    assert(t[i].stem != e.stem);
                    assert(seq_lt(t[i].stem, t[b - 1].stem) || i == b - 1);
                    if i < b - 1 {
                        assert(!seq_lt(t[i].stem, e.stem));
                        lemma_lt_total(t[i].stem, e.stem);
                        lemma_lt_asymmetric(t[i].stem, e.stem);
                    }
                }
            } else if a < i {
                assert(r[a] == t[a] && r[b] == t[b - 1]);
                if a < b - 1 {
                    assert(seq_lt(t[a].stem, t[b - 1].stem));
                } else {
                    assert(seq_lt(t[a].stem, e.stem));
                    assert(!seq_lt(t[b - 1].stem, e.stem));
                }
            } else {
                assert(r[a] == t[a - 1] && r[b] == t[b - 1]);
            }
        }
    }
}

proof fn lemma_without_task_members(t: BoardTasks, stem: Seq<char>, k: int)
    requires
        0 <= k < without_task(t, stem).len(),
    ensures
        exists|j: int| 0 <= j < t.len() && t[j] == #[trigger] without_task(t, stem)[k],
    decreases t.len(),
{
    let rest = without_task(t.drop_last(), stem);
    if k < rest.len() {
        lemma_without_task_members(t.drop_last(), stem, k);
        let j = choose|j: int| 0 <= j < t.drop_last().len() && t.drop_last()[j] == rest[k];
        assert(t[j] == without_task(t, stem)[k]);
    } else {
        assert(t[t.len() - 1] == without_task(t, stem)[k]);
    }
}

proof fn lemma_without_task_sorted(t: BoardTasks, stem: Seq<char>)
    requires
        stems_sorted(t),
    ensures
        stems_sorted(without_task(t, stem)),
    decreases t.len(),
{
    if t.len() > 0 {
        let p = t.drop_last();
        assert(stems_sorted(p)) by {
            assert forall|i: int, j: int| 0 <= i < j < p.len() implies seq_lt(#[trigger] p[i].stem, #[trigger] p[j].stem) by {
                assert(p[i] == t[i] && p[j] == t[j]);
            }
        }
        lemma_without_task_sorted(p, stem);
        let rest = without_task(p, stem);
        if t.last().stem != stem {
            let r = rest.push(t.last());
            assert forall|a: int, b: int| 0 <= a < b < r.len() implies seq_lt(#[trigger] r[a].stem, #[trigger] r[b].stem) by {
                if b < rest.len() {
                    assert(r[a] == rest[a] && r[b] == rest[b]);
                } else {
                    assert(r[a] == rest[a]);
                    lemma_without_task_members(p, stem, a);
                    let j = choose|j: int| 0 <= j < p.len() && p[j] == #[trigger] without_task(p, stem)[a];
                    assert(t[j] == p[j]);
                    assert(seq_lt(t[j].stem, t[t.len() - 1].stem));
                }
            }
        }
    }
}

proof fn lemma_map_keeps_sorted(t: BoardTasks, r: BoardTasks)
    requires
        stems_sorted(t),
        r.len() == t.len(),
        forall|i: int| 0 <= i < t.len() ==> #[trigger] r[i].stem == t[i].stem,
    ensures
        stems_sorted(r),
{
    assert forall|a: int, b: int| 0 <= a < b < r.len() implies seq_lt(#[trigger] r[a].stem, #[trigger] r[b].stem) by {
        assert(r[a].stem == t[a].stem && r[b].stem == t[b].stem);
    }
}

/// The board tasks, kept in stem order.
#[derive(Debug, Default)]
pub struct BoardTaskTable {
    pub tasks: Vec<BoardTask>,
}

impl View for BoardTaskTable {
    type V = BoardTasks;

    open spec fn view(&self) -> BoardTasks {
        task_views(self.tasks@)
    }
}

impl BoardTaskTable {
    /// Records `e`, replacing the task of the same stem.
    pub fn put(&mut self, e: BoardTask)
        ensures
            final(self)@ == put_task(old(self)@, e@),
            stems_sorted(old(self)@) ==> stems_sorted(final(self)@),
    {
        let ghost before = self@;
        let ghost ev = e@;
        let i = find_slot(&self.tasks, &e.stem);
        if i < self.tasks.len() && str_eq(self.tasks[i].stem.as_str(), e.stem.as_str()) {
            self.tasks.set(i, e);
            assert(self@ =~= before.update(i as int, ev));
        } else {
            self.tasks.insert(i, e);
            assert(self@ =~= before.insert(i as int, ev));
        }
        proof {
            if stems_sorted(before) {
                lemma_put_task_sorted(before, ev);
            }
        }
    }

    /// Gives task `stem` the status `status`, when the table has it.
    pub fn set_status(&mut self, stem: &String, status: &String)
        ensures
            final(self)@ == with_task_status(old(self)@, stem@, status@),
            stems_sorted(old(self)@) ==> stems_sorted(final(self)@),
    {
        let ghost before = self@;
        let mut i: usize = 0;
        while i < self.tasks.len()
            invariant
                i <= self.tasks@.len(),
                self@.len() == before.len(),
                forall|j: int| 0 <= j < i ==> #[trigger] self@[j] == with_task_status(before, stem@, status@)[j],
                forall|j: int| i <= j < before.len() ==> #[trigger] self@[j] == before[j],
            decreases self.tasks.len() - i,
        {
            let ghost prev = self@;
            assert(prev[i as int] == before[i as int]);
            assert(with_task_status(before, stem@, status@)[i as int] == (if before[i as int].stem == stem@ {
                BoardTaskView { status: status@, ..before[i as int] }
            } else {
                before[i as int]
            }));
            if str_eq(self.tasks[i].stem.as_str(), stem.as_str()) {
                let mut e = self.tasks[i].duplicate();
                e.status = status.clone();
                let ghost ev = e@;
                self.tasks.set(i, e);
                assert(self@ =~= prev.update(i as int, ev));
            }
            i = i + 1;
        }
        assert(self@ =~= with_task_status(before, stem@, status@));
        proof {
            if stems_sorted(before) {
                lemma_map_keeps_sorted(before, self@);
            }
        }
    }

    /// Gives task `stem` the links `blocks` and `blocked_by`, when the table
    /// has it.
    pub fn set_links(&mut self, stem: &String, blocks: &Vec<String>, blocked_by: &Vec<String>)
        ensures
            final(self)@ == with_task_links(old(self)@, stem@, strings_view(blocks@), strings_view(blocked_by@)),
            stems_sorted(old(self)@) ==> stems_sorted(final(self)@),
    {
        let ghost before = self@;
        let ghost target = with_task_links(before, stem@, strings_view(blocks@), strings_view(blocked_by@));
        let mut i: usize = 0;
        while i < self.tasks.len()
            invariant
                i <= self.tasks@.len(),
                self@.len() == before.len(),
                target == with_task_links(before, stem@, strings_view(blocks@), strings_view(blocked_by@)),
                forall|j: int| 0 <= j < i ==> #[trigger] self@[j] == target[j],
                forall|j: int| i <= j < before.len() ==> #[trigger] self@[j] == before[j],
            decreases self.tasks.len() - i,
        {
            let ghost prev = self@;
            assert(prev[i as int] == before[i as int]);
            assert(target[i as int] == (if before[i as int].stem == stem@ {
                BoardTaskView { blocks: strings_view(blocks@), blocked_by: strings_view(blocked_by@), ..before[i as int] }
            } else {
                before[i as int]
            }));
            if str_eq(self.tasks[i].stem.as_str(), stem.as_str()) {
                let mut e = self.tasks[i].duplicate();
                e.blocks = duplicate_strings(blocks);
                e.blocked_by = duplicate_strings(blocked_by);
                let ghost ev = e@;
                self.tasks.set(i, e);
                assert(self@ =~= prev.update(i as int, ev));
            }
            i = i + 1;
        }
        assert(self@ =~= target);
        proof {
            if stems_sorted(before) {
                lemma_map_keeps_sorted(before, self@);
            }
        }
    }

    /// Forgets task `stem`.
    pub fn remove(&mut self, stem: &String)
        ensures
            final(self)@ == without_task(old(self)@, stem@),
            stems_sorted(old(self)@) ==> stems_sorted(final(self)@),
    {
        let ghost all = self@;
        let mut kept: Vec<BoardTask> = Vec::new();
        let mut i: usize = 0;
        while i < self.tasks.len()
            invariant
                i <= self.tasks@.len(),
                all == self@,
                task_views(kept@) == without_task(all.take(i as int), stem@),
            decreases self.tasks.len() - i,
        {
            assert(all.take(i + 1).drop_last() =~= all.take(i as int));
            assert(all.take(i + 1).last() == all[i as int]);
            if !str_eq(self.tasks[i].stem.as_str(), stem.as_str()) {
                let ghost before = task_views(kept@);
                kept.push(self.tasks[i].duplicate());
                assert(task_views(kept@) =~= before.push(all[i as int]));
            }
            i = i + 1;
        }
        assert(all.take(i as int) =~= all);
        self.tasks = kept;
        proof {
            if stems_sorted(all) {
                lemma_without_task_sorted(all, stem@);
            }
        }
    }
}


// ---------------------------------------------------------------------------
// The state validation folds

/// What validation folds: the board order and members, and every task's
/// status and links.
#[derive(Debug, Default)]
pub struct ValidateTaskBoardState {
    pub board_order: Vec<String>,
    pub board_task_stems: Vec<String>,
    pub tasks: BoardTaskTable,
}

pub struct ValidateStateView {
    pub board_order: Seq<Seq<char>>,
    pub board_task_stems: Set<Node>,
    pub tasks: BoardTasks,
}

impl View for ValidateTaskBoardState {
    type V = ValidateStateView;

    open spec fn view(&self) -> ValidateStateView {
        ValidateStateView {
            board_order: strings_view(self.board_order@),
            board_task_stems: names(self.board_task_stems@),
            tasks: self.tasks@,
        }
    }
}

/// The validation state after one fact.
pub open spec fn validate_step(s: ValidateStateView, f: TaskFact) -> ValidateStateView {
    match f {
        TaskFact::TaskCreated { stream_id, task } => ValidateStateView {
            tasks: put_task(
                s.tasks,
                BoardTaskView {
                    stem: task.stem@,
                    status: task.status@,
                    blocks: strings_view(task.blocks@),
                    blocked_by: strings_view(task.blocked_by@),
                },
            ),
            board_task_stems: if stream_id@ == BOARD_STREAM@ {
                s.board_task_stems.insert(task.stem@)
            } else {
                s.board_task_stems
            },
            ..s
        },
        TaskFact::TaskTransitioned { stem, status, .. } => ValidateStateView {
            tasks: with_task_status(s.tasks, stem@, status@),
            ..s
        },
        TaskFact::LegacyTaskClosedFromTrailer { stem } => ValidateStateView {
            tasks: with_task_status(s.tasks, stem@, "done"@),
            ..s
        },
        TaskFact::TasksClosedFromCommitTrailers { stems, order, .. } => ValidateStateView {
            tasks: tasks_done(s.tasks, strings_view(stems@)),
            board_order: strings_view(order@),
            ..s
        },
        TaskFact::TaskLinksChanged { change } => ValidateStateView {
            tasks: with_task_links(s.tasks, change.stem@, strings_view(change.blocks@), strings_view(change.blocked_by@)),
            ..s
        },
        TaskFact::TaskValidationRepaired { link_changes, order_change } => ValidateStateView {
            tasks: links_applied(s.tasks, link_changes@),
            board_order: match order_change {
                Some(o) => strings_view(o@),
                None => s.board_order,
            },
            ..s
        },
        TaskFact::LegacyTaskRemoved { stem } => ValidateStateView {
            tasks: without_task(s.tasks, stem@),
            board_task_stems: s.board_task_stems.remove(stem@),
            ..s
        },
        TaskFact::TaskPriorityChanged { order } => ValidateStateView { board_order: strings_view(order@), ..s },
        TaskFact::BoardReordered { order } => ValidateStateView { board_order: strings_view(order@), ..s },
        _ => s,
    }
}

/// Folds one fact into the validation state; the tasks stay in stem order.
pub fn evolve_task_board_state(state: ValidateTaskBoardState, f: &TaskFact) -> (r: ValidateTaskBoardState)
    ensures
        r@ == validate_step(state@, *f),
        stems_sorted(state@.tasks) ==> stems_sorted(r@.tasks),
{
    let ValidateTaskBoardState { board_order, board_task_stems, tasks } = state;
    let mut board_order = board_order;
    let mut board_task_stems = board_task_stems;
    let mut tasks = tasks;
    match f {
        TaskFact::TaskCreated { stream_id, task } => {
            tasks.put(
                BoardTask {
                    stem: task.stem.clone(),
                    status: task.status.clone(),
                    blocks: duplicate_strings(&task.blocks),
                    blocked_by: duplicate_strings(&task.blocked_by),
                },
            );
            if str_eq(stream_id.as_str(), BOARD_STREAM) {
                crate::tickets::insert_name(&mut board_task_stems, &task.stem);
            }
        },
        TaskFact::TaskTransitioned { stem, status, .. } => {
            tasks.set_status(stem, status);
        },
        TaskFact::LegacyTaskClosedFromTrailer { stem } => {
            tasks.set_status(stem, &owned("done"));
        },
        TaskFact::TasksClosedFromCommitTrailers { stems, order, .. } => {
            let ghost all = strings_view(stems@);
            let ghost start = tasks@;
            let done = owned("done");
            let mut i: usize = 0;
            while i < stems.len()
                invariant
                    i <= stems@.len(),
                    all == strings_view(stems@),
                    done@ == "done"@,
                    tasks@ == tasks_done(start, all.take(i as int)),
                    stems_sorted(start) ==> stems_sorted(tasks@),
                decreases stems.len() - i,
            {
                assert(all.take(i + 1).drop_last() =~= all.take(i as int));
                assert(all.take(i + 1).last() == stems@[i as int]@);
                tasks.set_status(&stems[i], &done);
                i = i + 1;
            }
            assert(all.take(i as int) =~= all);
            board_order = duplicate_strings(order);
        },
        TaskFact::TaskLinksChanged { change } => {
            tasks.set_links(&change.stem, &change.blocks, &change.blocked_by);
        },
        TaskFact::TaskValidationRepaired { link_changes, order_change } => {
            let ghost start = tasks@;
            let mut i: usize = 0;
            while i < link_changes.len()
                invariant
                    i <= link_changes@.len(),
                    tasks@ == links_applied(start, link_changes@.take(i as int)),
                    stems_sorted(start) ==> stems_sorted(tasks@),
                decreases link_changes.len() - i,
            {
                assert(link_changes@.take(i + 1).drop_last() =~= link_changes@.take(i as int));
                assert(link_changes@.take(i + 1).last() == link_changes@[i as int]);
                let c = &link_changes[i];
                tasks.set_links(&c.stem, &c.blocks, &c.blocked_by);
                i = i + 1;
            }
            assert(link_changes@.take(i as int) =~= link_changes@);
            match order_change {
                Some(o) => {
                    board_order = duplicate_strings(o);
                },
                None => {},
            }
        },
        TaskFact::LegacyTaskRemoved { stem } => {
            tasks.remove(stem);
            remove_name(&mut board_task_stems, stem);
        },
        TaskFact::TaskPriorityChanged { order } => {
            board_order = duplicate_strings(order);
        },
        TaskFact::BoardReordered { order } => {
            board_order = duplicate_strings(order);
        },
        _ => {},
    }
    ValidateTaskBoardState { board_order, board_task_stems, tasks }
}


// ---------------------------------------------------------------------------
// Repairs

/// The tasks with `x` added to the `blocked_by` list (or, when `on_blocks`,
/// the `blocks` list) of task `key`, unless it is there already.
pub open spec fn add_link(t: BoardTasks, key: Seq<char>, x: Seq<char>, on_blocks: bool) -> BoardTasks {
    t.map_values(
        |e: BoardTaskView|
            if e.stem != key {
                e
            } else if on_blocks {
                if e.blocks.contains(x) {
                    e
                } else {
                    BoardTaskView { blocks: e.blocks.push(x), ..e }
                }
            } else {
                if e.blocked_by.contains(x) {
                    e
                } else {
                    BoardTaskView { blocked_by: e.blocked_by.push(x), ..e }
                }
            },
    )
}

/// Each task of `targets` gains `stem` on the side opposite to the one
/// `stem` lists it on.
pub open spec fn reciprocate(t: BoardTasks, stem: Seq<char>, targets: Seq<Seq<char>>, on_blocks: bool) -> BoardTasks
    decreases targets.len(),
{
    if targets.len() == 0 {
        t
    } else {
        add_link(reciprocate(t, stem, targets.drop_last(), on_blocks), targets.last(), stem, on_blocks)
    }
}

/// The links once the first `n` tasks' links are reciprocated: every task a
/// task blocks lists it in `blocked_by`, and every task it is blocked by
/// lists it in `blocks`.
pub open spec fn repaired_links(orig: BoardTasks, n: nat) -> BoardTasks
    decreases n,
{
    if n == 0 || n > orig.len() {
        orig
    } else {
        let e = orig[n - 1];
        reciprocate(reciprocate(repaired_links(orig, (n - 1) as nat), e.stem, e.blocks, false), e.stem, e.blocked_by, true)
    }
}

/// The entries of `a` that `b` lacks, in order.
pub open spec fn missing_from(a: Seq<Seq<char>>, b: Seq<Seq<char>>) -> Seq<Seq<char>>
    decreases a.len(),
{
    if a.len() == 0 {
        a
    } else {
        let rest = missing_from(a.drop_last(), b);
        if b.contains(a.last()) {
            rest
        } else {
            rest.push(a.last())
        }
    }
}

/// One repair validation makes.
#[derive(Debug)]
pub enum ValidationRepair {
    ReciprocalLinkAdded { task: String, field: String, target: String },
    BoardEntryAdded { task: String },
    BoardEntryRemoved { task: String },
}

pub enum RepairView {
    ReciprocalLinkAdded { task: Seq<char>, field: Seq<char>, target: Seq<char> },
    BoardEntryAdded { task: Seq<char> },
    BoardEntryRemoved { task: Seq<char> },
}

impl View for ValidationRepair {
    type V = RepairView;

    open spec fn view(&self) -> RepairView {
        match self {
            ValidationRepair::ReciprocalLinkAdded { task, field, target } => RepairView::ReciprocalLinkAdded {
                task: task@,
                field: field@,
                target: target@,
            },
            ValidationRepair::BoardEntryAdded { task } => RepairView::BoardEntryAdded { task: task@ },
            ValidationRepair::BoardEntryRemoved { task } => RepairView::BoardEntryRemoved { task: task@ },
        }
    }
}

pub open spec fn repair_views(v: Seq<ValidationRepair>) -> Seq<RepairView> {
    v.map_values(|r: ValidationRepair| r@)
}

/// One link repair for each of `targets` on `field` of task `stem`.
pub open spec fn link_repairs(stem: Seq<char>, field: Seq<char>, targets: Seq<Seq<char>>) -> Seq<RepairView> {
    targets.map_values(|x: Seq<char>| RepairView::ReciprocalLinkAdded { task: stem, field, target: x })
}

/// Whether task `j` gained links in the repair.
pub open spec fn links_grew(orig: BoardTasks, rep: BoardTasks, j: int) -> bool {
    rep[j].blocks != orig[j].blocks || rep[j].blocked_by != orig[j].blocked_by
}

/// The link repairs for the first `n` tasks.
pub open spec fn repairs_of_links(orig: BoardTasks, rep: BoardTasks, n: nat) -> Seq<RepairView>
    decreases n,
{
    if n == 0 {
        Seq::empty()
    } else {
        let j = n - 1;
        let prev = repairs_of_links(orig, rep, (n - 1) as nat);
        if links_grew(orig, rep, j) {
            prev + link_repairs(rep[j].stem, "blocks"@, missing_from(rep[j].blocks, orig[j].blocks))
                + link_repairs(rep[j].stem, "blocked_by"@, missing_from(rep[j].blocked_by, orig[j].blocked_by))
        } else {
            prev
        }
    }
}

/// The link changes for the first `n` tasks: each task whose links grew,
/// with its repaired lists.
pub open spec fn changes_of_links(orig: BoardTasks, rep: BoardTasks, n: nat) -> Seq<BoardTaskView>
    decreases n,
{
    if n == 0 {
        Seq::empty()
    } else {
        let j = n - 1;
        let prev = changes_of_links(orig, rep, (n - 1) as nat);
        if links_grew(orig, rep, j) {
            prev.push(rep[j])
        } else {
            prev
        }
    }
}

pub open spec fn change_views(v: Seq<LinkChange>) -> Seq<(Seq<char>, Seq<Seq<char>>, Seq<Seq<char>>)> {
    v.map_values(|c: LinkChange| (c.stem@, strings_view(c.blocks@), strings_view(c.blocked_by@)))
}

pub open spec fn task_links_of(v: Seq<BoardTaskView>) -> Seq<(Seq<char>, Seq<Seq<char>>, Seq<Seq<char>>)> {
    v.map_values(|e: BoardTaskView| (e.stem, e.blocks, e.blocked_by))
}

/// The board-order repairs: entries the reconciled order adds, then entries
/// it drops.
pub open spec fn order_repairs(order: Seq<Seq<char>>, reconciled: Seq<Seq<char>>) -> Seq<RepairView> {
    missing_from(reconciled, order).map_values(|x: Seq<char>| RepairView::BoardEntryAdded { task: x })
        + missing_from(order, reconciled).map_values(|x: Seq<char>| RepairView::BoardEntryRemoved { task: x })
}

/// What validation repairs.
#[derive(Debug)]
pub struct TaskBoardRepairPlan {
    pub link_changes: Vec<LinkChange>,
    pub order_change: Option<Vec<String>>,
    pub repairs: Vec<ValidationRepair>,
}

fn add_link_exec(tasks: &mut Vec<BoardTask>, key: &String, x: &String, on_blocks: bool)
    ensures
        task_views(final(tasks)@) == add_link(task_views(old(tasks)@), key@, x@, on_blocks),
{
    let ghost before = task_views(tasks@);
    let ghost target = add_link(before, key@, x@, on_blocks);
    let mut i: usize = 0;
    while i < tasks.len()
        invariant
            i <= tasks@.len(),
            task_views(tasks@).len() == before.len(),
            target == add_link(before, key@, x@, on_blocks),
            forall|j: int| 0 <= j < i ==> #[trigger] task_views(tasks@)[j] == target[j],
            forall|j: int| i <= j < before.len() ==> #[trigger] task_views(tasks@)[j] == before[j],
        decreases tasks.len() - i,
    {
        let ghost prev = task_views(tasks@);
        assert(prev[i as int] == before[i as int]);
        assert(target[i as int] == (if before[i as int].stem != key@ {
            before[i as int]
        } else if on_blocks {
            if before[i as int].blocks.contains(x@) {
                before[i as int]
            } else {
                BoardTaskView { blocks: before[i as int].blocks.push(x@), ..before[i as int] }
            }
        } else {
            if before[i as int].blocked_by.contains(x@) {
                before[i as int]
            } else {
                BoardTaskView { blocked_by: before[i as int].blocked_by.push(x@), ..before[i as int] }
            }
        }));
        if str_eq(tasks[i].stem.as_str(), key.as_str()) {
            let mut e = tasks[i].duplicate();
            if on_blocks {
                proof {
                    crate::task_lifecycle::lemma_names_contains(e.blocks@, x@);
                }
                if !crate::graph::contains_name(&e.blocks, x) {
                    let ghost b = strings_view(e.blocks@);
                    e.blocks.push(x.clone());
                    assert(strings_view(e.blocks@) =~= b.push(x@));
                }
            } else {
                proof {
                    crate::task_lifecycle::lemma_names_contains(e.blocked_by@, x@);
                }
                if !crate::graph::contains_name(&e.blocked_by, x) {
                    let ghost b = strings_view(e.blocked_by@);
                    e.blocked_by.push(x.clone());
                    assert(strings_view(e.blocked_by@) =~= b.push(x@));
                }
            }
            let ghost ev = e@;
            tasks.set(i, e);
            assert(task_views(tasks@) =~= prev.update(i as int, ev));
        }
        i = i + 1;
    }
    assert(task_views(tasks@) =~= target);
}

fn reciprocate_exec(tasks: &mut Vec<BoardTask>, stem: &String, targets: &Vec<String>, on_blocks: bool)
    ensures
        task_views(final(tasks)@) == reciprocate(task_views(old(tasks)@), stem@, strings_view(targets@), on_blocks),
{
    let ghost start = task_views(tasks@);
    let ghost all = strings_view(targets@);
    let mut i: usize = 0;
    while i < targets.len()
        invariant
            i <= targets@.len(),
            all == strings_view(targets@),
            task_views(tasks@) == reciprocate(start, stem@, all.take(i as int), on_blocks),
        decreases targets.len() - i,
    {
        assert(all.take(i + 1).drop_last() =~= all.take(i as int));
        assert(all.take(i + 1).last() == targets@[i as int]@);
        add_link_exec(tasks, &targets[i], stem, on_blocks);
        i = i + 1;
    }
    assert(all.take(i as int) =~= all);
}

proof fn lemma_add_link_shape(t: BoardTasks, key: Seq<char>, x: Seq<char>, on_blocks: bool)
    ensures
        add_link(t, key, x, on_blocks).len() == t.len(),
        forall|j: int| 0 <= j < t.len() ==> (#[trigger] add_link(t, key, x, on_blocks)[j]).stem == t[j].stem,
{
}

proof fn lemma_reciprocate_shape(t: BoardTasks, stem: Seq<char>, targets: Seq<Seq<char>>, on_blocks: bool)
    ensures
        reciprocate(t, stem, targets, on_blocks).len() == t.len(),
        forall|j: int| 0 <= j < t.len() ==> (#[trigger] reciprocate(t, stem, targets, on_blocks)[j]).stem == t[j].stem,
    decreases targets.len(),
{
    if targets.len() > 0 {
        lemma_reciprocate_shape(t, stem, targets.drop_last(), on_blocks);
        lemma_add_link_shape(reciprocate(t, stem, targets.drop_last(), on_blocks), targets.last(), stem, on_blocks);
    }
}

proof fn lemma_repaired_shape(orig: BoardTasks, n: nat)
    ensures
        repaired_links(orig, n).len() == orig.len(),
        forall|j: int| 0 <= j < orig.len() ==> (#[trigger] repaired_links(orig, n)[j]).stem == orig[j].stem,
    decreases n,
{
    if n > 0 && n <= orig.len() {
        let e = orig[n - 1];
        let p = repaired_links(orig, (n - 1) as nat);
        lemma_repaired_shape(orig, (n - 1) as nat);
        lemma_reciprocate_shape(p, e.stem, e.blocks, false);
        lemma_reciprocate_shape(reciprocate(p, e.stem, e.blocks, false), e.stem, e.blocked_by, true);
    }
}

fn missing_from_exec(a: &Vec<String>, b: &Vec<String>) -> (r: Vec<String>)
    ensures
        strings_view(r@) == missing_from(strings_view(a@), strings_view(b@)),
{
    let ghost all = strings_view(a@);
    let mut out: Vec<String> = Vec::new();
    let mut i: usize = 0;
    while i < a.len()
        invariant
            i <= a@.len(),
            all == strings_view(a@),
            strings_view(out@) == missing_from(all.take(i as int), strings_view(b@)),
        decreases a.len() - i,
    {
        assert(all.take(i + 1).drop_last() =~= all.take(i as int));
        assert(all.take(i + 1).last() == a@[i as int]@);
        proof {
            crate::task_lifecycle::lemma_names_contains(b@, a@[i as int]@);
        }
        if !crate::graph::contains_name(b, &a[i]) {
            let ghost before = strings_view(out@);
            out.push(a[i].clone());
            assert(strings_view(out@) =~= before.push(a@[i as int]@));
        }
        i = i + 1;
    }
    assert(all.take(i as int) =~= all);
    out
}

fn push_link_repairs(out: &mut Vec<ValidationRepair>, stem: &String, field: &str, targets: &Vec<String>)
    ensures
        repair_views(final(out)@) == repair_views(old(out)@) + link_repairs(stem@, field@, strings_view(targets@)),
{
    let ghost start = repair_views(out@);
    let ghost all = strings_view(targets@);
    let mut i: usize = 0;
    while i < targets.len()
        invariant
            i <= targets@.len(),
            all == strings_view(targets@),
            repair_views(out@) == start + link_repairs(stem@, field@, all.take(i as int)),
        decreases targets.len() - i,
    {
        let ghost before = repair_views(out@);
        out.push(
            ValidationRepair::ReciprocalLinkAdded {
                task: stem.clone(),
                field: owned(field),
                target: targets[i].clone(),
            },
        );
        assert(link_repairs(stem@, field@, all.take(i + 1)) =~= link_repairs(stem@, field@, all.take(i as int)).push(
            RepairView::ReciprocalLinkAdded { task: stem@, field: field@, target: targets@[i as int]@ },
        ));
        assert(repair_views(out@) =~= before.push(
            RepairView::ReciprocalLinkAdded { task: stem@, field: field@, target: targets@[i as int]@ },
        ));
        i = i + 1;
    }
    assert(all.take(i as int) =~= all);
}

/// The repairs of a board whose tasks are `tasks`: every link that one
/// side lacks is added on that side, and when the order differs from
/// `reconciled` (the board order of the open tasks, as the board's own
/// reconciliation makes it), the order becomes `reconciled`.
pub fn task_board_repair_plan(board_order: &Vec<String>, tasks: &Vec<BoardTask>, reconciled: &Vec<String>) -> (r:
    TaskBoardRepairPlan)
    ensures
        ({
            let orig = task_views(tasks@);
            let rep = repaired_links(orig, orig.len());
            let order = strings_view(board_order@);
            let target = strings_view(reconciled@);
            &&& change_views(r.link_changes@) == task_links_of(changes_of_links(orig, rep, orig.len()))
            &&& repair_views(r.repairs@) == repairs_of_links(orig, rep, orig.len()) + (if order != target {
                order_repairs(order, target)
            } else {
                Seq::empty()
            })
            &&& match r.order_change {
                Some(o) => order != target && strings_view(o@) == target,
                None => order == target,
            }
        }),
        stems_distinct(task_views(tasks@)) ==> links_reciprocal(links_applied(task_views(tasks@), r.link_changes@)),
        stems_distinct(task_views(tasks@)) ==> forall|c: int|
            #![trigger r.link_changes@[c]]
            0 <= c < r.link_changes@.len() ==> exists|j: int|
                #![trigger task_views(tasks@)[j]]
                0 <= j < tasks@.len() && task_views(tasks@)[j].stem == r.link_changes@[c].stem@
                    && task_views(tasks@)[j].blocks.is_prefix_of(strings_view(r.link_changes@[c].blocks@))
                    && task_views(tasks@)[j].blocked_by.is_prefix_of(strings_view(r.link_changes@[c].blocked_by@)),
        stems_distinct(task_views(tasks@)) ==> forall|c: int|
            0 <= c < r.link_changes@.len() ==> has_link_repair(repair_views(r.repairs@), #[trigger] r.link_changes@[c].stem@),
{
    let ghost orig = task_views(tasks@);
    let mut repaired: Vec<BoardTask> = Vec::new();
    let mut k: usize = 0;
    while k < tasks.len()
        invariant
            k <= tasks@.len(),
            orig == task_views(tasks@),
            task_views(repaired@) == orig.take(k as int),
        decreases tasks.len() - k,
    {
        let ghost before = task_views(repaired@);
        repaired.push(tasks[k].duplicate());
        assert(task_views(repaired@) =~= before.push(orig[k as int]));
        assert(orig.take(k + 1) =~= orig.take(k as int).push(orig[k as int]));
        k = k + 1;
    }
    assert(orig.take(k as int) =~= orig);
    let mut n: usize = 0;
    while n < tasks.len()
        invariant
            n <= tasks@.len(),
            orig == task_views(tasks@),
            task_views(repaired@) == repaired_links(orig, n as nat),
        decreases tasks.len() - n,
    {
        let e = &tasks[n];
        reciprocate_exec(&mut repaired, &e.stem, &e.blocks, false);
        reciprocate_exec(&mut repaired, &e.stem, &e.blocked_by, true);
        n = n + 1;
    }
    let ghost rep = repaired_links(orig, orig.len());
    proof {
        lemma_repaired_shape(orig, orig.len());
    }
    let mut link_changes: Vec<LinkChange> = Vec::new();
    let mut repairs: Vec<ValidationRepair> = Vec::new();
    let mut j: usize = 0;
    while j < tasks.len()
        invariant
            j <= tasks@.len(),
            orig == task_views(tasks@),
            rep == repaired_links(orig, orig.len()),
            task_views(repaired@) == rep,
            rep.len() == orig.len(),
            change_views(link_changes@) == task_links_of(changes_of_links(orig, rep, j as nat)),
            repair_views(repairs@) == repairs_of_links(orig, rep, j as nat),
        decreases tasks.len() - j,
    {
        let o = &tasks[j];
        let p = &repaired[j];
        assert(o@ == orig[j as int] && p@ == rep[j as int]);
        let grew = !crate::final_review::strings_eq(&o.blocks, &p.blocks) || !crate::final_review::strings_eq(
            &o.blocked_by,
            &p.blocked_by,
        );
        if grew {
            let added_blocks = missing_from_exec(&p.blocks, &o.blocks);
            push_link_repairs(&mut repairs, &p.stem, "blocks", &added_blocks);
            let added_blocked_by = missing_from_exec(&p.blocked_by, &o.blocked_by);
            push_link_repairs(&mut repairs, &p.stem, "blocked_by", &added_blocked_by);
            let ghost before = change_views(link_changes@);
            link_changes.push(
                LinkChange {
                    stem: p.stem.clone(),
                    blocks: duplicate_strings(&p.blocks),
                    blocked_by: duplicate_strings(&p.blocked_by),
                },
            );
            assert(change_views(link_changes@) =~= before.push((p@.stem, p@.blocks, p@.blocked_by)));
            assert(task_links_of(changes_of_links(orig, rep, (j + 1) as nat)) =~= task_links_of(
                changes_of_links(orig, rep, j as nat),
            ).push((p@.stem, p@.blocks, p@.blocked_by)));
        }
        j = j + 1;
    }
    let reordered = !crate::final_review::strings_eq(board_order, reconciled);
    let ghost order = strings_view(board_order@);
    let ghost target = strings_view(reconciled@);
    let order_change = if reordered {
        let added = missing_from_exec(reconciled, board_order);
        let removed = missing_from_exec(board_order, reconciled);
        let ghost start = repair_views(repairs@);
        let mut i: usize = 0;
        while i < added.len()
            invariant
                i <= added@.len(),
                repair_views(repairs@) == start + strings_view(added@).take(i as int).map_values(
                    |x: Seq<char>| RepairView::BoardEntryAdded { task: x },
                ),
            decreases added.len() - i,
        {
            let ghost before = repair_views(repairs@);
            repairs.push(ValidationRepair::BoardEntryAdded { task: added[i].clone() });
            assert(repair_views(repairs@) =~= before.push(RepairView::BoardEntryAdded { task: added@[i as int]@ }));
            assert(strings_view(added@).take(i + 1) =~= strings_view(added@).take(i as int).push(added@[i as int]@));
            assert(strings_view(added@).take(i + 1).map_values(|x: Seq<char>| RepairView::BoardEntryAdded { task: x })
                =~= strings_view(added@).take(i as int).map_values(|x: Seq<char>| RepairView::BoardEntryAdded { task: x }).push(
                RepairView::BoardEntryAdded { task: added@[i as int]@ },
            ));
            assert(repair_views(repairs@) =~= start + strings_view(added@).take(i + 1).map_values(
                |x: Seq<char>| RepairView::BoardEntryAdded { task: x },
            ));
            i = i + 1;
        }
        assert(strings_view(added@).take(i as int) =~= strings_view(added@));
        let ghost middle = repair_views(repairs@);
        let mut i: usize = 0;
        while i < removed.len()
            invariant
                i <= removed@.len(),
                repair_views(repairs@) == middle + strings_view(removed@).take(i as int).map_values(
                    |x: Seq<char>| RepairView::BoardEntryRemoved { task: x },
                ),
            decreases removed.len() - i,
        {
            let ghost before = repair_views(repairs@);
            repairs.push(ValidationRepair::BoardEntryRemoved { task: removed[i].clone() });
            assert(repair_views(repairs@) =~= before.push(RepairView::BoardEntryRemoved { task: removed@[i as int]@ }));
            assert(strings_view(removed@).take(i + 1) =~= strings_view(removed@).take(i as int).push(removed@[i as int]@));
            assert(strings_view(removed@).take(i + 1).map_values(|x: Seq<char>| RepairView::BoardEntryRemoved { task: x })
                =~= strings_view(removed@).take(i as int).map_values(|x: Seq<char>| RepairView::BoardEntryRemoved { task: x }).push(
                RepairView::BoardEntryRemoved { task: removed@[i as int]@ },
            ));
            assert(repair_views(repairs@) =~= middle + strings_view(removed@).take(i + 1).map_values(
                |x: Seq<char>| RepairView::BoardEntryRemoved { task: x },
            ));
            i = i + 1;
        }
        assert(strings_view(removed@).take(i as int) =~= strings_view(removed@));
        assert(repair_views(repairs@) =~= repairs_of_links(orig, rep, orig.len()) + order_repairs(order, target));
        Some(duplicate_strings(reconciled))
    } else {
        assert(repair_views(repairs@) =~= repairs_of_links(orig, rep, orig.len()) + Seq::<RepairView>::empty());
        None
    };
    proof {
        if stems_distinct(orig) {
            lemma_repair_plan_links_reciprocal(orig, link_changes@);
            let links = repairs_of_links(orig, repaired_links(orig, orig.len()), orig.len());
            assert forall|c: int| 0 <= c < link_changes@.len() implies has_link_repair(
                repair_views(repairs@),
                #[trigger] link_changes@[c].stem@,
            ) by {
                assert(has_link_repair(links, link_changes@[c].stem@));
                let q = choose|q: int| #![trigger links[q]] 0 <= q < links.len() && (links[q] matches RepairView::ReciprocalLinkAdded { task, .. } && task == link_changes@[c].stem@);
                assert(repair_views(repairs@)[q] == links[q]);
            }
        }
    }
    TaskBoardRepairPlan { link_changes, order_change, repairs }
}


/// The stems of the open tasks, in stem order: what the board order of the
/// open tasks is reconciled from.
pub open spec fn open_task_stems(t: BoardTasks) -> Seq<Seq<char>>
    decreases t.len(),
{
    if t.len() == 0 {
        Seq::empty()
    } else {
        let rest = open_task_stems(t.drop_last());
        if crate::task_lifecycle::is_open_status(t.last().status) {
            rest.push(t.last().stem)
        } else {
            rest
        }
    }
}

/// The open tasks' stems.
pub fn open_stems(tasks: &Vec<BoardTask>) -> (r: Vec<String>)
    ensures
        strings_view(r@) == open_task_stems(task_views(tasks@)),
{
    let ghost all = task_views(tasks@);
    let mut out: Vec<String> = Vec::new();
    let mut i: usize = 0;
    while i < tasks.len()
        invariant
            i <= tasks@.len(),
            all == task_views(tasks@),
            strings_view(out@) == open_task_stems(all.take(i as int)),
        decreases tasks.len() - i,
    {
        assert(all.take(i + 1).drop_last() =~= all.take(i as int));
        assert(all.take(i + 1).last() == tasks@[i as int]@);
        let st = tasks[i].status.as_str();
        if str_eq(st, "backlog") || str_eq(st, "in-progress") {
            let ghost before = strings_view(out@);
            out.push(tasks[i].stem.clone());
            assert(strings_view(out@) =~= before.push(tasks@[i as int]@.stem));
        }
        i = i + 1;
    }
    assert(all.take(i as int) =~= all);
    out
}

/// Decides validation: nothing is recorded when there is nothing to repair;
/// else the repaired links and, when it changes, the reconciled order.
pub fn decide_validate_task_board(state: &ValidateTaskBoardState, reconciled: &Vec<String>) -> (r: Option<TaskFact>)
    ensures
        ({
            let orig = state@.tasks;
            let rep = repaired_links(orig, orig.len());
            let order = state@.board_order;
            let target = strings_view(reconciled@);
            let repairs = repairs_of_links(orig, rep, orig.len()) + (if order != target {
                order_repairs(order, target)
            } else {
                Seq::empty()
            });
            if repairs.len() == 0 {
                r is None
            } else {
                r matches Some(TaskFact::TaskValidationRepaired { link_changes, order_change })
                    && change_views(link_changes@) == task_links_of(changes_of_links(orig, rep, orig.len()))
                    && match order_change {
                    Some(o) => order != target && strings_view(o@) == target,
                    None => order == target,
                }
            }
        }),
{
    let plan = task_board_repair_plan(&state.board_order, &state.tasks.tasks, reconciled);
    if plan.repairs.len() == 0 {
        return None;
    }
    Some(TaskFact::TaskValidationRepaired { link_changes: plan.link_changes, order_change: plan.order_change })
}


// ---------------------------------------------------------------------------
// Laws

/// `u` has the tasks of `t`, each with every link it had.
pub open spec fn keeps_links(t: BoardTasks, u: BoardTasks) -> bool {
    &&& u.len() == t.len()
    &&& forall|j: int| 0 <= j < t.len() ==> (#[trigger] u[j]).stem == t[j].stem
    &&& forall|j: int, x: Seq<char>| 0 <= j < t.len() && #[trigger] t[j].blocks.contains(x) ==> u[j].blocks.contains(x)
    &&& forall|j: int, x: Seq<char>| 0 <= j < t.len() && #[trigger] t[j].blocked_by.contains(x) ==> u[j].blocked_by.contains(x)
}

/// The list of `e` that `add_link` extends.
pub open spec fn side_of(e: BoardTaskView, on_blocks: bool) -> Seq<Seq<char>> {
    if on_blocks {
        e.blocks
    } else {
        e.blocked_by
    }
}

proof fn lemma_push_contains(s: Seq<Seq<char>>, x: Seq<char>, y: Seq<char>)
    ensures
        s.contains(y) ==> s.push(x).contains(y),
        s.push(x).contains(x),
{
    if s.contains(y) {
        let i = choose|i: int| 0 <= i < s.len() && s[i] == y;
        assert(s.push(x)[i] == y);
    }
    assert(s.push(x)[s.len() as int] == x);
}

proof fn lemma_add_link_keeps(t: BoardTasks, key: Seq<char>, x: Seq<char>, on_blocks: bool)
    ensures
        keeps_links(t, add_link(t, key, x, on_blocks)),
        forall|j: int| 0 <= j < t.len() && t[j].stem == key ==> side_of(#[trigger] add_link(t, key, x, on_blocks)[j], on_blocks).contains(x),
{
    let u = add_link(t, key, x, on_blocks);
    assert forall|j: int, y: Seq<char>| 0 <= j < t.len() && #[trigger] t[j].blocks.contains(y) implies u[j].blocks.contains(y) by {
        lemma_push_contains(t[j].blocks, x, y);
    }
    assert forall|j: int, y: Seq<char>| 0 <= j < t.len() && #[trigger] t[j].blocked_by.contains(y) implies u[j].blocked_by.contains(y) by {
        lemma_push_contains(t[j].blocked_by, x, y);
    }
    assert forall|j: int| 0 <= j < t.len() && t[j].stem == key implies side_of(#[trigger] u[j], on_blocks).contains(x) by {
        lemma_push_contains(t[j].blocks, x, x);
        lemma_push_contains(t[j].blocked_by, x, x);
    }
}

proof fn lemma_keeps_trans(a: BoardTasks, b: BoardTasks, c: BoardTasks)
    requires
        keeps_links(a, b),
        keeps_links(b, c),
    ensures
        keeps_links(a, c),
{
    assert forall|j: int, x: Seq<char>| 0 <= j < a.len() && #[trigger] a[j].blocks.contains(x) implies c[j].blocks.contains(x) by {
        assert(b[j].blocks.contains(x));
    }
    assert forall|j: int, x: Seq<char>| 0 <= j < a.len() && #[trigger] a[j].blocked_by.contains(x) implies c[j].blocked_by.contains(x) by {
        assert(b[j].blocked_by.contains(x));
    }
}

proof fn lemma_reciprocate_links(t: BoardTasks, stem: Seq<char>, targets: Seq<Seq<char>>, on_blocks: bool)
    ensures
        keeps_links(t, reciprocate(t, stem, targets, on_blocks)),
        forall|j: int| 0 <= j < t.len() && targets.contains(t[j].stem) ==> side_of(
            #[trigger] reciprocate(t, stem, targets, on_blocks)[j],
            on_blocks,
        ).contains(stem),
    decreases targets.len(),
{
    let r = reciprocate(t, stem, targets, on_blocks);
    if targets.len() == 0 {
        assert(keeps_links(t, r));
    } else {
        let prefix = targets.drop_last();
        let p = reciprocate(t, stem, prefix, on_blocks);
        lemma_reciprocate_links(t, stem, prefix, on_blocks);
        lemma_add_link_keeps(p, targets.last(), stem, on_blocks);
        lemma_keeps_trans(t, p, r);
        assert forall|j: int| 0 <= j < t.len() && targets.contains(t[j].stem) implies side_of(#[trigger] r[j], on_blocks).contains(stem) by {
            let k = choose|k: int| 0 <= k < targets.len() && targets[k] == t[j].stem;
            if k < targets.len() - 1 {
                assert(prefix[k] == t[j].stem);
                assert(side_of(p[j], on_blocks).contains(stem));
                if on_blocks {
                    assert(p[j].blocks.contains(stem));
                } else {
                    assert(p[j].blocked_by.contains(stem));
                }
            } else {
                assert(p[j].stem == t[j].stem);
            }
        }
    }
}

proof fn lemma_repaired_links_reciprocal(orig: BoardTasks, n: nat)
    requires
        n <= orig.len(),
    ensures
        keeps_links(orig, repaired_links(orig, n)),
        forall|i: int, j: int|
            0 <= i < n && 0 <= j < orig.len() && #[trigger] orig[i].blocks.contains(#[trigger] orig[j].stem)
                ==> repaired_links(orig, n)[j].blocked_by.contains(orig[i].stem),
        forall|i: int, j: int|
            0 <= i < n && 0 <= j < orig.len() && #[trigger] orig[i].blocked_by.contains(#[trigger] orig[j].stem)
                ==> repaired_links(orig, n)[j].blocks.contains(orig[i].stem),
    decreases n,
{
    let r = repaired_links(orig, n);
    if n == 0 {
        assert(keeps_links(orig, r));
    } else {
        let e = orig[n - 1];
        let p = repaired_links(orig, (n - 1) as nat);
        let q = reciprocate(p, e.stem, e.blocks, false);
        lemma_repaired_links_reciprocal(orig, (n - 1) as nat);
        lemma_reciprocate_links(p, e.stem, e.blocks, false);
        lemma_reciprocate_links(q, e.stem, e.blocked_by, true);
        lemma_keeps_trans(orig, p, q);
        lemma_keeps_trans(orig, q, r);
        lemma_keeps_trans(p, q, r);
        assert forall|i: int, j: int|
            0 <= i < n && 0 <= j < orig.len() && #[trigger] orig[i].blocks.contains(#[trigger] orig[j].stem)
                implies r[j].blocked_by.contains(orig[i].stem) by {
            if i < n - 1 {
                assert(p[j].blocked_by.contains(orig[i].stem));
            } else {
                assert(p[j].stem == orig[j].stem);
                assert(side_of(q[j], false).contains(e.stem));
                assert(q[j].blocked_by.contains(e.stem));
            }
        }
        assert forall|i: int, j: int|
            0 <= i < n && 0 <= j < orig.len() && #[trigger] orig[i].blocked_by.contains(#[trigger] orig[j].stem)
                implies r[j].blocks.contains(orig[i].stem) by {
            if i < n - 1 {
                assert(p[j].blocks.contains(orig[i].stem));
                assert(q[j].blocks.contains(orig[i].stem));
            } else {
                assert(q[j].stem == orig[j].stem);
            }
        }
    }
}

/// Validation's repaired links keep every link the board had, and give
/// every link its reciprocal: when a task blocks another, the other lists
/// it as blocked by it, and the other way round.
pub proof fn lemma_repair_reciprocates_links(orig: BoardTasks, i: int, j: int)
    requires
        0 <= i < orig.len(),
        0 <= j < orig.len(),
    ensures
        keeps_links(orig, repaired_links(orig, orig.len())),
        orig[i].blocks.contains(orig[j].stem) ==> repaired_links(orig, orig.len())[j].blocked_by.contains(orig[i].stem),
        orig[i].blocked_by.contains(orig[j].stem) ==> repaired_links(orig, orig.len())[j].blocks.contains(orig[i].stem),
{
    lemma_repaired_links_reciprocal(orig, orig.len());
}

/// Every link between two tasks of `t` has its reciprocal: when one task
/// blocks another, the other lists it as blocked by it, and the other way
/// round.
pub open spec fn links_reciprocal(t: BoardTasks) -> bool {
    &&& forall|i: int, j: int|
        0 <= i < t.len() && 0 <= j < t.len() && #[trigger] t[i].blocks.contains(#[trigger] t[j].stem)
            ==> t[j].blocked_by.contains(t[i].stem)
    &&& forall|i: int, j: int|
        0 <= i < t.len() && 0 <= j < t.len() && #[trigger] t[i].blocked_by.contains(#[trigger] t[j].stem)
            ==> t[j].blocks.contains(t[i].stem)
}

/// No two tasks share a stem, as with tasks kept by stem.
pub open spec fn stems_distinct(t: BoardTasks) -> bool {
    forall|i: int, j: int| 0 <= i < t.len() && 0 <= j < t.len() && i != j ==> #[trigger] t[i].stem != #[trigger] t[j].stem
}

/// Entry `x` on side `on_blocks` of task `i` is the stem of a task that
/// lists task `i` on the other side.
pub open spec fn link_explained(orig: BoardTasks, i: int, x: Seq<char>, on_blocks: bool) -> bool {
    exists|k: int| #![trigger orig[k]] 0 <= k < orig.len() && orig[k].stem == x && side_of(orig[k], !on_blocks).contains(orig[i].stem)
}

/// `u` has the tasks of `orig` in the same places; each list starts with
/// the original entries, and each entry after them is new and explained by
/// a link the other way.
pub open spec fn grown_from(orig: BoardTasks, u: BoardTasks) -> bool {
    &&& u.len() == orig.len()
    &&& forall|j: int| 0 <= j < orig.len() ==> (#[trigger] u[j]).stem == orig[j].stem
    &&& forall|j: int, b: bool| 0 <= j < orig.len() ==> side_of(orig[j], b).is_prefix_of(#[trigger] side_of(u[j], b))
    &&& forall|j: int, b: bool, q: int|
        0 <= j < orig.len() && side_of(orig[j], b).len() <= q < side_of(u[j], b).len() ==> !side_of(orig[j], b).contains(
            #[trigger] side_of(u[j], b)[q],
        ) && link_explained(orig, j, side_of(u[j], b)[q], b)
}

proof fn lemma_prefix_push(a: Seq<Seq<char>>, s: Seq<Seq<char>>, x: Seq<char>)
    requires
        a.is_prefix_of(s),
    ensures
        a.is_prefix_of(s.push(x)),
{
    assert(s.push(x).subrange(0, a.len() as int) =~= s.subrange(0, a.len() as int));
}

proof fn lemma_add_link_grown(orig: BoardTasks, u: BoardTasks, key: Seq<char>, x: Seq<char>, on_blocks: bool, k: int)
    requires
        grown_from(orig, u),
        0 <= k < orig.len(),
        orig[k].stem == x,
        side_of(orig[k], !on_blocks).contains(key),
    ensures
        grown_from(orig, add_link(u, key, x, on_blocks)),
{
    let v = add_link(u, key, x, on_blocks);
    assert forall|j: int| 0 <= j < orig.len() implies (#[trigger] v[j]).stem == orig[j].stem by {
        assert(u[j].stem == orig[j].stem);
    }
    assert forall|j: int, b: bool| 0 <= j < orig.len() implies side_of(orig[j], b).is_prefix_of(
        #[trigger] side_of(v[j], b),
    ) by {
        let s = side_of(u[j], b);
        assert(side_of(orig[j], b).is_prefix_of(s));
        if u[j].stem == key && b == on_blocks && !s.contains(x) {
            lemma_prefix_push(side_of(orig[j], b), s, x);
            assert(side_of(v[j], b) == s.push(x));
        } else {
            assert(side_of(v[j], b) == s);
        }
    }
    assert forall|j: int, b: bool, q: int|
        0 <= j < orig.len() && side_of(orig[j], b).len() <= q < side_of(v[j], b).len() implies !side_of(
            orig[j],
            b,
        ).contains(#[trigger] side_of(v[j], b)[q]) && link_explained(orig, j, side_of(v[j], b)[q], b) by {
        let s = side_of(u[j], b);
        let o = side_of(orig[j], b);
        assert(o.is_prefix_of(s));
        if u[j].stem == key && b == on_blocks && !s.contains(x) {
            assert(side_of(v[j], b) == s.push(x));
            if q < s.len() {
                assert(side_of(v[j], b)[q] == s[q]);
                assert(side_of(u[j], b)[q] == s[q]);
            } else {
                assert(side_of(v[j], b)[q] == x);
                if o.contains(x) {
                    let p = choose|p: int| 0 <= p < o.len() && o[p] == x;
                    assert(s.subrange(0, o.len() as int)[p] == s[p]);
                    assert(s[p] == x);
                }
                assert(u[j].stem == orig[j].stem);
                assert(side_of(orig[k], !b).contains(orig[j].stem));
            }
        } else {
            assert(side_of(v[j], b) == s);
        }
    }
}

proof fn lemma_reciprocate_grown(
    orig: BoardTasks,
    u: BoardTasks,
    stem: Seq<char>,
    targets: Seq<Seq<char>>,
    on_blocks: bool,
    k: int,
)
    requires
        grown_from(orig, u),
        0 <= k < orig.len(),
        orig[k].stem == stem,
        forall|q: int| 0 <= q < targets.len() ==> side_of(orig[k], !on_blocks).contains(#[trigger] targets[q]),
    ensures
        grown_from(orig, reciprocate(u, stem, targets, on_blocks)),
    decreases targets.len(),
{
    if targets.len() > 0 {
        let prefix = targets.drop_last();
        assert forall|q: int| 0 <= q < prefix.len() implies side_of(orig[k], !on_blocks).contains(#[trigger] prefix[q]) by {
            assert(prefix[q] == targets[q]);
        }
        lemma_reciprocate_grown(orig, u, stem, prefix, on_blocks, k);
        assert(side_of(orig[k], !on_blocks).contains(targets[targets.len() - 1]));
        lemma_add_link_grown(orig, reciprocate(u, stem, prefix, on_blocks), targets.last(), stem, on_blocks, k);
    }
}

proof fn lemma_repaired_grown(orig: BoardTasks, n: nat)
    requires
        n <= orig.len(),
    ensures
        grown_from(orig, repaired_links(orig, n)),
    decreases n,
{
    if n == 0 {
        assert forall|j: int, b: bool| 0 <= j < orig.len() implies side_of(orig[j], b).is_prefix_of(
            #[trigger] side_of(orig[j], b),
        ) by {
            assert(side_of(orig[j], b).subrange(0, side_of(orig[j], b).len() as int) =~= side_of(orig[j], b));
        }
    } else {
        let e = orig[n - 1];
        let p = repaired_links(orig, (n - 1) as nat);
        lemma_repaired_grown(orig, (n - 1) as nat);
        assert forall|q: int| 0 <= q < e.blocks.len() implies side_of(orig[n - 1], !false).contains(#[trigger] e.blocks[q]) by {
            assert(side_of(orig[n - 1], true)[q] == e.blocks[q]);
        }
        lemma_reciprocate_grown(orig, p, e.stem, e.blocks, false, n - 1);
        let pq = reciprocate(p, e.stem, e.blocks, false);
        assert forall|q: int| 0 <= q < e.blocked_by.len() implies side_of(orig[n - 1], !true).contains(
            #[trigger] e.blocked_by[q],
        ) by {
            assert(side_of(orig[n - 1], false)[q] == e.blocked_by[q]);
        }
        lemma_reciprocate_grown(orig, pq, e.stem, e.blocked_by, true, n - 1);
    }
}

proof fn lemma_repaired_reciprocal(orig: BoardTasks)
    requires
        stems_distinct(orig),
    ensures
        links_reciprocal(repaired_links(orig, orig.len())),
        grown_from(orig, repaired_links(orig, orig.len())),
{
    let rep = repaired_links(orig, orig.len());
    lemma_repaired_grown(orig, orig.len());
    lemma_repaired_links_reciprocal(orig, orig.len());
    assert forall|i: int, j: int|
        0 <= i < rep.len() && 0 <= j < rep.len() && #[trigger] rep[i].blocks.contains(#[trigger] rep[j].stem) implies rep[j].blocked_by.contains(
        rep[i].stem,
    ) by {
        let s = side_of(rep[i], true);
        let o = side_of(orig[i], true);
        let x = rep[j].stem;
        assert(rep[j].stem == orig[j].stem && rep[i].stem == orig[i].stem);
        let p = choose|p: int| 0 <= p < s.len() && s[p] == x;
        assert(o.is_prefix_of(s));
        if p < o.len() {
            assert(s.subrange(0, o.len() as int)[p] == s[p]);
            assert(orig[i].blocks[p] == orig[j].stem);
            assert(orig[i].blocks.contains(orig[j].stem));
        } else {
            assert(link_explained(orig, i, side_of(rep[i], true)[p], true));
            let k = choose|k: int| #![trigger orig[k]] 0 <= k < orig.len() && orig[k].stem == x && side_of(orig[k], !true).contains(orig[i].stem);
            assert(k == j);
            assert(orig[j].blocked_by.contains(orig[i].stem));
        }
    }
    assert forall|i: int, j: int|
        0 <= i < rep.len() && 0 <= j < rep.len() && #[trigger] rep[i].blocked_by.contains(#[trigger] rep[j].stem) implies rep[j].blocks.contains(
        rep[i].stem,
    ) by {
        let s = side_of(rep[i], false);
        let o = side_of(orig[i], false);
        let x = rep[j].stem;
        assert(rep[j].stem == orig[j].stem && rep[i].stem == orig[i].stem);
        let p = choose|p: int| 0 <= p < s.len() && s[p] == x;
        assert(o.is_prefix_of(s));
        if p < o.len() {
            assert(s.subrange(0, o.len() as int)[p] == s[p]);
            assert(orig[i].blocked_by[p] == orig[j].stem);
            assert(orig[i].blocked_by.contains(orig[j].stem));
        } else {
            assert(link_explained(orig, i, side_of(rep[i], false)[p], false));
            let k = choose|k: int| #![trigger orig[k]] 0 <= k < orig.len() && orig[k].stem == x && side_of(orig[k], !false).contains(orig[i].stem);
            assert(k == j);
            assert(orig[j].blocks.contains(orig[i].stem));
        }
    }
}

/// Link changes, by view, applied in turn.
pub open spec fn links_applied_views(t: BoardTasks, cs: Seq<(Seq<char>, Seq<Seq<char>>, Seq<Seq<char>>)>) -> BoardTasks
    decreases cs.len(),
{
    if cs.len() == 0 {
        t
    } else {
        let c = cs.last();
        with_task_links(links_applied_views(t, cs.drop_last()), c.0, c.1, c.2)
    }
}

proof fn lemma_links_applied_views(t: BoardTasks, changes: Seq<LinkChange>)
    ensures
        links_applied(t, changes) == links_applied_views(t, change_views(changes)),
    decreases changes.len(),
{
    if changes.len() > 0 {
        assert(change_views(changes.drop_last()) =~= change_views(changes).drop_last());
        lemma_links_applied_views(t, changes.drop_last());
    }
}

proof fn lemma_changes_apply(orig: BoardTasks, rep: BoardTasks, n: nat)
    requires
        stems_distinct(orig),
        grown_from(orig, rep),
        n <= orig.len(),
    ensures
        ({
            let a = links_applied_views(orig, task_links_of(changes_of_links(orig, rep, n)));
            &&& a.len() == orig.len()
            &&& forall|j: int| 0 <= j < orig.len() ==> (#[trigger] a[j]).stem == orig[j].stem
            &&& forall|j: int| 0 <= j < n ==> (#[trigger] a[j]).blocks == rep[j].blocks && a[j].blocked_by == rep[j].blocked_by
            &&& forall|j: int| n <= j < orig.len() ==> (#[trigger] a[j]).blocks == orig[j].blocks && a[j].blocked_by == orig[j].blocked_by
        }),
    decreases n,
{
    if n > 0 {
        let m = (n - 1) as nat;
        lemma_changes_apply(orig, rep, m);
        let prev = links_applied_views(orig, task_links_of(changes_of_links(orig, rep, m)));
        let j0 = n - 1;
        let cs = task_links_of(changes_of_links(orig, rep, n));
        let a = links_applied_views(orig, cs);
        assert(rep[j0].stem == orig[j0].stem);
        assert(side_of(rep[j0], true) == rep[j0].blocks && side_of(rep[j0], false) == rep[j0].blocked_by);
        if links_grew(orig, rep, j0) {
            let c = (rep[j0].stem, rep[j0].blocks, rep[j0].blocked_by);
            assert(cs =~= task_links_of(changes_of_links(orig, rep, m)).push(c));
            assert(cs.drop_last() =~= task_links_of(changes_of_links(orig, rep, m)));
            assert(a == with_task_links(prev, c.0, c.1, c.2));
            assert forall|j: int| 0 <= j < orig.len() && j != j0 implies (#[trigger] a[j]) == prev[j] by {
                assert(orig[j].stem != orig[j0].stem);
            }
        } else {
            assert(cs =~= task_links_of(changes_of_links(orig, rep, m)));
        }
    }
}

/// Which task a link change is for.
spec fn change_source(orig: BoardTasks, rep: BoardTasks, n: nat, c: int) -> bool {
    exists|j: int| #![trigger rep[j]] 0 <= j < n && changes_of_links(orig, rep, n)[c] == rep[j] && links_grew(orig, rep, j)
}

proof fn lemma_changes_from_tasks(orig: BoardTasks, rep: BoardTasks, n: nat)
    ensures
        forall|c: int| 0 <= c < changes_of_links(orig, rep, n).len() ==> #[trigger] change_source(orig, rep, n, c),
    decreases n,
{
    if n > 0 {
        let m = (n - 1) as nat;
        lemma_changes_from_tasks(orig, rep, m);
        let prev = changes_of_links(orig, rep, m);
        let cur = changes_of_links(orig, rep, n);
        assert forall|c: int| 0 <= c < cur.len() implies #[trigger] change_source(orig, rep, n, c) by {
            if links_grew(orig, rep, n - 1) {
                assert(cur == prev.push(rep[n - 1]));
            } else {
                assert(cur == prev);
            }
            if c < prev.len() {
                assert(change_source(orig, rep, m, c));
                let j = choose|j: int| #![trigger rep[j]] 0 <= j < m && prev[c] == rep[j] && links_grew(orig, rep, j);
                assert(cur[c] == prev[c]);
                assert(cur[c] == rep[j]);
            } else {
                let j = n - 1;
                assert(cur[c] == rep[j]);
                assert(links_grew(orig, rep, j));
            }
        }
    }
}

/// Some repair in `rs` adds a reciprocal link to task `stem`.
pub open spec fn has_link_repair(rs: Seq<RepairView>, stem: Seq<char>) -> bool {
    exists|q: int| #![trigger rs[q]] 0 <= q < rs.len() && (rs[q] matches RepairView::ReciprocalLinkAdded { task, .. } && task == stem)
}

proof fn lemma_missing_nonempty(a: Seq<Seq<char>>, b: Seq<Seq<char>>, q: int)
    requires
        0 <= q < a.len(),
        !b.contains(a[q]),
    ensures
        missing_from(a, b).len() > 0,
    decreases a.len(),
{
    if q < a.len() - 1 {
        assert(a.drop_last()[q] == a[q]);
        lemma_missing_nonempty(a.drop_last(), b, q);
    }
}

proof fn lemma_grown_task_repaired(orig: BoardTasks, rep: BoardTasks, j: int)
    requires
        grown_from(orig, rep),
        0 <= j < orig.len(),
        links_grew(orig, rep, j),
    ensures
        missing_from(rep[j].blocks, orig[j].blocks).len() > 0 || missing_from(rep[j].blocked_by, orig[j].blocked_by).len()
            > 0,
{
    assert(side_of(rep[j], true) == rep[j].blocks && side_of(orig[j], true) == orig[j].blocks);
    assert(side_of(rep[j], false) == rep[j].blocked_by && side_of(orig[j], false) == orig[j].blocked_by);
    assert(orig[j].blocks.is_prefix_of(rep[j].blocks));
    assert(orig[j].blocked_by.is_prefix_of(rep[j].blocked_by));
    if rep[j].blocks != orig[j].blocks {
        if rep[j].blocks.len() == orig[j].blocks.len() {
            assert(rep[j].blocks =~= rep[j].blocks.subrange(0, orig[j].blocks.len() as int));
        }
        let q = orig[j].blocks.len() as int;
        assert(!side_of(orig[j], true).contains(side_of(rep[j], true)[q]));
        lemma_missing_nonempty(rep[j].blocks, orig[j].blocks, q);
    } else {
        if rep[j].blocked_by.len() == orig[j].blocked_by.len() {
            assert(rep[j].blocked_by =~= rep[j].blocked_by.subrange(0, orig[j].blocked_by.len() as int));
        }
        let q = orig[j].blocked_by.len() as int;
        assert(!side_of(orig[j], false).contains(side_of(rep[j], false)[q]));
        lemma_missing_nonempty(rep[j].blocked_by, orig[j].blocked_by, q);
    }
}

proof fn lemma_link_repairs_present(orig: BoardTasks, rep: BoardTasks, n: nat)
    requires
        grown_from(orig, rep),
        n <= orig.len(),
    ensures
        forall|j: int| 0 <= j < n && links_grew(orig, rep, j) ==> has_link_repair(repairs_of_links(orig, rep, n), #[trigger] rep[j].stem),
    decreases n,
{
    if n > 0 {
        let m = (n - 1) as nat;
        lemma_link_repairs_present(orig, rep, m);
        let prev = repairs_of_links(orig, rep, m);
        let cur = repairs_of_links(orig, rep, n);
        let k = n - 1;
        if links_grew(orig, rep, k) {
            let l1 = link_repairs(rep[k].stem, "blocks"@, missing_from(rep[k].blocks, orig[k].blocks));
            let l2 = link_repairs(rep[k].stem, "blocked_by"@, missing_from(rep[k].blocked_by, orig[k].blocked_by));
            assert(cur == prev + l1 + l2);
            lemma_grown_task_repaired(orig, rep, k);
            if l1.len() > 0 {
                assert(cur[prev.len() as int] == l1[0]);
            } else {
                assert(cur[prev.len() as int] == l2[0]);
            }
            assert(has_link_repair(cur, rep[k].stem));
        } else {
            assert(cur == prev);
        }
        assert forall|j: int| 0 <= j < n && links_grew(orig, rep, j) implies has_link_repair(cur, #[trigger] rep[j].stem) by {
            if j < k {
                assert(has_link_repair(prev, rep[j].stem));
                let q = choose|q: int| #![trigger prev[q]] 0 <= q < prev.len() && (prev[q] matches RepairView::ReciprocalLinkAdded { task, .. } && task == rep[j].stem);
                assert(cur[q] == prev[q]);
            }
        }
    }
}

/// Once the link changes of validation's repair plan are applied to the
/// tasks, every link between two tasks has its reciprocal; and each change
/// is for a task of the board, keeping the lists that task had and only
/// appending to them.
pub proof fn lemma_repair_plan_links_reciprocal(orig: BoardTasks, changes: Seq<LinkChange>)
    requires
        stems_distinct(orig),
        change_views(changes) == task_links_of(changes_of_links(orig, repaired_links(orig, orig.len()), orig.len())),
    ensures
        links_reciprocal(links_applied(orig, changes)),
        forall|c: int|
            #![trigger changes[c]]
            0 <= c < changes.len() ==> exists|j: int|
                #![trigger orig[j]]
                0 <= j < orig.len() && orig[j].stem == changes[c].stem@ && orig[j].blocks.is_prefix_of(
                    strings_view(changes[c].blocks@),
                ) && orig[j].blocked_by.is_prefix_of(strings_view(changes[c].blocked_by@)),
        forall|c: int|
            0 <= c < changes.len() ==> has_link_repair(
                repairs_of_links(orig, repaired_links(orig, orig.len()), orig.len()),
                #[trigger] changes[c].stem@,
            ),
{
    let rep = repaired_links(orig, orig.len());
    lemma_repaired_reciprocal(orig);
    lemma_link_repairs_present(orig, rep, orig.len());
    lemma_changes_apply(orig, rep, orig.len());
    lemma_links_applied_views(orig, changes);
    let a = links_applied(orig, changes);
    assert(a == links_applied_views(orig, task_links_of(changes_of_links(orig, rep, orig.len()))));
    assert forall|j: int| 0 <= j < a.len() implies (#[trigger] a[j]).stem == rep[j].stem && a[j].blocks == rep[j].blocks
        && a[j].blocked_by == rep[j].blocked_by by {
        assert(rep[j].stem == orig[j].stem);
    }
    assert forall|i: int, j: int|
        0 <= i < a.len() && 0 <= j < a.len() && #[trigger] a[i].blocks.contains(#[trigger] a[j].stem) implies a[j].blocked_by.contains(
        a[i].stem,
    ) by {
        assert(rep[i].blocks.contains(rep[j].stem));
    }
    assert forall|i: int, j: int|
        0 <= i < a.len() && 0 <= j < a.len() && #[trigger] a[i].blocked_by.contains(#[trigger] a[j].stem) implies a[j].blocks.contains(
        a[i].stem,
    ) by {
        assert(rep[i].blocked_by.contains(rep[j].stem));
    }
    lemma_changes_from_tasks(orig, rep, orig.len());
    let ch = changes_of_links(orig, rep, orig.len());
    assert forall|c: int| #![trigger changes[c]] 0 <= c < changes.len() implies exists|j: int|
        #![trigger orig[j]]
        0 <= j < orig.len() && orig[j].stem == changes[c].stem@ && orig[j].blocks.is_prefix_of(
            strings_view(changes[c].blocks@),
        ) && orig[j].blocked_by.is_prefix_of(strings_view(changes[c].blocked_by@)) by {
        assert(change_views(changes)[c] == task_links_of(ch)[c]);
        assert(change_source(orig, rep, orig.len(), c));
        let j = choose|j: int| #![trigger rep[j]] 0 <= j < orig.len() && ch[c] == rep[j] && links_grew(orig, rep, j);
        assert(side_of(rep[j], true) == rep[j].blocks && side_of(orig[j], true) == orig[j].blocks);
        assert(side_of(rep[j], false) == rep[j].blocked_by && side_of(orig[j], false) == orig[j].blocked_by);
        assert(side_of(orig[j], true).is_prefix_of(side_of(rep[j], true)));
        assert(side_of(orig[j], false).is_prefix_of(side_of(rep[j], false)));
        assert(orig[j].stem == rep[j].stem);
    }
    assert forall|c: int| 0 <= c < changes.len() implies has_link_repair(
        repairs_of_links(orig, rep, orig.len()),
        #[trigger] changes[c].stem@,
    ) by {
        assert(change_views(changes)[c] == task_links_of(ch)[c]);
        assert(change_source(orig, rep, orig.len(), c));
        let j = choose|j: int| #![trigger rep[j]] 0 <= j < orig.len() && ch[c] == rep[j] && links_grew(orig, rep, j);
        assert(has_link_repair(repairs_of_links(orig, rep, orig.len()), rep[j].stem));
    }
}

} // verus!
