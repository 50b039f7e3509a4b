//! Linking and unlinking two tasks: `from` blocks `to`. Each side keeps its
//! own lists, `blocks` on the source and `blocked_by` on the target.
use vstd::prelude::*;
use crate::ci_types::{duplicate_strings, strings_view};
use crate::graph::{contains_name, names, Node};
use crate::task_commands::{remove_name, BOARD_STREAM};
use crate::task_lifecycle::{lemma_names_contains, seq_without, without_name, BoardCommandError};
use crate::task_projection::{LinkChange, TaskFact};
use crate::text::str_eq;

verus! {

/// A task's links: what it blocks, and what blocks it.
pub type LinksView = (Seq<Seq<char>>, Seq<Seq<char>>);

/// What the link commands fold: the board order and members, and each
/// endpoint's links once it is known.
#[derive(Debug, Default)]
pub struct TaskLinkState {
    pub board_order: Vec<String>,
    pub board_task_stems: Vec<String>,
    pub source_links: Option<(Vec<String>, Vec<String>)>,
    pub target_links: Option<(Vec<String>, Vec<String>)>,
}

pub struct TaskLinkView {
    pub board_order: Seq<Seq<char>>,
    pub board_task_stems: Set<Node>,
    pub source_links: Option<LinksView>,
    pub target_links: Option<LinksView>,
}

pub open spec fn links_view(o: Option<(Vec<String>, Vec<String>)>) -> Option<LinksView> {
    match o {
        Some(l) => Some((strings_view(l.0@), strings_view(l.1@))),
        None => None,
    }
}

impl View for TaskLinkState {
    type V = TaskLinkView;

    open spec fn view(&self) -> TaskLinkView {
        TaskLinkView {
            board_order: strings_view(self.board_order@),
            board_task_stems: names(self.board_task_stems@),
            source_links: links_view(self.source_links),
            target_links: links_view(self.target_links),
        }
    }
}

/// The link state of `from` and `to` after one fact.
pub open spec fn link_state_step(s: TaskLinkView, from: Seq<char>, to: Seq<char>, f: TaskFact) -> TaskLinkView {
    match f {
        TaskFact::TaskCreated { stream_id, task } => {
            let links = (strings_view(task.blocks@), strings_view(task.blocked_by@));
            TaskLinkView {
                board_task_stems: if stream_id@ == BOARD_STREAM@ {
                    s.board_task_stems.insert(task.stem@)
                } else {
                    s.board_task_stems
                },
                source_links: if task.stem@ == from {
                    Some(links)
                } else {
                    s.source_links
                },
                target_links: if task.stem@ == to {
                    Some(links)
                } else {
                    s.target_links
                },
                ..s
            }
        },
        TaskFact::TaskLinksChanged { change } => {
            let links = (strings_view(change.blocks@), strings_view(change.blocked_by@));
            TaskLinkView {
                source_links: if change.stem@ == from {
                    Some(links)
                } else {
                    s.source_links
                },
                target_links: if change.stem@ == to {
                    Some(links)
                } else {
                    s.target_links
                },
                ..s
            }
        },
        TaskFact::LegacyTaskRemoved { stem } => TaskLinkView {
            source_links: if stem@ == from {
                None
            } else {
                s.source_links
            },
            target_links: if stem@ == to {
                None
            } else {
                s.target_links
            },
            board_task_stems: s.board_task_stems.remove(stem@),
            ..s
        },
        TaskFact::TaskPriorityChanged { order } => TaskLinkView { board_order: strings_view(order@), ..s },
        TaskFact::BoardReordered { order } => TaskLinkView { board_order: strings_view(order@), ..s },
        _ => s,
    }
}

fn duplicate_links(blocks: &Vec<String>, blocked_by: &Vec<String>) -> (r: (Vec<String>, Vec<String>))
    ensures
        strings_view(r.0@) == strings_view(blocks@),
        strings_view(r.1@) == strings_view(blocked_by@),
{
    (duplicate_strings(blocks), duplicate_strings(blocked_by))
}

/// Folds one fact into the link state of `from` and `to`.
pub fn evolve_task_links(state: TaskLinkState, from: &String, to: &String, f: &TaskFact) -> (r: TaskLinkState)
    ensures
        r@ == link_state_step(state@, from@, to@, *f),
{
    let TaskLinkState { board_order, board_task_stems, source_links, target_links } = state;
    let mut board_order = board_order;
    let mut board_task_stems = board_task_stems;
    let mut source_links = source_links;
    let mut target_links = target_links;
    match f {
        TaskFact::TaskCreated { stream_id, task } => {
            if str_eq(stream_id.as_str(), BOARD_STREAM) {
                crate::tickets::insert_name(&mut board_task_stems, &task.stem);
            }
            if str_eq(task.stem.as_str(), from.as_str()) {
                source_links = Some(duplicate_links(&task.blocks, &task.blocked_by));
            }
            if str_eq(task.stem.as_str(), to.as_str()) {
                target_links = Some(duplicate_links(&task.blocks, &task.blocked_by));
            }
        },
        TaskFact::TaskLinksChanged { change } => {
            if str_eq(change.stem.as_str(), from.as_str()) {
                source_links = Some(duplicate_links(&change.blocks, &change.blocked_by));
            }
            if str_eq(change.stem.as_str(), to.as_str()) {
                target_links = Some(duplicate_links(&change.blocks, &change.blocked_by));
            }
        },
        TaskFact::LegacyTaskRemoved { stem } => {
            if str_eq(stem.as_str(), from.as_str()) {
                source_links = None;
            }
            if str_eq(stem.as_str(), to.as_str()) {
                target_links = None;
            }
            remove_name(&mut board_task_stems, stem);
        },
        TaskFact::TaskPriorityChanged { order } => {
            board_order = duplicate_strings(order);
        },
        TaskFact::BoardReordered { order } => {
            board_order = duplicate_strings(order);
        },
        _ => {},
    }
    TaskLinkState { board_order, board_task_stems, source_links, target_links }
}

/// `s` with `x` appended unless it holds it already.
pub open spec fn add_once(s: Seq<Seq<char>>, x: Seq<char>) -> Seq<Seq<char>> {
    if s.contains(x) {
        s
    } else {
        s.push(x)
    }
}

fn with_name(v: &Vec<String>, x: &String) -> (r: Vec<String>)
    ensures
        strings_view(r@) == add_once(strings_view(v@), x@),
{
    let mut r = duplicate_strings(v);
    proof {
        lemma_names_contains(v@, x@);
    }
    if !contains_name(v, x) {
        let ghost before = strings_view(r@);
        r.push(x.clone());
        assert(strings_view(r@) =~= before.push(x@));
    }
    r
}

/// The lists that one side of a link or unlink records: the target side
/// gains or loses `from` in `blocked_by`; the source side gains or loses
/// `to` in `blocks`, and also `from` in `blocked_by` when a task links
/// itself.
pub open spec fn changed_links(
    from: Seq<char>,
    to: Seq<char>,
    side: LinksView,
    link: bool,
    on_target: bool,
) -> LinksView {
    let (blocks, blocked_by) = side;
    let next_blocked_by = if on_target || from == to {
        if link {
            add_once(blocked_by, from)
        } else {
            seq_without(blocked_by, from)
        }
    } else {
        blocked_by
    };
    let next_blocks = if !on_target {
        if link {
            add_once(blocks, to)
        } else {
            seq_without(blocks, to)
        }
    } else {
        blocks
    };
    (next_blocks, next_blocked_by)
}

/// `f` records that `stem` now has the links `links`.
pub open spec fn records_links(f: TaskFact, stem: Seq<char>, links: LinksView) -> bool {
    f matches TaskFact::TaskLinksChanged { change } && change.stem@ == stem && strings_view(change.blocks@)
        == links.0 && strings_view(change.blocked_by@) == links.1
}

/// The fact that records one side of a link or unlink.
pub fn changed_task_link_fact(
    from: &String,
    to: &String,
    side: &(Vec<String>, Vec<String>),
    link: bool,
    on_target: bool,
) -> (r: TaskFact)
    ensures
        records_links(
            r,
            if on_target {
                to@
            } else {
                from@
            },
            changed_links(from@, to@, (strings_view(side.0@), strings_view(side.1@)), link, on_target),
        ),
{
    let stem = if on_target {
        to.clone()
    } else {
        from.clone()
    };
    let blocked_by = if on_target || str_eq(from.as_str(), to.as_str()) {
        if link {
            with_name(&side.1, from)
        } else {
            without_name(&side.1, from)
        }
    } else {
        duplicate_strings(&side.1)
    };
    let blocks = if !on_target {
        if link {
            with_name(&side.0, to)
        } else {
            without_name(&side.0, to)
        }
    } else {
        duplicate_strings(&side.0)
    };
    TaskFact::TaskLinksChanged { change: LinkChange { stem, blocks, blocked_by } }
}

/// What a link or unlink decides: refused when an endpoint is unknown;
/// nothing when the links already are as asked; one fact when a task links
/// itself; else a fact for each side whose list changes, source first.
pub open spec fn link_facts_ok(s: TaskLinkView, from: Seq<char>, to: Seq<char>, link: bool, facts: Seq<TaskFact>) -> bool {
    let src = s.source_links->0;
    let tgt = s.target_links->0;
    let src_next = changed_links(from, to, src, link, false);
    let tgt_next = changed_links(from, to, tgt, link, true);
    let src_changed = (if link {
        add_once(src.0, to)
    } else {
        seq_without(src.0, to)
    }) != src.0;
    let tgt_changed = (if link {
        add_once(tgt.1, from)
    } else {
        seq_without(tgt.1, from)
    }) != tgt.1;
    if !src_changed && !tgt_changed {
        facts.len() == 0
    } else if from == to {
        facts.len() == 1 && records_links(facts[0], from, src_next)
    } else {
        &&& facts.len() == (if src_changed { 1int } else { 0int }) + (if tgt_changed { 1int } else { 0int })
        &&& src_changed ==> records_links(facts[0], from, src_next)
        &&& tgt_changed ==> records_links(facts[facts.len() - 1], to, tgt_next)
    }
}

fn decide_links(state: &TaskLinkState, from: &String, to: &String, link: bool) -> (r: Result<
    Vec<TaskFact>,
    BoardCommandError,
>)
    ensures
        match (state@.source_links, state@.target_links) {
            (None, _) => r == Err::<Vec<TaskFact>, BoardCommandError>(BoardCommandError::LinkSourceMissing),
            (Some(_), None) => r == Err::<Vec<TaskFact>, BoardCommandError>(BoardCommandError::LinkTargetMissing),
            (Some(_), Some(_)) => r matches Ok(facts) && link_facts_ok(state@, from@, to@, link, facts@),
        },
{
    let src = match &state.source_links {
        None => {
            return Err(BoardCommandError::LinkSourceMissing);
        },
        Some(l) => l,
    };
    let tgt = match &state.target_links {
        None => {
            return Err(BoardCommandError::LinkTargetMissing);
        },
        Some(l) => l,
    };
    let next_blocks = if link {
        with_name(&src.0, to)
    } else {
        without_name(&src.0, to)
    };
    let next_blocked_by = if link {
        with_name(&tgt.1, from)
    } else {
        without_name(&tgt.1, from)
    };
    let src_changed = !crate::final_review::strings_eq(&next_blocks, &src.0);
    let tgt_changed = !crate::final_review::strings_eq(&next_blocked_by, &tgt.1);
    let mut facts: Vec<TaskFact> = Vec::new();
    if !src_changed && !tgt_changed {
        return Ok(facts);
    }
    if str_eq(from.as_str(), to.as_str()) {
        facts.push(changed_task_link_fact(from, to, src, link, false));
        return Ok(facts);
    }
    if src_changed {
        facts.push(changed_task_link_fact(from, to, src, link, false));
    }
    if tgt_changed {
        facts.push(changed_task_link_fact(from, to, tgt, link, true));
    }
    Ok(facts)
}

/// Records that `from` blocks `to`.
pub fn decide_link_tasks(state: &TaskLinkState, from: &String, to: &String) -> (r: Result<
    Vec<TaskFact>,
    BoardCommandError,
>)
    ensures
        match (state@.source_links, state@.target_links) {
            (None, _) => r == Err::<Vec<TaskFact>, BoardCommandError>(BoardCommandError::LinkSourceMissing),
            (Some(_), None) => r == Err::<Vec<TaskFact>, BoardCommandError>(BoardCommandError::LinkTargetMissing),
            (Some(_), Some(_)) => r matches Ok(facts) && link_facts_ok(state@, from@, to@, true, facts@),
        },
{
    decide_links(state, from, to, true)
}

/// Records that `from` no longer blocks `to`.
pub fn decide_unlink_tasks(state: &TaskLinkState, from: &String, to: &String) -> (r: Result<
    Vec<TaskFact>,
    BoardCommandError,
>)
    ensures
        match (state@.source_links, state@.target_links) {
            (None, _) => r == Err::<Vec<TaskFact>, BoardCommandError>(BoardCommandError::LinkSourceMissing),
            (Some(_), None) => r == Err::<Vec<TaskFact>, BoardCommandError>(BoardCommandError::LinkTargetMissing),
            (Some(_), Some(_)) => r matches Ok(facts) && link_facts_ok(state@, from@, to@, false, facts@),
        },
{
    decide_links(state, from, to, false)
}


// ---------------------------------------------------------------------------
// Laws

/// The link state after folding `facts` in turn.
pub open spec fn link_state_fold(s: TaskLinkView, from: Seq<char>, to: Seq<char>, facts: Seq<TaskFact>) -> TaskLinkView
    decreases facts.len(),
{
    if facts.len() == 0 {
        s
    } else {
        link_state_fold(link_state_step(s, from, to, facts[0]), from, to, facts.drop_first())
    }
}

pub proof fn lemma_seq_without_contains(s: Seq<Seq<char>>, x: Seq<char>, y: Seq<char>)
    ensures
        seq_without(s, x).contains(y) <==> (s.contains(y) && y != x),
    decreases s.len(),
{
    if s.len() > 0 {
        let rest = s.drop_last();
        let last = s.last();
        lemma_seq_without_contains(rest, x, y);
        let w = seq_without(s, x);
        let wr = seq_without(rest, x);
        assert(s =~= rest.push(last));
        assert(s.contains(y) <==> (rest.contains(y) || last == y)) by {
            if s.contains(y) {
                let i = choose|i: int| 0 <= i < s.len() && s[i] == y;
                if i < s.len() - 1 {
                    assert(rest[i] == y);
                }
            }
            if rest.contains(y) {
                let i = choose|i: int| 0 <= i < rest.len() && rest[i] == y;
                assert(s[i] == y);
            }
            if last == y {
                assert(s[s.len() - 1] == y);
            }
        }
        if last == x {
            assert(w == wr);
        } else {
            assert(w == wr.push(last));
            assert(w.contains(y) <==> (wr.contains(y) || last == y)) by {
                if w.contains(y) {
                    let i = choose|i: int| 0 <= i < w.len() && w[i] == y;
                    if i < w.len() - 1 {
                        assert(wr[i] == y);
                    }
                }
                if wr.contains(y) {
                    let i = choose|i: int| 0 <= i < wr.len() && wr[i] == y;
                    assert(w[i] == y);
                }
                if last == y {
                    assert(w[w.len() - 1] == y);
                }
            }
        }
    }
}

proof fn lemma_add_once_contains(s: Seq<Seq<char>>, x: Seq<char>)
    ensures
        add_once(s, x).contains(x),
{
    if !s.contains(x) {
        assert(s.push(x)[s.len() as int] == x);
    }
}

/// Replaying what a link decides leaves `from` blocking `to` on both sides;
/// replaying what an unlink decides leaves it blocking `to` on neither.
pub proof fn lemma_link_decisions_replay(s: TaskLinkView, from: Seq<char>, to: Seq<char>, link: bool, facts: Seq<TaskFact>)
    requires
        s.source_links is Some,
        s.target_links is Some,
        link_facts_ok(s, from, to, link, facts),
    ensures
        ({
            let after = link_state_fold(s, from, to, facts);
            let source_after = after.source_links->0;
            let target_after = after.target_links->0;
            &&& after.source_links is Some
            &&& after.target_links is Some
            &&& source_after.0.contains(to) == link
            &&& target_after.1.contains(from) == link
        }),
{
    let src = s.source_links->0;
    let tgt = s.target_links->0;
    lemma_add_once_contains(src.0, to);
    lemma_add_once_contains(tgt.1, from);
    lemma_seq_without_contains(src.0, to, to);
    lemma_seq_without_contains(tgt.1, from, from);
    lemma_add_once_contains(src.1, from);
    lemma_seq_without_contains(src.1, from, from);
    if facts.len() == 0 {
        assert(link_state_fold(s, from, to, facts) == s);
    } else if facts.len() == 1 {
        let s1 = link_state_step(s, from, to, facts[0]);
        assert(facts.drop_first() =~= Seq::<TaskFact>::empty());
        assert(link_state_fold(s1, from, to, facts.drop_first()) == s1);
        assert(link_state_fold(s, from, to, facts) == s1);
    } else {
        let s1 = link_state_step(s, from, to, facts[0]);
        let rest = facts.drop_first();
        assert(rest[0] == facts[1]);
        let s2 = link_state_step(s1, from, to, rest[0]);
        assert(rest.drop_first() =~= Seq::<TaskFact>::empty());
        assert(link_state_fold(s2, from, to, rest.drop_first()) == s2);
        assert(link_state_fold(s1, from, to, rest) == s2);
        assert(link_state_fold(s, from, to, facts) == s2);
    }
}

} // verus!
