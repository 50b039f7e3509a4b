//! Reachability over a finite set of directed edges between names.
use vstd::prelude::*;

verus! {

pub type Node = Seq<char>;

/// A nonempty walk along edges of `edges`.
pub open spec fn is_walk(edges: Set<(Node, Node)>, p: Seq<Node>) -> bool {
    &&& p.len() >= 1
    &&& forall|i: int| 0 <= i < p.len() - 1 ==> #[trigger] edges.contains((p[i], p[i + 1]))
}

/// `to` can be reached from `from` by following zero or more edges.
pub open spec fn reaches(edges: Set<(Node, Node)>, from: Node, to: Node) -> bool {
    exists|p: Seq<Node>| #[trigger] is_walk(edges, p) && p[0] == from && p.last() == to
}

/// No edge closes a cycle.
pub open spec fn acyclic(edges: Set<(Node, Node)>) -> bool {
    forall|u: Node, v: Node| edges.contains((u, v)) ==> !reaches(edges, v, u)
}

pub proof fn lemma_reaches_refl(edges: Set<(Node, Node)>, a: Node)
    ensures
        reaches(edges, a, a),
{
    let p = seq![a];
    assert(is_walk(edges, p));
    assert(p[0] == a && p.last() == a);
}

pub proof fn lemma_reaches_edge(edges: Set<(Node, Node)>, a: Node, b: Node)
    requires
        edges.contains((a, b)),
    ensures
        reaches(edges, a, b),
{
    let p = seq![a, b];
    assert(p[0] == a && p[1] == b && p.last() == b);
    assert(is_walk(edges, p));
}

proof fn lemma_walk_concat(edges: Set<(Node, Node)>, p: Seq<Node>, q: Seq<Node>)
    requires
        is_walk(edges, p),
        is_walk(edges, q),
        p.last() == q[0],
    ensures
        is_walk(edges, p + q.drop_first()),
        (p + q.drop_first())[0] == p[0],
        (p + q.drop_first()).last() == q.last(),
{
    let tail = q.drop_first();
    let r = p + tail;
    assert forall|i: int| 0 <= i < r.len() - 1 implies #[trigger] edges.contains((r[i], r[i + 1])) by {
        if i < p.len() - 1 {
            assert(r[i] == p[i]);
            assert(r[i + 1] == p[i + 1]);
            assert(edges.contains((p[i], p[i + 1])));
        } else {
            let k = i - p.len() + 1;
            assert(r[i] == q[k]);
            assert(r[i + 1] == q[k + 1]);
            assert(edges.contains((q[k], q[k + 1])));
        }
    }
    if q.len() == 1 {
        assert(r =~= p);
    }
}

pub proof fn lemma_reaches_trans(edges: Set<(Node, Node)>, a: Node, b: Node, c: Node)
    requires
        reaches(edges, a, b),
        reaches(edges, b, c),
    ensures
        reaches(edges, a, c),
{
    let p = choose|p: Seq<Node>| is_walk(edges, p) && p[0] == a && p.last() == b;
    let q = choose|q: Seq<Node>| is_walk(edges, q) && q[0] == b && q.last() == c;
    lemma_walk_concat(edges, p, q);
    let r = p + q.drop_first();
    assert(is_walk(edges, r) && r[0] == a && r.last() == c);
}

/// A walk over `edges` plus one new edge `(t, d)` either avoids the new edge,
/// or reaches `t` and later leaves from `d`.
proof fn lemma_walk_with_new_edge(edges: Set<(Node, Node)>, t: Node, d: Node, p: Seq<Node>)
    requires
        is_walk(edges.insert((t, d)), p),
    ensures
        reaches(edges, p[0], p.last()) || (reaches(edges, p[0], t) && reaches(edges, d, p.last())),
    decreases p.len(),
{
    let e2 = edges.insert((t, d));
    if p.len() == 1 {
        lemma_reaches_refl(edges, p[0]);
    } else {
        let rest = p.drop_first();
        assert forall|i: int| 0 <= i < rest.len() - 1 implies #[trigger] e2.contains((rest[i], rest[i + 1])) by {
            assert(rest[i] == p[i + 1] && rest[i + 1] == p[i + 2]);
            assert(e2.contains((p[i + 1], p[i + 2])));
        }
        lemma_walk_with_new_edge(edges, t, d, rest);
        assert(e2.contains((p[0], p[1])));
        assert(rest[0] == p[1] && rest.last() == p.last());
        if edges.contains((p[0], p[1])) {
            lemma_reaches_edge(edges, p[0], p[1]);
            if reaches(edges, rest[0], rest.last()) {
                lemma_reaches_trans(edges, p[0], p[1], p.last());
            } else {
                lemma_reaches_trans(edges, p[0], p[1], t);
            }
        } else {
            assert(p[0] == t && p[1] == d);
            lemma_reaches_refl(edges, t);
            if reaches(edges, rest[0], rest.last()) {
            } else {
                lemma_reaches_trans(edges, d, t, d);
                lemma_reaches_trans(edges, d, d, p.last());
            }
        }
    }
}

pub proof fn lemma_reaches_with_new_edge(edges: Set<(Node, Node)>, t: Node, d: Node, a: Node, b: Node)
    requires
        reaches(edges.insert((t, d)), a, b),
    ensures
        reaches(edges, a, b) || (reaches(edges, a, t) && reaches(edges, d, b)),
{
    let p = choose|p: Seq<Node>| is_walk(edges.insert((t, d)), p) && p[0] == a && p.last() == b;
    lemma_walk_with_new_edge(edges, t, d, p);
}

proof fn lemma_new_edge_closes_no_cycle(edges: Set<(Node, Node)>, t: Node, d: Node, u: Node, v: Node)
    requires
        acyclic(edges),
        !reaches(edges, d, t),
        edges.insert((t, d)).contains((u, v)),
    ensures
        !reaches(edges.insert((t, d)), v, u),
{
    if reaches(edges.insert((t, d)), v, u) {
        lemma_reaches_with_new_edge(edges, t, d, v, u);
        if u == t && v == d {
            assert(!reaches(edges, v, u));
            assert(reaches(edges, d, t));
        } else {
            assert(edges.contains((u, v)));
            assert(!reaches(edges, v, u));
            lemma_reaches_edge(edges, u, v);
            lemma_reaches_trans(edges, d, u, v);
            lemma_reaches_trans(edges, d, v, t);
        }
    }
}

/// Adding an edge `(t, d)` where `t` is not reachable from `d` keeps an
/// acyclic graph acyclic.
pub proof fn lemma_insert_keeps_acyclic(edges: Set<(Node, Node)>, t: Node, d: Node)
    requires
        acyclic(edges),
        !reaches(edges, d, t),
    ensures
        acyclic(edges.insert((t, d))),
{
    assert forall|u: Node, v: Node| edges.insert((t, d)).contains((u, v)) implies !reaches(
        edges.insert((t, d)),
        v,
        u,
    ) by {
        lemma_new_edge_closes_no_cycle(edges, t, d, u, v);
    }
}

/// Removing edges keeps an acyclic graph acyclic.
pub proof fn lemma_subset_keeps_acyclic(edges: Set<(Node, Node)>, smaller: Set<(Node, Node)>)
    requires
        acyclic(edges),
        smaller.subset_of(edges),
    ensures
        acyclic(smaller),
{
    assert forall|u: Node, v: Node| smaller.contains((u, v)) implies !reaches(smaller, v, u) by {
        if reaches(smaller, v, u) {
            let p = choose|p: Seq<Node>| is_walk(smaller, p) && p[0] == v && p.last() == u;
            assert(is_walk(edges, p));
            assert(edges.contains((u, v)));
            assert(reaches(edges, v, u));
        }
    }
}


/// The names held by a vector of strings.
pub open spec fn names(v: Seq<String>) -> Set<Node> {
    Set::new(|x: Node| exists|i: int| 0 <= i < v.len() && (#[trigger] v[i])@ == x)
}

/// The edges held by a vector of string pairs.
pub open spec fn edge_set(v: Seq<(String, String)>) -> Set<(Node, Node)> {
    Set::new(|e: (Node, Node)| exists|i: int| 0 <= i < v.len() && (#[trigger] v[i]).0@ == e.0 && v[i].1@ == e.1)
}

/// Whether a vector of strings holds the name `s`.
pub fn contains_name(v: &Vec<String>, s: &String) -> (r: bool)
    ensures
        r == names(v@).contains(s@),
{
    let mut i: usize = 0;
    while i < v.len()
        invariant
            i <= v.len(),
            forall|j: int| 0 <= j < i ==> (#[trigger] v@[j])@ != s@,
        decreases v.len() - i,
    {
        if v[i] == *s {
            assert(v@[i as int]@ == s@);
            return true;
        }
        i = i + 1;
    }
    false
}

/// Number of edges whose target is not yet in `visited`.
pub open spec fn pending(edges: Seq<(String, String)>, visited: Set<Node>) -> nat
    decreases edges.len(),
{
    if edges.len() == 0 {
        0
    } else {
        pending(edges.drop_last(), visited) + if visited.contains(edges.last().1@) {
            0nat
        } else {
            1nat
        }
    }
}

proof fn lemma_pending_monotone(edges: Seq<(String, String)>, a: Set<Node>, b: Set<Node>)
    requires
        a.subset_of(b),
    ensures
        pending(edges, b) <= pending(edges, a),
    decreases edges.len(),
{
    if edges.len() > 0 {
        lemma_pending_monotone(edges.drop_last(), a, b);
    }
}

proof fn lemma_pending_drops(edges: Seq<(String, String)>, a: Set<Node>, i: int)
    requires
        0 <= i < edges.len(),
        !a.contains(edges[i].1@),
    ensures
        pending(edges, a.insert(edges[i].1@)) < pending(edges, a),
    decreases edges.len(),
{
    let x = edges[i].1@;
    if i == edges.len() - 1 {
        lemma_pending_monotone(edges.drop_last(), a, a.insert(x));
    } else {
        assert(edges.drop_last()[i] == edges[i]);
        lemma_pending_drops(edges.drop_last(), a, i);
    }
}

/// Every walk that starts inside a set closed under the edges stays in it.
proof fn lemma_closed_contains_reachable(edges: Set<(Node, Node)>, set: Set<Node>, p: Seq<Node>)
    requires
        is_walk(edges, p),
        set.contains(p[0]),
        forall|u: Node, v: Node| edges.contains((u, v)) && set.contains(u) ==> set.contains(v),
    ensures
        set.contains(p.last()),
    decreases p.len(),
{
    if p.len() > 1 {
        let init = p.drop_last();
        assert forall|i: int| 0 <= i < init.len() - 1 implies #[trigger] edges.contains((init[i], init[i + 1])) by {
            assert(init[i] == p[i] && init[i + 1] == p[i + 1]);
            assert(edges.contains((p[i], p[i + 1])));
        }
        lemma_closed_contains_reachable(edges, set, init);
        let k = p.len() - 2;
        assert(edges.contains((p[k], p[k + 1])));
        assert(init.last() == p[k]);
    }
}

/// Whether `to` can be reached from `from` along the given edges.
pub fn reaches_along(edges: &Vec<(String, String)>, from: &String, to: &String) -> (r: bool)
    ensures
        r == reaches(edge_set(edges@), from@, to@),
{
    let ghost es = edge_set(edges@);
    let mut visited: Vec<String> = Vec::new();
    visited.push(from.clone());
    proof {
        lemma_reaches_refl(es, from@);
        assert(visited@[0] == *from);
    }
    loop
        invariant
            es == edge_set(edges@),
            names(visited@).contains(from@),
            forall|x: Node| names(visited@).contains(x) ==> reaches(es, from@, x),
        ensures
            forall|x: Node| names(visited@).contains(x) <==> reaches(es, from@, x),
        decreases pending(edges@, names(visited@)),
    {
        let ghost round_start = names(visited@);
        let mut changed = false;
        let mut i: usize = 0;
        while i < edges.len()
            invariant
                es == edge_set(edges@),
                i <= edges.len(),
                round_start.subset_of(names(visited@)),
                names(visited@).contains(from@),
                forall|x: Node| names(visited@).contains(x) ==> reaches(es, from@, x),
                !changed ==> names(visited@) == round_start,
                changed ==> pending(edges@, names(visited@)) < pending(edges@, round_start),
                !changed ==> forall|j: int| 0 <= j < i && names(visited@).contains((#[trigger] edges@[j]).0@)
                    ==> names(visited@).contains(edges@[j].1@),
            decreases edges.len() - i,
        {
            let ghost before = names(visited@);
            let ghost old_visited = visited@;
            if contains_name(&visited, &edges[i].0) && !contains_name(&visited, &edges[i].1) {
                let ghost x = edges@[i as int].1@;
                visited.push(edges[i].1.clone());
                proof {
                    assert(names(visited@) =~= before.insert(x)) by {
                        assert(visited@[visited@.len() - 1]@ == x);
                        assert forall|y: Node| names(visited@).contains(y) implies before.insert(x).contains(y) by {
                            let k = choose|k: int| 0 <= k < visited@.len() && (#[trigger] visited@[k])@ == y;
                            if k < visited@.len() - 1 {
                                assert(visited@[k] == old_visited[k]);
                            }
                        }
                        assert forall|y: Node| before.insert(x).contains(y) implies names(visited@).contains(y) by {
                            if y != x {
                                let k = choose|k: int| 0 <= k < old_visited.len() && (#[trigger] old_visited[k])@ == y;
                                assert(visited@[k] == old_visited[k]);
                            }
                        }
                    }
                    assert(es.contains((edges@[i as int].0@, x)));
                    lemma_reaches_edge(es, edges@[i as int].0@, x);
                    lemma_reaches_trans(es, from@, edges@[i as int].0@, x);
                    lemma_pending_drops(edges@, before, i as int);
                    lemma_pending_monotone(edges@, round_start, before);
                }
                changed = true;
            }
            i = i + 1;
        }
        if !changed {
            proof {
                let set = names(visited@);
                assert forall|u: Node, v: Node| es.contains((u, v)) && set.contains(u) implies set.contains(v) by {
                    let j = choose|j: int| 0 <= j < edges@.len() && (#[trigger] edges@[j]).0@ == u && edges@[j].1@ == v;
                }
                assert forall|x: Node| reaches(es, from@, x) implies set.contains(x) by {
                    let p = choose|p: Seq<Node>| is_walk(es, p) && p[0] == from@ && p.last() == x;
                    lemma_closed_contains_reachable(es, set, p);
                }
            }
            break;
        }
    }
    contains_name(&visited, to)
}

} // verus!
