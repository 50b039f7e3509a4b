//! Small string-keyed tables kept as vectors of entries with distinct keys.
use vstd::prelude::*;

verus! {

pub open spec fn keys_distinct<V>(t: Seq<(String, V)>) -> bool {
    forall|i: int, j: int| 0 <= i < t.len() && 0 <= j < t.len() && i != j ==> (#[trigger] t[i]).0@ != (#[trigger] t[j]).0@
}

pub open spec fn has_key<V>(t: Seq<(String, V)>, k: Seq<char>) -> bool {
    exists|i: int| 0 <= i < t.len() && (#[trigger] t[i]).0@ == k
}

pub open spec fn key_index<V>(t: Seq<(String, V)>, k: Seq<char>) -> int {
    choose|i: int| 0 <= i < t.len() && (#[trigger] t[i]).0@ == k
}

/// The map that a table with distinct keys stands for.
pub open spec fn table_view<V: View>(t: Seq<(String, V)>) -> Map<Seq<char>, V::V> {
    Map::new(|k: Seq<char>| has_key(t, k), |k: Seq<char>| t[key_index(t, k)].1@)
}

/// Index of the entry whose key is `k`.
pub fn table_find<V>(t: &Vec<(String, V)>, k: &String) -> (r: Option<usize>)
    ensures
        match r {
            Some(i) => i < t@.len() && t@[i as int].0@ == k@,
            None => !has_key(t@, k@),
        },
{
    let mut i: usize = 0;
    while i < t.len()
        invariant
            i <= t@.len(),
            forall|j: int| 0 <= j < i ==> (#[trigger] t@[j]).0@ != k@,
        decreases t.len() - i,
    {
        if t[i].0 == *k {
            return Some(i);
        }
        i = i + 1;
    }
    None
}

pub proof fn lemma_table_index<V: View>(t: Seq<(String, V)>, i: int)
    requires
        keys_distinct(t),
        0 <= i < t.len(),
    ensures
        table_view(t).contains_key(t[i].0@),
        table_view(t)[t[i].0@] == t[i].1@,
{
    let k = t[i].0@;
    assert(has_key(t, k));
    let j = key_index(t, k);
    assert(t[j].0@ == k);
    if j != i {
        assert(t[i].0@ != t[j].0@);
    }
}

pub proof fn lemma_table_push<V: View>(t: Seq<(String, V)>, k: String, v: V)
    requires
        keys_distinct(t),
        !has_key(t, k@),
    ensures
        keys_distinct(t.push((k, v))),
        table_view(t.push((k, v))) == table_view(t).insert(k@, v@),
{
    let t2 = t.push((k, v));
    assert forall|i: int, j: int| 0 <= i < t2.len() && 0 <= j < t2.len() && i != j implies (#[trigger] t2[i]).0@ != (#[trigger] t2[j]).0@ by {
        if i < t.len() && j < t.len() {
            assert(t2[i] == t[i] && t2[j] == t[j]);
        } else if i < t.len() {
            assert(t2[i] == t[i]);
        } else {
            assert(t2[j] == t[j]);
        }
    }
    let m = table_view(t).insert(k@, v@);
    assert forall|x: Seq<char>| #[trigger] table_view(t2).contains_key(x) <==> m.contains_key(x) by {
        if has_key(t2, x) {
            let i = choose|i: int| 0 <= i < t2.len() && (#[trigger] t2[i]).0@ == x;
            if i < t.len() {
                assert(t2[i] == t[i]);
                assert(has_key(t, x));
            }
        }
        if has_key(t, x) {
            let i = choose|i: int| 0 <= i < t.len() && (#[trigger] t[i]).0@ == x;
            assert(t2[i] == t[i]);
            assert(has_key(t2, x));
        }
        if x == k@ {
            assert(t2[t.len() as int].0@ == x);
        }
    }
    assert forall|x: Seq<char>| #[trigger] table_view(t2).contains_key(x) implies table_view(t2)[x] == m[x] by {
        let i = key_index(t2, x);
        lemma_table_index(t2, i);
        if i < t.len() {
            assert(t2[i] == t[i]);
            lemma_table_index(t, i);
        }
    }
    assert(table_view(t2) =~= m);
}

pub proof fn lemma_table_update<V: View>(t: Seq<(String, V)>, i: int, v: V)
    requires
        keys_distinct(t),
        0 <= i < t.len(),
    ensures
        keys_distinct(t.update(i, (t[i].0, v))),
        table_view(t.update(i, (t[i].0, v))) == table_view(t).insert(t[i].0@, v@),
{
    let t2 = t.update(i, (t[i].0, v));
    let k = t[i].0@;
    assert forall|a: int, b: int| 0 <= a < t2.len() && 0 <= b < t2.len() && a != b implies (#[trigger] t2[a]).0@ != (#[trigger] t2[b]).0@ by {
        assert(t2[a].0@ == t[a].0@);
        assert(t2[b].0@ == t[b].0@);
    }
    let m = table_view(t).insert(k, v@);
    assert forall|x: Seq<char>| #[trigger] table_view(t2).contains_key(x) <==> m.contains_key(x) by {
        if has_key(t2, x) {
            let j = choose|j: int| 0 <= j < t2.len() && (#[trigger] t2[j]).0@ == x;
            assert(t[j].0@ == x);
            assert(has_key(t, x));
        }
        if has_key(t, x) {
            let j = choose|j: int| 0 <= j < t.len() && (#[trigger] t[j]).0@ == x;
            assert(t2[j].0@ == x);
            assert(has_key(t2, x));
        }
        if x == k {
            assert(t2[i].0@ == x);
        }
    }
    assert forall|x: Seq<char>| #[trigger] table_view(t2).contains_key(x) implies table_view(t2)[x] == m[x] by {
        let j = key_index(t2, x);
        lemma_table_index(t2, j);
        if j != i {
            assert(t2[j] == t[j]);
            lemma_table_index(t, j);
        }
    }
    assert(table_view(t2) =~= m);
}

pub proof fn lemma_table_empty<V: View>(t: Seq<(String, V)>)
    requires
        t.len() == 0,
    ensures
        keys_distinct(t),
        table_view(t) == Map::<Seq<char>, V::V>::empty(),
{
    assert(table_view(t) =~= Map::<Seq<char>, V::V>::empty());
}

/// A table with distinct keys stands for a map with one key per entry.
pub proof fn lemma_table_len<V: View>(t: Seq<(String, V)>)
    requires
        keys_distinct(t),
    ensures
        table_view(t).dom().finite(),
        table_view(t).dom().len() == t.len(),
    decreases t.len(),
{
    if t.len() == 0 {
        lemma_table_empty(t);
    } else {
        let p = t.drop_last();
        let last = t[t.len() - 1];
        assert forall|i: int, j: int| 0 <= i < p.len() && 0 <= j < p.len() && i != j implies (#[trigger] p[i]).0@ != (#[trigger] p[j]).0@ by {
            assert(p[i] == t[i] && p[j] == t[j]);
        }
        if has_key(p, last.0@) {
            let i = choose|i: int| 0 <= i < p.len() && (#[trigger] p[i]).0@ == last.0@;
            assert(p[i] == t[i]);
        }
        lemma_table_len(p);
        lemma_table_push(p, last.0, last.1);
        assert(p.push((last.0, last.1)) =~= t);
        assert(!table_view(p).dom().contains(last.0@));
        assert(table_view(t).dom() =~= table_view(p).dom().insert(last.0@));
    }
}

} // verus!
