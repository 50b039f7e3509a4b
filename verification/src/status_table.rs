//! The lifecycle status of every task a command has seen, by stem. Entries
//! keep the order in which stems first appeared; a stem appears once.
use vstd::prelude::*;
use crate::text::str_eq;

verus! {

pub type StatusEntries = Seq<(Seq<char>, Seq<char>)>;

/// A table of task statuses.
#[derive(Debug, Default)]
pub struct StatusTable {
    pub entries: Vec<(String, String)>,
}

pub open spec fn entry_views(v: Seq<(String, String)>) -> StatusEntries {
    v.map_values(|e: (String, String)| (e.0@, e.1@))
}

impl View for StatusTable {
    type V = StatusEntries;

    open spec fn view(&self) -> StatusEntries {
        entry_views(self.entries@)
    }
}

/// The position of `stem` in the table.
pub open spec fn status_index(t: StatusEntries, stem: Seq<char>) -> Option<int>
    decreases t.len(),
{
    if t.len() == 0 {
        None
    } else if t[0].0 == stem {
        Some(0)
    } else {
        match status_index(t.drop_first(), stem) {
            Some(j) => Some(j + 1),
            None => None,
        }
    }
}

/// The status recorded for `stem`.
pub open spec fn status_of(t: StatusEntries, stem: Seq<char>) -> Option<Seq<char>> {
    match status_index(t, stem) {
        Some(i) => Some(t[i].1),
        None => None,
    }
}

/// The table with `stem` given `status`: in place when present, else at the end.
pub open spec fn with_status(t: StatusEntries, stem: Seq<char>, status: Seq<char>) -> StatusEntries {
    match status_index(t, stem) {
        Some(i) => t.update(i, (stem, status)),
        None => t.push((stem, status)),
    }
}

/// The table with `stem` given `status` when it is present; unchanged otherwise.
pub open spec fn with_existing_status(t: StatusEntries, stem: Seq<char>, status: Seq<char>) -> StatusEntries {
    match status_index(t, stem) {
        Some(i) => t.update(i, (stem, status)),
        None => t,
    }
}

/// The table without `stem`.
pub open spec fn without_stem(t: StatusEntries, stem: Seq<char>) -> StatusEntries
    decreases t.len(),
{
    if t.len() == 0 {
        t
    } else {
        let rest = without_stem(t.drop_last(), stem);
        if t.last().0 == stem {
            rest
        } else {
            rest.push(t.last())
        }
    }
}

/// How many stems have status `status`.
pub open spec fn count_status(t: StatusEntries, status: Seq<char>) -> nat
    decreases t.len(),
{
    if t.len() == 0 {
        0
    } else {
        count_status(t.drop_last(), status) + if t.last().1 == status {
            1nat
        } else {
            0nat
        }
    }
}

proof fn lemma_status_index_bounds(t: StatusEntries, stem: Seq<char>)
    ensures
        status_index(t, stem) matches Some(i) ==> 0 <= i < t.len() && t[i].0 == stem,
        status_index(t, stem) is None ==> forall|j: int| 0 <= j < t.len() ==> #[trigger] t[j].0 != stem,
    decreases t.len(),
{
    if t.len() > 0 && t[0].0 != stem {
        lemma_status_index_bounds(t.drop_first(), stem);
        assert forall|j: int| 0 <= j < t.len() && status_index(t, stem) is None implies #[trigger] t[j].0 != stem by {
            if j > 0 {
                assert(t.drop_first()[j - 1] == t[j]);
            }
        }
    }
}

proof fn lemma_count_bounded(t: StatusEntries, status: Seq<char>)
    ensures
        count_status(t, status) <= t.len(),
    decreases t.len(),
{
    if t.len() > 0 {
        lemma_count_bounded(t.drop_last(), status);
    }
}

impl StatusTable {
    pub fn new() -> (r: Self)
        ensures
            r@ == Seq::<(Seq<char>, Seq<char>)>::empty(),
    {
        StatusTable { entries: Vec::new() }
    }

    fn index_of(&self, stem: &String) -> (r: Option<usize>)
        ensures
            match r {
                Some(i) => status_index(self@, stem@) == Some(i as int) && i < self.entries@.len(),
                None => status_index(self@, stem@) is None,
            },
    {
        let ghost all = self@;
        let mut j: usize = 0;
        assert(all.skip(0) =~= all);
        while j < self.entries.len()
            invariant
                j <= self.entries@.len(),
                all == self@,
                status_index(all, stem@) == (match status_index(all.skip(j as int), stem@) {
                    Some(k) => Some(k + j),
                    None => None,
                }),
            decreases self.entries.len() - j,
        {
            assert(all.skip(j as int)[0] == all[j as int]);
            assert(all.skip(j as int).drop_first() =~= all.skip(j + 1));
            if str_eq(self.entries[j].0.as_str(), stem.as_str()) {
                return Some(j);
            }
            j = j + 1;
        }
        assert(all.skip(j as int) =~= Seq::<(Seq<char>, Seq<char>)>::empty());
        None
    }

    /// The status recorded for `stem`.
    pub fn status(&self, stem: &String) -> (r: Option<&String>)
        ensures
            match r {
                Some(s) => status_of(self@, stem@) == Some(s@),
                None => status_of(self@, stem@) is None,
            },
    {
        match self.index_of(stem) {
            Some(i) => Some(&self.entries[i].1),
            None => None,
        }
    }

    /// Whether `stem` has a status.
    pub fn contains(&self, stem: &String) -> (r: bool)
        ensures
            r == status_of(self@, stem@) is Some,
    {
        self.index_of(stem).is_some()
    }

    /// Records `status` for `stem`.
    pub fn set(&mut self, stem: &String, status: &String)
        ensures
            final(self)@ == with_status(old(self)@, stem@, status@),
    {
        let ghost before = self@;
        match self.index_of(stem) {
            Some(i) => {
                self.entries.set(i, (stem.clone(), status.clone()));
                assert(self@ =~= before.update(i as int, (stem@, status@)));
            },
            None => {
                self.entries.push((stem.clone(), status.clone()));
                assert(self@ =~= before.push((stem@, status@)));
            },
        }
    }

    /// Records `status` for `stem` when it has a status already.
    pub fn set_existing(&mut self, stem: &String, status: &String)
        ensures
            final(self)@ == with_existing_status(old(self)@, stem@, status@),
    {
        let ghost before = self@;
        match self.index_of(stem) {
            Some(i) => {
                self.entries.set(i, (stem.clone(), status.clone()));
                assert(self@ =~= before.update(i as int, (stem@, status@)));
            },
            None => {},
        }
    }

    /// Forgets `stem`.
    pub fn remove(&mut self, stem: &String)
        ensures
            final(self)@ == without_stem(old(self)@, stem@),
    {
        let ghost all = self@;
        let mut kept: Vec<(String, String)> = Vec::new();
        let mut i: usize = 0;
        while i < self.entries.len()
            invariant
                i <= self.entries@.len(),
                all == self@,
                entry_views(kept@) == without_stem(all.take(i as int), stem@),
            decreases self.entries.len() - i,
        {
            assert(all.take(i + 1).drop_last() =~= all.take(i as int));
            assert(all.take(i + 1).last() == all[i as int]);
            if !str_eq(self.entries[i].0.as_str(), stem.as_str()) {
                let ghost before = entry_views(kept@);
                kept.push((self.entries[i].0.clone(), self.entries[i].1.clone()));
                assert(entry_views(kept@) =~= before.push(all[i as int]));
            }
            i = i + 1;
        }
        assert(all.take(i as int) =~= all);
        self.entries = kept;
    }

    /// How many stems have status `status`.
    pub fn count(&self, status: &str) -> (r: usize)
        ensures
            r == count_status(self@, status@),
    {
        let ghost all = self@;
        let mut n: usize = 0;
        let mut i: usize = 0;
        while i < self.entries.len()
            invariant
                i <= self.entries@.len(),
                all == self@,
                n == count_status(all.take(i as int), status@),
            decreases self.entries.len() - i,
        {
            assert(all.take(i + 1).drop_last() =~= all.take(i as int));
            assert(all.take(i + 1).last() == all[i as int]);
            proof {
                lemma_count_bounded(all.take(i as int), status@);
            }
            if str_eq(self.entries[i].1.as_str(), status) {
                n = n + 1;
            }
            i = i + 1;
        }
        assert(all.take(i as int) =~= all);
        n
    }
}



proof fn lemma_status_index_after_update(t: StatusEntries, stem: Seq<char>, i: int, status: Seq<char>)
    requires
        status_index(t, stem) == Some(i),
    ensures
        status_index(t.update(i, (stem, status)), stem) == Some(i),
    decreases t.len(),
{
    lemma_status_index_bounds(t, stem);
    if i > 0 {
        let rest = t.drop_first();
        lemma_status_index_after_update(rest, stem, i - 1, status);
        assert(t.update(i, (stem, status)).drop_first() =~= rest.update(i - 1, (stem, status)));
    }
}

proof fn lemma_status_index_after_push(t: StatusEntries, stem: Seq<char>, status: Seq<char>)
    requires
        status_index(t, stem) is None,
    ensures
        status_index(t.push((stem, status)), stem) == Some(t.len() as int),
    decreases t.len(),
{
    if t.len() > 0 {
        lemma_status_index_after_push(t.drop_first(), stem, status);
        assert(t.push((stem, status)).drop_first() =~= t.drop_first().push((stem, status)));
    }
}

/// A status read right after it is recorded is the one recorded.
pub proof fn lemma_with_status_reads_back(t: StatusEntries, stem: Seq<char>, status: Seq<char>)
    ensures
        status_of(with_status(t, stem, status), stem) == Some(status),
{
    match status_index(t, stem) {
        Some(i) => {
            lemma_status_index_bounds(t, stem);
            lemma_status_index_after_update(t, stem, i, status);
        },
        None => {
            lemma_status_index_after_push(t, stem, status);
        },
    }
}


proof fn lemma_status_index_other_update(t: StatusEntries, i: int, entry: (Seq<char>, Seq<char>), y: Seq<char>)
    requires
        0 <= i < t.len(),
        t[i].0 == entry.0,
        y != entry.0,
    ensures
        status_index(t.update(i, entry), y) == status_index(t, y),
        status_of(t.update(i, entry), y) == status_of(t, y),
    decreases t.len(),
{
    let t2 = t.update(i, entry);
    if t[0].0 != y {
        if i > 0 {
            let rest = t.drop_first();
            lemma_status_index_other_update(rest, i - 1, entry, y);
            assert(t2.drop_first() =~= rest.update(i - 1, entry));
        } else {
            assert(t2.drop_first() =~= t.drop_first());
        }
    }
    lemma_status_index_bounds(t, y);
    match status_index(t, y) {
        Some(j) => {
            assert(j != i);
            assert(t2[j] == t[j]);
        },
        None => {},
    }
}

/// Marking a present stem changes its status and no other.
pub proof fn lemma_with_existing_status(t: StatusEntries, stem: Seq<char>, status: Seq<char>, y: Seq<char>)
    ensures
        status_of(t, stem) is Some ==> status_of(with_existing_status(t, stem, status), stem) == Some(status),
        y != stem ==> status_of(with_existing_status(t, stem, status), y) == status_of(t, y),
        status_of(with_existing_status(t, stem, status), y) is Some <==> status_of(t, y) is Some,
{
    lemma_status_index_bounds(t, stem);
    match status_index(t, stem) {
        Some(i) => {
            lemma_status_index_after_update(t, stem, i, status);
            if y != stem {
                lemma_status_index_other_update(t, i, (stem, status), y);
            }
        },
        None => {},
    }
}


/// Each stem appears once.
pub open spec fn stems_distinct(t: StatusEntries) -> bool {
    forall|i: int, j: int| 0 <= i < t.len() && 0 <= j < t.len() && i != j ==> (#[trigger] t[i]).0 != (#[trigger] t[j]).0
}

proof fn lemma_without_stem_members(t: StatusEntries, stem: Seq<char>, k: int)
    requires
        0 <= k < without_stem(t, stem).len(),
    ensures
        exists|j: int| 0 <= j < t.len() && t[j] == #[trigger] without_stem(t, stem)[k],
    decreases t.len(),
{
    let rest = without_stem(t.drop_last(), stem);
    if k < rest.len() {
        lemma_without_stem_members(t.drop_last(), stem, k);
        let j = choose|j: int| 0 <= j < t.drop_last().len() && t.drop_last()[j] == rest[k];
        assert(t[j] == without_stem(t, stem)[k]);
    } else {
        assert(t[t.len() - 1] == without_stem(t, stem)[k]);
    }
}

proof fn lemma_without_stem_distinct(t: StatusEntries, stem: Seq<char>)
    requires
        stems_distinct(t),
    ensures
        stems_distinct(without_stem(t, stem)),
    decreases t.len(),
{
    if t.len() > 0 {
        let p = t.drop_last();
        assert(stems_distinct(p)) by {
            assert forall|i: int, j: int| 0 <= i < p.len() && 0 <= j < p.len() && i != j implies (#[trigger] p[i]).0 != (#[trigger] p[j]).0 by {
                assert(p[i] == t[i] && p[j] == t[j]);
            }
        }
        lemma_without_stem_distinct(p, stem);
        let rest = without_stem(p, stem);
        if t.last().0 != stem {
            let r = rest.push(t.last());
            assert forall|i: int, j: int| 0 <= i < r.len() && 0 <= j < r.len() && i != j implies (#[trigger] r[i]).0 != (#[trigger] r[j]).0 by {
                if i < rest.len() && j < rest.len() {
                    assert(r[i] == rest[i] && r[j] == rest[j]);
                } else if i < rest.len() {
                    lemma_without_stem_members(p, stem, i);
                    let a = choose|a: int| 0 <= a < p.len() && p[a] == #[trigger] without_stem(p, stem)[i];
                    assert(t[a] == p[a]);
                    assert(r[j] == t[t.len() - 1]);
                } else {
                    lemma_without_stem_members(p, stem, j);
                    let a = choose|a: int| 0 <= a < p.len() && p[a] == #[trigger] without_stem(p, stem)[j];
                    assert(t[a] == p[a]);
                    assert(r[i] == t[t.len() - 1]);
                }
            }
        }
    }
}

/// Recording, updating and forgetting statuses keep each stem once.
pub proof fn lemma_status_updates_keep_stems_distinct(t: StatusEntries, stem: Seq<char>, status: Seq<char>)
    requires
        stems_distinct(t),
    ensures
        stems_distinct(with_status(t, stem, status)),
        stems_distinct(with_existing_status(t, stem, status)),
        stems_distinct(without_stem(t, stem)),
{
    lemma_status_index_bounds(t, stem);
    match status_index(t, stem) {
        Some(i) => {
            let u = t.update(i, (stem, status));
            assert forall|a: int, b: int| 0 <= a < u.len() && 0 <= b < u.len() && a != b implies (#[trigger] u[a]).0 != (#[trigger] u[b]).0 by {
                assert(u[a].0 == t[a].0 && u[b].0 == t[b].0);
            }
        },
        None => {
            let u = t.push((stem, status));
            assert forall|a: int, b: int| 0 <= a < u.len() && 0 <= b < u.len() && a != b implies (#[trigger] u[a]).0 != (#[trigger] u[b]).0 by {
                if a < t.len() && b < t.len() {
                    assert(u[a] == t[a] && u[b] == t[b]);
                } else if a < t.len() {
                    assert(u[a] == t[a]);
                } else {
                    assert(u[b] == t[b]);
                }
            }
        },
    }
    lemma_without_stem_distinct(t, stem);
}

} // verus!
