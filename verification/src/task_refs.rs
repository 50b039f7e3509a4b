//! How a task is named on the command line: by its full stem
//! `<date>-<code>-<nickname>`, by its identifier `<date>-<code>`, or by its
//! nickname.
use vstd::prelude::*;
use crate::automation::{chars_end_with, ends_with};
use crate::order::{lemma_lt_asymmetric, lemma_lt_total, lemma_lt_transitive, seq_lt, string_lt};
use crate::text::{chars_of, trim, trimmed_chars};

verus! {

/// The position of the first `-`.
pub open spec fn dash_index(s: Seq<char>) -> Option<int>
    decreases s.len(),
{
    if s.len() == 0 {
        None
    } else if s[0] == '-' {
        Some(0)
    } else {
        match dash_index(s.drop_first()) {
            Some(j) => Some(j + 1),
            None => None,
        }
    }
}

/// The identifier `<date>-<code>` of a stem; empty when it has fewer than
/// two hyphens.
pub open spec fn stem_id(stem: Seq<char>) -> Seq<char> {
    match dash_index(stem) {
        None => Seq::empty(),
        Some(a) => match dash_index(stem.skip(a + 1)) {
            None => Seq::empty(),
            Some(b) => stem.take(a + 1 + b),
        },
    }
}

/// The nickname of a stem: what follows its second hyphen; empty when it
/// has fewer than two hyphens.
pub open spec fn stem_nickname(stem: Seq<char>) -> Seq<char> {
    match dash_index(stem) {
        None => Seq::empty(),
        Some(a) => match dash_index(stem.skip(a + 1)) {
            None => Seq::empty(),
            Some(b) => stem.skip(a + 1).skip(b + 1),
        },
    }
}

/// Whether `task_ref` names the task with stem `stem`.
pub open spec fn ref_names(stem: Seq<char>, task_ref: Seq<char>) -> bool {
    stem == task_ref || stem_id(stem) == task_ref || stem_nickname(stem) == task_ref
}

/// A reference that names no task: a path, a file name, or blank.
pub open spec fn invalid_ref(task_ref: Seq<char>) -> bool {
    task_ref.contains('/') || ends_with(task_ref, ".md"@) || trim(task_ref).len() == 0
}

fn dash_position(s: &Vec<char>, from: usize) -> (r: Option<usize>)
    requires
        from <= s@.len(),
    ensures
        match r {
            Some(i) => from <= i < s@.len() && dash_index(s@.skip(from as int)) == Some(i - from),
            None => dash_index(s@.skip(from as int)) is None,
        },
{
    let ghost all = s@.skip(from as int);
    let mut j: usize = from;
    assert(s@.skip(j as int) =~= all);
    while j < s.len()
        invariant
            from <= j <= s@.len(),
            all == s@.skip(from as int),
            dash_index(all) == (match dash_index(s@.skip(j as int)) {
                Some(k) => Some(k + (j - from)),
                None => None,
            }),
        decreases s.len() - j,
    {
        assert(s@.skip(j as int)[0] == s@[j as int]);
        assert(s@.skip(j as int).drop_first() =~= s@.skip(j + 1));
        if s[j] == '-' {
            return Some(j);
        }
        j = j + 1;
    }
    assert(s@.skip(j as int) =~= Seq::<char>::empty());
    None
}

fn slice_chars(s: &Vec<char>, start: usize, end: usize) -> (r: Vec<char>)
    requires
        start <= end <= s@.len(),
    ensures
        r@ == s@.subrange(start as int, end as int),
{
    let mut out: Vec<char> = Vec::new();
    let mut k: usize = start;
    while k < end
        invariant
            start <= k <= end <= s@.len(),
            out@ == s@.subrange(start as int, k as int),
        decreases end - k,
    {
        out.push(s[k]);
        assert(s@.subrange(start as int, k + 1) =~= s@.subrange(start as int, k as int).push(s@[k as int]));
        k = k + 1;
    }
    out
}

/// Whether `task_ref` names the task with stem `stem`.
pub fn names_task(stem: &String, task_ref: &Vec<char>) -> (r: bool)
    ensures
        r == ref_names(stem@, task_ref@),
{
    let s = chars_of(stem.as_str());
    let n = s.len();
    assert(n == s@.len());
    if crate::text::chars_eq(s.as_slice(), task_ref.as_slice()) {
        return true;
    }
    let (id, nickname) = match dash_position(&s, 0) {
        None => (Vec::new(), Vec::new()),
        Some(a) => match dash_position(&s, a + 1) {
            None => (Vec::new(), Vec::new()),
            Some(b) => {
                assert(b < s@.len());
                let ghost rest = s@.skip(a + 1);
                assert(s@.skip(0) =~= s@);
                assert(rest.take(b - a - 1) =~= s@.subrange(a + 1, b as int));
                assert(s@.take(b as int) =~= s@.subrange(0, b as int));
                assert(rest.skip(b - a - 1 + 1) =~= s@.subrange(b + 1, s@.len() as int));
                assert(s@.skip(a + 1).skip((b - (a + 1)) as int) =~= s@.skip(b as int));
                (slice_chars(&s, 0, b), slice_chars(&s, b + 1, s.len()))
            },
        },
    };
    proof {
        assert(s@.skip(0) =~= s@);
        match dash_index(s@) {
            None => {
                assert(id@ =~= Seq::<char>::empty());
                assert(nickname@ =~= Seq::<char>::empty());
            },
            Some(a) => {
                match dash_index(s@.skip(a + 1)) {
                    None => {
                        assert(id@ =~= Seq::<char>::empty());
                        assert(nickname@ =~= Seq::<char>::empty());
                    },
                    Some(b) => {
                        assert(s@.take(a + 1 + b) =~= s@.subrange(0, a + 1 + b));
                        assert(s@.skip(a + 1).skip(b + 1) =~= s@.subrange(a + 1 + b + 1, s@.len() as int));
                    },
                }
            },
        }
    }
    crate::text::chars_eq(id.as_slice(), task_ref.as_slice()) || crate::text::chars_eq(
        nickname.as_slice(),
        task_ref.as_slice(),
    )
}

/// Whether `task_ref` can name no task.
pub fn ref_is_invalid(task_ref: &Vec<char>) -> (r: bool)
    ensures
        r == invalid_ref(task_ref@),
{
    let mut has_slash = false;
    let mut i: usize = 0;
    while i < task_ref.len()
        invariant
            i <= task_ref@.len(),
            has_slash == (exists|j: int| 0 <= j < i && task_ref@[j] == '/'),
        decreases task_ref.len() - i,
    {
        if task_ref[i] == '/' {
            has_slash = true;
        }
        i = i + 1;
    }
    assert(has_slash == task_ref@.contains('/'));
    let suffix = chars_of(".md");
    let text = crate::text::string_from_chars(task_ref.as_slice());
    let t = trimmed_chars(text.as_str());
    has_slash || chars_end_with(task_ref.as_slice(), suffix.as_slice()) || t.len() == 0
}

/// Strictly increasing: how the stems of a map are listed.
pub open spec fn strictly_sorted(s: Seq<Seq<char>>) -> bool {
    forall|i: int, j: int| 0 <= i < j < s.len() ==> seq_lt(#[trigger] s[i], #[trigger] s[j])
}

/// Two strictly increasing lists of the same strings are the same list.
pub proof fn lemma_sorted_lists_equal(a: Seq<Seq<char>>, b: Seq<Seq<char>>)
    requires
        strictly_sorted(a),
        strictly_sorted(b),
        a.to_set() == b.to_set(),
    ensures
        a == b,
    decreases a.len(),
{
    if a.len() == 0 {
        if b.len() > 0 {
            assert(b.to_set().contains(b[0]));
        }
        assert(b =~= a);
    } else if b.len() == 0 {
        assert(a.to_set().contains(a[0]));
    } else {
        assert(a.to_set().contains(a[0]));
        assert(b.to_set().contains(b[0]));
        let i = choose|i: int| 0 <= i < b.len() && b[i] == a[0];
        let j = choose|j: int| 0 <= j < a.len() && a[j] == b[0];
        if i > 0 && j > 0 {
            assert(seq_lt(b[0], b[i]));
            assert(seq_lt(a[0], a[j]));
            lemma_lt_asymmetric(a[0], b[0]);
        } else if i > 0 {
            assert(seq_lt(b[0], b[i]));
            crate::order::lemma_lt_irreflexive(a[0]);
        } else if j > 0 {
            assert(seq_lt(a[0], a[j]));
            crate::order::lemma_lt_irreflexive(b[0]);
        }
        assert(a[0] == b[0]);
        let a1 = a.drop_first();
        let b1 = b.drop_first();
        assert(strictly_sorted(a1)) by {
            assert forall|x: int, y: int| 0 <= x < y < a1.len() implies seq_lt(#[trigger] a1[x], #[trigger] a1[y]) by {
                assert(a1[x] == a[x + 1] && a1[y] == a[y + 1]);
            }
        }
        assert(strictly_sorted(b1)) by {
            assert forall|x: int, y: int| 0 <= x < y < b1.len() implies seq_lt(#[trigger] b1[x], #[trigger] b1[y]) by {
                assert(b1[x] == b[x + 1] && b1[y] == b[y + 1]);
            }
        }
        assert(a1.to_set() =~= b1.to_set()) by {
            assert forall|x: Seq<char>| a1.to_set().contains(x) implies b1.to_set().contains(x) by {
                let p = choose|p: int| 0 <= p < a1.len() && a1[p] == x;
                assert(a[p + 1] == x);
                assert(seq_lt(a[0], x));
                assert(b.to_set().contains(x));
                let q = choose|q: int| 0 <= q < b.len() && b[q] == x;
                if q == 0 {
                    crate::order::lemma_lt_irreflexive(x);
                }
                assert(b1[q - 1] == x);
            }
            assert forall|x: Seq<char>| b1.to_set().contains(x) implies a1.to_set().contains(x) by {
                let p = choose|p: int| 0 <= p < b1.len() && b1[p] == x;
                assert(b[p + 1] == x);
                assert(seq_lt(b[0], x));
                assert(a.to_set().contains(x));
                let q = choose|q: int| 0 <= q < a.len() && a[q] == x;
                if q == 0 {
                    crate::order::lemma_lt_irreflexive(x);
                }
                assert(a1[q - 1] == x);
            }
        }
        lemma_sorted_lists_equal(a1, b1);
        assert(a =~= seq![a[0]] + a1);
        assert(b =~= seq![b[0]] + b1);
    }
}

/// Inserts `x`, which `v` lacks, keeping `v` strictly increasing.
pub fn insert_sorted_name(v: &mut Vec<String>, x: &String)
    requires
        strictly_sorted(crate::ci_types::strings_view(old(v)@)),
        !crate::ci_types::strings_view(old(v)@).contains(x@),
    ensures
        strictly_sorted(crate::ci_types::strings_view(final(v)@)),
        crate::ci_types::strings_view(final(v)@).to_set() == crate::ci_types::strings_view(old(v)@).to_set().insert(x@),
{
    let ghost before = crate::ci_types::strings_view(v@);
    let mut i: usize = 0;
    while i < v.len() && string_lt(&v[i], x)
        invariant
            i <= v@.len(),
            before == crate::ci_types::strings_view(v@),
            forall|j: int| 0 <= j < i ==> seq_lt(#[trigger] before[j], x@),
        decreases v.len() - i,
    {
        i = i + 1;
    }
    v.insert(i, x.clone());
    let ghost after = crate::ci_types::strings_view(v@);
    assert(after =~= before.insert(i as int, x@));
    assert forall|a: int, b: int| 0 <= a < b < after.len() implies seq_lt(#[trigger] after[a], #[trigger] after[b]) by {
        if b < i {
            assert(after[a] == before[a] && after[b] == before[b]);
        } else if b == i {
            assert(after[a] == before[a]);
        } else if a == i {
            assert(after[b] == before[b - 1]);
            assert(before[i as int] != x@);
            assert(!seq_lt(before[i as int], x@));
            lemma_lt_total(before[i as int], x@);
            if b - 1 > i {
                assert(seq_lt(before[i as int], before[b - 1]));
                lemma_lt_transitive(x@, before[i as int], before[b - 1]);
            }
        } else if a < i {
            assert(after[a] == before[a] && after[b] == before[b - 1]);
            if a < b - 1 {
                assert(seq_lt(before[a], before[b - 1]));
            } else {
                assert(false);
            }
        } else {
            assert(after[a] == before[a - 1] && after[b] == before[b - 1]);
        }
    }
    assert(after.to_set() =~= before.to_set().insert(x@)) by {
        assert forall|y: Seq<char>| after.to_set().contains(y) <==> before.to_set().insert(x@).contains(y) by {
            if after.to_set().contains(y) {
                let p = choose|p: int| 0 <= p < after.len() && after[p] == y;
                if p < i {
                    assert(before[p] == y);
                } else if p > i {
                    assert(before[p - 1] == y);
                }
            }
            if before.to_set().contains(y) {
                let p = choose|p: int| 0 <= p < before.len() && before[p] == y;
                if p < i {
                    assert(after[p] == y);
                } else {
                    assert(after[p + 1] == y);
                }
            }
            if y == x@ {
                assert(after[i as int] == y);
            }
        }
    }
}

} // verus!
