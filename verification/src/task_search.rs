//! Searching tasks: a task matches when its title, summary or context holds
//! the query, compared in lower case; results come by status, then stem.
use vstd::prelude::*;
use crate::order::{lemma_lt_asymmetric, lemma_lt_irreflexive, lemma_lt_total, lemma_lt_transitive, seq_lt, string_lt};

verus! {

/// The lower-case form of `s`, as `str::to_lowercase` gives it.
pub uninterp spec fn lowercase(s: Seq<char>) -> Seq<char>;

/// `str::to_lowercase`: its result depends on the text alone, by the
/// Unicode lower-case mapping. What that mapping is stays unstated here.
#[verifier::external_body]
pub(crate) fn to_lowercase(s: &str) -> (r: String)
    ensures
        r@ == lowercase(s@),
{
    s.to_lowercase()
}

/// Whether `q` occurs in `s`.
pub open spec fn has_substring(s: Seq<char>, q: Seq<char>) -> bool {
    exists|i: int| 0 <= i && i + q.len() <= s.len() && #[trigger] s.subrange(i, i + q.len()) == q
}

/// Whether `q` occurs in `s`.
pub fn contains_text(s: &str, q: &str) -> (r: bool)
    ensures
        r == has_substring(s@, q@),
{
    let a = crate::text::chars_of(s);
    let b = crate::text::chars_of(q);
    let n = a.len();
    let m = b.len();
    if m > n {
        return false;
    }
    if m == 0 {
        assert(s@.subrange(0, 0int + q@.len()) =~= q@);
        return true;
    }
    let last = n - m;
    let mut i: usize = 0;
    while i <= last
        invariant
            n == a@.len(),
            m == b@.len(),
            0 < m <= n,
            last == n - m,
            a@ == s@,
            b@ == q@,
            i <= last + 1,
            forall|j: int| 0 <= j < i ==> #[trigger] a@.subrange(j, j + m) != b@,
        decreases last + 1 - i,
    {
        let mut k: usize = 0;
        let mut same = true;
        while k < m
            invariant
                n == a@.len(),
                m == b@.len(),
                i + m <= n,
                k <= m,
                same == (forall|p: int| 0 <= p < k ==> a@[i + p] == b@[p]),
            decreases m - k,
        {
            if a[i + k] != b[k] {
                same = false;
            }
            k = k + 1;
        }
        if same {
            assert(a@.subrange(i as int, i + m) =~= b@);
            assert(s@.subrange(i as int, i as int + q@.len()) == q@);
            return true;
        }
        assert(a@.subrange(i as int, i + m) != b@) by {
            let p = choose|p: int| 0 <= p < m && a@[i + p] != b@[p];
            assert(a@.subrange(i as int, i + m)[p] == a@[i + p]);
        }
        i = i + 1;
    }
    assert forall|j: int| 0 <= j && j + q@.len() <= s@.len() implies #[trigger] s@.subrange(j, j + q@.len()) != q@ by {
        assert(a@.subrange(j, j + m) != b@);
    }
    false
}

/// Results ordered by status, then stem.
pub open spec fn pair_lt(a: (Seq<char>, Seq<char>), b: (Seq<char>, Seq<char>)) -> bool {
    seq_lt(a.0, b.0) || (a.0 == b.0 && seq_lt(a.1, b.1))
}

pub proof fn lemma_pair_order(a: (Seq<char>, Seq<char>), b: (Seq<char>, Seq<char>), c: (Seq<char>, Seq<char>))
    ensures
        !pair_lt(a, a),
        pair_lt(a, b) && pair_lt(b, c) ==> pair_lt(a, c),
        a != b ==> pair_lt(a, b) || pair_lt(b, a),
        !(pair_lt(a, b) && pair_lt(b, a)),
{
    lemma_lt_irreflexive(a.0);
    lemma_lt_irreflexive(a.1);
    lemma_lt_asymmetric(a.0, b.0);
    lemma_lt_asymmetric(a.1, b.1);
    if pair_lt(a, b) && pair_lt(b, c) {
        if seq_lt(a.0, b.0) && seq_lt(b.0, c.0) {
            lemma_lt_transitive(a.0, b.0, c.0);
        } else if a.0 == b.0 && b.0 == c.0 {
            lemma_lt_transitive(a.1, b.1, c.1);
        }
    }
    if a != b {
        if a.0 != b.0 {
            lemma_lt_total(a.0, b.0);
        } else {
            assert(a.1 != b.1);
            lemma_lt_total(a.1, b.1);
        }
    }
}

/// Whether `a` comes before `b` by status, then stem.
pub fn pair_less(a0: &String, a1: &String, b0: &String, b1: &String) -> (r: bool)
    ensures
        r == pair_lt((a0@, a1@), (b0@, b1@)),
{
    string_lt(a0, b0) || (crate::text::str_eq(a0.as_str(), b0.as_str()) && string_lt(a1, b1))
}

} // verus!
