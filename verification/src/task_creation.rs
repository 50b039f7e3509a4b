//! Choosing the stem of a new task: `<id>-<nickname>`, where the nickname is
//! the title's stem, or that stem with the first free number `-2`, `-3`, ...
//! when another task already ends with it.
use vstd::prelude::*;
use crate::automation::{chars_end_with, ends_with};
use crate::status_table::{StatusEntries, StatusTable};
use crate::text::{chars_of, decimal_string, decimal_text, is_digit};

verus! {

/// The nickname tried `n`-th: the base itself, then `base-2`, `base-3`, ...
pub open spec fn nickname_candidate(base: Seq<char>, n: nat) -> Seq<char> {
    if n <= 1 {
        base
    } else {
        base + seq!['-'] + decimal_text(n)
    }
}

/// Whether some task stem already ends with `-<nickname>`.
pub open spec fn nickname_taken(t: StatusEntries, nickname: Seq<char>) -> bool {
    exists|i: int| 0 <= i < t.len() && ends_with(#[trigger] t[i].0, seq!['-'] + nickname)
}

/// `n` numbers the first nickname no stem ends with.
pub open spec fn first_free(t: StatusEntries, base: Seq<char>, n: nat) -> bool {
    &&& n >= 1
    &&& !nickname_taken(t, nickname_candidate(base, n))
    &&& forall|j: nat| 1 <= j < n ==> nickname_taken(t, #[trigger] nickname_candidate(base, j))
}

/// The stem a new task with identifier `task_id` and title stem `base` gets.
pub open spec fn creation_stem(t: StatusEntries, base: Seq<char>, task_id: Seq<char>) -> Seq<char> {
    task_id + seq!['-'] + nickname_candidate(base, choose|n: nat| first_free(t, base, n))
}

pub proof fn lemma_first_free_unique(t: StatusEntries, base: Seq<char>, a: nat, b: nat)
    requires
        first_free(t, base, a),
        first_free(t, base, b),
    ensures
        a == b,
{
    if a < b {
        assert(nickname_taken(t, nickname_candidate(base, a)));
    } else if b < a {
        assert(nickname_taken(t, nickname_candidate(base, b)));
    }
}

/// A stem ends with at most one numbered nickname of a base.
proof fn lemma_one_numbered_suffix(key: Seq<char>, base: Seq<char>, j: nat, k: nat)
    requires
        j >= 2,
        k >= 2,
        ends_with(key, seq!['-'] + nickname_candidate(base, j)),
        ends_with(key, seq!['-'] + nickname_candidate(base, k)),
    ensures
        j == k,
    decreases 0nat,
{
    let a = seq!['-'] + nickname_candidate(base, j);
    let b = seq!['-'] + nickname_candidate(base, k);
    let dj = decimal_text(j);
    let dk = decimal_text(k);
    crate::lock_file::lemma_decimal_text(j);
    crate::lock_file::lemma_decimal_text(k);
    assert(a =~= seq!['-'] + base + seq!['-'] + dj);
    assert(b =~= seq!['-'] + base + seq!['-'] + dk);
    let h = base.len() as int + 2;
    assert(a.skip(h) =~= dj);
    assert(b.skip(h) =~= dk);
    if a.len() == b.len() {
        assert(a =~= b) by {
            assert(key.skip(key.len() - a.len()) == a);
            assert(key.skip(key.len() - b.len()) == b);
        }
        crate::lock_file::lemma_parse_decimal(j, j + k);
        crate::lock_file::lemma_parse_decimal(k, j + k);
    } else if a.len() < b.len() {
        let p = a.len() - dj.len() - 1;
        assert(a[p] == '-');
        let q = key.len() - dj.len() - 1;
        assert(key[q] == a[p]) by {
            assert(key.skip(key.len() - a.len())[p] == a[p]);
        }
        let r = b.len() - dj.len() - 1;
        assert(key[q] == b[r]) by {
            assert(key.skip(key.len() - b.len())[r] == b[r]);
        }
        assert(b[r] == dk[r - h]);
        assert(is_digit(dk[r - h]));
    } else {
        let p = b.len() - dk.len() - 1;
        assert(b[p] == '-');
        let q = key.len() - dk.len() - 1;
        assert(key[q] == b[p]) by {
            assert(key.skip(key.len() - b.len())[p] == b[p]);
        }
        let r = a.len() - dk.len() - 1;
        assert(key[q] == a[r]) by {
            assert(key.skip(key.len() - a.len())[r] == a[r]);
        }
        assert(a[r] == dj[r - h]);
        assert(is_digit(dj[r - h]));
    }
}

/// Whether `key` ends with a numbered nickname below `k`.
pub open spec fn numbered_before(key: Seq<char>, base: Seq<char>, k: nat) -> bool {
    exists|j: nat| 2 <= j < k && ends_with(key, seq!['-'] + #[trigger] nickname_candidate(base, j))
}

/// How many stems end with no numbered nickname below `k`.
pub open spec fn unnumbered(t: StatusEntries, base: Seq<char>, k: nat) -> nat
    decreases t.len(),
{
    if t.len() == 0 {
        0
    } else {
        unnumbered(t.drop_last(), base, k) + if numbered_before(t.last().0, base, k) {
            0nat
        } else {
            1nat
        }
    }
}

proof fn lemma_unnumbered_start(t: StatusEntries, base: Seq<char>)
    ensures
        unnumbered(t, base, 2) == t.len(),
    decreases t.len(),
{
    if t.len() > 0 {
        lemma_unnumbered_start(t.drop_last(), base);
    }
}

/// Trying the next number leaves fewer stems unnumbered whenever the
/// current numbered nickname is taken.
proof fn lemma_unnumbered_drops(t: StatusEntries, base: Seq<char>, k: nat)
    requires
        k >= 2,
    ensures
        unnumbered(t, base, k + 1) <= unnumbered(t, base, k),
        nickname_taken(t, nickname_candidate(base, k)) ==> unnumbered(t, base, k + 1) < unnumbered(t, base, k),
    decreases t.len(),
{
    if t.len() > 0 {
        let rest = t.drop_last();
        lemma_unnumbered_drops(rest, base, k);
        let key = t.last().0;
        if numbered_before(key, base, k) {
            let j = choose|j: nat| 2 <= j < k && ends_with(key, seq!['-'] + #[trigger] nickname_candidate(base, j));
            assert(numbered_before(key, base, k + 1)) by {
                assert(2 <= j < k + 1 && ends_with(key, seq!['-'] + nickname_candidate(base, j)));
            }
        }
        if nickname_taken(t, nickname_candidate(base, k)) {
            let i = choose|i: int| 0 <= i < t.len() && ends_with(#[trigger] t[i].0, seq!['-'] + nickname_candidate(base, k));
            if i < t.len() - 1 {
                assert(rest[i] == t[i]);
                assert(nickname_taken(rest, nickname_candidate(base, k)));
            } else {
                assert(numbered_before(key, base, k + 1)) by {
                    assert(2 <= k < k + 1 && ends_with(key, seq!['-'] + nickname_candidate(base, k)));
                }
                if numbered_before(key, base, k) {
                    let j = choose|j: nat| 2 <= j < k && ends_with(key, seq!['-'] + #[trigger] nickname_candidate(base, j));
                    lemma_one_numbered_suffix(key, base, j, k);
                }
            }
        }
    }
}

proof fn lemma_unnumbered_bounded(t: StatusEntries, base: Seq<char>, k: nat)
    ensures
        unnumbered(t, base, k) <= t.len(),
    decreases t.len(),
{
    if t.len() > 0 {
        lemma_unnumbered_bounded(t.drop_last(), base, k);
    }
}

fn nickname_is_taken(statuses: &StatusTable, nickname: &Vec<char>) -> (r: bool)
    ensures
        r == nickname_taken(statuses@, nickname@),
{
    let mut tail: Vec<char> = Vec::new();
    tail.push('-');
    let mut k: usize = 0;
    while k < nickname.len()
        invariant
            k <= nickname@.len(),
            tail@ == seq!['-'] + nickname@.take(k as int),
        decreases nickname.len() - k,
    {
        tail.push(nickname[k]);
        assert(nickname@.take(k + 1) =~= nickname@.take(k as int).push(nickname@[k as int]));
        k = k + 1;
    }
    assert(nickname@.take(k as int) =~= nickname@);
    let mut i: usize = 0;
    while i < statuses.entries.len()
        invariant
            i <= statuses@.len(),
            tail@ == seq!['-'] + nickname@,
            forall|j: int| 0 <= j < i ==> !ends_with(#[trigger] statuses@[j].0, tail@),
        decreases statuses.entries.len() - i,
    {
        let key = chars_of(statuses.entries[i].0.as_str());
        if chars_end_with(key.as_slice(), tail.as_slice()) {
            assert(statuses@[i as int].0 == key@);
            return true;
        }
        i = i + 1;
    }
    false
}

fn append_chars(out: &mut Vec<char>, s: &Vec<char>)
    ensures
        final(out)@ == old(out)@ + s@,
{
    let ghost start = out@;
    let mut k: usize = 0;
    while k < s.len()
        invariant
            k <= s@.len(),
            out@ == start + s@.take(k as int),
        decreases s.len() - k,
    {
        out.push(s[k]);
        assert(s@.take(k + 1) =~= s@.take(k as int).push(s@[k as int]));
        k = k + 1;
    }
    assert(s@.take(k as int) =~= s@);
}

fn numbered_nickname(base: &Vec<char>, n: usize) -> (r: Vec<char>)
    requires
        n >= 2,
    ensures
        r@ == nickname_candidate(base@, n as nat),
{
    let mut r: Vec<char> = Vec::new();
    append_chars(&mut r, base);
    r.push('-');
    let digits = chars_of(decimal_string(n as u64).as_str());
    append_chars(&mut r, &digits);
    assert(r@ =~= base@ + seq!['-'] + decimal_text(n as nat));
    r
}

/// The stem a new task gets: its identifier, a hyphen, and the first nickname
/// that no existing stem ends with.
pub fn task_stem_for_creation(statuses: &StatusTable, base: &String, task_id: &String) -> (r: String)
    requires
        statuses@.len() + 2 < usize::MAX,
    ensures
        r@ == creation_stem(statuses@, base@, task_id@),
{
    let ghost t = statuses@;
    let base_chars = chars_of(base.as_str());
    let mut nickname = chars_of(base.as_str());
    let ghost mut n: nat = 1;
    if nickname_is_taken(statuses, &nickname) {
        let mut k: usize = 2;
        proof {
            lemma_unnumbered_start(t, base@);
        }
        nickname = numbered_nickname(&base_chars, k);
        while nickname_is_taken(statuses, &nickname)
            invariant
                2 <= k,
                t == statuses@,
                t.len() + 2 < usize::MAX,
                base_chars@ == base@,
                nickname@ == nickname_candidate(base@, k as nat),
                k - 2 + unnumbered(t, base@, k as nat) <= t.len(),
                forall|j: nat| 1 <= j < k ==> nickname_taken(t, #[trigger] nickname_candidate(base@, j)),
            decreases unnumbered(t, base@, k as nat),
        {
            proof {
                lemma_unnumbered_drops(t, base@, k as nat);
                lemma_unnumbered_bounded(t, base@, (k + 1) as nat);
            }
            k = k + 1;
            nickname = numbered_nickname(&base_chars, k);
        }
        proof {
            n = k as nat;
        }
    }
    assert(first_free(t, base@, n));
    proof {
        let c = choose|m: nat| first_free(t, base@, m);
        lemma_first_free_unique(t, base@, c, n);
    }
    let mut out = chars_of(task_id.as_str());
    out.push('-');
    append_chars(&mut out, &nickname);
    crate::text::string_from_chars(out.as_slice())
}

/// Whether a queue of `queued` tasks may admit one more under the limit
/// `max_queued`.
pub fn backlog_admission_allowed(queued: usize, max_queued: usize) -> (r: bool)
    ensures
        r == (queued < max_queued),
{
    queued < max_queued
}


/// The stem chosen for a new task belongs to no existing task: every
/// existing stem ending with `-<nickname>` made that nickname taken.
pub proof fn lemma_creation_stem_is_new(t: StatusEntries, base: Seq<char>, task_id: Seq<char>, n: nat)
    requires
        first_free(t, base, n),
    ensures
        forall|i: int| 0 <= i < t.len() ==> #[trigger] t[i].0 != creation_stem(t, base, task_id),
{
    let c = choose|m: nat| first_free(t, base, m);
    lemma_first_free_unique(t, base, c, n);
    let stem = creation_stem(t, base, task_id);
    let tail = seq!['-'] + nickname_candidate(base, n);
    assert(stem =~= task_id + tail);
    assert(stem.skip(stem.len() - tail.len()) =~= tail);
    assert forall|i: int| 0 <= i < t.len() implies #[trigger] t[i].0 != stem by {
        if t[i].0 == stem {
            assert(ends_with(t[i].0, tail));
            assert(nickname_taken(t, nickname_candidate(base, n)));
        }
    }
}

} // verus!
