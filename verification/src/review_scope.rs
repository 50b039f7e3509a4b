//! The set of paths that a final review covers: which pathspecs may declare
//! a scope, which literal paths stay inside the repository, and the sorted,
//! deduplicated union of everything git listed for the scope.
use vstd::prelude::*;
use crate::graph::{names, Node};
use crate::order::{lemma_lt_irreflexive, seq_lt};
use crate::board::{insert_sorted_name, strictly_ascending};
use crate::text::{chars_of, starts_with, str_eq, string_from_chars};
use crate::fingerprint::{entry_for, entry_views, find_entry, is_file_mode, EntryView, TreeEntryRecord};

verus! {

/// Most paths a review scope may hold.
pub const FINAL_REVIEW_SCOPE_MAX_PATHS: usize = 100000;

/// Why a review scope cannot be taken.
#[derive(Clone, Copy, Debug, PartialEq, Eq, Structural)]
pub enum ScopeSnapshotError {
    /// A pathspec is empty, starts with `-` or `/`, or holds a NUL.
    ScopeInvalid,
    /// A `:(literal)` path is empty, absolute, or climbs with `..`.
    LiteralPathInvalid,
    /// More distinct paths than the scope may hold.
    TooManyPaths { paths: usize },
    /// The pathspecs select no path.
    Empty,
}

impl ScopeSnapshotError {
    /// The limit that a too-large scope's message names, when the refusal
    /// is for a limit.
    pub fn limit_condition(self) -> (r: Option<&'static str>)
        ensures
            match self {
                ScopeSnapshotError::TooManyPaths { .. } => r matches Some(c) && c@ == "condition=path_count"@,
                _ => r is None,
            },
    {
        match self {
            ScopeSnapshotError::TooManyPaths { .. } => Some("condition=path_count"),
            _ => None,
        }
    }
}

/// A pathspec that may declare a review scope.
pub open spec fn pathspec_valid(p: Seq<char>) -> bool {
    &&& p.len() > 0
    &&& p[0] != '-'
    &&& p[0] != '/'
    &&& !p.contains('\0')
}

/// A scope is one or more valid pathspecs.
pub open spec fn scope_valid(scope: Seq<Seq<char>>) -> bool {
    scope.len() > 0 && forall|i: int| 0 <= i < scope.len() ==> pathspec_valid(#[trigger] scope[i])
}

fn pathspec_is_valid(p: &String) -> (r: bool)
    ensures
        r == pathspec_valid(p@),
{
    let c = chars_of(p.as_str());
    if c.len() == 0 || c[0] == '-' || c[0] == '/' {
        return false;
    }
    let mut i: usize = 0;
    while i < c.len()
        invariant
            i <= c@.len(),
            c@ == p@,
            forall|j: int| 0 <= j < i ==> c@[j] != '\0',
        decreases c.len() - i,
    {
        if c[i] == '\0' {
            assert(p@.contains('\0')) by {
                assert(p@[i as int] == '\0');
            }
            return false;
        }
        i = i + 1;
    }
    true
}

/// Whether the declared pathspecs may form a review scope.
pub fn final_review_scope_valid(scope: &Vec<String>) -> (r: bool)
    ensures
        r == scope_valid(crate::fingerprint::strs(scope@)),
{
    let ghost s = crate::fingerprint::strs(scope@);
    if scope.len() == 0 {
        return false;
    }
    let mut i: usize = 0;
    while i < scope.len()
        invariant
            i <= scope@.len(),
            s == crate::fingerprint::strs(scope@),
            forall|j: int| 0 <= j < i ==> pathspec_valid(#[trigger] s[j]),
        decreases scope.len() - i,
    {
        if !pathspec_is_valid(&scope[i]) {
            assert(!pathspec_valid(s[i as int]));
            return false;
        }
        i = i + 1;
    }
    true
}

// ---------------------------------------------------------------------------
// Literal paths

/// The prefix of the `literal` pathspec magic.
pub open spec fn literal_prefix() -> Seq<char> {
    seq![':', '(', 'l', 'i', 't', 'e', 'r', 'a', 'l', ')']
}

/// Whether `..` stands as a whole `/`-separated component of `path`.
pub open spec fn climbs(path: Seq<char>) -> bool {
    exists|i: int|
        0 <= i && i + 2 <= path.len() && (i == 0 || path[i - 1] == '/') && (i + 2 == path.len()
            || path[i + 2] == '/') && #[trigger] path[i] == '.' && path[i + 1] == '.'
}

/// A literal path that stays inside the repository: not empty, not
/// absolute, and with no `..` component.
pub open spec fn literal_path_valid(path: Seq<char>) -> bool {
    path.len() > 0 && path[0] != '/' && !climbs(path)
}

pub(crate) fn path_climbs(p: &Vec<char>) -> (r: bool)
    ensures
        r == climbs(p@),
{
    let n = p.len();
    let mut i: usize = 0;
    while i < n
        invariant
            i <= n,
            n == p@.len(),
            forall|k: int|
                0 <= k < i ==> !(k + 2 <= p@.len() && (k == 0 || p@[k - 1] == '/') && (k + 2
                    == p@.len() || p@[k + 2] == '/') && #[trigger] p@[k] == '.' && p@[k + 1]
                    == '.'),
        decreases n - i,
    {
        if n - i >= 2 && (i == 0 || p[i - 1] == '/') && (n - i == 2 || p[i + 2] == '/')
            && p[i] == '.' && p[i + 1] == '.' {
            return true;
        }
        i = i + 1;
    }
    false
}

/// The literal paths that the scope names, in order.
pub open spec fn scope_literals(scope: Seq<Seq<char>>) -> Seq<Seq<char>>
    decreases scope.len(),
{
    if scope.len() == 0 {
        Seq::empty()
    } else {
        let rest = scope_literals(scope.drop_last());
        if starts_with(scope.last(), literal_prefix()) {
            rest.push(scope.last().skip(10))
        } else {
            rest
        }
    }
}

/// Whether every literal path of the scope is valid.
pub open spec fn literals_valid(scope: Seq<Seq<char>>) -> bool {
    forall|i: int| 0 <= i < scope_literals(scope).len() ==> literal_path_valid(
        #[trigger] scope_literals(scope)[i],
    )
}

fn literal_path_of(p: &String) -> (r: Option<Vec<char>>)
    ensures
        match r {
            Some(v) => starts_with(p@, literal_prefix()) && v@ == p@.skip(10),
            None => !starts_with(p@, literal_prefix()),
        },
{
    let c = chars_of(p.as_str());
    let prefix = vec![':', '(', 'l', 'i', 't', 'e', 'r', 'a', 'l', ')'];
    assert(prefix@ =~= literal_prefix());
    if !crate::text::chars_start_with(c.as_slice(), prefix.as_slice()) {
        return None;
    }
    Some(crate::text::chars_from(c.as_slice(), 10))
}

/// The literal paths of a scope, each checked to stay inside the
/// repository.
pub fn final_review_literal_paths(scope: &Vec<String>) -> (r: Result<
    Vec<String>,
    ScopeSnapshotError,
>)
    ensures
        match r {
            Ok(v) => literals_valid(crate::fingerprint::strs(scope@)) && crate::fingerprint::strs(
                v@,
            ) == scope_literals(crate::fingerprint::strs(scope@)),
            Err(e) => e == ScopeSnapshotError::LiteralPathInvalid && !literals_valid(
                crate::fingerprint::strs(scope@),
            ),
        },
{
    let ghost s = crate::fingerprint::strs(scope@);
    let mut out: Vec<String> = Vec::new();
    let mut i: usize = 0;
    assert(s.take(0) =~= Seq::<Seq<char>>::empty());
    assert(crate::fingerprint::strs(out@) =~= Seq::<Seq<char>>::empty());
    while i < scope.len()
        invariant
            i <= scope@.len(),
            s == crate::fingerprint::strs(scope@),
            crate::fingerprint::strs(out@) == scope_literals(s.take(i as int)),
            literals_valid(s.take(i as int)),
        decreases scope.len() - i,
    {
        let ghost pre = s.take(i as int);
        assert(s.take(i + 1).drop_last() =~= pre);
        assert(s.take(i + 1).last() == scope@[i as int]@);
        match literal_path_of(&scope[i]) {
            None => {},
            Some(path) => {
                let bad = path.len() == 0 || path[0] == '/' || path_climbs(&path);
                if bad {
                    proof {
                        let lits = scope_literals(s.take(i + 1));
                        assert(lits == scope_literals(pre).push(path@));
                        assert(!literal_path_valid(lits[lits.len() - 1]));
                        lemma_literals_prefix_invalid(s, i + 1);
                    }
                    return Err(ScopeSnapshotError::LiteralPathInvalid);
                }
                let ghost before = crate::fingerprint::strs(out@);
                out.push(string_from_chars(path.as_slice()));
                assert(crate::fingerprint::strs(out@) =~= before.push(path@));
            },
        }
        proof {
            let lits = scope_literals(s.take(i + 1));
            assert forall|k: int| 0 <= k < lits.len() implies literal_path_valid(#[trigger] lits[k]) by {
                if k < scope_literals(pre).len() {
                    assert(lits[k] == scope_literals(pre)[k]);
                }
            }
        }
        i = i + 1;
    }
    assert(s.take(i as int) =~= s);
    Ok(out)
}

proof fn lemma_literals_extend(s: Seq<Seq<char>>, k: int)
    requires
        0 <= k <= s.len(),
    ensures
        scope_literals(s.take(k)).len() <= scope_literals(s).len(),
        forall|j: int|
            0 <= j < scope_literals(s.take(k)).len() ==> #[trigger] scope_literals(s.take(k))[j]
                == scope_literals(s)[j],
    decreases s.len() - k,
{
    if k == s.len() {
        assert(s.take(k) =~= s);
    } else {
        lemma_literals_extend(s, k + 1);
        assert(s.take(k + 1).drop_last() =~= s.take(k));
        let a = scope_literals(s.take(k));
        let b = scope_literals(s.take(k + 1));
        assert forall|j: int| 0 <= j < a.len() implies #[trigger] a[j] == scope_literals(s)[j] by {
            assert(a[j] == b[j]);
        }
    }
}

proof fn lemma_literals_prefix_invalid(s: Seq<Seq<char>>, k: int)
    requires
        0 <= k <= s.len(),
        !literals_valid(s.take(k)),
    ensures
        !literals_valid(s),
{
    lemma_literals_extend(s, k);
    let j = choose|j: int|
        0 <= j < scope_literals(s.take(k)).len() && !literal_path_valid(
            #[trigger] scope_literals(s.take(k))[j],
        );
    assert(scope_literals(s.take(k))[j] == scope_literals(s)[j]);
}

// ---------------------------------------------------------------------------
// Commit ranges

/// Whether `..` starts at `i`.
pub open spec fn dots_at(s: Seq<char>, i: int) -> bool {
    0 <= i && i + 1 < s.len() && s[i] == '.' && s[i + 1] == '.'
}

/// The first position where `..` occurs in `s`.
pub open spec fn first_dots(s: Seq<char>) -> Option<int> {
    if exists|i: int| #[trigger] dots_at(s, i) {
        Some(choose|i: int| #[trigger] dots_at(s, i) && forall|j: int| 0 <= j < i ==> !#[trigger] dots_at(s, j))
    } else {
        None
    }
}

pub open spec fn has_dots(s: Seq<char>) -> bool {
    first_dots(s) is Some
}

/// The endpoints of a `<start>..<end>` commit range: split at the first
/// `..`, both sides non-empty and no `..` after it.
pub open spec fn range_endpoints(r: Seq<char>) -> Option<(Seq<char>, Seq<char>)> {
    match first_dots(r) {
        None => None,
        Some(i) => {
            let start = r.take(i);
            let end = r.skip(i + 2);
            if start.len() == 0 || end.len() == 0 || has_dots(end) {
                None
            } else {
                Some((start, end))
            }
        },
    }
}

fn find_dots(s: &Vec<char>) -> (r: Option<usize>)
    ensures
        match r {
            Some(i) => first_dots(s@) == Some(i as int) && i + 1 < s@.len(),
            None => first_dots(s@) is None,
        },
{
    let n = s.len();
    let mut i: usize = 0;
    while n - i >= 2
        invariant
            i <= n,
            n == s@.len(),
            forall|j: int| 0 <= j < i ==> !#[trigger] dots_at(s@, j),
        decreases n - i,
    {
        if s[i] == '.' && s[i + 1] == '.' {
            proof {
                assert(dots_at(s@, i as int));
                let c = choose|c: int| #[trigger] dots_at(s@, c) && forall|j: int| 0 <= j < c ==> !#[trigger] dots_at(s@, j);
                assert(dots_at(s@, c) && forall|j: int| 0 <= j < c ==> !#[trigger] dots_at(s@, j)) by {
                    assert(forall|j: int| 0 <= j < i ==> !#[trigger] dots_at(s@, j));
                }
                if c < i {
                    assert(!dots_at(s@, c));
                } else if c > i {
                    assert(!dots_at(s@, i as int));
                }
            }
            return Some(i);
        }
        i = i + 1;
    }
    proof {
        if exists|j: int| #[trigger] dots_at(s@, j) {
            let j = choose|j: int| #[trigger] dots_at(s@, j);
            assert(j < i);
        }
    }
    None
}

/// Splits a `<start>..<end>` commit range into its endpoints.
pub fn split_commit_range(range: &str) -> (r: Option<(String, String)>)
    ensures
        match r {
            Some((a, b)) => range_endpoints(range@) == Some((a@, b@)),
            None => range_endpoints(range@) is None,
        },
{
    let c = chars_of(range);
    let i = match find_dots(&c) {
        None => {
            return None;
        },
        Some(i) => i,
    };
    let mut head: Vec<char> = Vec::new();
    let mut k: usize = 0;
    while k < i
        invariant
            k <= i,
            i + 1 < c@.len(),
            head@ == c@.take(k as int),
        decreases i - k,
    {
        head.push(c[k]);
        assert(c@.take(k + 1) =~= c@.take(k as int).push(c@[k as int]));
        k = k + 1;
    }
    let n = c.len();
    assert(i + 2 <= n);
    let tail = crate::text::chars_from(c.as_slice(), i + 2);
    if head.len() == 0 || tail.len() == 0 {
        return None;
    }
    if find_dots(&tail).is_some() {
        return None;
    }
    Some((string_from_chars(head.as_slice()), string_from_chars(tail.as_slice())))
}

// ---------------------------------------------------------------------------
// The union of listed paths

/// Every path of every list.
pub open spec fn listed_paths(lists: Seq<Vec<String>>) -> Set<Node> {
    Set::new(
        |p: Node|
            exists|i: int, j: int|
                0 <= i < lists.len() && 0 <= j < lists[i]@.len() && (#[trigger] lists[i]@[j])@
                    == p,
    )
}

proof fn lemma_ascending_count(v: Seq<String>)
    requires
        strictly_ascending(v),
    ensures
        names(v).finite(),
        names(v).len() == v.len(),
{
    let w = v.map_values(|s: String| s@);
    assert(w.no_duplicates()) by {
        assert forall|i: int, j: int| 0 <= i < w.len() && 0 <= j < w.len() && i != j implies w[i]
            != w[j] by {
            if w[i] == w[j] {
                lemma_lt_irreflexive(w[i]);
                if i < j {
                    assert(seq_lt(v[i]@, v[j]@));
                } else {
                    assert(seq_lt(v[j]@, v[i]@));
                }
            }
        }
    }
    w.unique_seq_to_set();
    assert(names(v) =~= w.to_set()) by {
        assert forall|x: Node| names(v).contains(x) <==> w.to_set().contains(x) by {
            if names(v).contains(x) {
                let i = choose|i: int| 0 <= i < v.len() && (#[trigger] v[i])@ == x;
                assert(w[i] == x);
            }
            if w.to_set().contains(x) {
                let i = choose|i: int| 0 <= i < w.len() && w[i] == x;
                assert(v[i]@ == x);
            }
        }
    }
}

/// The distinct paths of all lists, in ascending order.
pub fn sorted_union(lists: &Vec<Vec<String>>) -> (r: Vec<String>)
    ensures
        strictly_ascending(r@),
        names(r@) == listed_paths(lists@),
        listed_paths(lists@).finite(),
        listed_paths(lists@).len() == r@.len(),
{
    let mut out: Vec<String> = Vec::new();
    let mut i: usize = 0;
    assert(names(out@) =~= Set::<Node>::empty());
    while i < lists.len()
        invariant
            i <= lists@.len(),
            strictly_ascending(out@),
            names(out@) == listed_paths(lists@.take(i as int)),
        decreases lists.len() - i,
    {
        let list = &lists[i];
        let mut j: usize = 0;
        assert(names(out@) =~= listed_paths(lists@.take(i as int)).union(names(list@.take(0))));
        while j < list.len()
            invariant
                j <= list@.len(),
                list == lists@[i as int],
                i < lists@.len(),
                strictly_ascending(out@),
                names(out@) == listed_paths(lists@.take(i as int)).union(names(list@.take(j as int))),
            decreases list.len() - j,
        {
            let ghost before = names(out@);
            insert_sorted_name(&mut out, &list[j]);
            assert(names(list@.take(j + 1)) =~= names(list@.take(j as int)).insert(list@[j as int]@)) by {
                assert forall|x: Node| names(list@.take(j + 1)).contains(x) implies names(list@.take(j as int)).insert(list@[j as int]@).contains(x) by {
                    let k = choose|k: int| 0 <= k < list@.take(j + 1).len() && (#[trigger] list@.take(j + 1)[k])@ == x;
                    if k < j {
                        assert(list@.take(j as int)[k] == list@[k]);
                    }
                }
                assert forall|x: Node| names(list@.take(j as int)).insert(list@[j as int]@).contains(x) implies names(list@.take(j + 1)).contains(x) by {
                    if x == list@[j as int]@ {
                        assert(list@.take(j + 1)[j as int] == list@[j as int]);
                    } else {
                        let k = choose|k: int| 0 <= k < list@.take(j as int).len() && (#[trigger] list@.take(j as int)[k])@ == x;
                        assert(list@.take(j + 1)[k] == list@[k]);
                    }
                }
            }
            assert(names(out@) =~= listed_paths(lists@.take(i as int)).union(names(list@.take(j + 1))));
            j = j + 1;
        }
        assert(list@.take(j as int) =~= list@);
        assert(listed_paths(lists@.take(i + 1)) =~= listed_paths(lists@.take(i as int)).union(names(list@))) by {
            assert forall|x: Node| listed_paths(lists@.take(i + 1)).contains(x) implies listed_paths(lists@.take(i as int)).union(names(list@)).contains(x) by {
                let (a, b) = choose|a: int, b: int| 0 <= a < lists@.take(i + 1).len() && 0 <= b < lists@.take(i + 1)[a]@.len() && (#[trigger] lists@.take(i + 1)[a]@[b])@ == x;
                if a < i {
                    assert(lists@.take(i as int)[a]@[b]@ == x);
                } else {
                    assert(list@[b]@ == x);
                }
            }
            assert forall|x: Node| listed_paths(lists@.take(i as int)).union(names(list@)).contains(x) implies listed_paths(lists@.take(i + 1)).contains(x) by {
                if listed_paths(lists@.take(i as int)).contains(x) {
                    let (a, b) = choose|a: int, b: int| 0 <= a < lists@.take(i as int).len() && 0 <= b < lists@.take(i as int)[a]@.len() && (#[trigger] lists@.take(i as int)[a]@[b])@ == x;
                    assert(lists@.take(i + 1)[a]@[b]@ == x);
                } else {
                    let b = choose|b: int| 0 <= b < list@.len() && (#[trigger] list@[b])@ == x;
                    assert(lists@.take(i + 1)[i as int]@[b]@ == x);
                }
            }
        }
        i = i + 1;
    }
    assert(lists@.take(i as int) =~= lists@);
    proof {
        lemma_ascending_count(out@);
    }
    out
}

/// The distinct paths of all lists, in ascending order, when there is at
/// least one and no more than `max_paths`.
pub fn merge_final_review_scope_paths(lists: &Vec<Vec<String>>, max_paths: usize) -> (r: Result<
    Vec<String>,
    ScopeSnapshotError,
>)
    ensures
        listed_paths(lists@).finite(),
        match r {
            Ok(v) => strictly_ascending(v@) && names(v@) == listed_paths(lists@),
            Err(_) => true,
        },
        r is Ok <==> 0 < listed_paths(lists@).len() <= max_paths,
        listed_paths(lists@).len() > max_paths ==> r == Err::<Vec<String>, ScopeSnapshotError>(
            ScopeSnapshotError::TooManyPaths { paths: listed_paths(lists@).len() as usize },
        ),
        listed_paths(lists@).len() == 0 ==> r == Err::<Vec<String>, ScopeSnapshotError>(
            ScopeSnapshotError::Empty,
        ),
{
    let out = sorted_union(lists);
    if out.len() > max_paths {
        return Err(ScopeSnapshotError::TooManyPaths { paths: out.len() });
    }
    if out.len() == 0 {
        return Err(ScopeSnapshotError::Empty);
    }
    Ok(out)
}

/// The paths of a review scope: everything git listed for the scope and
/// every literal path it names, sorted and deduplicated, once the literal
/// paths are checked and the count is within `max_paths`.
pub fn final_review_scope_paths(scope: &Vec<String>, listed: Vec<Vec<String>>, max_paths: usize) -> (r:
    Result<Vec<String>, ScopeSnapshotError>)
    ensures
        !literals_valid(crate::fingerprint::strs(scope@)) ==> r == Err::<
            Vec<String>,
            ScopeSnapshotError,
        >(ScopeSnapshotError::LiteralPathInvalid),
        literals_valid(crate::fingerprint::strs(scope@)) ==> ({
            let all = listed_paths(listed@).union(
                scope_literals(crate::fingerprint::strs(scope@)).to_set(),
            );
            &&& all.finite()
            &&& (r is Ok <==> 0 < all.len() <= max_paths)
            &&& (all.len() > max_paths ==> r == Err::<Vec<String>, ScopeSnapshotError>(
                ScopeSnapshotError::TooManyPaths { paths: all.len() as usize },
            ))
            &&& (all.len() == 0 ==> r == Err::<Vec<String>, ScopeSnapshotError>(
                ScopeSnapshotError::Empty,
            ))
            &&& (r matches Ok(v) ==> strictly_ascending(v@) && names(v@) == all)
        }),
{
    let literals = match final_review_literal_paths(scope) {
        Err(e) => {
            return Err(e);
        },
        Ok(l) => l,
    };
    let ghost lits = literals@;
    let ghost old_listed = listed@;
    let mut lists = listed;
    lists.push(literals);
    assert(listed_paths(lists@) =~= listed_paths(old_listed).union(
        scope_literals(crate::fingerprint::strs(scope@)).to_set(),
    )) by {
        let sl = scope_literals(crate::fingerprint::strs(scope@));
        assert(crate::fingerprint::strs(lits) == sl);
        assert forall|x: Node| listed_paths(lists@).contains(x) implies listed_paths(old_listed).union(sl.to_set()).contains(x) by {
            let (a, b) = choose|a: int, b: int| 0 <= a < lists@.len() && 0 <= b < lists@[a]@.len() && (#[trigger] lists@[a]@[b])@ == x;
            if a < old_listed.len() {
                assert(old_listed[a]@[b]@ == x);
            } else {
                assert(sl[b] == lits[b]@);
                assert(sl.contains(x));
            }
        }
        assert forall|x: Node| listed_paths(old_listed).union(sl.to_set()).contains(x) implies listed_paths(lists@).contains(x) by {
            if listed_paths(old_listed).contains(x) {
                let (a, b) = choose|a: int, b: int| 0 <= a < old_listed.len() && 0 <= b < old_listed[a]@.len() && (#[trigger] old_listed[a]@[b])@ == x;
                assert(lists@[a]@[b]@ == x);
            } else {
                let b = choose|b: int| 0 <= b < sl.len() && sl[b] == x;
                assert(sl[b] == lits[b]@);
                assert(lists@[old_listed.len() as int]@[b]@ == x);
            }
        }
    }
    merge_final_review_scope_paths(&lists, max_paths)
}

/// The paths of a review scope snapshot, from the pathspecs and what git
/// listed for them: a scope of no pathspec or with an invalid pathspec is
/// refused before anything else; otherwise the paths are those of
/// `final_review_scope_paths`. The paths of a snapshot are strictly
/// ascending, between one and `max_paths` of them, and include every
/// literal path of the scope.
pub fn final_review_scope_snapshot(scope: &Vec<String>, listed: Vec<Vec<String>>, max_paths: usize) -> (r:
    Result<Vec<String>, ScopeSnapshotError>)
    ensures
        !scope_valid(crate::fingerprint::strs(scope@)) ==> r == Err::<Vec<String>, ScopeSnapshotError>(
            ScopeSnapshotError::ScopeInvalid,
        ),
        scope_valid(crate::fingerprint::strs(scope@)) && !literals_valid(crate::fingerprint::strs(scope@)) ==> r
            == Err::<Vec<String>, ScopeSnapshotError>(ScopeSnapshotError::LiteralPathInvalid),
        scope_valid(crate::fingerprint::strs(scope@)) && literals_valid(crate::fingerprint::strs(scope@)) ==> ({
            let all = listed_paths(listed@).union(
                scope_literals(crate::fingerprint::strs(scope@)).to_set(),
            );
            &&& all.finite()
            &&& (r is Ok <==> 0 < all.len() <= max_paths)
            &&& (all.len() > max_paths ==> r == Err::<Vec<String>, ScopeSnapshotError>(
                ScopeSnapshotError::TooManyPaths { paths: all.len() as usize },
            ))
            &&& (all.len() == 0 ==> r == Err::<Vec<String>, ScopeSnapshotError>(
                ScopeSnapshotError::Empty,
            ))
            &&& (r matches Ok(v) ==> names(v@) == all)
        }),
        r matches Ok(v) ==> {
            &&& strictly_ascending(v@)
            &&& 1 <= v@.len() <= max_paths
            &&& forall|i: int|
                0 <= i < scope_literals(crate::fingerprint::strs(scope@)).len() ==> names(v@).contains(
                    #[trigger] scope_literals(crate::fingerprint::strs(scope@))[i],
                )
        },
{
    if !final_review_scope_valid(scope) {
        return Err(ScopeSnapshotError::ScopeInvalid);
    }
    let r = final_review_scope_paths(scope, listed, max_paths);
    proof {
        if r is Ok {
            let v = r->Ok_0;
            lemma_ascending_count(v@);
            let lits = scope_literals(crate::fingerprint::strs(scope@));
            assert forall|i: int| 0 <= i < lits.len() implies names(v@).contains(#[trigger] lits[i]) by {
                assert(lits.to_set().contains(lits[i]));
            }
        }
    }
    r
}

// ---------------------------------------------------------------------------
// Scopes of an immutable tree

/// A path that a tree scope may name: not empty, not absolute, and free of
/// NUL.
pub open spec fn tree_scope_path_valid(p: Seq<char>) -> bool {
    p.len() > 0 && p[0] != '/' && !p.contains('\0')
}

/// Both scopes are non-empty lists of valid paths.
pub open spec fn tree_scopes_valid(requested: Seq<Seq<char>>, retained: Seq<Seq<char>>) -> bool {
    &&& requested.len() > 0
    &&& retained.len() > 0
    &&& forall|i: int| 0 <= i < requested.len() ==> tree_scope_path_valid(#[trigger] requested[i])
    &&& forall|i: int| 0 <= i < retained.len() ==> tree_scope_path_valid(#[trigger] retained[i])
}

fn tree_path_is_valid(p: &String) -> (r: bool)
    ensures
        r == tree_scope_path_valid(p@),
{
    let c = chars_of(p.as_str());
    if c.len() == 0 || c[0] == '/' {
        return false;
    }
    let mut i: usize = 0;
    while i < c.len()
        invariant
            i <= c@.len(),
            c@ == p@,
            forall|j: int| 0 <= j < i ==> c@[j] != '\0',
        decreases c.len() - i,
    {
        if c[i] == '\0' {
            assert(p@[i as int] == '\0');
            return false;
        }
        i = i + 1;
    }
    true
}

fn all_tree_paths_valid(v: &Vec<String>) -> (r: bool)
    ensures
        r == forall|i: int| 0 <= i < v@.len() ==> tree_scope_path_valid(#[trigger] crate::fingerprint::strs(v@)[i]),
{
    let ghost s = crate::fingerprint::strs(v@);
    let mut i: usize = 0;
    while i < v.len()
        invariant
            i <= v@.len(),
            s == crate::fingerprint::strs(v@),
            forall|j: int| 0 <= j < i ==> tree_scope_path_valid(#[trigger] s[j]),
        decreases v.len() - i,
    {
        if !tree_path_is_valid(&v[i]) {
            assert(!tree_scope_path_valid(s[i as int]));
            return false;
        }
        i = i + 1;
    }
    true
}

/// Whether the requested and retained scopes of a tree may be
/// fingerprinted.
pub fn tree_scope_valid(requested: &Vec<String>, retained: &Vec<String>) -> (r: bool)
    ensures
        r == tree_scopes_valid(crate::fingerprint::strs(requested@), crate::fingerprint::strs(retained@)),
{
    requested.len() > 0 && retained.len() > 0 && all_tree_paths_valid(requested) && all_tree_paths_valid(retained)
}

/// A retained pathspec without its `:(literal)` magic.
pub open spec fn strip_literal(p: Seq<char>) -> Seq<char> {
    if starts_with(p, literal_prefix()) {
        p.skip(10)
    } else {
        p
    }
}

pub open spec fn stripped(v: Seq<Seq<char>>) -> Seq<Seq<char>> {
    v.map_values(|p: Seq<char>| strip_literal(p))
}

fn strip_literal_of(p: &String) -> (r: String)
    ensures
        r@ == strip_literal(p@),
{
    match literal_path_of(p) {
        Some(v) => string_from_chars(v.as_slice()),
        None => p.clone(),
    }
}

/// The paths of a tree scope: those git materialized for the requested
/// pathspecs and the retained paths, sorted and deduplicated, when there
/// are no more than `max_paths`.
pub fn tree_scope_paths(materialized: Vec<String>, retained: &Vec<String>, max_paths: usize) -> (r: Result<
    Vec<String>,
    ScopeSnapshotError,
>)
    ensures
        ({
            let all = names(materialized@).union(stripped(crate::fingerprint::strs(retained@)).to_set());
            &&& all.finite()
            &&& (r is Ok <==> all.len() <= max_paths)
            &&& (all.len() > max_paths ==> r == Err::<Vec<String>, ScopeSnapshotError>(
                ScopeSnapshotError::TooManyPaths { paths: all.len() as usize },
            ))
            &&& (r matches Ok(v) ==> strictly_ascending(v@) && names(v@) == all)
        }),
{
    let ghost m = materialized@;
    let ghost sr = stripped(crate::fingerprint::strs(retained@));
    let mut kept: Vec<String> = Vec::new();
    let mut i: usize = 0;
    while i < retained.len()
        invariant
            i <= retained@.len(),
            sr == stripped(crate::fingerprint::strs(retained@)),
            crate::fingerprint::strs(kept@) == sr.take(i as int),
        decreases retained.len() - i,
    {
        assert(sr[i as int] == strip_literal(retained@[i as int]@));
        let x = strip_literal_of(&retained[i]);
        let ghost before = crate::fingerprint::strs(kept@);
        kept.push(x);
        assert(crate::fingerprint::strs(kept@) =~= before.push(sr[i as int]));
        assert(crate::fingerprint::strs(kept@) =~= sr.take(i + 1));
        i = i + 1;
    }
    assert(sr.take(i as int) =~= sr);
    let ghost k = kept@;
    let mut lists: Vec<Vec<String>> = Vec::new();
    lists.push(materialized);
    lists.push(kept);
    assert(listed_paths(lists@) =~= names(m).union(sr.to_set())) by {
        assert forall|x: Node| listed_paths(lists@).contains(x) implies names(m).union(sr.to_set()).contains(x) by {
            let (a, b) = choose|a: int, b: int| 0 <= a < lists@.len() && 0 <= b < lists@[a]@.len() && (#[trigger] lists@[a]@[b])@ == x;
            if a == 0 {
                assert(m[b]@ == x);
            } else {
                assert(crate::fingerprint::strs(k)[b] == x);
                assert(sr[b] == x);
            }
        }
        assert forall|x: Node| names(m).union(sr.to_set()).contains(x) implies listed_paths(lists@).contains(x) by {
            if names(m).contains(x) {
                let b = choose|b: int| 0 <= b < m.len() && (#[trigger] m[b])@ == x;
                assert(lists@[0]@[b]@ == x);
            } else {
                let b = choose|b: int| 0 <= b < sr.len() && sr[b] == x;
                assert(crate::fingerprint::strs(k)[b] == x);
                assert(lists@[1]@[b]@ == x);
            }
        }
    }
    let out = sorted_union(&lists);
    if out.len() > max_paths {
        return Err(ScopeSnapshotError::TooManyPaths { paths: out.len() });
    }
    Ok(out)
}

/// The pathspecs that name exactly the given paths: each behind the
/// `:(literal)` magic.
pub fn literal_pathspecs(paths: &Vec<String>) -> (r: Vec<String>)
    ensures
        crate::fingerprint::strs(r@) == crate::fingerprint::strs(paths@).map_values(
            |p: Seq<char>| literal_prefix() + p,
        ),
{
    let ghost want = crate::fingerprint::strs(paths@).map_values(|p: Seq<char>| literal_prefix() + p);
    let prefix = vec![':', '(', 'l', 'i', 't', 'e', 'r', 'a', 'l', ')'];
    assert(prefix@ =~= literal_prefix());
    let mut out: Vec<String> = Vec::new();
    let mut i: usize = 0;
    while i < paths.len()
        invariant
            i <= paths@.len(),
            prefix@ == literal_prefix(),
            want == crate::fingerprint::strs(paths@).map_values(|p: Seq<char>| literal_prefix() + p),
            crate::fingerprint::strs(out@) == want.take(i as int),
        decreases paths.len() - i,
    {
        let mut c = prefix.clone();
        let p = chars_of(paths[i].as_str());
        let mut j: usize = 0;
        while j < p.len()
            invariant
                j <= p@.len(),
                c@ == prefix@ + p@.take(j as int),
            decreases p.len() - j,
        {
            c.push(p[j]);
            assert(p@.take(j + 1) =~= p@.take(j as int).push(p@[j as int]));
            j = j + 1;
        }
        assert(p@.take(j as int) =~= p@);
        assert(want[i as int] == literal_prefix() + paths@[i as int]@);
        let x = string_from_chars(c.as_slice());
        let ghost before = crate::fingerprint::strs(out@);
        out.push(x);
        assert(crate::fingerprint::strs(out@) =~= before.push(want[i as int]));
        assert(crate::fingerprint::strs(out@) =~= want.take(i + 1));
        i = i + 1;
    }
    assert(want.take(i as int) =~= want);
    out
}

/// The blob object of a path when the tree holds a file or symlink there.
pub open spec fn file_oid_of(entries: Seq<EntryView>, path: Seq<char>) -> Option<Seq<char>> {
    match entry_for(entries, path) {
        Some(e) => if is_file_mode(e.mode) {
            Some(e.oid)
        } else {
            None
        },
        None => None,
    }
}

/// The blobs to read for a scope: the objects of its files and symlinks.
pub open spec fn file_blob_oids(paths: Seq<Seq<char>>, entries: Seq<EntryView>) -> Set<Node> {
    Set::new(|o: Node| exists|i: int| 0 <= i < paths.len() && #[trigger] file_oid_of(entries, paths[i]) == Some(o))
}

/// The objects to read in one batch for the files and symlinks of a scope,
/// each once, in ascending order.
pub fn final_review_blob_oids(paths: &Vec<String>, entries: &Vec<TreeEntryRecord>) -> (r: Vec<String>)
    ensures
        strictly_ascending(r@),
        names(r@) == file_blob_oids(crate::fingerprint::strs(paths@), entry_views(entries@)),
{
    let ghost ps = crate::fingerprint::strs(paths@);
    let ghost ev = entry_views(entries@);
    let mut out: Vec<String> = Vec::new();
    let mut i: usize = 0;
    assert(names(out@) =~= file_blob_oids(ps.take(0), ev));
    while i < paths.len()
        invariant
            i <= paths@.len(),
            ps == crate::fingerprint::strs(paths@),
            ev == entry_views(entries@),
            strictly_ascending(out@),
            names(out@) == file_blob_oids(ps.take(i as int), ev),
        decreases paths.len() - i,
    {
        let ghost before = file_blob_oids(ps.take(i as int), ev);
        assert(ps.take(i + 1)[i as int] == paths@[i as int]@);
        match find_entry(entries, &paths[i]) {
            Some(k) => {
                let e = &entries[k].entry;
                if str_eq(e.mode.as_str(), "120000") || str_eq(e.mode.as_str(), "100644") || str_eq(
                    e.mode.as_str(),
                    "100755",
                ) {
                    insert_sorted_name(&mut out, &e.oid);
                    assert(file_oid_of(ev, ps[i as int]) == Some(e.oid@));
                    assert(file_blob_oids(ps.take(i + 1), ev) =~= before.insert(e.oid@)) by {
                        assert forall|o: Node| file_blob_oids(ps.take(i + 1), ev).contains(o) implies before.insert(o).contains(o) && (o == e.oid@ || before.contains(o)) by {
                            let j = choose|j: int| 0 <= j < ps.take(i + 1).len() && #[trigger] file_oid_of(ev, ps.take(i + 1)[j]) == Some(o);
                            if j < i {
                                assert(ps.take(i + 1)[j] == ps.take(i as int)[j]);
                            }
                        }
                        assert forall|o: Node| before.contains(o) implies file_blob_oids(ps.take(i + 1), ev).contains(o) by {
                            let j = choose|j: int| 0 <= j < ps.take(i as int).len() && #[trigger] file_oid_of(ev, ps.take(i as int)[j]) == Some(o);
                            assert(ps.take(i + 1)[j] == ps.take(i as int)[j]);
                        }
                        assert(file_oid_of(ev, ps.take(i + 1)[i as int]) == Some(e.oid@));
                    }
                } else {
                    assert(file_oid_of(ev, ps[i as int]) is None);
                    assert(file_blob_oids(ps.take(i + 1), ev) =~= before) by {
                        assert forall|o: Node| file_blob_oids(ps.take(i + 1), ev).contains(o) implies before.contains(o) by {
                            let j = choose|j: int| 0 <= j < ps.take(i + 1).len() && #[trigger] file_oid_of(ev, ps.take(i + 1)[j]) == Some(o);
                            assert(ps.take(i + 1)[j] == ps.take(i as int)[j]);
                        }
                        assert forall|o: Node| before.contains(o) implies file_blob_oids(ps.take(i + 1), ev).contains(o) by {
                            let j = choose|j: int| 0 <= j < ps.take(i as int).len() && #[trigger] file_oid_of(ev, ps.take(i as int)[j]) == Some(o);
                            assert(ps.take(i + 1)[j] == ps.take(i as int)[j]);
                        }
                    }
                }
            },
            None => {
                assert(file_oid_of(ev, ps[i as int]) is None);
                assert(file_blob_oids(ps.take(i + 1), ev) =~= before) by {
                    assert forall|o: Node| file_blob_oids(ps.take(i + 1), ev).contains(o) implies before.contains(o) by {
                        let j = choose|j: int| 0 <= j < ps.take(i + 1).len() && #[trigger] file_oid_of(ev, ps.take(i + 1)[j]) == Some(o);
                        assert(ps.take(i + 1)[j] == ps.take(i as int)[j]);
                    }
                    assert forall|o: Node| before.contains(o) implies file_blob_oids(ps.take(i + 1), ev).contains(o) by {
                        let j = choose|j: int| 0 <= j < ps.take(i as int).len() && #[trigger] file_oid_of(ev, ps.take(i as int)[j]) == Some(o);
                        assert(ps.take(i + 1)[j] == ps.take(i as int)[j]);
                    }
                }
            },
        }
        i = i + 1;
    }
    assert(ps.take(i as int) =~= ps);
    out
}

} // verus!
