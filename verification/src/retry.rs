//! Which failures of a publication are worth another attempt.
use vstd::prelude::*;
use crate::ci_input::{chars_contain, contains_seq};
use crate::text::{chars_of, chars_start_with, starts_with};

verus! {

/// Whether an error message reports a lost race that a fresh attempt
/// resolves: an event-version conflict, an authoritative-ref retry, or a
/// recovery claim that someone else already made.
pub open spec fn retryable_message(m: Seq<char>) -> bool {
    ||| starts_with(m, "event_version_conflict="@)
    ||| contains_seq(m, "event_store_authoritative_ref_retry=true"@)
    ||| contains_seq(m, "ci_recovery_claim_already_active"@)
}

/// Whether the arguments of a git command include `push`.
pub open spec fn is_push(args: Seq<Seq<char>>) -> bool {
    exists|i: int| 0 <= i < args.len() && #[trigger] args[i] == "push"@
}

/// Whether git refused a push because the remote moved on.
pub open spec fn push_rejected_as_stale(args: Seq<Seq<char>>, stderr: Seq<char>) -> bool {
    &&& is_push(args)
    &&& {
        ||| contains_seq(stderr, "non-fast-forward"@)
        ||| contains_seq(stderr, "fetch first"@)
        ||| contains_seq(stderr, "incorrect old value provided"@)
        ||| contains_seq(stderr, "stale info"@)
    }
}

/// Whether a push lost the race to create the coordination branch.
pub open spec fn push_lost_creation_race(args: Seq<Seq<char>>, stderr: Seq<char>) -> bool {
    &&& is_push(args)
    &&& contains_seq(stderr, "cannot lock ref"@)
    &&& contains_seq(stderr, "reference already exists"@)
}

fn contains_text(s: &Vec<char>, m: &str) -> (r: bool)
    ensures
        r == contains_seq(s@, m@),
{
    let mc = chars_of(m);
    chars_contain(s.as_slice(), mc.as_slice())
}

/// Whether an error message reports a conflict that another attempt
/// resolves.
pub fn retryable_failure_message(message: &str) -> (r: bool)
    ensures
        r == retryable_message(message@),
{
    let m = chars_of(message);
    let prefix = chars_of("event_version_conflict=");
    chars_start_with(m.as_slice(), prefix.as_slice()) || contains_text(
        &m,
        "event_store_authoritative_ref_retry=true",
    ) || contains_text(&m, "ci_recovery_claim_already_active")
}

fn names_push(args: &Vec<String>) -> (r: bool)
    ensures
        r == is_push(crate::fingerprint::strs(args@)),
{
    let ghost a = crate::fingerprint::strs(args@);
    let mut i: usize = 0;
    while i < args.len()
        invariant
            i <= args@.len(),
            a == crate::fingerprint::strs(args@),
            forall|k: int| 0 <= k < i ==> #[trigger] a[k] != "push"@,
        decreases args.len() - i,
    {
        if crate::text::str_eq(args[i].as_str(), "push") {
            assert(a[i as int] == "push"@);
            return true;
        }
        i = i + 1;
    }
    false
}

/// Whether a failed git command was a push that the remote refused
/// because it moved on meanwhile.
pub fn retryable_push_rejection(args: &Vec<String>, stderr: &str) -> (r: bool)
    ensures
        r == push_rejected_as_stale(crate::fingerprint::strs(args@), stderr@),
{
    if !names_push(args) {
        return false;
    }
    let e = chars_of(stderr);
    contains_text(&e, "non-fast-forward") || contains_text(&e, "fetch first") || contains_text(
        &e,
        "incorrect old value provided",
    ) || contains_text(&e, "stale info")
}

/// Whether a failed git command was a push that lost the race to create
/// the coordination branch.
pub fn coordination_branch_creation_race(args: &Vec<String>, stderr: &str) -> (r: bool)
    ensures
        r == push_lost_creation_race(crate::fingerprint::strs(args@), stderr@),
{
    if !names_push(args) {
        return false;
    }
    let e = chars_of(stderr);
    contains_text(&e, "cannot lock ref") && contains_text(&e, "reference already exists")
}

} // verus!
