//! Checking what a caller gives to record a final review, before anything
//! is read from the repository.
use vstd::prelude::*;
use crate::final_review::{outcome_named, FinalReviewOutcome};
use crate::board::strictly_ascending;
use crate::ci_types::{duplicate_strings, strings_view};
use crate::final_review::FinalReviewRecord;
use crate::graph::names;
use crate::review_scope::{listed_paths, literal_pathspecs, literal_prefix, sorted_union};
use crate::task_text::{nonempty_text, parse_nonempty_text, TaskInputError};

verus! {

/// Whether `s` is an RFC 3339 date and time, as chrono reads it.
pub uninterp spec fn rfc3339_timestamp(s: Seq<char>) -> bool;

/// `chrono::DateTime::parse_from_rfc3339`: whether `s` parses. The result
/// depends on the text alone; the grammar itself is left to the name.
#[verifier::external_body]
fn accepts_rfc3339(s: &str) -> (r: bool)
    ensures
        r == rfc3339_timestamp(s@),
{
    chrono::DateTime::parse_from_rfc3339(s).is_ok()
}

/// The UTC rendering, to the second and with a `Z` offset, of an RFC 3339
/// timestamp, as chrono writes it.
pub uninterp spec fn rfc3339_utc_seconds(s: Seq<char>) -> Seq<char>;

/// `chrono::DateTime::parse_from_rfc3339`, then `with_timezone(&Utc)` and
/// `to_rfc3339_opts(SecondsFormat::Secs, true)`: `Some` exactly when the
/// text parses, holding the UTC rendering. The rendering depends on the text
/// alone; its format is left to the name.
#[verifier::external_body]
fn utc_seconds_from_rfc3339(s: &str) -> (r: Option<String>)
    ensures
        r is Some <==> rfc3339_timestamp(s@),
        r matches Some(t) ==> t@ == rfc3339_utc_seconds(s@),
{
    match chrono::DateTime::parse_from_rfc3339(s) {
        Ok(v) => Some(v.with_timezone(&chrono::Utc).to_rfc3339_opts(chrono::SecondsFormat::Secs, true)),
        Err(_) => None,
    }
}

/// The time a command records, given the author date once moved to UTC
/// (`None` when there was none or it did not parse) and the current time.
pub fn recorded_at_from(normalized_author_date: Option<String>, now: String) -> (r: String)
    ensures
        r@ == match normalized_author_date {
            Some(t) => t@,
            None => now@,
        },
{
    match normalized_author_date {
        Some(t) => t,
        None => now,
    }
}

/// The time a command records: the author date given to git, moved to UTC
/// and written to the second, when it is RFC 3339; the current time (`now`)
/// otherwise.
pub fn command_recorded_at(author_date: Option<String>, now: String) -> (r: String)
    ensures
        (author_date matches Some(d) && rfc3339_timestamp(d@)) ==> r@ == rfc3339_utc_seconds(author_date->0@),
        !(author_date matches Some(d) && rfc3339_timestamp(d@)) ==> r@ == now@,
{
    let normalized = match &author_date {
        Some(d) => utc_seconds_from_rfc3339(d.as_str()),
        None => None,
    };
    recorded_at_from(normalized, now)
}

/// The fields a review record names.
#[derive(Clone, Copy, Debug, PartialEq, Eq, Structural)]
pub enum ReviewField {
    ReviewId,
    ReviewerIdentity,
    ReviewerType,
    CommitRange,
    Evidence,
    Timestamp,
    SourceFingerprint,
    VerificationFingerprint,
}

/// Why a review cannot be recorded as given.
#[derive(Clone, Copy, Debug, PartialEq, Eq, Structural)]
pub enum ReviewInputError {
    /// The outcome is neither `clean` nor `finding`.
    OutcomeInvalid,
    /// A field is blank.
    FieldEmpty { field: ReviewField },
    /// A field holds a control character.
    FieldInvalid { field: ReviewField },
    /// The review is not of the independent final kind.
    ReviewerTypeInvalid,
    /// The timestamp is not RFC 3339.
    TimestampInvalid,
    /// The supplied source fingerprint is neither `auto` nor the current one.
    SourceFingerprintMismatch,
    /// The supplied verification fingerprint is neither `auto` nor the
    /// current one.
    VerificationFingerprintMismatch,
}

/// What a caller gives for a review.
#[derive(Debug)]
pub struct ReviewInput {
    pub review_id: String,
    pub reviewer_identity: String,
    pub reviewer_type: String,
    pub commit_range: String,
    pub outcome: String,
    pub evidence: String,
    pub timestamp: String,
    pub source_fingerprint: String,
    pub verification_fingerprint: String,
}

/// The same, checked: every text field trimmed.
#[derive(Debug)]
pub struct CheckedReviewInput {
    pub review_id: String,
    pub reviewer_identity: String,
    pub reviewer_type: String,
    pub commit_range: String,
    pub outcome: FinalReviewOutcome,
    pub evidence: String,
    pub timestamp: String,
    pub source_fingerprint: String,
    pub verification_fingerprint: String,
}

pub open spec fn field_error(field: ReviewField, e: TaskInputError) -> ReviewInputError {
    if e == TaskInputError::TextEmpty {
        ReviewInputError::FieldEmpty { field }
    } else {
        ReviewInputError::FieldInvalid { field }
    }
}

/// The fields in the order they are checked, with what was given.
pub open spec fn review_fields(i: ReviewInput) -> Seq<(ReviewField, Seq<char>)> {
    seq![
        (ReviewField::ReviewId, i.review_id@),
        (ReviewField::ReviewerIdentity, i.reviewer_identity@),
        (ReviewField::ReviewerType, i.reviewer_type@),
        (ReviewField::CommitRange, i.commit_range@),
        (ReviewField::Evidence, i.evidence@),
        (ReviewField::Timestamp, i.timestamp@),
        (ReviewField::SourceFingerprint, i.source_fingerprint@),
        (ReviewField::VerificationFingerprint, i.verification_fingerprint@),
    ]
}

/// The first refusal among fields `k..` of the check; the type of the
/// review is checked right after it is read.
pub open spec fn fields_check(fs: Seq<(ReviewField, Seq<char>)>, k: int) -> Result<(), ReviewInputError>
    decreases fs.len() - k,
{
    if k < 0 || k >= fs.len() {
        Ok(())
    } else {
        match nonempty_text(fs[k].1) {
            Err(e) => Err(field_error(fs[k].0, e)),
            Ok(t) => if fs[k].0 == ReviewField::ReviewerType && t != "independent-final-review"@ {
                Err(ReviewInputError::ReviewerTypeInvalid)
            } else {
                fields_check(fs, k + 1)
            },
        }
    }
}

/// What checking a review gives.
pub open spec fn review_check(i: ReviewInput) -> Result<(), ReviewInputError> {
    if outcome_named(i.outcome@) is None {
        Err(ReviewInputError::OutcomeInvalid)
    } else {
        match fields_check(review_fields(i), 0) {
            Err(e) => Err(e),
            Ok(_) => if !rfc3339_timestamp(nonempty_text(i.timestamp@)->Ok_0) {
                Err(ReviewInputError::TimestampInvalid)
            } else {
                Ok(())
            },
        }
    }
}

fn field(value: &String, which: ReviewField) -> (r: Result<String, ReviewInputError>)
    ensures
        match nonempty_text(value@) {
            Ok(t) => r matches Ok(s) && s@ == t,
            Err(e) => r == Err::<String, ReviewInputError>(field_error(which, e)),
        },
{
    match parse_nonempty_text(value.as_str()) {
        Ok(t) => Ok(t),
        Err(e) => {
            if e == TaskInputError::TextEmpty {
                Err(ReviewInputError::FieldEmpty { field: which })
            } else {
                Err(ReviewInputError::FieldInvalid { field: which })
            }
        },
    }
}

/// Checks a review as given: its outcome, then each text field in turn
/// (the type must be `independent-final-review`), then that the
/// timestamp is RFC 3339.
pub fn check_final_review_input(input: &ReviewInput) -> (r: Result<CheckedReviewInput, ReviewInputError>)
    ensures
        match review_check(*input) {
            Err(e) => r == Err::<CheckedReviewInput, ReviewInputError>(e),
            Ok(_) => r matches Ok(c) && Some(c.outcome) == outcome_named(input.outcome@) && {
                &&& Ok::<Seq<char>, TaskInputError>(c.review_id@) == nonempty_text(input.review_id@)
                &&& Ok::<Seq<char>, TaskInputError>(c.reviewer_identity@) == nonempty_text(input.reviewer_identity@)
                &&& Ok::<Seq<char>, TaskInputError>(c.reviewer_type@) == nonempty_text(input.reviewer_type@)
                &&& Ok::<Seq<char>, TaskInputError>(c.commit_range@) == nonempty_text(input.commit_range@)
                &&& Ok::<Seq<char>, TaskInputError>(c.evidence@) == nonempty_text(input.evidence@)
                &&& Ok::<Seq<char>, TaskInputError>(c.timestamp@) == nonempty_text(input.timestamp@)
                &&& Ok::<Seq<char>, TaskInputError>(c.source_fingerprint@) == nonempty_text(input.source_fingerprint@)
                &&& Ok::<Seq<char>, TaskInputError>(c.verification_fingerprint@) == nonempty_text(
                    input.verification_fingerprint@,
                )
            },
        },
{
    let ghost fs = review_fields(*input);
    proof {
        reveal_with_fuel(fields_check, 9);
    }
    let outcome = match FinalReviewOutcome::parse(input.outcome.as_str()) {
        None => {
            return Err(ReviewInputError::OutcomeInvalid);
        },
        Some(o) => o,
    };
    assert(fs.len() == 8);
    assert(fs[0] == (ReviewField::ReviewId, input.review_id@));
    let review_id = field(&input.review_id, ReviewField::ReviewId)?;
    assert(fs[1] == (ReviewField::ReviewerIdentity, input.reviewer_identity@));
    let reviewer_identity = field(&input.reviewer_identity, ReviewField::ReviewerIdentity)?;
    assert(fs[2] == (ReviewField::ReviewerType, input.reviewer_type@));
    let reviewer_type = field(&input.reviewer_type, ReviewField::ReviewerType)?;
    if !crate::text::str_eq(reviewer_type.as_str(), "independent-final-review") {
        return Err(ReviewInputError::ReviewerTypeInvalid);
    }
    assert(fs[3] == (ReviewField::CommitRange, input.commit_range@));
    let commit_range = field(&input.commit_range, ReviewField::CommitRange)?;
    assert(fs[4] == (ReviewField::Evidence, input.evidence@));
    let evidence = field(&input.evidence, ReviewField::Evidence)?;
    assert(fs[5] == (ReviewField::Timestamp, input.timestamp@));
    let timestamp = field(&input.timestamp, ReviewField::Timestamp)?;
    assert(fs[6] == (ReviewField::SourceFingerprint, input.source_fingerprint@));
    let source_fingerprint = field(&input.source_fingerprint, ReviewField::SourceFingerprint)?;
    assert(fs[7] == (ReviewField::VerificationFingerprint, input.verification_fingerprint@));
    let verification_fingerprint = field(&input.verification_fingerprint, ReviewField::VerificationFingerprint)?;
    assert(fields_check(fs, 8) == Ok::<(), ReviewInputError>(()));
    if !accepts_rfc3339(timestamp.as_str()) {
        return Err(ReviewInputError::TimestampInvalid);
    }
    Ok(
        CheckedReviewInput {
            review_id,
            reviewer_identity,
            reviewer_type,
            commit_range,
            outcome,
            evidence,
            timestamp,
            source_fingerprint,
            verification_fingerprint,
        },
    )
}

/// Whether a supplied fingerprint stands: `auto`, or the one computed.
pub fn supplied_fingerprint_matches(supplied: &str, computed: &str) -> (r: bool)
    ensures
        r == (supplied@ == "auto"@ || supplied@ == computed@),
{
    crate::text::str_eq(supplied, "auto") || crate::text::str_eq(supplied, computed)
}

/// A requested scope as a review records it: sorted, each pathspec once.
pub fn sorted_requested_scope(scope: &Vec<String>) -> (r: Vec<String>)
    ensures
        strictly_ascending(r@),
        names(r@) == names(scope@),
{
    let mut lists: Vec<Vec<String>> = Vec::new();
    let copy = duplicate_strings(scope);
    let ghost cv = copy@;
    lists.push(copy);
    assert(lists@.len() == 1 && lists@[0]@ == cv);
    assert(strings_view(cv).len() == cv.len() && strings_view(scope@).len() == scope@.len());
    assert(listed_paths(lists@) =~= names(scope@)) by {
        assert forall|x: Seq<char>| listed_paths(lists@).contains(x) implies names(scope@).contains(x) by {
            let (a, b) = choose|a: int, b: int| 0 <= a < lists@.len() && 0 <= b < lists@[a]@.len() && (#[trigger] lists@[a]@[b])@ == x;
            assert(a == 0);
            assert(strings_view(cv)[b] == strings_view(scope@)[b]);
            assert(scope@[b]@ == x);
        }
        assert forall|x: Seq<char>| names(scope@).contains(x) implies listed_paths(lists@).contains(x) by {
            let b = choose|b: int| 0 <= b < scope@.len() && (#[trigger] scope@[b])@ == x;
            assert(strings_view(cv)[b] == strings_view(scope@)[b]);
            assert(lists@[0]@[b]@ == x);
        }
    }
    sorted_union(&lists)
}

/// The pathspecs a review records for its snapshot paths: each behind the
/// `:(literal)` magic.
pub open spec fn recorded_scope(paths: Seq<String>) -> Seq<Seq<char>> {
    strings_view(paths).map_values(|p: Seq<char>| literal_prefix() + p)
}

/// What a recorded review holds, from the checked input, the sorted
/// requested scopes, the snapshot paths, the canonical commit range and the
/// computed fingerprints; `None` when a supplied fingerprint is refused.
pub open spec fn assembled_review(
    input: CheckedReviewInput,
    requested_scope: Seq<Seq<char>>,
    scope_paths: Seq<String>,
    requested_verification_scope: Seq<Seq<char>>,
    verification_paths: Seq<String>,
    commit_range: Seq<char>,
    computed_source: Seq<char>,
    computed_verification: Seq<char>,
) -> Result<crate::final_review::ReviewView, ReviewInputError> {
    if !(input.source_fingerprint@ == "auto"@ || input.source_fingerprint@ == computed_source) {
        Err(ReviewInputError::SourceFingerprintMismatch)
    } else if !(input.verification_fingerprint@ == "auto"@ || input.verification_fingerprint@ == computed_verification) {
        Err(ReviewInputError::VerificationFingerprintMismatch)
    } else {
        Ok(
            crate::final_review::ReviewView {
                review_id: input.review_id@,
                reviewer_identity: input.reviewer_identity@,
                reviewer_type: input.reviewer_type@,
                requested_scope,
                scope: recorded_scope(scope_paths),
                commit_range,
                outcome: input.outcome,
                evidence: input.evidence@,
                timestamp: input.timestamp@,
                source_fingerprint: computed_source,
                requested_verification_scope,
                verification_scope: recorded_scope(verification_paths),
                verification_fingerprint: computed_verification,
            },
        )
    }
}

/// Assembles the review to record: the requested scopes sorted with each
/// pathspec once, the snapshot paths as literal pathspecs, and the computed
/// fingerprints in place of the supplied ones, which must each be `auto`
/// or the computed one (the source fingerprint is checked first).
pub fn assemble_final_review_record(
    input: CheckedReviewInput,
    requested_scope: &Vec<String>,
    scope_paths: &Vec<String>,
    requested_verification_scope: &Vec<String>,
    verification_paths: &Vec<String>,
    commit_range: String,
    computed_source: String,
    computed_verification: String,
) -> (r: Result<FinalReviewRecord, ReviewInputError>)
    ensures
        match r {
            Ok(rec) => {
                &&& strictly_ascending(rec.requested_scope@)
                &&& names(rec.requested_scope@) == names(requested_scope@)
                &&& strictly_ascending(rec.requested_verification_scope@)
                &&& names(rec.requested_verification_scope@) == names(requested_verification_scope@)
                &&& assembled_review(
                    input,
                    rec@.requested_scope,
                    scope_paths@,
                    rec@.requested_verification_scope,
                    verification_paths@,
                    commit_range@,
                    computed_source@,
                    computed_verification@,
                ) == Ok::<crate::final_review::ReviewView, ReviewInputError>(rec@)
            },
            Err(e) => assembled_review(
                input,
                Seq::empty(),
                scope_paths@,
                Seq::empty(),
                verification_paths@,
                commit_range@,
                computed_source@,
                computed_verification@,
            ) == Err::<crate::final_review::ReviewView, ReviewInputError>(e),
        },
{
    if !supplied_fingerprint_matches(input.source_fingerprint.as_str(), computed_source.as_str()) {
        return Err(ReviewInputError::SourceFingerprintMismatch);
    }
    if !supplied_fingerprint_matches(input.verification_fingerprint.as_str(), computed_verification.as_str()) {
        return Err(ReviewInputError::VerificationFingerprintMismatch);
    }
    let requested = sorted_requested_scope(requested_scope);
    let scope = literal_pathspecs(scope_paths);
    let requested_verification = sorted_requested_scope(requested_verification_scope);
    let verification_scope = literal_pathspecs(verification_paths);
    let rec = FinalReviewRecord {
        review_id: input.review_id,
        reviewer_identity: input.reviewer_identity,
        reviewer_type: input.reviewer_type,
        requested_scope: requested,
        scope,
        commit_range,
        outcome: input.outcome,
        evidence: input.evidence,
        timestamp: input.timestamp,
        source_fingerprint: computed_source,
        requested_verification_scope: requested_verification,
        verification_scope,
        verification_fingerprint: computed_verification,
    };
    Ok(rec)
}

} // verus!
