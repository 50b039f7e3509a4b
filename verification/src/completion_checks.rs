//! The checks that make a completion snapshot immutable: the latest clean
//! review used current fingerprints, its commit range is still what it
//! named, and the committed tree still has the reviewed contents.
use vstd::prelude::*;
use crate::final_review::{FinalReviewRecord, ReviewView};
use crate::text::{starts_with, str_eq};

verus! {

/// Why a completion snapshot cannot be taken.
#[derive(Debug, PartialEq, Eq)]
pub enum SnapshotRefusal {
    /// The latest review's fingerprints are of an older version.
    LegacyFingerprints,
    /// The reviewed commit range now resolves differently.
    RangeChanged { reviewed: String, current: String },
    /// A scope's committed contents differ from what was reviewed.
    ScopeChanged { verification: bool },
    /// A reviewed path of a scope is not committed.
    ScopeNotCommitted { verification: bool, path: String },
}

pub enum SnapshotRefusalView {
    LegacyFingerprints,
    RangeChanged { reviewed: Seq<char>, current: Seq<char> },
    ScopeChanged { verification: bool },
    ScopeNotCommitted { verification: bool, path: Seq<char> },
}

impl View for SnapshotRefusal {
    type V = SnapshotRefusalView;

    open spec fn view(&self) -> SnapshotRefusalView {
        match self {
            SnapshotRefusal::LegacyFingerprints => SnapshotRefusalView::LegacyFingerprints,
            SnapshotRefusal::RangeChanged { reviewed, current } => SnapshotRefusalView::RangeChanged {
                reviewed: reviewed@,
                current: current@,
            },
            SnapshotRefusal::ScopeChanged { verification } => SnapshotRefusalView::ScopeChanged {
                verification: *verification,
            },
            SnapshotRefusal::ScopeNotCommitted { verification, path } => SnapshotRefusalView::ScopeNotCommitted {
                verification: *verification,
                path: path@,
            },
        }
    }
}

/// Whether both fingerprints of a review are of the current version.
pub open spec fn current_fingerprints(r: ReviewView) -> bool {
    starts_with(r.source_fingerprint, "sha256:v5:"@) && starts_with(r.verification_fingerprint, "sha256:v5:"@)
}

/// Refuses a review whose fingerprints are of an older version.
pub fn check_fingerprint_versions(latest: &FinalReviewRecord) -> (r: Result<(), SnapshotRefusal>)
    ensures
        current_fingerprints(latest@) ==> r is Ok,
        !current_fingerprints(latest@) ==> r matches Err(SnapshotRefusal::LegacyFingerprints),
{
    let prefix = crate::text::chars_of("sha256:v5:");
    let s = crate::text::chars_of(latest.source_fingerprint.as_str());
    let v = crate::text::chars_of(latest.verification_fingerprint.as_str());
    if !crate::text::chars_start_with(s.as_slice(), prefix.as_slice()) || !crate::text::chars_start_with(
        v.as_slice(),
        prefix.as_slice(),
    ) {
        return Err(SnapshotRefusal::LegacyFingerprints);
    }
    Ok(())
}

/// Refuses a review whose commit range now resolves to `current`.
pub fn check_commit_range(latest: &FinalReviewRecord, current: &String) -> (r: Result<(), SnapshotRefusal>)
    ensures
        current@ == latest@.commit_range ==> r is Ok,
        current@ != latest@.commit_range ==> (r matches Err(x) && x@ == (SnapshotRefusalView::RangeChanged {
            reviewed: latest@.commit_range,
            current: current@,
        })),
{
    if str_eq(current.as_str(), latest.commit_range.as_str()) {
        return Ok(());
    }
    Err(SnapshotRefusal::RangeChanged { reviewed: latest.commit_range.clone(), current: current.clone() })
}

/// Refuses a scope whose committed fingerprint `computed` is not the
/// reviewed `expected`: as not committed, naming the first path the tree
/// lacks, when there is one; as changed otherwise.
pub fn check_scope_fingerprint(
    expected: &String,
    computed: &String,
    missing: &Vec<String>,
    verification: bool,
) -> (r: Result<(), SnapshotRefusal>)
    ensures
        computed@ == expected@ ==> r is Ok,
        computed@ != expected@ && missing@.len() == 0 ==> (r matches Err(x) && x@ == (
        SnapshotRefusalView::ScopeChanged { verification })),
        computed@ != expected@ && missing@.len() > 0 ==> (r matches Err(x) && x@ == (
        SnapshotRefusalView::ScopeNotCommitted { verification, path: missing@[0]@ })),
{
    if str_eq(computed.as_str(), expected.as_str()) {
        return Ok(());
    }
    if missing.len() == 0 {
        return Err(SnapshotRefusal::ScopeChanged { verification });
    }
    Err(SnapshotRefusal::ScopeNotCommitted { verification, path: missing[0].clone() })
}

} // verus!
