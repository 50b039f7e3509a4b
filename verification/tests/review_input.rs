use tiber::completion_checks::{check_commit_range, check_fingerprint_versions, check_scope_fingerprint, SnapshotRefusal};
use tiber::final_review::FinalReviewOutcome;
use tiber::review_input::{
    assemble_final_review_record, check_final_review_input, command_recorded_at, recorded_at_from,
    sorted_requested_scope, supplied_fingerprint_matches, ReviewField, ReviewInput, ReviewInputError,
};

fn input() -> ReviewInput {
    ReviewInput {
        review_id: " review-1 ".to_string(),
        reviewer_identity: "person-1".to_string(),
        reviewer_type: "independent-final-review".to_string(),
        commit_range: "main..HEAD".to_string(),
        outcome: "clean".to_string(),
        evidence: "tests pass".to_string(),
        timestamp: "2026-08-28T12:00:00Z".to_string(),
        source_fingerprint: "auto".to_string(),
        verification_fingerprint: "auto".to_string(),
    }
}

#[test]
fn a_complete_review_is_accepted_trimmed() {
    let checked = check_final_review_input(&input()).expect("valid review");
    assert_eq!(checked.review_id, "review-1");
    assert_eq!(checked.outcome, FinalReviewOutcome::Clean);
    assert_eq!(checked.timestamp, "2026-08-28T12:00:00Z");
    let mut finding = input();
    finding.outcome = "finding".to_string();
    finding.timestamp = "1996-12-19T16:39:57-08:00".to_string();
    assert_eq!(check_final_review_input(&finding).unwrap().outcome, FinalReviewOutcome::Finding);
}

#[test]
fn each_refusal_names_its_cause() {
    let mut i = input();
    i.outcome = "maybe".to_string();
    assert_eq!(check_final_review_input(&i).unwrap_err(), ReviewInputError::OutcomeInvalid);
    let mut i = input();
    i.reviewer_identity = "   ".to_string();
    assert_eq!(
        check_final_review_input(&i).unwrap_err(),
        ReviewInputError::FieldEmpty { field: ReviewField::ReviewerIdentity }
    );
    let mut i = input();
    i.evidence = "a\u{7}b".to_string();
    assert_eq!(
        check_final_review_input(&i).unwrap_err(),
        ReviewInputError::FieldInvalid { field: ReviewField::Evidence }
    );
    let mut i = input();
    i.reviewer_type = "self-review".to_string();
    i.commit_range = String::new();
    assert_eq!(check_final_review_input(&i).unwrap_err(), ReviewInputError::ReviewerTypeInvalid);
    let mut i = input();
    i.timestamp = "yesterday".to_string();
    assert_eq!(check_final_review_input(&i).unwrap_err(), ReviewInputError::TimestampInvalid);
    let mut i = input();
    i.timestamp = "2026-08-28 12:00:00".to_string();
    assert_eq!(check_final_review_input(&i).unwrap_err(), ReviewInputError::TimestampInvalid);
}

#[test]
fn supplied_fingerprints_are_auto_or_the_current_one() {
    assert!(supplied_fingerprint_matches("auto", "sha256:v5:aa"));
    assert!(supplied_fingerprint_matches("sha256:v5:aa", "sha256:v5:aa"));
    assert!(!supplied_fingerprint_matches("sha256:v5:bb", "sha256:v5:aa"));
}

fn review(source: &str, verification: &str, range: &str) -> tiber::final_review::FinalReviewRecord {
    tiber::final_review::FinalReviewRecord {
        review_id: "r".to_string(),
        reviewer_identity: "p".to_string(),
        reviewer_type: "independent-final-review".to_string(),
        requested_scope: vec![],
        scope: vec![],
        commit_range: range.to_string(),
        outcome: FinalReviewOutcome::Clean,
        evidence: "e".to_string(),
        timestamp: "t".to_string(),
        source_fingerprint: source.to_string(),
        requested_verification_scope: vec![],
        verification_scope: vec![],
        verification_fingerprint: verification.to_string(),
    }
}

#[test]
fn completion_snapshots_need_current_unchanged_evidence() {
    let good = review("sha256:v5:aa", "sha256:v5:bb", "1111..2222");
    assert!(check_fingerprint_versions(&good).is_ok());
    assert_eq!(
        check_fingerprint_versions(&review("sha256:v4:aa", "sha256:v5:bb", "x")).unwrap_err(),
        SnapshotRefusal::LegacyFingerprints
    );
    assert!(check_commit_range(&good, &"1111..2222".to_string()).is_ok());
    assert_eq!(
        check_commit_range(&good, &"1111..3333".to_string()).unwrap_err(),
        SnapshotRefusal::RangeChanged { reviewed: "1111..2222".to_string(), current: "1111..3333".to_string() }
    );
    let fp = "sha256:v5:aa".to_string();
    assert!(check_scope_fingerprint(&fp, &fp, &vec![], false).is_ok());
    assert_eq!(
        check_scope_fingerprint(&fp, &"sha256:v5:cc".to_string(), &vec![], true).unwrap_err(),
        SnapshotRefusal::ScopeChanged { verification: true }
    );
    assert_eq!(
        check_scope_fingerprint(&fp, &"sha256:v5:cc".to_string(), &vec!["src/new.rs".to_string(), "b".to_string()], false)
            .unwrap_err(),
        SnapshotRefusal::ScopeNotCommitted { verification: false, path: "src/new.rs".to_string() }
    );
}

fn strings(xs: &[&str]) -> Vec<String> {
    xs.iter().map(|x| x.to_string()).collect()
}

#[test]
fn requested_scopes_are_recorded_sorted_once() {
    assert_eq!(sorted_requested_scope(&strings(&["src", "docs", "src", "a"])), strings(&["a", "docs", "src"]));
    assert!(sorted_requested_scope(&strings(&[])).is_empty());
}

#[test]
fn assembled_review_takes_the_computed_fingerprints_and_literal_scopes() {
    let assemble = |source: &str, verification: &str| {
        let mut given = input();
        given.source_fingerprint = source.to_string();
        given.verification_fingerprint = verification.to_string();
        let checked = check_final_review_input(&given).expect("valid review");
        assemble_final_review_record(
            checked,
            &strings(&["src", "docs", "src"]),
            &strings(&["docs/a.md", "src/lib.rs"]),
            &strings(&["tests"]),
            &strings(&["tests/it.rs"]),
            "abc..def".to_string(),
            "sha256:v5:src".to_string(),
            "sha256:v5:ver".to_string(),
        )
    };
    let rec = assemble("auto", "sha256:v5:ver").expect("auto and current fingerprints");
    assert_eq!(rec.review_id, "review-1");
    assert_eq!(rec.requested_scope, strings(&["docs", "src"]));
    assert_eq!(rec.scope, strings(&[":(literal)docs/a.md", ":(literal)src/lib.rs"]));
    assert_eq!(rec.requested_verification_scope, strings(&["tests"]));
    assert_eq!(rec.verification_scope, strings(&[":(literal)tests/it.rs"]));
    assert_eq!(rec.commit_range, "abc..def");
    assert_eq!(rec.source_fingerprint, "sha256:v5:src");
    assert_eq!(rec.verification_fingerprint, "sha256:v5:ver");
    assert_eq!(assemble("sha256:v5:old", "sha256:v5:old").unwrap_err(), ReviewInputError::SourceFingerprintMismatch);
    assert_eq!(assemble("auto", "sha256:v5:old").unwrap_err(), ReviewInputError::VerificationFingerprintMismatch);
}

#[test]
fn commands_record_the_author_date_in_utc_seconds() {
    let now = "2030-01-01T00:00:00.123+00:00".to_string();
    assert_eq!(
        command_recorded_at(Some("2024-01-02T03:04:05.678+02:00".to_string()), now.clone()),
        "2024-01-02T01:04:05Z"
    );
    assert_eq!(command_recorded_at(Some("1996-12-19T16:39:57-08:00".to_string()), now.clone()), "1996-12-20T00:39:57Z");
    assert_eq!(command_recorded_at(Some("yesterday".to_string()), now.clone()), now);
    assert_eq!(command_recorded_at(None, now.clone()), now);
    assert_eq!(recorded_at_from(Some("x".to_string()), now.clone()), "x");
    assert_eq!(recorded_at_from(None, now.clone()), now);
}
