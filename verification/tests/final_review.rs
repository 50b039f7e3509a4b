use tiber::final_review::{
    apply_final_review_record_to_clean_sequence, enforce_final_review_authority_snapshot,
    final_review_gate, FinalReviewGateError, FinalReviewOutcome, FinalReviewRecord,
};

fn review(id: &str, reviewer: &str, outcome: FinalReviewOutcome, fingerprint: &str) -> FinalReviewRecord {
    FinalReviewRecord {
        review_id: id.to_string(),
        reviewer_identity: reviewer.to_string(),
        reviewer_type: "independent-final-review".to_string(),
        requested_scope: vec!["src".to_string()],
        scope: vec!["src".to_string()],
        commit_range: "main..HEAD".to_string(),
        outcome,
        evidence: "looked".to_string(),
        timestamp: "2025-01-01T00:00:00Z".to_string(),
        source_fingerprint: fingerprint.to_string(),
        requested_verification_scope: vec![],
        verification_scope: vec![],
        verification_fingerprint: String::new(),
    }
}

fn ids(run: &[FinalReviewRecord]) -> Vec<&str> {
    run.iter().map(|r| r.review_id.as_str()).collect()
}

#[test]
fn clean_reviews_of_the_same_evidence_accumulate() {
    let mut run = Vec::new();
    apply_final_review_record_to_clean_sequence(&mut run, &review("r1", "ann", FinalReviewOutcome::Clean, "f"));
    apply_final_review_record_to_clean_sequence(&mut run, &review("r2", "bob", FinalReviewOutcome::Clean, "f"));
    assert_eq!(ids(&run), vec!["r1", "r2"]);
}

#[test]
fn a_finding_empties_the_run_and_new_evidence_restarts_it() {
    let mut run = Vec::new();
    apply_final_review_record_to_clean_sequence(&mut run, &review("r1", "ann", FinalReviewOutcome::Clean, "f"));
    apply_final_review_record_to_clean_sequence(&mut run, &review("r2", "bob", FinalReviewOutcome::Finding, "f"));
    assert!(run.is_empty());
    assert_eq!(
        final_review_gate(&run, 1),
        Err(FinalReviewGateError::EvidenceIncomplete { clean: 0, missing: 1 })
    );
    apply_final_review_record_to_clean_sequence(&mut run, &review("r3", "ann", FinalReviewOutcome::Clean, "f"));
    apply_final_review_record_to_clean_sequence(&mut run, &review("r4", "bob", FinalReviewOutcome::Clean, "g"));
    assert_eq!(ids(&run), vec!["r4"]);
}

#[test]
fn the_gate_counts_distinct_independent_reviews() {
    let run = vec![
        review("r1", "ann", FinalReviewOutcome::Clean, "f"),
        review("r2", "ann", FinalReviewOutcome::Clean, "f"),
    ];
    assert_eq!(
        final_review_gate(&run, 2),
        Err(FinalReviewGateError::IndependenceIncomplete {
            distinct_reviewers: 1,
            distinct_reviews: 2,
            independent_review_types: 2,
        })
    );
    assert_eq!(final_review_gate(&run, 1), Ok(()));
    let mut other = review("r3", "bob", FinalReviewOutcome::Clean, "f");
    other.reviewer_type = "self-review".to_string();
    let run = vec![review("r1", "ann", FinalReviewOutcome::Clean, "f"), other];
    assert_eq!(
        final_review_gate(&run, 2),
        Err(FinalReviewGateError::IndependenceIncomplete {
            distinct_reviewers: 2,
            distinct_reviews: 2,
            independent_review_types: 1,
        })
    );
    let run = vec![
        review("r1", "ann", FinalReviewOutcome::Clean, "f"),
        review("r2", "bob", FinalReviewOutcome::Clean, "f"),
    ];
    assert_eq!(final_review_gate(&run, 2), Ok(()));
    assert_eq!(
        final_review_gate(&run, 3),
        Err(FinalReviewGateError::EvidenceIncomplete { clean: 2, missing: 1 })
    );
}

#[test]
fn completion_needs_the_run_that_was_read() {
    let read = vec![
        review("r1", "ann", FinalReviewOutcome::Clean, "f"),
        review("r2", "bob", FinalReviewOutcome::Clean, "f"),
    ];
    let same = vec![
        review("r1", "ann", FinalReviewOutcome::Clean, "f"),
        review("r2", "bob", FinalReviewOutcome::Clean, "f"),
    ];
    assert_eq!(enforce_final_review_authority_snapshot(&same, &read, 2), Ok(()));
    let moved = vec![review("r3", "cy", FinalReviewOutcome::Clean, "g")];
    assert_eq!(
        enforce_final_review_authority_snapshot(&moved, &read, 2),
        Err(FinalReviewGateError::EvidenceChanged { clean: 1 })
    );
}
