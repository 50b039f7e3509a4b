use tiber::ci_input::{
    ci_recovery_participant_from, frontmatter_scalar_value, parse_capabilities,
    prepare_ci_recovery_action, prepare_ci_recovery_assignment, prepare_ci_recovery_diagnosis,
    prepare_ci_recovery_release_proof, prepare_ci_recovery_replacement,
    prepare_ci_recovery_trigger, required_ci_recovery_text, CiInputError,
    CiRecoveryAssignmentInput, CiRecoveryDiagnosisInput, CiRecoveryReleaseInput,
    CiRecoveryReplacementInput,
};
use tiber::ci_types::{
    CiRecoveryActionKind, CiRecoveryClassification, CiRecoveryReplacementStatus, CiRecoveryTrigger,
};

fn field_invalid(field: &str) -> CiInputError {
    CiInputError::FieldInvalid { field: field.into() }
}

#[test]
fn free_text_is_trimmed_and_screened() {
    assert_eq!(required_ci_recovery_text("cause", "  flaky network "), Ok("flaky network".into()));
    assert_eq!(required_ci_recovery_text("cause", "   "), Err(field_invalid("cause")));
    assert_eq!(required_ci_recovery_text("cause", "TOKEN=abc"), Err(field_invalid("cause")));
    assert_eq!(required_ci_recovery_text("cause", "Bearer xyz"), Err(field_invalid("cause")));
    assert_eq!(required_ci_recovery_text("cause", "see ghp_123"), Err(field_invalid("cause")));
    assert_eq!(required_ci_recovery_text("cause", "a\u{1b}b"), Err(field_invalid("cause")));
    let long = "a".repeat(16 * 1024);
    assert_eq!(required_ci_recovery_text("cause", &long), Ok(long.clone()));
    let too_long = "é".repeat(8 * 1024 + 1);
    assert_eq!(required_ci_recovery_text("cause", &too_long), Err(field_invalid("cause")));
}

#[test]
fn capabilities_are_a_comma_list_of_known_names() {
    assert_eq!(parse_capabilities("inspect, test,,"), Ok(vec!["inspect".into(), "test".into()]));
    assert_eq!(parse_capabilities(" , "), Err(CiInputError::CapabilityInvalid));
    assert_eq!(parse_capabilities("inspect,fly"), Err(CiInputError::CapabilityInvalid));
    assert_eq!(
        parse_capabilities("edit,reproduce"),
        Ok(vec!["edit".into(), "reproduce".into()])
    );
}

#[test]
fn participant_names_are_sanitised() {
    assert_eq!(frontmatter_scalar_value("  a\u{1}b "), "a-b");
    assert_eq!(frontmatter_scalar_value("   "), "unknown");
    assert_eq!(
        ci_recovery_participant_from("host", " ").unwrap_err(),
        CiInputError::RecipientSessionRequired
    );
    let p = ci_recovery_participant_from(" ", "s\u{7f}").unwrap();
    assert_eq!(p.host, "unknown");
    assert_eq!(p.session, "s-");
}

#[test]
fn whole_inputs_are_checked_in_order() {
    let trigger = CiRecoveryTrigger {
        run_id: " 9 ".into(),
        run_url: "u".into(),
        failed_sha: "f".into(),
        workflow: "w".into(),
        git_ref: "r".into(),
    };
    assert_eq!(prepare_ci_recovery_trigger(&trigger).unwrap().run_id, "9");
    let bad = CiRecoveryTrigger { workflow: "".into(), ..trigger };
    assert_eq!(prepare_ci_recovery_trigger(&bad).unwrap_err(), field_invalid("workflow"));

    let assignment = CiRecoveryAssignmentInput {
        to_host: "h".into(),
        to_session: "s".into(),
        capabilities: "inspect".into(),
        scope: " the job ".into(),
    };
    let issued = prepare_ci_recovery_assignment(&assignment, 4).unwrap();
    assert_eq!(issued.id, "");
    assert_eq!(issued.owner_epoch, 4);
    assert_eq!(issued.scope, "the job");
    let no_session = CiRecoveryAssignmentInput { to_session: "".into(), ..assignment.clone() };
    assert_eq!(
        prepare_ci_recovery_assignment(&no_session, 4).unwrap_err(),
        CiInputError::RecipientSessionRequired
    );
    let no_scope = CiRecoveryAssignmentInput { scope: "".into(), ..assignment };
    assert_eq!(
        prepare_ci_recovery_assignment(&no_scope, 4).unwrap_err(),
        field_invalid("assignment_scope")
    );

    let diagnosis = CiRecoveryDiagnosisInput {
        job: "j".into(),
        step: "s".into(),
        log_evidence: "l".into(),
        cause: "c".into(),
        classification: "unrelated".into(),
    };
    let (_, d) = prepare_ci_recovery_diagnosis(&diagnosis).unwrap();
    assert_eq!(d.classification, CiRecoveryClassification::Unrelated);
    let wrong = CiRecoveryDiagnosisInput { classification: "other".into(), ..diagnosis };
    assert_eq!(
        prepare_ci_recovery_diagnosis(&wrong).unwrap_err(),
        CiInputError::ChoiceInvalid { field: "classification".into(), value: "other".into() }
    );

    assert_eq!(prepare_ci_recovery_action("rerun", " again ").unwrap().kind, CiRecoveryActionKind::Rerun);
    assert_eq!(
        prepare_ci_recovery_action("retry", "x").unwrap_err(),
        CiInputError::ChoiceInvalid { field: "action".into(), value: "retry".into() }
    );

    let replacement = CiRecoveryReplacementInput {
        run_id: "1".into(),
        run_url: "u".into(),
        sha: "s".into(),
        status: "queued".into(),
    };
    assert_eq!(
        prepare_ci_recovery_replacement(&replacement).unwrap().status,
        CiRecoveryReplacementStatus::Queued
    );

    let release = CiRecoveryReleaseInput {
        replacement_run_id: "1".into(),
        replacement_run_url: "u".into(),
        sha: "s".into(),
        terminal_status: "failure".into(),
    };
    assert_eq!(
        prepare_ci_recovery_release_proof(&release).unwrap_err(),
        CiInputError::TerminalSuccessRequired { actual: "failure".into() }
    );
    let ok = CiRecoveryReleaseInput { terminal_status: "success".into(), ..release };
    assert_eq!(prepare_ci_recovery_release_proof(&ok).unwrap().terminal_status, "success");
}
