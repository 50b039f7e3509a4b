use tiber::ci_recovery::{
    assert_ci_recovery_owner, ci_recovery_epoch_of, ci_recovery_incident_id,
    ci_recovery_status_of, ci_recovery_wake, plan_ci_recovery_claim, require_terminal_success,
    validate_wait_timeout, CiAccessError, CiClaimPlan, CiRecoveryRole, CiRecoveryStatus,
    CiRecoveryWait,
};
use tiber::ci_state::CiRecoveryState;
use tiber::ci_types::{
    CiRecoveryAssignment, CiRecoveryParticipant, CiRecoveryPhase, CiRecoveryReplacement,
    CiRecoveryReplacementStatus, CiRecoveryTrigger,
};

fn participant(host: &str, session: &str) -> CiRecoveryParticipant {
    CiRecoveryParticipant { host: host.into(), session: session.into() }
}

fn trigger(run_id: &str) -> CiRecoveryTrigger {
    CiRecoveryTrigger {
        run_id: run_id.into(),
        run_url: format!("https://example.invalid/runs/{run_id}"),
        failed_sha: "abcdef".into(),
        workflow: "CI".into(),
        git_ref: "refs/heads/main".into(),
    }
}

fn incident() -> CiRecoveryState {
    CiRecoveryState {
        schema_version: 1,
        incident_id: "ci-123".into(),
        state: CiRecoveryPhase::Diagnosing,
        epoch: 2,
        trigger: trigger("123"),
        triggers: vec![],
        owner: participant("owner", "s1"),
        lease_expires_at: 100,
        participants: vec![participant("owner", "s1"), participant("helper", "s2")],
        assignments: vec![],
        failure_record: None,
        diagnosis: None,
        next_action: None,
        replacement: None,
        release_proof: None,
    }
}

#[test]
fn incident_ids_keep_letters_digits_and_hyphens_of_the_run() {
    assert_eq!(ci_recovery_incident_id("123"), "ci-123");
    assert_eq!(ci_recovery_incident_id("12 3/x-Y"), "ci-123x-Y");
    assert_eq!(ci_recovery_incident_id("//"), "ci-run");
    assert_eq!(ci_recovery_incident_id(""), "ci-run");
}

#[test]
fn a_claim_with_no_incident_opens_one_owned_by_the_caller() {
    let plan = plan_ci_recovery_claim(&None, false, &trigger("77"), &participant("h", "s"), 1000)
        .unwrap();
    match plan {
        CiClaimPlan::Open { incident_id, schema_version, lease_expires_at, claim, .. } => {
            assert_eq!(incident_id, "ci-77");
            assert_eq!(schema_version, 1);
            assert_eq!(lease_expires_at, 4600);
            assert_eq!(claim.role, CiRecoveryRole::Owner);
            assert_eq!(claim.state, "diagnosing");
            assert_eq!(claim.epoch, 1);
        },
        other => panic!("unexpected plan {other:?}"),
    }
    let saturated =
        plan_ci_recovery_claim(&None, false, &trigger("77"), &participant("h", "s"), u64::MAX)
            .unwrap();
    assert!(matches!(saturated, CiClaimPlan::Open { lease_expires_at: u64::MAX, .. }));
    assert_eq!(
        plan_ci_recovery_claim(&None, true, &trigger("77"), &participant("h", "s"), 0)
            .unwrap_err(),
        CiAccessError::CoordinationRefInvalid
    );
}

#[test]
fn a_claim_joins_the_open_incident_or_changes_nothing() {
    let state = Some(incident());
    let plan =
        plan_ci_recovery_claim(&state, true, &trigger("123"), &participant("new", "s3"), 5).unwrap();
    assert!(matches!(
        &plan,
        CiClaimPlan::Join { trigger: None, participant: Some(p), claim }
            if p.host == "new" && claim.role == CiRecoveryRole::Waiting && claim.epoch == 2
    ));
    let plan =
        plan_ci_recovery_claim(&state, true, &trigger("123"), &participant("owner", "s1"), 5)
            .unwrap();
    assert!(matches!(&plan, CiClaimPlan::Unchanged { claim } if claim.role == CiRecoveryRole::Owner));
    assert_eq!(
        plan_ci_recovery_claim(&state, true, &trigger("999"), &participant("owner", "s1"), 5)
            .unwrap_err(),
        CiAccessError::DistinctTriggerRequiresSeparateIncident {
            active_incident_id: "ci-123".into()
        }
    );
    let mut rerun = incident();
    rerun.replacement = Some(CiRecoveryReplacement {
        run_id: "999".into(),
        run_url: "https://example.invalid/runs/999".into(),
        sha: "abcdef".into(),
        status: CiRecoveryReplacementStatus::Failed,
    });
    let plan =
        plan_ci_recovery_claim(&Some(rerun), true, &trigger("999"), &participant("owner", "s1"), 5)
            .unwrap();
    assert!(matches!(&plan, CiClaimPlan::Join { trigger: Some(t), participant: None, .. } if t.run_id == "999"));
}

#[test]
fn a_resolved_incident_lets_a_new_one_open() {
    let mut resolved = incident();
    resolved.state = CiRecoveryPhase::Resolved;
    let plan =
        plan_ci_recovery_claim(&Some(resolved), true, &trigger("555"), &participant("h", "s"), 0)
            .unwrap();
    assert!(matches!(plan, CiClaimPlan::Open { .. }));
}

#[test]
fn ownership_is_asserted_against_the_read_incident() {
    let state = Some(incident());
    let owner = participant("owner", "s1");
    let ok = assert_ci_recovery_owner(&state, "ci-123", 2, &owner, 99).unwrap();
    assert!(ok.allowed);
    assert_eq!(ok.lease_expires_at, 100);
    assert_eq!(
        assert_ci_recovery_owner(&None, "ci-123", 2, &owner, 0).unwrap_err(),
        CiAccessError::IncidentMissing
    );
    assert_eq!(
        assert_ci_recovery_owner(&state, "ci-9", 2, &owner, 0).unwrap_err(),
        CiAccessError::IncidentMismatch { expected: "ci-123".into(), actual: "ci-9".into() }
    );
    assert_eq!(
        assert_ci_recovery_owner(&state, "ci-123", 1, &owner, 0).unwrap_err(),
        CiAccessError::StaleEpoch { expected: 2, actual: 1 }
    );
    assert_eq!(
        assert_ci_recovery_owner(&state, "ci-123", 2, &participant("helper", "s2"), 0)
            .unwrap_err(),
        CiAccessError::NotOwner { incident_id: "ci-123".into(), epoch: 2 }
    );
    assert_eq!(
        assert_ci_recovery_owner(&state, "ci-123", 2, &owner, 100).unwrap_err(),
        CiAccessError::LeaseExpired { incident_id: "ci-123".into(), epoch: 2 }
    );
}

#[test]
fn waiting_participants_wake_for_new_epochs_resolution_or_work() {
    let helper = participant("helper", "s2");
    let state = incident();
    assert!(ci_recovery_wake(&state, "ci-123", 2, &helper).unwrap().is_none());
    let woke: CiRecoveryWait = ci_recovery_wake(&state, "ci-123", 1, &helper).unwrap().unwrap();
    assert_eq!(woke.wake_reason, "epoch-changed");
    assert_eq!(woke.epoch, 2);
    let mut with_work = incident();
    with_work.assignments.push(CiRecoveryAssignment {
        id: "a1".into(),
        owner_epoch: 1,
        assignee: participant("helper", "s2"),
        capabilities: vec!["test".into()],
        scope: "old".into(),
        report: None,
    });
    with_work.assignments.push(CiRecoveryAssignment {
        id: "a2".into(),
        owner_epoch: 2,
        assignee: participant("helper", "s2"),
        capabilities: vec!["test".into()],
        scope: "new".into(),
        report: None,
    });
    let woke = ci_recovery_wake(&with_work, "ci-123", 2, &helper).unwrap().unwrap();
    assert_eq!(woke.wake_reason, "assignment");
    assert_eq!(woke.assignment_id, Some("a2".into()));
    let mut resolved = incident();
    resolved.state = CiRecoveryPhase::Resolved;
    let woke = ci_recovery_wake(&resolved, "ci-123", 2, &helper).unwrap().unwrap();
    assert_eq!(woke.wake_reason, "resolved");
    assert_eq!(woke.state, "resolved");
    assert_eq!(
        ci_recovery_wake(&state, "ci-123", 2, &participant("x", "y")).unwrap_err(),
        CiAccessError::ParticipantRequired { incident_id: "ci-123".into() }
    );
    let timeout = CiRecoveryWait::timeout("ci-123", 2);
    assert_eq!(timeout.state, "unknown");
    assert_eq!(timeout.wake_reason, "timeout");
    assert_eq!(validate_wait_timeout(61), Err(CiAccessError::WaitTimeoutInvalid));
    assert_eq!(validate_wait_timeout(60), Ok(()));
}

#[test]
fn status_reports_the_incident_and_its_hold() {
    let state = incident();
    let status = CiRecoveryStatus::from_state(&state);
    assert_eq!(status.trigger_count, 1);
    assert!(!status.hold_released);
    assert_eq!(status.state, "diagnosing");
    assert_eq!(status.participants.len(), 2);
    assert_eq!(ci_recovery_epoch_of(&Some(incident()), "ci-123"), Ok(2));
    assert_eq!(ci_recovery_epoch_of(&Some(incident()), "ci-1"), Err(CiAccessError::IncidentMissing));
    let mut resolved = incident();
    resolved.state = CiRecoveryPhase::Resolved;
    resolved.triggers = vec![trigger("1"), trigger("2")];
    let status = ci_recovery_status_of(&Some(resolved), "ci-123").unwrap();
    assert!(status.hold_released);
    assert_eq!(status.trigger_count, 2);
    assert!(ci_recovery_status_of(&None, "ci-123").is_err());
    assert_eq!(require_terminal_success("success"), Ok(()));
    assert_eq!(
        require_terminal_success("failure"),
        Err(CiAccessError::TerminalSuccessRequired { actual: "failure".into() })
    );
}
