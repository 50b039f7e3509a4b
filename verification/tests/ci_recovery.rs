use tiber::ci_commands::{
    CiCommandError, CiOwnerState, CiOwnershipState, ClaimCiRecoveryState, JoinCiRecoveryState,
    ReportCiRecoveryWorkState, ResolveCiRecoveryState,
};
use tiber::ci_state::{apply_ci_fact, project_ci_recovery, CiFoldError, CiRecoveryFact, CiRecoveryState};
use tiber::ci_types::{
    CiRecoveryAction, CiRecoveryActionKind, CiRecoveryAssignment, CiRecoveryClassification,
    CiRecoveryDiagnosis, CiRecoveryFailureRecord, CiRecoveryParticipant, CiRecoveryPhase,
    CiRecoveryReleaseProof, CiRecoveryReplacement, CiRecoveryReplacementStatus, CiRecoveryReport,
    CiRecoveryTrigger,
};

const LEASE: u64 = 3600;

fn participant(host: &str, session: &str) -> CiRecoveryParticipant {
    CiRecoveryParticipant { host: host.into(), session: session.into() }
}

fn trigger() -> CiRecoveryTrigger {
    CiRecoveryTrigger {
        run_id: "123".into(),
        run_url: "https://example.invalid/runs/123".into(),
        failed_sha: "abcdef".into(),
        workflow: "CI".into(),
        git_ref: "refs/heads/main".into(),
    }
}

fn recovery_state_for_event_test() -> CiRecoveryState {
    CiRecoveryState {
        schema_version: 1,
        incident_id: "ci-123".into(),
        state: CiRecoveryPhase::Diagnosing,
        epoch: 1,
        trigger: trigger(),
        triggers: vec![],
        owner: participant("owner", "session-1"),
        lease_expires_at: 60,
        participants: vec![],
        assignments: vec![],
        failure_record: None,
        diagnosis: None,
        next_action: None,
        replacement: None,
        release_proof: None,
    }
}

fn claimed_event(state: &CiRecoveryState) -> CiRecoveryFact {
    CiRecoveryFact::Claimed {
        schema_version: state.schema_version,
        incident_id: state.incident_id.clone(),
        trigger: state.trigger.duplicate(),
        owner: state.owner.duplicate(),
        lease_expires_at: state.lease_expires_at,
    }
}

fn same_participant(a: &CiRecoveryParticipant, b: &CiRecoveryParticipant) -> bool {
    a.host == b.host && a.session == b.session
}

#[test]
fn claim_ci_recovery_decides_the_opening_fact_from_minimal_folded_state() {
    let state = recovery_state_for_event_test();
    let mut command_state = ClaimCiRecoveryState::new();
    let emitted = command_state
        .decide(&state.incident_id, 1, &state.trigger, &state.owner, state.lease_expires_at)
        .expect("first claim is allowed");
    assert!(matches!(
        &emitted,
        CiRecoveryFact::Claimed { incident_id, .. } if incident_id == &state.incident_id
    ));

    command_state.evolve(&emitted);
    let error = match command_state.decide(
        &state.incident_id,
        1,
        &state.trigger,
        &state.owner,
        state.lease_expires_at,
    ) {
        Ok(_) => panic!("second active claim is rejected"),
        Err(error) => error,
    };
    assert!(error.as_str().contains("ci_recovery_claim_already_active"));
}

#[test]
fn transfer_ci_recovery_decides_its_ownership_fact_from_incident_facts() {
    let state = recovery_state_for_event_test();
    let successor = participant("successor", "session-2");
    let claim = claimed_event(&state);
    let mut folded = CiOwnershipState::new();
    folded.evolve(&claim);
    let emitted = folded
        .decide_transfer(&state.incident_id, state.epoch, &state.owner, &successor, 30, 30 + LEASE)
        .expect("owner with an active lease can transfer");
    assert!(matches!(
        &emitted,
        CiRecoveryFact::Transferred {
            owner,
            epoch: 2,
            lease_expires_at,
            participant: Some(p),
        } if same_participant(owner, &successor)
            && same_participant(p, &successor)
            && *lease_expires_at == 30 + LEASE
    ));

    let error = match folded.decide_transfer(
        &state.incident_id,
        state.epoch,
        &state.owner,
        &successor,
        state.lease_expires_at,
        state.lease_expires_at + LEASE,
    ) {
        Ok(_) => panic!("an expired owner cannot transfer"),
        Err(error) => error,
    };
    assert!(error.as_str().contains("ci_recovery_lease_expired"));
}

#[test]
fn takeover_ci_recovery_decides_its_ownership_fact_only_after_lease_expiry() {
    let state = recovery_state_for_event_test();
    let successor = participant("successor", "session-2");
    let claim = claimed_event(&state);
    let mut folded = CiOwnershipState::new();
    folded.evolve(&claim);
    let active = state.lease_expires_at - 1;
    let error = match folded.decide_takeover(
        &state.incident_id,
        state.epoch,
        &successor,
        active,
        active + LEASE,
    ) {
        Ok(_) => panic!("an active lease cannot be taken over"),
        Err(error) => error,
    };
    assert!(error.as_str().contains("ci_recovery_lease_active"));

    let expired = state.lease_expires_at;
    let emitted = folded
        .decide_takeover(&state.incident_id, state.epoch, &successor, expired, expired + LEASE)
        .expect("a joined successor can take over after the lease expires");
    assert!(matches!(
        &emitted,
        CiRecoveryFact::TakenOver { owner, epoch: 2, participant: Some(p), .. }
            if same_participant(owner, &successor) && same_participant(p, &successor)
    ));
}

#[test]
fn typed_claim_and_join_facts_rebuild_the_recovery_projection() {
    let state = recovery_state_for_event_test();
    let claim = claimed_event(&state);
    let helper = participant("helper", "session-2");
    let join = CiRecoveryFact::Joined { trigger: None, participant: Some(helper.duplicate()) };
    let transfer = CiRecoveryFact::Transferred {
        owner: helper.duplicate(),
        epoch: 2,
        lease_expires_at: 120,
        participant: None,
    };
    let successor = participant("successor", "session-3");
    let takeover = CiRecoveryFact::TakenOver {
        owner: successor.duplicate(),
        epoch: 3,
        lease_expires_at: 180,
        participant: Some(successor.duplicate()),
    };

    let mut projection: Option<CiRecoveryState> = None;
    apply_ci_fact(&mut projection, &claim).expect("fold claim");
    apply_ci_fact(&mut projection, &join).expect("fold join");
    apply_ci_fact(&mut projection, &transfer).expect("fold transfer");
    apply_ci_fact(&mut projection, &takeover).expect("fold takeover");
    let recovery = projection.expect("recovery projection");
    assert_eq!(recovery.incident_id, "ci-123");
    assert!(same_participant(&recovery.owner, &successor));
    assert_eq!(recovery.epoch, 3);
    assert_eq!(recovery.lease_expires_at, 180);
    assert_eq!(recovery.participants.len(), 3);
    assert!(same_participant(&recovery.participants[0], &state.owner));
    assert!(same_participant(&recovery.participants[1], &helper));
    assert!(same_participant(&recovery.participants[2], &successor));
    assert!(matches!(claim, CiRecoveryFact::Claimed { .. }));
    assert!(matches!(join, CiRecoveryFact::Joined { .. }));
    assert!(matches!(transfer, CiRecoveryFact::Transferred { .. }));
    assert!(matches!(takeover, CiRecoveryFact::TakenOver { .. }));
}

#[test]
fn typed_ci_transition_facts_rebuild_a_completed_recovery_without_snapshots() {
    let opening = recovery_state_for_event_test();
    let claim = claimed_event(&opening);
    let assigned = CiRecoveryFact::Assigned {
        assignment: CiRecoveryAssignment {
            id: "a1".into(),
            owner_epoch: 1,
            assignee: opening.owner.duplicate(),
            capabilities: vec!["inspect".into()],
            scope: "failed job".into(),
            report: None,
        },
    };
    let reported = CiRecoveryFact::Reported {
        assignment_id: "a1".into(),
        assignee: opening.owner.duplicate(),
        report: CiRecoveryReport { summary: "reproduced".into(), evidence: "log line".into() },
    };
    let diagnosed = CiRecoveryFact::Diagnosed {
        epoch: 1,
        owner: opening.owner.duplicate(),
        failure_record: CiRecoveryFailureRecord {
            job: "test".into(),
            step: "run".into(),
            log_evidence: "failure".into(),
        },
        diagnosis: CiRecoveryDiagnosis {
            cause: "test regression".into(),
            classification: CiRecoveryClassification::Caused,
        },
    };
    let action = CiRecoveryFact::ActionChosen {
        epoch: 1,
        owner: opening.owner.duplicate(),
        action: CiRecoveryAction {
            kind: CiRecoveryActionKind::Repair,
            description: "repair the regression".into(),
        },
    };
    let replacement = CiRecoveryFact::ReplacementRecorded {
        epoch: 1,
        owner: opening.owner.duplicate(),
        replacement: CiRecoveryReplacement {
            run_id: "124".into(),
            run_url: "https://example.invalid/runs/124".into(),
            sha: "fedcba".into(),
            status: CiRecoveryReplacementStatus::Running,
        },
    };
    let resolved = CiRecoveryFact::Resolved {
        participant: opening.owner.duplicate(),
        proof: CiRecoveryReleaseProof {
            replacement_run_id: "124".into(),
            replacement_run_url: "https://example.invalid/runs/124".into(),
            sha: "fedcba".into(),
            terminal_status: "success".into(),
        },
    };

    let events = vec![claim, assigned, reported, diagnosed, action, replacement, resolved];
    let mut projection: Option<CiRecoveryState> = None;
    for event in &events {
        assert!(
            !matches!(event, CiRecoveryFact::LegacySnapshot { .. }),
            "fresh transition must not write a snapshot"
        );
        apply_ci_fact(&mut projection, event).expect("fold typed fact");
    }
    let recovery = projection.expect("recovery projection");
    assert_eq!(recovery.state, CiRecoveryPhase::Resolved);
    assert_eq!(
        recovery.assignments[0].report.as_ref().expect("report").summary,
        "reproduced"
    );
    assert_eq!(recovery.release_proof.expect("proof").terminal_status, "success");
}

#[test]
fn legacy_ci_snapshot_events_remain_replayable() {
    let state = recovery_state_for_event_test();
    let event = CiRecoveryFact::LegacySnapshot { state: state.duplicate() };
    let mut projection: Option<CiRecoveryState> = None;
    apply_ci_fact(&mut projection, &event).expect("fold legacy snapshot");
    assert_eq!(projection.expect("recovery projection").incident_id, "ci-123");
}

#[test]
fn ci_recovery_phase_rejects_unmodeled_persisted_values() {
    assert_eq!(CiRecoveryPhase::parse("waiting-ci"), Some(CiRecoveryPhase::WaitingCi));
    assert!(CiRecoveryPhase::parse("paused").is_none());
}

// ---------------------------------------------------------------------------

#[test]
fn projection_refuses_facts_without_a_claim() {
    let mut projection: Option<CiRecoveryState> = None;
    let join = CiRecoveryFact::Joined {
        trigger: None,
        participant: Some(participant("h", "s")),
    };
    assert_eq!(apply_ci_fact(&mut projection, &join), Err(CiFoldError::JoinWithoutClaim));
    assert!(projection.is_none());
    assert_eq!(
        CiFoldError::JoinWithoutClaim.as_str(),
        "ci_recovery_join_without_claim=true"
    );
}

#[test]
fn projection_refuses_an_empty_join_and_keeps_the_incident() {
    let state = recovery_state_for_event_test();
    let mut projection: Option<CiRecoveryState> = None;
    apply_ci_fact(&mut projection, &claimed_event(&state)).unwrap();
    let empty = CiRecoveryFact::Joined { trigger: None, participant: None };
    assert_eq!(apply_ci_fact(&mut projection, &empty), Err(CiFoldError::JoinEmptyFact));
    assert_eq!(projection.unwrap().participants.len(), 1);
}

#[test]
fn projection_refuses_a_heartbeat_from_a_stale_epoch() {
    let state = recovery_state_for_event_test();
    let mut projection: Option<CiRecoveryState> = None;
    apply_ci_fact(&mut projection, &claimed_event(&state)).unwrap();
    let heartbeat = CiRecoveryFact::HeartbeatRecorded {
        epoch: 2,
        owner: state.owner.duplicate(),
        lease_expires_at: 500,
    };
    assert_eq!(
        apply_ci_fact(&mut projection, &heartbeat),
        Err(CiFoldError::HeartbeatOwnerInvalid)
    );
    assert_eq!(projection.unwrap().lease_expires_at, 60);
}

#[test]
fn projection_refuses_duplicate_assignments_and_reports() {
    let state = recovery_state_for_event_test();
    let assignment = || CiRecoveryAssignment {
        id: "a1".into(),
        owner_epoch: 1,
        assignee: participant("owner", "session-1"),
        capabilities: vec!["test".into()],
        scope: "scope".into(),
        report: None,
    };
    let mut projection: Option<CiRecoveryState> = None;
    apply_ci_fact(&mut projection, &claimed_event(&state)).unwrap();
    apply_ci_fact(&mut projection, &CiRecoveryFact::Assigned { assignment: assignment() })
        .unwrap();
    assert_eq!(
        apply_ci_fact(&mut projection, &CiRecoveryFact::Assigned { assignment: assignment() }),
        Err(CiFoldError::AssignmentDuplicate)
    );
    let report = || CiRecoveryFact::Reported {
        assignment_id: "a1".into(),
        assignee: participant("owner", "session-1"),
        report: CiRecoveryReport { summary: "s".into(), evidence: "e".into() },
    };
    apply_ci_fact(&mut projection, &report()).unwrap();
    assert_eq!(apply_ci_fact(&mut projection, &report()), Err(CiFoldError::ReportDuplicate));
    let stranger = CiRecoveryFact::Reported {
        assignment_id: "a1".into(),
        assignee: participant("other", "session-9"),
        report: CiRecoveryReport { summary: "s".into(), evidence: "e".into() },
    };
    assert_eq!(
        apply_ci_fact(&mut projection, &stranger),
        Err(CiFoldError::ReportAssigneeInvalid)
    );
    let missing = CiRecoveryFact::Reported {
        assignment_id: "a9".into(),
        assignee: participant("owner", "session-1"),
        report: CiRecoveryReport { summary: "s".into(), evidence: "e".into() },
    };
    assert_eq!(
        apply_ci_fact(&mut projection, &missing),
        Err(CiFoldError::ReportAssignmentMissing)
    );
}

#[test]
fn projection_refuses_an_action_before_a_diagnosis_and_a_bad_release_proof() {
    let state = recovery_state_for_event_test();
    let mut projection: Option<CiRecoveryState> = None;
    apply_ci_fact(&mut projection, &claimed_event(&state)).unwrap();
    let action = CiRecoveryFact::ActionChosen {
        epoch: 1,
        owner: state.owner.duplicate(),
        action: CiRecoveryAction { kind: CiRecoveryActionKind::Rerun, description: "d".into() },
    };
    assert_eq!(
        apply_ci_fact(&mut projection, &action),
        Err(CiFoldError::ActionWithoutDiagnosis)
    );
    let resolve = CiRecoveryFact::Resolved {
        participant: state.owner.duplicate(),
        proof: CiRecoveryReleaseProof {
            replacement_run_id: "1".into(),
            replacement_run_url: "u".into(),
            sha: "s".into(),
            terminal_status: "success".into(),
        },
    };
    assert_eq!(
        apply_ci_fact(&mut projection, &resolve),
        Err(CiFoldError::ResolutionWithoutReplacement)
    );
}

#[test]
fn failed_replacement_returns_the_incident_to_diagnosis() {
    let state = recovery_state_for_event_test();
    let owner = state.owner.duplicate();
    let facts = vec![
        claimed_event(&state),
        CiRecoveryFact::Diagnosed {
            epoch: 1,
            owner: owner.duplicate(),
            failure_record: CiRecoveryFailureRecord {
                job: "j".into(),
                step: "s".into(),
                log_evidence: "l".into(),
            },
            diagnosis: CiRecoveryDiagnosis {
                cause: "flake".into(),
                classification: CiRecoveryClassification::Transient,
            },
        },
        CiRecoveryFact::ActionChosen {
            epoch: 1,
            owner: owner.duplicate(),
            action: CiRecoveryAction { kind: CiRecoveryActionKind::Rerun, description: "r".into() },
        },
        CiRecoveryFact::ReplacementRecorded {
            epoch: 1,
            owner: owner.duplicate(),
            replacement: CiRecoveryReplacement {
                run_id: "200".into(),
                run_url: "u".into(),
                sha: "abcdef".into(),
                status: CiRecoveryReplacementStatus::Failed,
            },
        },
    ];
    let recovery = project_ci_recovery(&facts).unwrap().unwrap();
    assert_eq!(recovery.state, CiRecoveryPhase::Diagnosing);
    assert!(recovery.diagnosis.is_none());
    assert!(recovery.next_action.is_none());
    assert!(recovery.replacement.is_some());
}

#[test]
fn projection_stops_at_the_first_refused_fact() {
    let state = recovery_state_for_event_test();
    let facts = vec![
        CiRecoveryFact::Joined { trigger: None, participant: Some(participant("h", "s")) },
        claimed_event(&state),
    ];
    assert_eq!(project_ci_recovery(&facts).unwrap_err(), CiFoldError::JoinWithoutClaim);
}

#[test]
fn join_adds_a_new_participant_but_not_a_distinct_trigger() {
    let state = recovery_state_for_event_test();
    let mut join_state = JoinCiRecoveryState::new();
    assert_eq!(
        join_state.decide(&None, &Some(participant("h", "s"))).unwrap_err(),
        CiCommandError::JoinWithoutActiveIncident
    );
    join_state.evolve(&claimed_event(&state));
    let fact = join_state.decide(&Some(trigger()), &Some(participant("h", "s"))).unwrap();
    assert!(matches!(
        &fact,
        CiRecoveryFact::Joined { trigger: None, participant: Some(p) }
            if p.host == "h" && p.session == "s"
    ));
    join_state.evolve(&fact);
    assert_eq!(
        join_state.decide(&None, &Some(participant("h", "s"))).unwrap_err(),
        CiCommandError::JoinEmptyOrDuplicateFact
    );
    let mut other = trigger();
    other.run_id = "999".into();
    assert_eq!(
        join_state.decide(&Some(other), &None).unwrap_err(),
        CiCommandError::JoinEmptyOrDuplicateFact
    );
}

#[test]
fn assignments_are_numbered_after_those_already_issued() {
    let state = recovery_state_for_event_test();
    let mut ownership = CiOwnershipState::new();
    ownership.evolve(&claimed_event(&state));
    let work = CiRecoveryAssignment {
        id: String::new(),
        owner_epoch: 1,
        assignee: state.owner.duplicate(),
        capabilities: vec!["inspect".into()],
        scope: "look".into(),
        report: None,
    };
    let first = ownership.decide_assign("ci-123", 1, &state.owner, &work, 10).unwrap();
    assert!(matches!(&first, CiRecoveryFact::Assigned { assignment } if assignment.id == "a1"));
    ownership.evolve(&first);
    let second = ownership.decide_assign("ci-123", 1, &state.owner, &work, 10).unwrap();
    assert!(matches!(&second, CiRecoveryFact::Assigned { assignment } if assignment.id == "a2"));
    let stranger = CiRecoveryAssignment { assignee: participant("x", "y"), ..work.duplicate() };
    assert_eq!(
        ownership.decide_assign("ci-123", 1, &state.owner, &stranger, 10).unwrap_err(),
        CiCommandError::AssigneeNotJoined
    );
    let stale = CiRecoveryAssignment { owner_epoch: 7, ..work.duplicate() };
    assert_eq!(
        ownership.decide_assign("ci-123", 1, &state.owner, &stale, 10).unwrap_err(),
        CiCommandError::AssignmentAuthorizationInvalid
    );
    assert_eq!(
        ownership.decide_assign("ci-999", 1, &state.owner, &work, 10).unwrap_err(),
        CiCommandError::IncidentMismatch
    );
    assert_eq!(
        ownership.decide_assign("ci-123", 2, &state.owner, &work, 10).unwrap_err(),
        CiCommandError::StaleEpoch
    );
    assert_eq!(
        ownership.decide_assign("ci-123", 1, &participant("x", "y"), &work, 10).unwrap_err(),
        CiCommandError::NotOwner
    );
}

#[test]
fn a_report_is_recorded_once_by_its_assignee() {
    let state = recovery_state_for_event_test();
    let mut report_state = ReportCiRecoveryWorkState::new();
    report_state.evolve(&claimed_event(&state));
    report_state.evolve(&CiRecoveryFact::Assigned {
        assignment: CiRecoveryAssignment {
            id: "a1".into(),
            owner_epoch: 1,
            assignee: participant("helper", "s2"),
            capabilities: vec!["test".into()],
            scope: "scope".into(),
            report: None,
        },
    });
    let report = CiRecoveryReport { summary: "done".into(), evidence: "log".into() };
    let id: String = "a1".into();
    assert_eq!(
        report_state.decide("ci-123", &id, &participant("other", "s3"), &report).unwrap_err(),
        CiCommandError::AssignmentNotAssignee
    );
    let fact = report_state.decide("ci-123", &id, &participant("helper", "s2"), &report).unwrap();
    report_state.evolve(&fact);
    assert_eq!(
        report_state.decide("ci-123", &id, &participant("helper", "s2"), &report).unwrap_err(),
        CiCommandError::AssignmentAlreadyReported
    );
    let missing: String = "a2".into();
    assert_eq!(
        report_state.decide("ci-123", &missing, &participant("helper", "s2"), &report).unwrap_err(),
        CiCommandError::AssignmentMissing
    );
}

#[test]
fn the_action_must_fit_the_diagnosis_and_a_rerun_the_failed_commit() {
    let state = recovery_state_for_event_test();
    let mut owner_state = CiOwnerState::new();
    owner_state.evolve(&claimed_event(&state));
    let rerun = CiRecoveryAction { kind: CiRecoveryActionKind::Rerun, description: "r".into() };
    assert_eq!(
        owner_state.decide_action("ci-123", 1, &state.owner, 10, &rerun).unwrap_err(),
        CiCommandError::DiagnosisRequired
    );
    owner_state.evolve(&CiRecoveryFact::Diagnosed {
        epoch: 1,
        owner: state.owner.duplicate(),
        failure_record: CiRecoveryFailureRecord {
            job: "j".into(),
            step: "s".into(),
            log_evidence: "l".into(),
        },
        diagnosis: CiRecoveryDiagnosis {
            cause: "c".into(),
            classification: CiRecoveryClassification::Caused,
        },
    });
    assert_eq!(
        owner_state.decide_action("ci-123", 1, &state.owner, 10, &rerun).unwrap_err(),
        CiCommandError::ActionConflictsDiagnosis
    );
    let replacement = CiRecoveryReplacement {
        run_id: "2".into(),
        run_url: "u".into(),
        sha: "other".into(),
        status: CiRecoveryReplacementStatus::Queued,
    };
    assert_eq!(
        owner_state.decide_replacement("ci-123", 1, &state.owner, 10, &replacement).unwrap_err(),
        CiCommandError::NextActionRequired
    );
    owner_state.evolve(&CiRecoveryFact::ActionChosen {
        epoch: 1,
        owner: state.owner.duplicate(),
        action: rerun,
    });
    assert_eq!(
        owner_state.decide_replacement("ci-123", 1, &state.owner, 10, &replacement).unwrap_err(),
        CiCommandError::RerunShaMismatch
    );
    let same_sha = CiRecoveryReplacement { sha: "abcdef".into(), ..replacement };
    assert!(owner_state.decide_replacement("ci-123", 1, &state.owner, 10, &same_sha).is_ok());
    assert_eq!(
        owner_state.decide_renew("ci-123", 1, &state.owner, 60, 9999).unwrap_err(),
        CiCommandError::LeaseExpired
    );
}

#[test]
fn resolution_needs_the_recorded_replacement_and_closes_the_incident() {
    let state = recovery_state_for_event_test();
    let mut resolve = ResolveCiRecoveryState::new();
    resolve.evolve(&claimed_event(&state));
    let proof = CiRecoveryReleaseProof {
        replacement_run_id: "124".into(),
        replacement_run_url: "u".into(),
        sha: "fedcba".into(),
        terminal_status: "success".into(),
    };
    assert_eq!(
        resolve.decide("ci-123", &state.owner, &proof).unwrap_err(),
        CiCommandError::ReplacementRequired
    );
    resolve.evolve(&CiRecoveryFact::ReplacementRecorded {
        epoch: 1,
        owner: state.owner.duplicate(),
        replacement: CiRecoveryReplacement {
            run_id: "124".into(),
            run_url: "u".into(),
            sha: "fedcba".into(),
            status: CiRecoveryReplacementStatus::Running,
        },
    });
    assert_eq!(
        resolve.decide("ci-123", &participant("x", "y"), &proof).unwrap_err(),
        CiCommandError::ParticipantRequired
    );
    let wrong = CiRecoveryReleaseProof { sha: "000".into(), ..proof.duplicate() };
    assert_eq!(
        resolve.decide("ci-123", &state.owner, &wrong).unwrap_err(),
        CiCommandError::ReleaseProofMismatch
    );
    let fact = resolve.decide("ci-123", &state.owner, &proof).unwrap();
    resolve.evolve(&fact);
    assert_eq!(
        resolve.decide("ci-123", &state.owner, &proof).unwrap_err(),
        CiCommandError::IncidentResolved
    );
    let mut claim = ClaimCiRecoveryState::new();
    claim.evolve(&claimed_event(&state));
    claim.evolve(&fact);
    assert!(claim
        .decide("ci-124", 1, &state.trigger, &state.owner, 100)
        .is_ok());
}

#[test]
fn replayed_command_states_match_their_step_by_step_fold() {
    let state = recovery_state_for_event_test();
    let history = vec![
        claimed_event(&state),
        CiRecoveryFact::HeartbeatRecorded {
            epoch: 1,
            owner: state.owner.duplicate(),
            lease_expires_at: 900,
        },
    ];
    let owner_state = CiOwnerState::replay(&history);
    assert_eq!(owner_state.lease_expires_at, 900);
    let ownership = CiOwnershipState::replay(&history);
    assert_eq!(ownership.lease_expires_at, 60);
    assert_eq!(ownership.epoch, 1);
    assert!(ClaimCiRecoveryState::replay(&history).active_incident);
}
