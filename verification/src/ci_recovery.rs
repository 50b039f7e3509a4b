//! What the CI-recovery operations answer, and the decisions they take on the
//! incident read back from the coordination stream: opening or joining an
//! incident, asserting ownership, and waking a waiting participant.
use vstd::prelude::*;
use crate::ci_state::{CiRecoveryState, CiStateView};
use crate::ci_types::{
    contains_participant, contains_trigger, phase_text, CiRecoveryAction, CiRecoveryAssignment,
    CiRecoveryDiagnosis, CiRecoveryFailureRecord, CiRecoveryParticipant, CiRecoveryPhase,
    CiRecoveryReleaseProof, CiRecoveryReplacement, CiRecoveryReplacementStatus, CiRecoveryTrigger,
    ParticipantView, TriggerView,
};
use crate::text::{chars_of, push_char};

verus! {

/// How long an owner's lease lasts, in seconds.
pub const CI_RECOVERY_LEASE_SECONDS: u64 = 3600;

/// The longest a participant may wait in one call, in seconds.
pub const CI_RECOVERY_WAIT_MAX_SECONDS: u64 = 60;

/// Why a CI-recovery operation is refused before any fact is decided.
#[derive(Clone, Debug, PartialEq, Eq)]
pub enum CiAccessError {
    IncidentMissing,
    CoordinationRefInvalid,
    DistinctTriggerRequiresSeparateIncident { active_incident_id: String },
    IncidentMismatch { expected: String, actual: String },
    StaleEpoch { expected: u64, actual: u64 },
    NotOwner { incident_id: String, epoch: u64 },
    LeaseExpired { incident_id: String, epoch: u64 },
    ParticipantRequired { incident_id: String },
    WaitTimeoutInvalid,
    TerminalSuccessRequired { actual: String },
}

#[derive(Clone, Copy, Debug, PartialEq, Eq, Structural)]
pub enum CiRecoveryRole {
    Owner,
    Waiting,
}

/// The answer to a claim: the incident and the caller's role in it.
#[derive(Debug)]
pub struct CiRecoveryClaim {
    pub incident_id: String,
    pub state: String,
    pub role: CiRecoveryRole,
    pub epoch: u64,
    pub lease_expires_at: u64,
}

/// The answer to an ownership assertion or a lease renewal.
#[derive(Debug)]
pub struct CiRecoveryAssertion {
    pub allowed: bool,
    pub incident_id: String,
    pub epoch: u64,
    pub lease_expires_at: u64,
}

/// The answer to a transfer or a takeover.
#[derive(Debug)]
pub struct CiRecoveryTransfer {
    pub incident_id: String,
    pub epoch: u64,
    pub lease_expires_at: u64,
}

/// The answer to an assignment or a report.
#[derive(Debug)]
pub struct CiRecoveryAssignmentResult {
    pub incident_id: String,
    pub assignment_id: String,
    pub epoch: u64,
}

/// Why a waiting participant woke.
#[derive(Debug)]
pub struct CiRecoveryWait {
    pub incident_id: String,
    pub state: String,
    pub epoch: u64,
    pub wake_reason: String,
    pub assignment_id: Option<String>,
}

/// The whole incident as reported to a caller.
#[derive(Debug)]
pub struct CiRecoveryStatus {
    pub schema_version: u32,
    pub incident_id: String,
    pub state: String,
    pub epoch: u64,
    pub lease_expires_at: u64,
    pub hold_released: bool,
    pub trigger_count: usize,
    pub trigger: CiRecoveryTrigger,
    pub triggers: Vec<CiRecoveryTrigger>,
    pub owner: CiRecoveryParticipant,
    pub participants: Vec<CiRecoveryParticipant>,
    pub assignments: Vec<CiRecoveryAssignment>,
    pub failure_record: Option<CiRecoveryFailureRecord>,
    pub diagnosis: Option<CiRecoveryDiagnosis>,
    pub next_action: Option<CiRecoveryAction>,
    pub replacement: Option<CiRecoveryReplacement>,
    pub release_proof: Option<CiRecoveryReleaseProof>,
}

impl CiRecoveryStatus {
    /// The report of an incident: its fields, whether the merge hold is
    /// released (the incident is resolved), and how many triggers it has
    /// (one when none is listed).
    pub fn from_state(state: &CiRecoveryState) -> (r: Self)
        ensures
            r.schema_version == state.schema_version,
            r.incident_id@ == state.incident_id@,
            r.state@ == phase_text(state.state),
            r.epoch == state.epoch,
            r.lease_expires_at == state.lease_expires_at,
            r.hold_released == (state.state == CiRecoveryPhase::Resolved),
            r.trigger_count == (if state.triggers@.len() == 0 {
                1
            } else {
                state.triggers@.len()
            }),
            r.trigger@ == state.trigger@,
            r.triggers.deep_view() == state.triggers.deep_view(),
            r.owner@ == state.owner@,
            r.participants.deep_view() == state.participants.deep_view(),
            r.assignments.deep_view() == state.assignments.deep_view(),
            r.failure_record.deep_view() == state.failure_record.deep_view(),
            r.diagnosis.deep_view() == state.diagnosis.deep_view(),
            r.next_action.deep_view() == state.next_action.deep_view(),
            r.replacement.deep_view() == state.replacement.deep_view(),
            r.release_proof.deep_view() == state.release_proof.deep_view(),
    {
        let s = state.duplicate();
        CiRecoveryStatus {
            schema_version: s.schema_version,
            incident_id: s.incident_id,
            state: s.state.as_str().to_string(),
            epoch: s.epoch,
            lease_expires_at: s.lease_expires_at,
            hold_released: s.state == CiRecoveryPhase::Resolved,
            trigger_count: if state.triggers.len() == 0 {
                1
            } else {
                state.triggers.len()
            },
            trigger: s.trigger,
            triggers: s.triggers,
            owner: s.owner,
            participants: s.participants,
            assignments: s.assignments,
            failure_record: s.failure_record,
            diagnosis: s.diagnosis,
            next_action: s.next_action,
            replacement: s.replacement,
            release_proof: s.release_proof,
        }
    }
}

impl CiRecoveryClaim {
    pub fn from_state(state: &CiRecoveryState, role: CiRecoveryRole) -> (r: Self)
        ensures
            r.incident_id@ == state.incident_id@,
            r.state@ == phase_text(state.state),
            r.role == role,
            r.epoch == state.epoch,
            r.lease_expires_at == state.lease_expires_at,
    {
        CiRecoveryClaim {
            incident_id: state.incident_id.clone(),
            state: state.state.as_str().to_string(),
            role,
            epoch: state.epoch,
            lease_expires_at: state.lease_expires_at,
        }
    }
}

impl CiRecoveryWait {
    /// The answer when the wait ran out before anything was read.
    pub fn timeout(incident_id: &str, epoch: u64) -> (r: Self)
        ensures
            r.incident_id@ == incident_id@,
            r.state@ == "unknown"@,
            r.epoch == epoch,
            r.wake_reason@ == "timeout"@,
            r.assignment_id is None,
    {
        CiRecoveryWait {
            incident_id: incident_id.to_string(),
            state: "unknown".to_string(),
            epoch,
            wake_reason: "timeout".to_string(),
            assignment_id: None,
        }
    }

    pub fn from_state(state: &CiRecoveryState, wake_reason: &str, assignment_id: Option<String>) -> (r: Self)
        ensures
            r.incident_id@ == state.incident_id@,
            r.state@ == phase_text(state.state),
            r.epoch == state.epoch,
            r.wake_reason@ == wake_reason@,
            r.assignment_id == assignment_id,
    {
        CiRecoveryWait {
            incident_id: state.incident_id.clone(),
            state: state.state.as_str().to_string(),
            epoch: state.epoch,
            wake_reason: wake_reason.to_string(),
            assignment_id,
        }
    }
}

// ---------------------------------------------------------------------------
// Incident identifiers

pub open spec fn is_ascii_alnum(c: char) -> bool {
    ('0' <= c && c <= '9') || ('a' <= c && c <= 'z') || ('A' <= c && c <= 'Z')
}

pub open spec fn id_char(c: char) -> bool {
    is_ascii_alnum(c) || c == '-'
}

/// The characters of a run identifier that an incident identifier keeps.
pub open spec fn id_chars(s: Seq<char>) -> Seq<char>
    decreases s.len(),
{
    if s.len() == 0 {
        Seq::empty()
    } else if id_char(s.last()) {
        id_chars(s.drop_last()).push(s.last())
    } else {
        id_chars(s.drop_last())
    }
}

/// `ci-` and the letters, digits and hyphens of the run identifier, or
/// `ci-run` when it has none.
pub open spec fn incident_id_text(run_id: Seq<char>) -> Seq<char> {
    let kept = id_chars(run_id);
    "ci-"@ + if kept.len() == 0 {
        "run"@
    } else {
        kept
    }
}

/// The identifier of the incident opened by a failed run.
pub fn ci_recovery_incident_id(run_id: &str) -> (r: String)
    ensures
        r@ == incident_id_text(run_id@),
{
    let chars = chars_of(run_id);
    let mut kept: Vec<char> = Vec::new();
    let mut i: usize = 0;
    while i < chars.len()
        invariant
            i <= chars@.len(),
            chars@ == run_id@,
            kept@ == id_chars(chars@.subrange(0, i as int)),
        decreases chars.len() - i,
    {
        let c = chars[i];
        assert(chars@.subrange(0, i + 1).drop_last() =~= chars@.subrange(0, i as int));
        if ('0' <= c && c <= '9') || ('a' <= c && c <= 'z') || ('A' <= c && c <= 'Z') || c == '-' {
            kept.push(c);
        }
        i = i + 1;
    }
    assert(chars@.subrange(0, chars@.len() as int) =~= chars@);
    let mut r = "ci-".to_string();
    proof {
        reveal_strlit("ci-");
        reveal_strlit("run");
    }
    let tail: Vec<char> = if kept.len() == 0 {
        chars_of("run")
    } else {
        kept
    };
    let ghost start = r@;
    let mut j: usize = 0;
    while j < tail.len()
        invariant
            j <= tail@.len(),
            r@ == start + tail@.subrange(0, j as int),
        decreases tail.len() - j,
    {
        push_char(&mut r, tail[j]);
        assert(r@ =~= start + tail@.subrange(0, j + 1));
        j = j + 1;
    }
    assert(tail@.subrange(0, tail@.len() as int) =~= tail@);
    r
}

// ---------------------------------------------------------------------------
// Ownership assertion

/// Refuses an incident whose lease has run out at `now`.
pub fn ensure_ci_recovery_lease_active(state: &CiRecoveryState, now: u64) -> (r: Result<
    (),
    CiAccessError,
>)
    ensures
        r is Ok <==> now < state.lease_expires_at,
        r is Err ==> r->Err_0 is LeaseExpired && r->Err_0->LeaseExpired_incident_id@
            == state.incident_id@ && r->Err_0->LeaseExpired_epoch == state.epoch,
{
    if state.lease_expires_at <= now {
        return Err(
            CiAccessError::LeaseExpired { incident_id: state.incident_id.clone(), epoch: state.epoch },
        );
    }
    Ok(())
}

/// Whether the caller may act as the incident's owner: the incident exists,
/// is the one named, is at the epoch named, is owned by the caller, and the
/// lease is still running.
pub fn assert_ci_recovery_owner(
    state: &Option<CiRecoveryState>,
    incident_id: &str,
    epoch: u64,
    participant: &CiRecoveryParticipant,
    now: u64,
) -> (r: Result<CiRecoveryAssertion, CiAccessError>)
    ensures
        match state {
            None => r == Err::<CiRecoveryAssertion, CiAccessError>(CiAccessError::IncidentMissing),
            Some(s) => if s.incident_id@ != incident_id@ {
                r is Err && r->Err_0 is IncidentMismatch
                    && r->Err_0->IncidentMismatch_expected@ == s.incident_id@
                    && r->Err_0->IncidentMismatch_actual@ == incident_id@
            } else if s.epoch != epoch {
                r == Err::<CiRecoveryAssertion, CiAccessError>(
                    CiAccessError::StaleEpoch { expected: s.epoch, actual: epoch },
                )
            } else if s.owner@ != participant@ {
                r is Err && r->Err_0 is NotOwner && r->Err_0->NotOwner_incident_id@
                    == s.incident_id@ && r->Err_0->NotOwner_epoch == s.epoch
            } else if s.lease_expires_at <= now {
                r is Err && r->Err_0 is LeaseExpired
            } else {
                r is Ok && r->Ok_0.allowed && r->Ok_0.incident_id@ == s.incident_id@
                    && r->Ok_0.epoch == s.epoch && r->Ok_0.lease_expires_at
                    == s.lease_expires_at
            },
        },
{
    let s = match state {
        Some(s) => s,
        None => {
            return Err(CiAccessError::IncidentMissing);
        },
    };
    if !crate::text::str_eq(s.incident_id.as_str(), incident_id) {
        return Err(
            CiAccessError::IncidentMismatch {
                expected: s.incident_id.clone(),
                actual: incident_id.to_string(),
            },
        );
    }
    if s.epoch != epoch {
        return Err(CiAccessError::StaleEpoch { expected: s.epoch, actual: epoch });
    }
    if !s.owner.same(participant) {
        return Err(CiAccessError::NotOwner { incident_id: s.incident_id.clone(), epoch: s.epoch });
    }
    match ensure_ci_recovery_lease_active(s, now) {
        Err(e) => Err(e),
        Ok(()) => Ok(
            CiRecoveryAssertion {
                allowed: true,
                incident_id: s.incident_id.clone(),
                epoch: s.epoch,
                lease_expires_at: s.lease_expires_at,
            },
        ),
    }
}

// ---------------------------------------------------------------------------
// Claiming

/// What a claim does to the coordination stream.
#[derive(Debug)]
pub enum CiClaimPlan {
    /// The caller already takes part and the trigger is known: nothing to record.
    Unchanged { claim: CiRecoveryClaim },
    /// Join the open incident with the new trigger and/or participant.
    Join {
        trigger: Option<CiRecoveryTrigger>,
        participant: Option<CiRecoveryParticipant>,
        claim: CiRecoveryClaim,
    },
    /// Open a new incident owned by the caller.
    Open {
        incident_id: String,
        schema_version: u32,
        trigger: CiRecoveryTrigger,
        owner: CiRecoveryParticipant,
        lease_expires_at: u64,
        claim: CiRecoveryClaim,
    },
}

/// A failed replacement run reappears as a trigger when CI reruns it.
pub open spec fn reruns_failed_replacement(s: CiStateView, t: TriggerView) -> bool {
    match s.replacement {
        Some(r) => r.status == CiRecoveryReplacementStatus::Failed && r.run_id == t.run_id
            && r.run_url == t.run_url && r.sha == t.failed_sha,
        None => false,
    }
}

/// The triggers an incident counts, its single trigger when none is listed.
pub open spec fn known_triggers(s: CiStateView) -> Seq<TriggerView> {
    if s.triggers.len() == 0 {
        seq![s.trigger]
    } else {
        s.triggers
    }
}

pub open spec fn saturating_add(a: u64, b: u64) -> u64 {
    if a + b <= u64::MAX {
        (a + b) as u64
    } else {
        u64::MAX
    }
}

fn trigger_known(s: &CiRecoveryState, t: &CiRecoveryTrigger) -> (r: bool)
    ensures
        r == known_triggers(s@).contains(t@),
{
    if s.triggers.len() == 0 {
        let same = s.trigger.same(t);
        proof {
            if same {
                assert(known_triggers(s@)[0] == t@);
            }
        }
        same
    } else {
        contains_trigger(&s.triggers, t)
    }
}

/// How a caller with a failed CI run takes part in recovery. Where an
/// unresolved incident is open, the caller joins it (a new trigger is taken
/// only as a rerun of its failed replacement run); otherwise the caller opens
/// a new incident that it owns, under a lease from `claim_time`.
pub fn plan_ci_recovery_claim(
    active: &Option<CiRecoveryState>,
    coordination_ref_exists: bool,
    input: &CiRecoveryTrigger,
    participant: &CiRecoveryParticipant,
    claim_time: u64,
) -> (r: Result<CiClaimPlan, CiAccessError>)
    ensures
        coordination_ref_exists && active is None ==> r == Err::<CiClaimPlan, CiAccessError>(
            CiAccessError::CoordinationRefInvalid,
        ),
        !(coordination_ref_exists && active is None) ==> match active {
            Some(s) if s.state != CiRecoveryPhase::Resolved => {
                let role = if s.owner@ == participant@ {
                    CiRecoveryRole::Owner
                } else {
                    CiRecoveryRole::Waiting
                };
                let new_trigger = !known_triggers(s@).contains(input@);
                let new_participant = !s@.participants.contains(participant@);
                if new_trigger && !reruns_failed_replacement(s@, input@) {
                    r is Err && r->Err_0 is DistinctTriggerRequiresSeparateIncident
                        && r->Err_0->DistinctTriggerRequiresSeparateIncident_active_incident_id@
                        == s.incident_id@
                } else {
                    r is Ok && match r->Ok_0 {
                        CiClaimPlan::Unchanged { claim } => !new_trigger && !new_participant
                            && claim.incident_id@ == s.incident_id@ && claim.state@
                            == phase_text(s.state) && claim.role == role && claim.epoch
                            == s.epoch && claim.lease_expires_at == s.lease_expires_at,
                        CiClaimPlan::Join { trigger, participant: p, claim } => (new_trigger
                            || new_participant) && trigger.deep_view() == (if new_trigger {
                            Some(input@)
                        } else {
                            None
                        }) && p.deep_view() == (if new_participant {
                            Some(participant@)
                        } else {
                            None
                        }) && claim.incident_id@ == s.incident_id@ && claim.state@
                            == phase_text(s.state) && claim.role == role && claim.epoch
                            == s.epoch && claim.lease_expires_at == s.lease_expires_at,
                        CiClaimPlan::Open { .. } => false,
                    }
                }
            },
            _ => r is Ok && match r->Ok_0 {
                CiClaimPlan::Open {
                    incident_id,
                    schema_version,
                    trigger,
                    owner,
                    lease_expires_at,
                    claim,
                } => incident_id@ == incident_id_text(input.run_id@) && schema_version == 1
                    && trigger@ == input@ && owner@ == participant@ && lease_expires_at
                    == saturating_add(claim_time, CI_RECOVERY_LEASE_SECONDS)
                    && claim.incident_id@ == incident_id@ && claim.state@ == phase_text(
                    CiRecoveryPhase::Diagnosing,
                ) && claim.role == CiRecoveryRole::Owner && claim.epoch == 1
                    && claim.lease_expires_at == lease_expires_at,
                _ => false,
            },
        },
{
    if coordination_ref_exists && active.is_none() {
        return Err(CiAccessError::CoordinationRefInvalid);
    }
    if let Some(s) = active {
        if s.state != CiRecoveryPhase::Resolved {
            let role = if s.owner.same(participant) {
                CiRecoveryRole::Owner
            } else {
                CiRecoveryRole::Waiting
            };
            let new_trigger = !trigger_known(s, input);
            let new_participant = !contains_participant(&s.participants, participant);
            if new_trigger {
                let reruns = match &s.replacement {
                    Some(r) => r.status == CiRecoveryReplacementStatus::Failed && r.run_id
                        == input.run_id && r.run_url == input.run_url && r.sha
                        == input.failed_sha,
                    None => false,
                };
                if !reruns {
                    return Err(
                        CiAccessError::DistinctTriggerRequiresSeparateIncident {
                            active_incident_id: s.incident_id.clone(),
                        },
                    );
                }
            }
            let claim = CiRecoveryClaim::from_state(s, role);
            if !new_trigger && !new_participant {
                return Ok(CiClaimPlan::Unchanged { claim });
            }
            return Ok(
                CiClaimPlan::Join {
                    trigger: if new_trigger {
                        Some(input.duplicate())
                    } else {
                        None
                    },
                    participant: if new_participant {
                        Some(participant.duplicate())
                    } else {
                        None
                    },
                    claim,
                },
            );
        }
    }
    let incident_id = ci_recovery_incident_id(input.run_id.as_str());
    let lease_expires_at = claim_time.saturating_add(CI_RECOVERY_LEASE_SECONDS);
    let claim = CiRecoveryClaim {
        incident_id: incident_id.clone(),
        state: CiRecoveryPhase::Diagnosing.as_str().to_string(),
        role: CiRecoveryRole::Owner,
        epoch: 1,
        lease_expires_at,
    };
    Ok(
        CiClaimPlan::Open {
            incident_id,
            schema_version: 1,
            trigger: input.duplicate(),
            owner: participant.duplicate(),
            lease_expires_at,
            claim,
        },
    )
}

// ---------------------------------------------------------------------------
// Waiting

/// Refuses a wait longer than the limit.
pub fn validate_wait_timeout(timeout_seconds: u64) -> (r: Result<(), CiAccessError>)
    ensures
        r is Ok <==> timeout_seconds <= CI_RECOVERY_WAIT_MAX_SECONDS,
        r is Err ==> r->Err_0 == CiAccessError::WaitTimeoutInvalid,
{
    if timeout_seconds > CI_RECOVERY_WAIT_MAX_SECONDS {
        return Err(CiAccessError::WaitTimeoutInvalid);
    }
    Ok(())
}

pub open spec fn is_first_work_for(s: CiStateView, p: ParticipantView, i: int) -> bool {
    &&& 0 <= i < s.assignments.len()
    &&& s.assignments[i].owner_epoch == s.epoch
    &&& s.assignments[i].assignee == p
    &&& forall|j: int|
        0 <= j < i ==> !(#[trigger] s.assignments[j].owner_epoch == s.epoch
            && s.assignments[j].assignee == p)
}

/// One look at the incident for a waiting participant: the reason to wake,
/// or `None` to keep waiting. A participant wakes when the epoch moved on,
/// when the incident is resolved, or when work under the current epoch is
/// assigned to it (the first such assignment is named).
pub fn ci_recovery_wake(
    state: &CiRecoveryState,
    incident_id: &str,
    epoch: u64,
    participant: &CiRecoveryParticipant,
) -> (r: Result<Option<CiRecoveryWait>, CiAccessError>)
    ensures
        state.incident_id@ != incident_id@ ==> r is Err && r->Err_0 is IncidentMismatch,
        state.incident_id@ == incident_id@ && !state@.participants.contains(participant@) ==> r
            is Err && r->Err_0 is ParticipantRequired,
        state.incident_id@ == incident_id@ && state@.participants.contains(participant@) ==> r
            is Ok && match r->Ok_0 {
            Some(w) => w.incident_id@ == state.incident_id@ && w.state@ == phase_text(
                state.state,
            ) && w.epoch == state.epoch && if state.epoch != epoch {
                w.wake_reason@ == "epoch-changed"@ && w.assignment_id is None
            } else if state.state == CiRecoveryPhase::Resolved {
                w.wake_reason@ == "resolved"@ && w.assignment_id is None
            } else {
                w.wake_reason@ == "assignment"@ && exists|i: int|
                    is_first_work_for(state@, participant@, i) && w.assignment_id.deep_view()
                        == Some(state@.assignments[i].id)
            },
            None => state.epoch == epoch && state.state != CiRecoveryPhase::Resolved && forall|
                i: int,
            |
                0 <= i < state@.assignments.len() ==> !(#[trigger] state@.assignments[i].owner_epoch
                    == state.epoch && state@.assignments[i].assignee == participant@),
        },
{
    if !crate::text::str_eq(state.incident_id.as_str(), incident_id) {
        return Err(
            CiAccessError::IncidentMismatch {
                expected: state.incident_id.clone(),
                actual: incident_id.to_string(),
            },
        );
    }
    if !contains_participant(&state.participants, participant) {
        return Err(CiAccessError::ParticipantRequired { incident_id: incident_id.to_string() });
    }
    if state.epoch != epoch {
        return Ok(Some(CiRecoveryWait::from_state(state, "epoch-changed", None)));
    }
    if state.state == CiRecoveryPhase::Resolved {
        return Ok(Some(CiRecoveryWait::from_state(state, "resolved", None)));
    }
    let ghost dv = state@.assignments;
    let mut i: usize = 0;
    while i < state.assignments.len()
        invariant
            i <= dv.len(),
            dv == state@.assignments,
            state.incident_id@ == incident_id@,
            state@.participants.contains(participant@),
            state.epoch == epoch,
            state.state != CiRecoveryPhase::Resolved,
            forall|j: int|
                0 <= j < i ==> !(#[trigger] dv[j].owner_epoch == state.epoch && dv[j].assignee
                    == participant@),
        decreases state.assignments.len() - i,
    {
        let a = &state.assignments[i];
        assert(dv[i as int] == a@);
        if a.owner_epoch == state.epoch && a.assignee.same(participant) {
            assert(is_first_work_for(state@, participant@, i as int));
            return Ok(
                Some(CiRecoveryWait::from_state(state, "assignment", Some(a.id.clone()))),
            );
        }
        i = i + 1;
    }
    Ok(None)
}

// ---------------------------------------------------------------------------
// Reading the incident back

/// The epoch of the named incident, for a report on its work.
pub fn ci_recovery_epoch_of(state: &Option<CiRecoveryState>, incident_id: &str) -> (r: Result<
    u64,
    CiAccessError,
>)
    ensures
        match state {
            Some(s) if s.incident_id@ == incident_id@ => r == Ok::<u64, CiAccessError>(s.epoch),
            _ => r == Err::<u64, CiAccessError>(CiAccessError::IncidentMissing),
        },
{
    match state {
        Some(s) => if crate::text::str_eq(s.incident_id.as_str(), incident_id) {
            Ok(s.epoch)
        } else {
            Err(CiAccessError::IncidentMissing)
        },
        None => Err(CiAccessError::IncidentMissing),
    }
}

/// The report on the named incident after a command.
pub fn ci_recovery_status_of(state: &Option<CiRecoveryState>, incident_id: &str) -> (r: Result<
    CiRecoveryStatus,
    CiAccessError,
>)
    ensures
        match state {
            Some(s) if s.incident_id@ == incident_id@ => r is Ok && r->Ok_0.incident_id@
                == s.incident_id@ && r->Ok_0.epoch == s.epoch && r->Ok_0.state@ == phase_text(
                s.state,
            ) && r->Ok_0.hold_released == (s.state == CiRecoveryPhase::Resolved),
            _ => r is Err && r->Err_0 == CiAccessError::IncidentMissing,
        },
{
    match state {
        Some(s) => if crate::text::str_eq(s.incident_id.as_str(), incident_id) {
            Ok(CiRecoveryStatus::from_state(s))
        } else {
            Err(CiAccessError::IncidentMissing)
        },
        None => Err(CiAccessError::IncidentMissing),
    }
}

/// A release proof must report success.
pub fn require_terminal_success(terminal_status: &str) -> (r: Result<(), CiAccessError>)
    ensures
        r is Ok <==> terminal_status@ == "success"@,
        r is Err ==> r->Err_0 is TerminalSuccessRequired
            && r->Err_0->TerminalSuccessRequired_actual@ == terminal_status@,
{
    if !crate::text::str_eq(terminal_status, "success") {
        return Err(CiAccessError::TerminalSuccessRequired { actual: terminal_status.to_string() });
    }
    Ok(())
}

} // verus!
