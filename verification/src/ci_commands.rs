//! The commands on a CI-recovery incident. Each command folds the facts it
//! needs into a small state of its own, then decides the one fact to record
//! or why the request is refused.
use vstd::prelude::*;
use crate::ci_state::{
    first_assignment, find_assignment, push_opt_absent, CiFactView, CiRecoveryFact, };
use crate::ci_types::{
    contains_participant, contains_trigger, duplicate_assignments, duplicate_participants,
    duplicate_triggers, ActionView, AssignmentView, CiRecoveryAction, CiRecoveryActionKind,
    CiRecoveryAssignment, CiRecoveryClassification, CiRecoveryDiagnosis, CiRecoveryFailureRecord,
    CiRecoveryParticipant, CiRecoveryPhase, CiRecoveryReleaseProof, CiRecoveryReplacement,
    CiRecoveryReplacementStatus, CiRecoveryReport, CiRecoveryTrigger, ParticipantView,
    ReplacementView, TriggerView,
};
use crate::text::{decimal_string, decimal_text, push_char};

verus! {

/// Why a command on the incident is refused.
#[derive(Clone, Copy, Debug, PartialEq, Eq, Structural)]
pub enum CiCommandError {
    ClaimAlreadyActive,
    JoinWithoutActiveIncident,
    JoinEmptyOrDuplicateFact,
    IncidentResolved,
    IncidentMismatch,
    StaleEpoch,
    NotOwner,
    LeaseExpired,
    AlreadyOwner,
    LeaseActive,
    AssigneeNotJoined,
    AssignmentAuthorizationInvalid,
    AssignmentMissing,
    AssignmentStale,
    AssignmentNotAssignee,
    AssignmentAlreadyReported,
    DiagnosisRequired,
    ActionConflictsDiagnosis,
    NextActionRequired,
    RerunShaMismatch,
    ParticipantRequired,
    ReplacementRequired,
    ReplacementFailed,
    ReleaseProofMismatch,
}

/// The stable code that a refused command reports.
pub open spec fn ci_command_error_text(e: CiCommandError) -> Seq<char> {
    match e {
        CiCommandError::ClaimAlreadyActive => "ci_recovery_claim_already_active"@,
        CiCommandError::JoinWithoutActiveIncident => "ci_recovery_join_without_active_incident"@,
        CiCommandError::JoinEmptyOrDuplicateFact => "ci_recovery_join_empty_or_duplicate_fact"@,
        CiCommandError::IncidentResolved => "ci_recovery_incident_resolved"@,
        CiCommandError::IncidentMismatch => "ci_recovery_incident_mismatch"@,
        CiCommandError::StaleEpoch => "ci_recovery_stale_epoch"@,
        CiCommandError::NotOwner => "ci_recovery_not_owner"@,
        CiCommandError::LeaseExpired => "ci_recovery_lease_expired"@,
        CiCommandError::AlreadyOwner => "ci_recovery_already_owner"@,
        CiCommandError::LeaseActive => "ci_recovery_lease_active"@,
        CiCommandError::AssigneeNotJoined => "ci_recovery_assignee_not_joined"@,
        CiCommandError::AssignmentAuthorizationInvalid => "ci_recovery_assignment_authorization_invalid"@,
        CiCommandError::AssignmentMissing => "ci_recovery_assignment_missing"@,
        CiCommandError::AssignmentStale => "ci_recovery_assignment_stale"@,
        CiCommandError::AssignmentNotAssignee => "ci_recovery_assignment_not_assignee"@,
        CiCommandError::AssignmentAlreadyReported => "ci_recovery_assignment_already_reported"@,
        CiCommandError::DiagnosisRequired => "ci_recovery_diagnosis_required"@,
        CiCommandError::ActionConflictsDiagnosis => "ci_recovery_action_conflicts_diagnosis"@,
        CiCommandError::NextActionRequired => "ci_recovery_next_action_required"@,
        CiCommandError::RerunShaMismatch => "ci_recovery_rerun_sha_mismatch"@,
        CiCommandError::ParticipantRequired => "ci_recovery_participant_required"@,
        CiCommandError::ReplacementRequired => "ci_recovery_replacement_required"@,
        CiCommandError::ReplacementFailed => "ci_recovery_replacement_failed"@,
        CiCommandError::ReleaseProofMismatch => "ci_recovery_release_proof_mismatch"@,
    }
}

impl CiCommandError {
    pub fn as_str(self) -> (r: &'static str)
        ensures
            r@ == ci_command_error_text(self),
    {
        match self {
            CiCommandError::ClaimAlreadyActive => "ci_recovery_claim_already_active",
            CiCommandError::JoinWithoutActiveIncident => "ci_recovery_join_without_active_incident",
            CiCommandError::JoinEmptyOrDuplicateFact => "ci_recovery_join_empty_or_duplicate_fact",
            CiCommandError::IncidentResolved => "ci_recovery_incident_resolved",
            CiCommandError::IncidentMismatch => "ci_recovery_incident_mismatch",
            CiCommandError::StaleEpoch => "ci_recovery_stale_epoch",
            CiCommandError::NotOwner => "ci_recovery_not_owner",
            CiCommandError::LeaseExpired => "ci_recovery_lease_expired",
            CiCommandError::AlreadyOwner => "ci_recovery_already_owner",
            CiCommandError::LeaseActive => "ci_recovery_lease_active",
            CiCommandError::AssigneeNotJoined => "ci_recovery_assignee_not_joined",
            CiCommandError::AssignmentAuthorizationInvalid =>
                "ci_recovery_assignment_authorization_invalid",
            CiCommandError::AssignmentMissing => "ci_recovery_assignment_missing",
            CiCommandError::AssignmentStale => "ci_recovery_assignment_stale",
            CiCommandError::AssignmentNotAssignee => "ci_recovery_assignment_not_assignee",
            CiCommandError::AssignmentAlreadyReported => "ci_recovery_assignment_already_reported",
            CiCommandError::DiagnosisRequired => "ci_recovery_diagnosis_required",
            CiCommandError::ActionConflictsDiagnosis => "ci_recovery_action_conflicts_diagnosis",
            CiCommandError::NextActionRequired => "ci_recovery_next_action_required",
            CiCommandError::RerunShaMismatch => "ci_recovery_rerun_sha_mismatch",
            CiCommandError::ParticipantRequired => "ci_recovery_participant_required",
            CiCommandError::ReplacementRequired => "ci_recovery_replacement_required",
            CiCommandError::ReplacementFailed => "ci_recovery_replacement_failed",
            CiCommandError::ReleaseProofMismatch => "ci_recovery_release_proof_mismatch",
        }
    }
}

/// A decision viewed through the fact it records.
pub open spec fn decision_view(r: Result<CiRecoveryFact, CiCommandError>) -> Result<
    CiFactView,
    CiCommandError,
> {
    match r {
        Ok(f) => Ok(f@),
        Err(e) => Err(e),
    }
}

// ---------------------------------------------------------------------------
// Claim

/// What a claim needs: whether an unresolved incident is open.
#[derive(Clone, Copy, Debug, PartialEq, Eq, Structural)]
pub struct ClaimCiRecoveryState {
    pub active_incident: bool,
}

pub open spec fn claim_evolve(s: ClaimCiRecoveryState, f: CiFactView) -> ClaimCiRecoveryState {
    match f {
        CiFactView::Claimed { .. } => ClaimCiRecoveryState { active_incident: true },
        CiFactView::Resolved { .. } => ClaimCiRecoveryState { active_incident: false },
        CiFactView::LegacySnapshot { state } => ClaimCiRecoveryState {
            active_incident: state.phase != CiRecoveryPhase::Resolved,
        },
        _ => s,
    }
}

pub open spec fn claim_decision(
    s: ClaimCiRecoveryState,
    incident_id: Seq<char>,
    schema_version: u32,
    trigger: TriggerView,
    owner: ParticipantView,
    lease_expires_at: u64,
) -> Result<CiFactView, CiCommandError> {
    if s.active_incident {
        Err(CiCommandError::ClaimAlreadyActive)
    } else {
        Ok(
            CiFactView::Claimed {
                schema_version,
                incident_id,
                trigger,
                owner,
                lease_expires_at,
            },
        )
    }
}

impl ClaimCiRecoveryState {
    pub fn new() -> (r: Self)
        ensures
            !r.active_incident,
    {
        ClaimCiRecoveryState { active_incident: false }
    }

    pub fn evolve(&mut self, fact: &CiRecoveryFact)
        ensures
            *final(self) == claim_evolve(*old(self), fact@),
    {
        match fact {
            CiRecoveryFact::Claimed { .. } => self.active_incident = true,
            CiRecoveryFact::Resolved { .. } => self.active_incident = false,
            CiRecoveryFact::LegacySnapshot { state } => {
                self.active_incident = state.state != CiRecoveryPhase::Resolved;
            },
            _ => {},
        }
    }

    /// Opens a new incident, unless one is still unresolved.
    pub fn decide(
        &self,
        incident_id: &str,
        schema_version: u32,
        trigger: &CiRecoveryTrigger,
        owner: &CiRecoveryParticipant,
        lease_expires_at: u64,
    ) -> (r: Result<CiRecoveryFact, CiCommandError>)
        ensures
            decision_view(r) == claim_decision(
                *self,
                incident_id@,
                schema_version,
                trigger@,
                owner@,
                lease_expires_at,
            ),
    {
        if self.active_incident {
            return Err(CiCommandError::ClaimAlreadyActive);
        }
        Ok(
            CiRecoveryFact::Claimed {
                schema_version,
                incident_id: incident_id.to_string(),
                trigger: trigger.duplicate(),
                owner: owner.duplicate(),
                lease_expires_at,
            },
        )
    }
}

// ---------------------------------------------------------------------------
// Join

/// What a join needs: the open incident's triggers and participants, and the
/// last replacement run when it failed.
#[derive(Debug)]
pub struct JoinCiRecoveryState {
    pub active_incident: bool,
    pub triggers: Vec<CiRecoveryTrigger>,
    pub participants: Vec<CiRecoveryParticipant>,
    pub failed_replacement: Option<CiRecoveryReplacement>,
}

pub struct JoinStateView {
    pub active_incident: bool,
    pub triggers: Seq<TriggerView>,
    pub participants: Seq<ParticipantView>,
    pub failed_replacement: Option<ReplacementView>,
}

impl View for JoinCiRecoveryState {
    type V = JoinStateView;

    open spec fn view(&self) -> JoinStateView {
        JoinStateView {
            active_incident: self.active_incident,
            triggers: self.triggers.deep_view(),
            participants: self.participants.deep_view(),
            failed_replacement: self.failed_replacement.deep_view(),
        }
    }
}

pub open spec fn failed_only(r: Option<ReplacementView>) -> Option<ReplacementView> {
    match r {
        Some(x) => if x.status == CiRecoveryReplacementStatus::Failed {
            Some(x)
        } else {
            None
        },
        None => None,
    }
}

pub open spec fn join_evolve(s: JoinStateView, f: CiFactView) -> JoinStateView {
    match f {
        CiFactView::Claimed { trigger, owner, .. } => JoinStateView {
            active_incident: true,
            triggers: seq![trigger],
            participants: seq![owner],
            failed_replacement: None,
        },
        CiFactView::Joined { trigger, participant } => JoinStateView {
            triggers: push_opt_absent(s.triggers, trigger),
            participants: push_opt_absent(s.participants, participant),
            ..s
        },
        CiFactView::ReplacementRecorded { replacement, .. } => JoinStateView {
            failed_replacement: failed_only(Some(replacement)),
            ..s
        },
        CiFactView::Resolved { .. } => JoinStateView { active_incident: false, ..s },
        CiFactView::LegacySnapshot { state } => JoinStateView {
            active_incident: state.phase != CiRecoveryPhase::Resolved,
            triggers: if state.triggers.len() == 0 {
                seq![state.trigger]
            } else {
                state.triggers
            },
            participants: state.participants,
            failed_replacement: failed_only(state.replacement),
        },
        _ => s,
    }
}

/// A trigger joins only as the rerun of the failed replacement run.
pub open spec fn joinable_trigger(s: JoinStateView, t: TriggerView) -> bool {
    &&& !s.triggers.contains(t)
    &&& match s.failed_replacement {
        Some(r) => r.run_id == t.run_id && r.run_url == t.run_url && r.sha == t.failed_sha,
        None => false,
    }
}

pub open spec fn join_decision(
    s: JoinStateView,
    trigger: Option<TriggerView>,
    participant: Option<ParticipantView>,
) -> Result<CiFactView, CiCommandError> {
    let t = match trigger {
        Some(t) => if joinable_trigger(s, t) {
            Some(t)
        } else {
            None
        },
        None => None,
    };
    let p = match participant {
        Some(p) => if !s.participants.contains(p) {
            Some(p)
        } else {
            None
        },
        None => None,
    };
    if !s.active_incident {
        Err(CiCommandError::JoinWithoutActiveIncident)
    } else if t is None && p is None {
        Err(CiCommandError::JoinEmptyOrDuplicateFact)
    } else {
        Ok(CiFactView::Joined { trigger: t, participant: p })
    }
}

impl JoinCiRecoveryState {
    pub fn new() -> (r: Self)
        ensures
            r@ == (JoinStateView {
                active_incident: false,
                triggers: Seq::empty(),
                participants: Seq::empty(),
                failed_replacement: None,
            }),
    {
        let r = JoinCiRecoveryState {
            active_incident: false,
            triggers: Vec::new(),
            participants: Vec::new(),
            failed_replacement: None,
        };
        assert(r.triggers.deep_view() =~= Seq::<TriggerView>::empty());
        assert(r.participants.deep_view() =~= Seq::<ParticipantView>::empty());
        r
    }

    pub fn evolve(&mut self, fact: &CiRecoveryFact)
        ensures
            final(self)@ == join_evolve(old(self)@, fact@),
    {
        match fact {
            CiRecoveryFact::Claimed { trigger, owner, .. } => {
                self.active_incident = true;
                self.triggers = single_trigger(trigger);
                self.participants = single_participant(owner);
                self.failed_replacement = None;
            },
            CiRecoveryFact::Joined { trigger, participant } => {
                push_trigger_absent(&mut self.triggers, trigger);
                push_participant_absent(&mut self.participants, participant);
            },
            CiRecoveryFact::ReplacementRecorded { replacement, .. } => {
                self.failed_replacement = if replacement.status
                    == CiRecoveryReplacementStatus::Failed {
                    Some(replacement.duplicate())
                } else {
                    None
                };
            },
            CiRecoveryFact::Resolved { .. } => self.active_incident = false,
            CiRecoveryFact::LegacySnapshot { state } => {
                self.active_incident = state.state != CiRecoveryPhase::Resolved;
                self.triggers = if state.triggers.len() == 0 {
                    single_trigger(&state.trigger)
                } else {
                    duplicate_triggers(&state.triggers)
                };
                self.participants = duplicate_participants(&state.participants);
                self.failed_replacement = match &state.replacement {
                    Some(r) => if r.status == CiRecoveryReplacementStatus::Failed {
                        Some(r.duplicate())
                    } else {
                        None
                    },
                    None => None,
                };
            },
            _ => {},
        }
    }

    /// Adds a participant, or a trigger that reruns the failed replacement
    /// run, to the open incident; refused when neither is new.
    pub fn decide(
        &self,
        trigger: &Option<CiRecoveryTrigger>,
        participant: &Option<CiRecoveryParticipant>,
    ) -> (r: Result<CiRecoveryFact, CiCommandError>)
        ensures
            decision_view(r) == join_decision(self@, trigger.deep_view(), participant.deep_view()),
    {
        if !self.active_incident {
            return Err(CiCommandError::JoinWithoutActiveIncident);
        }
        let t: Option<CiRecoveryTrigger> = match trigger {
            Some(t) => {
                let fresh = !contains_trigger(&self.triggers, t);
                let rerun = match &self.failed_replacement {
                    Some(r) => r.run_id == t.run_id && r.run_url == t.run_url && r.sha
                        == t.failed_sha,
                    None => false,
                };
                if fresh && rerun {
                    Some(t.duplicate())
                } else {
                    None
                }
            },
            None => None,
        };
        let p: Option<CiRecoveryParticipant> = match participant {
            Some(p) => if !contains_participant(&self.participants, p) {
                Some(p.duplicate())
            } else {
                None
            },
            None => None,
        };
        if t.is_none() && p.is_none() {
            return Err(CiCommandError::JoinEmptyOrDuplicateFact);
        }
        Ok(CiRecoveryFact::Joined { trigger: t, participant: p })
    }
}

fn single_trigger(t: &CiRecoveryTrigger) -> (r: Vec<CiRecoveryTrigger>)
    ensures
        r.deep_view() == seq![t@],
{
    let mut r: Vec<CiRecoveryTrigger> = Vec::new();
    r.push(t.duplicate());
    assert(r.deep_view() =~= seq![t@]);
    r
}

fn single_participant(p: &CiRecoveryParticipant) -> (r: Vec<CiRecoveryParticipant>)
    ensures
        r.deep_view() == seq![p@],
{
    let mut r: Vec<CiRecoveryParticipant> = Vec::new();
    r.push(p.duplicate());
    assert(r.deep_view() =~= seq![p@]);
    r
}

fn push_trigger_absent(v: &mut Vec<CiRecoveryTrigger>, t: &Option<CiRecoveryTrigger>)
    ensures
        final(v).deep_view() == push_opt_absent(old(v).deep_view(), t.deep_view()),
{
    if let Some(t) = t {
        if !contains_trigger(v, t) {
            v.push(t.duplicate());
            assert(v.deep_view() =~= old(v).deep_view().push(t@));
        }
    }
}

fn push_participant_absent(v: &mut Vec<CiRecoveryParticipant>, p: &Option<CiRecoveryParticipant>)
    ensures
        final(v).deep_view() == push_opt_absent(old(v).deep_view(), p.deep_view()),
{
    if let Some(p) = p {
        if !contains_participant(v, p) {
            v.push(p.duplicate());
            assert(v.deep_view() =~= old(v).deep_view().push(p@));
        }
    }
}

// ---------------------------------------------------------------------------
// Ownership: transfer, takeover and assignment

/// What the ownership commands need: the incident, its owner, epoch and
/// lease, who has joined, how many assignments were issued, and whether it
/// is resolved. Lease renewals are not folded here.
#[derive(Debug)]
pub struct CiOwnershipState {
    pub incident_id: Option<String>,
    pub owner: Option<CiRecoveryParticipant>,
    pub epoch: u64,
    pub lease_expires_at: u64,
    pub participants: Vec<CiRecoveryParticipant>,
    pub assignment_count: usize,
    pub resolved: bool,
}

pub struct OwnershipView {
    pub incident_id: Option<Seq<char>>,
    pub owner: Option<ParticipantView>,
    pub epoch: u64,
    pub lease_expires_at: u64,
    pub participants: Seq<ParticipantView>,
    pub assignment_count: usize,
    pub resolved: bool,
}

impl View for CiOwnershipState {
    type V = OwnershipView;

    open spec fn view(&self) -> OwnershipView {
        OwnershipView {
            incident_id: self.incident_id.deep_view(),
            owner: self.owner.deep_view(),
            epoch: self.epoch,
            lease_expires_at: self.lease_expires_at,
            participants: self.participants.deep_view(),
            assignment_count: self.assignment_count,
            resolved: self.resolved,
        }
    }
}

pub open spec fn ownership_evolve(s: OwnershipView, f: CiFactView) -> OwnershipView {
    match f {
        CiFactView::Claimed { incident_id, owner, lease_expires_at, .. } => OwnershipView {
            incident_id: Some(incident_id),
            owner: Some(owner),
            epoch: 1,
            lease_expires_at,
            participants: seq![owner],
            assignment_count: 0,
            resolved: false,
        },
        CiFactView::Joined { participant, .. } => OwnershipView {
            participants: push_opt_absent(s.participants, participant),
            ..s
        },
        CiFactView::Transferred { owner, epoch, lease_expires_at, participant } => OwnershipView {
            owner: Some(owner),
            epoch,
            lease_expires_at,
            participants: push_opt_absent(s.participants, participant),
            ..s
        },
        CiFactView::TakenOver { owner, epoch, lease_expires_at, participant } => OwnershipView {
            owner: Some(owner),
            epoch,
            lease_expires_at,
            participants: push_opt_absent(s.participants, participant),
            ..s
        },
        CiFactView::Assigned { .. } => OwnershipView {
            assignment_count: if s.assignment_count < usize::MAX {
                (s.assignment_count + 1) as usize
            } else {
                s.assignment_count
            },
            ..s
        },
        CiFactView::Resolved { .. } => OwnershipView { resolved: true, ..s },
        CiFactView::LegacySnapshot { state } => OwnershipView {
            incident_id: Some(state.incident_id),
            owner: Some(state.owner),
            epoch: state.epoch,
            lease_expires_at: state.lease_expires_at,
            participants: state.participants,
            assignment_count: state.assignments.len() as usize,
            resolved: state.phase == CiRecoveryPhase::Resolved,
        },
        _ => s,
    }
}

/// The checks every owner's command passes, in order: the incident is open,
/// is the one named, is at the expected epoch, is owned by the caller, and
/// the caller's lease has not run out at the observed time.
pub open spec fn owner_guard(
    resolved: bool,
    incident_id: Option<Seq<char>>,
    owner: Option<ParticipantView>,
    epoch: u64,
    lease_expires_at: u64,
    want_incident: Seq<char>,
    expected_epoch: u64,
    caller: ParticipantView,
    observed_at: u64,
) -> Option<CiCommandError> {
    if resolved {
        Some(CiCommandError::IncidentResolved)
    } else if incident_id != Some(want_incident) {
        Some(CiCommandError::IncidentMismatch)
    } else if epoch != expected_epoch {
        Some(CiCommandError::StaleEpoch)
    } else if owner != Some(caller) {
        Some(CiCommandError::NotOwner)
    } else if lease_expires_at <= observed_at {
        Some(CiCommandError::LeaseExpired)
    } else {
        None
    }
}

fn check_owner(
    resolved: bool,
    incident_id: &Option<String>,
    owner: &Option<CiRecoveryParticipant>,
    epoch: u64,
    lease_expires_at: u64,
    want_incident: &str,
    expected_epoch: u64,
    caller: &CiRecoveryParticipant,
    observed_at: u64,
) -> (r: Option<CiCommandError>)
    ensures
        r == owner_guard(
            resolved,
            incident_id.deep_view(),
            owner.deep_view(),
            epoch,
            lease_expires_at,
            want_incident@,
            expected_epoch,
            caller@,
            observed_at,
        ),
{
    if resolved {
        return Some(CiCommandError::IncidentResolved);
    }
    if !same_incident(incident_id, want_incident) {
        return Some(CiCommandError::IncidentMismatch);
    }
    if epoch != expected_epoch {
        return Some(CiCommandError::StaleEpoch);
    }
    let is_owner = match owner {
        Some(o) => o.same(caller),
        None => false,
    };
    if !is_owner {
        return Some(CiCommandError::NotOwner);
    }
    if lease_expires_at <= observed_at {
        return Some(CiCommandError::LeaseExpired);
    }
    None
}

fn same_incident(incident_id: &Option<String>, want: &str) -> (r: bool)
    ensures
        r == (incident_id.deep_view() == Some(want@)),
{
    match incident_id {
        Some(id) => crate::text::str_eq(id.as_str(), want),
        None => false,
    }
}

/// `epoch + 1`, held at the largest epoch.
pub open spec fn next_epoch(epoch: u64) -> u64 {
    if epoch < u64::MAX {
        (epoch + 1) as u64
    } else {
        epoch
    }
}

pub open spec fn new_participant(
    participants: Seq<ParticipantView>,
    p: ParticipantView,
) -> Option<ParticipantView> {
    if participants.contains(p) {
        None
    } else {
        Some(p)
    }
}

pub open spec fn transfer_decision(
    s: OwnershipView,
    incident_id: Seq<char>,
    expected_epoch: u64,
    caller: ParticipantView,
    recipient: ParticipantView,
    observed_at: u64,
    lease_expires_at: u64,
) -> Result<CiFactView, CiCommandError> {
    match owner_guard(
        s.resolved,
        s.incident_id,
        s.owner,
        s.epoch,
        s.lease_expires_at,
        incident_id,
        expected_epoch,
        caller,
        observed_at,
    ) {
        Some(e) => Err(e),
        None => Ok(
            CiFactView::Transferred {
                owner: recipient,
                epoch: next_epoch(expected_epoch),
                lease_expires_at,
                participant: new_participant(s.participants, recipient),
            },
        ),
    }
}

pub open spec fn takeover_decision(
    s: OwnershipView,
    incident_id: Seq<char>,
    expected_epoch: u64,
    successor: ParticipantView,
    observed_at: u64,
    lease_expires_at: u64,
) -> Result<CiFactView, CiCommandError> {
    if s.resolved {
        Err(CiCommandError::IncidentResolved)
    } else if s.incident_id != Some(incident_id) {
        Err(CiCommandError::IncidentMismatch)
    } else if s.epoch != expected_epoch {
        Err(CiCommandError::StaleEpoch)
    } else if s.owner == Some(successor) {
        Err(CiCommandError::AlreadyOwner)
    } else if s.lease_expires_at > observed_at {
        Err(CiCommandError::LeaseActive)
    } else {
        Ok(
            CiFactView::TakenOver {
                owner: successor,
                epoch: next_epoch(expected_epoch),
                lease_expires_at,
                participant: new_participant(s.participants, successor),
            },
        )
    }
}

/// The identifier of the assignment issued after `count` others.
pub open spec fn assignment_id_text(count: usize) -> Seq<char> {
    seq!['a'] + decimal_text(
        (if count < usize::MAX {
            count + 1
        } else {
            count as int
        }) as nat,
    )
}

pub open spec fn assign_decision(
    s: OwnershipView,
    incident_id: Seq<char>,
    expected_epoch: u64,
    caller: ParticipantView,
    assignment: AssignmentView,
    observed_at: u64,
) -> Result<CiFactView, CiCommandError> {
    match owner_guard(
        s.resolved,
        s.incident_id,
        s.owner,
        s.epoch,
        s.lease_expires_at,
        incident_id,
        expected_epoch,
        caller,
        observed_at,
    ) {
        Some(e) => Err(e),
        None => if !s.participants.contains(assignment.assignee) {
            Err(CiCommandError::AssigneeNotJoined)
        } else if assignment.owner_epoch != s.epoch || assignment.report is Some {
            Err(CiCommandError::AssignmentAuthorizationInvalid)
        } else {
            Ok(
                CiFactView::Assigned {
                    assignment: AssignmentView {
                        id: assignment_id_text(s.assignment_count),
                        ..assignment
                    },
                },
            )
        },
    }
}

impl CiOwnershipState {
    pub fn new() -> (r: Self)
        ensures
            r@ == (OwnershipView {
                incident_id: None,
                owner: None,
                epoch: 0,
                lease_expires_at: 0,
                participants: Seq::empty(),
                assignment_count: 0,
                resolved: false,
            }),
    {
        let r = CiOwnershipState {
            incident_id: None,
            owner: None,
            epoch: 0,
            lease_expires_at: 0,
            participants: Vec::new(),
            assignment_count: 0,
            resolved: false,
        };
        assert(r.participants.deep_view() =~= Seq::<ParticipantView>::empty());
        r
    }

    pub fn evolve(&mut self, fact: &CiRecoveryFact)
        ensures
            final(self)@ == ownership_evolve(old(self)@, fact@),
    {
        match fact {
            CiRecoveryFact::Claimed { incident_id, owner, lease_expires_at, .. } => {
                self.incident_id = Some(incident_id.clone());
                self.owner = Some(owner.duplicate());
                self.epoch = 1;
                self.lease_expires_at = *lease_expires_at;
                self.participants = single_participant(owner);
                self.assignment_count = 0;
                self.resolved = false;
            },
            CiRecoveryFact::Joined { participant, .. } => {
                push_participant_absent(&mut self.participants, participant);
            },
            CiRecoveryFact::Transferred { owner, epoch, lease_expires_at, participant }
            | CiRecoveryFact::TakenOver { owner, epoch, lease_expires_at, participant } => {
                self.owner = Some(owner.duplicate());
                self.epoch = *epoch;
                self.lease_expires_at = *lease_expires_at;
                push_participant_absent(&mut self.participants, participant);
            },
            CiRecoveryFact::Assigned { .. } => {
                self.assignment_count = self.assignment_count.saturating_add(1);
            },
            CiRecoveryFact::Resolved { .. } => self.resolved = true,
            CiRecoveryFact::LegacySnapshot { state } => {
                self.incident_id = Some(state.incident_id.clone());
                self.owner = Some(state.owner.duplicate());
                self.epoch = state.epoch;
                self.lease_expires_at = state.lease_expires_at;
                self.participants = duplicate_participants(&state.participants);
                self.assignment_count = state.assignments.len();
                self.resolved = state.state == CiRecoveryPhase::Resolved;
            },
            _ => {},
        }
    }

    /// Hands the incident from its owner to `recipient` under the next epoch.
    pub fn decide_transfer(
        &self,
        incident_id: &str,
        expected_epoch: u64,
        caller: &CiRecoveryParticipant,
        recipient: &CiRecoveryParticipant,
        observed_at: u64,
        lease_expires_at: u64,
    ) -> (r: Result<CiRecoveryFact, CiCommandError>)
        ensures
            decision_view(r) == transfer_decision(
                self@,
                incident_id@,
                expected_epoch,
                caller@,
                recipient@,
                observed_at,
                lease_expires_at,
            ),
    {
        if let Some(e) = check_owner(
            self.resolved,
            &self.incident_id,
            &self.owner,
            self.epoch,
            self.lease_expires_at,
            incident_id,
            expected_epoch,
            caller,
            observed_at,
        ) {
            return Err(e);
        }
        let participant = if contains_participant(&self.participants, recipient) {
            None
        } else {
            Some(recipient.duplicate())
        };
        Ok(
            CiRecoveryFact::Transferred {
                owner: recipient.duplicate(),
                epoch: expected_epoch.saturating_add(1),
                lease_expires_at,
                participant,
            },
        )
    }

    /// Takes the incident over for `successor` once the owner's lease ran out.
    pub fn decide_takeover(
        &self,
        incident_id: &str,
        expected_epoch: u64,
        successor: &CiRecoveryParticipant,
        observed_at: u64,
        lease_expires_at: u64,
    ) -> (r: Result<CiRecoveryFact, CiCommandError>)
        ensures
            decision_view(r) == takeover_decision(
                self@,
                incident_id@,
                expected_epoch,
                successor@,
                observed_at,
                lease_expires_at,
            ),
    {
        if self.resolved {
            return Err(CiCommandError::IncidentResolved);
        }
        if !same_incident(&self.incident_id, incident_id) {
            return Err(CiCommandError::IncidentMismatch);
        }
        if self.epoch != expected_epoch {
            return Err(CiCommandError::StaleEpoch);
        }
        let already = match &self.owner {
            Some(o) => o.same(successor),
            None => false,
        };
        if already {
            return Err(CiCommandError::AlreadyOwner);
        }
        if self.lease_expires_at > observed_at {
            return Err(CiCommandError::LeaseActive);
        }
        let participant = if contains_participant(&self.participants, successor) {
            None
        } else {
            Some(successor.duplicate())
        };
        Ok(
            CiRecoveryFact::TakenOver {
                owner: successor.duplicate(),
                epoch: expected_epoch.saturating_add(1),
                lease_expires_at,
                participant,
            },
        )
    }

    /// Issues a piece of work to a joined participant, numbered after the
    /// assignments issued so far.
    pub fn decide_assign(
        &self,
        incident_id: &str,
        expected_epoch: u64,
        caller: &CiRecoveryParticipant,
        assignment: &CiRecoveryAssignment,
        observed_at: u64,
    ) -> (r: Result<CiRecoveryFact, CiCommandError>)
        ensures
            decision_view(r) == assign_decision(
                self@,
                incident_id@,
                expected_epoch,
                caller@,
                assignment@,
                observed_at,
            ),
    {
        if let Some(e) = check_owner(
            self.resolved,
            &self.incident_id,
            &self.owner,
            self.epoch,
            self.lease_expires_at,
            incident_id,
            expected_epoch,
            caller,
            observed_at,
        ) {
            return Err(e);
        }
        if !contains_participant(&self.participants, &assignment.assignee) {
            return Err(CiCommandError::AssigneeNotJoined);
        }
        if assignment.owner_epoch != self.epoch || assignment.report.is_some() {
            return Err(CiCommandError::AssignmentAuthorizationInvalid);
        }
        let mut issued = assignment.duplicate();
        issued.id = assignment_id(self.assignment_count);
        Ok(CiRecoveryFact::Assigned { assignment: issued })
    }
}

/// `a` followed by the number of the next assignment.
pub fn assignment_id(count: usize) -> (r: String)
    ensures
        r@ == assignment_id_text(count),
{
    let next = count.saturating_add(1);
    let mut id = String::new();
    push_char(&mut id, 'a');
    let digits = decimal_string(next as u64);
    let ghost start = id@;
    let chars = crate::text::chars_of(digits.as_str());
    let mut i: usize = 0;
    while i < chars.len()
        invariant
            i <= chars@.len(),
            chars@ == digits@,
            id@ == start + chars@.subrange(0, i as int),
        decreases chars.len() - i,
    {
        push_char(&mut id, chars[i]);
        assert(id@ =~= start + chars@.subrange(0, i + 1));
        i = i + 1;
    }
    assert(chars@.subrange(0, chars@.len() as int) =~= chars@);
    assert(start =~= seq!['a']);
    id
}

// ---------------------------------------------------------------------------
// Report

/// What a report needs: the incident, its epoch, the assignments issued, and
/// whether it is resolved.
#[derive(Debug)]
pub struct ReportCiRecoveryWorkState {
    pub incident_id: Option<String>,
    pub epoch: u64,
    pub assignments: Vec<CiRecoveryAssignment>,
    pub resolved: bool,
}

pub struct ReportStateView {
    pub incident_id: Option<Seq<char>>,
    pub epoch: u64,
    pub assignments: Seq<AssignmentView>,
    pub resolved: bool,
}

impl View for ReportCiRecoveryWorkState {
    type V = ReportStateView;

    open spec fn view(&self) -> ReportStateView {
        ReportStateView {
            incident_id: self.incident_id.deep_view(),
            epoch: self.epoch,
            assignments: self.assignments.deep_view(),
            resolved: self.resolved,
        }
    }
}

pub open spec fn report_evolve(s: ReportStateView, f: CiFactView) -> ReportStateView {
    match f {
        CiFactView::Claimed { incident_id, .. } => ReportStateView {
            incident_id: Some(incident_id),
            epoch: 1,
            assignments: Seq::empty(),
            resolved: false,
        },
        CiFactView::Transferred { epoch, .. } => ReportStateView { epoch, ..s },
        CiFactView::TakenOver { epoch, .. } => ReportStateView { epoch, ..s },
        CiFactView::Assigned { assignment } => ReportStateView {
            assignments: s.assignments.push(assignment),
            ..s
        },
        CiFactView::Reported { assignment_id, report, .. } => match first_assignment(
            s.assignments,
            assignment_id,
        ) {
            Some(i) => ReportStateView {
                assignments: s.assignments.update(
                    i,
                    AssignmentView { report: Some(report), ..s.assignments[i] },
                ),
                ..s
            },
            None => s,
        },
        CiFactView::Resolved { .. } => ReportStateView { resolved: true, ..s },
        CiFactView::LegacySnapshot { state } => ReportStateView {
            incident_id: Some(state.incident_id),
            epoch: state.epoch,
            assignments: state.assignments,
            resolved: state.phase == CiRecoveryPhase::Resolved,
        },
        _ => s,
    }
}

pub open spec fn report_decision(
    s: ReportStateView,
    incident_id: Seq<char>,
    assignment_id: Seq<char>,
    assignee: ParticipantView,
    report: crate::ci_types::ReportView,
) -> Result<CiFactView, CiCommandError> {
    if s.resolved {
        Err(CiCommandError::IncidentResolved)
    } else if s.incident_id != Some(incident_id) {
        Err(CiCommandError::IncidentMismatch)
    } else {
        match first_assignment(s.assignments, assignment_id) {
            None => Err(CiCommandError::AssignmentMissing),
            Some(i) => if s.assignments[i].owner_epoch != s.epoch {
                Err(CiCommandError::AssignmentStale)
            } else if s.assignments[i].assignee != assignee {
                Err(CiCommandError::AssignmentNotAssignee)
            } else if s.assignments[i].report is Some {
                Err(CiCommandError::AssignmentAlreadyReported)
            } else {
                Ok(CiFactView::Reported { assignment_id, assignee, report })
            },
        }
    }
}

impl ReportCiRecoveryWorkState {
    pub fn new() -> (r: Self)
        ensures
            r@ == (ReportStateView {
                incident_id: None,
                epoch: 0,
                assignments: Seq::empty(),
                resolved: false,
            }),
    {
        let r = ReportCiRecoveryWorkState {
            incident_id: None,
            epoch: 0,
            assignments: Vec::new(),
            resolved: false,
        };
        assert(r.assignments.deep_view() =~= Seq::<AssignmentView>::empty());
        r
    }

    pub fn evolve(&mut self, fact: &CiRecoveryFact)
        ensures
            final(self)@ == report_evolve(old(self)@, fact@),
    {
        match fact {
            CiRecoveryFact::Claimed { incident_id, .. } => {
                self.incident_id = Some(incident_id.clone());
                self.epoch = 1;
                self.assignments = Vec::new();
                self.resolved = false;
                assert(self.assignments.deep_view() =~= Seq::<AssignmentView>::empty());
            },
            CiRecoveryFact::Transferred { epoch, .. } | CiRecoveryFact::TakenOver {
                epoch,
                ..
            } => {
                self.epoch = *epoch;
            },
            CiRecoveryFact::Assigned { assignment } => {
                self.assignments.push(assignment.duplicate());
                assert(self.assignments.deep_view() =~= old(self)@.assignments.push(assignment@));
            },
            CiRecoveryFact::Reported { assignment_id, report, .. } => {
                if let Some(i) = find_assignment(&self.assignments, assignment_id) {
                    let mut a = self.assignments[i].duplicate();
                    a.report = Some(report.duplicate());
                    let ghost av = a@;
                    self.assignments.set(i, a);
                    assert(self.assignments.deep_view() =~= old(self)@.assignments.update(
                        i as int,
                        av,
                    ));
                }
            },
            CiRecoveryFact::Resolved { .. } => self.resolved = true,
            CiRecoveryFact::LegacySnapshot { state } => {
                self.incident_id = Some(state.incident_id.clone());
                self.epoch = state.epoch;
                self.assignments = duplicate_assignments(&state.assignments);
                self.resolved = state.state == CiRecoveryPhase::Resolved;
            },
            _ => {},
        }
    }

    /// Records the assignee's one report on work issued under the current
    /// epoch.
    pub fn decide(
        &self,
        incident_id: &str,
        assignment_id: &String,
        assignee: &CiRecoveryParticipant,
        report: &CiRecoveryReport,
    ) -> (r: Result<CiRecoveryFact, CiCommandError>)
        ensures
            decision_view(r) == report_decision(
                self@,
                incident_id@,
                assignment_id@,
                assignee@,
                report@,
            ),
    {
        if self.resolved {
            return Err(CiCommandError::IncidentResolved);
        }
        if !same_incident(&self.incident_id, incident_id) {
            return Err(CiCommandError::IncidentMismatch);
        }
        match find_assignment(&self.assignments, assignment_id) {
            None => Err(CiCommandError::AssignmentMissing),
            Some(i) => {
                let a = &self.assignments[i];
                assert(self.assignments.deep_view()[i as int] == a@);
                if a.owner_epoch != self.epoch {
                    Err(CiCommandError::AssignmentStale)
                } else if !a.assignee.same(assignee) {
                    Err(CiCommandError::AssignmentNotAssignee)
                } else if a.report.is_some() {
                    Err(CiCommandError::AssignmentAlreadyReported)
                } else {
                    Ok(
                        CiRecoveryFact::Reported {
                            assignment_id: assignment_id.clone(),
                            assignee: assignee.duplicate(),
                            report: report.duplicate(),
                        },
                    )
                }
            },
        }
    }
}

// ---------------------------------------------------------------------------
// The owner's work: lease renewal, diagnosis, action and replacement run

/// What the owner's commands need: the incident, its owner, epoch and lease
/// (renewals included), the diagnosed classification, the chosen action,
/// the failed commit, and whether it is resolved.
#[derive(Debug)]
pub struct CiOwnerState {
    pub incident_id: Option<String>,
    pub owner: Option<CiRecoveryParticipant>,
    pub epoch: u64,
    pub lease_expires_at: u64,
    pub classification: Option<CiRecoveryClassification>,
    pub action: Option<CiRecoveryAction>,
    pub failed_sha: Option<String>,
    pub resolved: bool,
}

pub struct OwnerStateView {
    pub incident_id: Option<Seq<char>>,
    pub owner: Option<ParticipantView>,
    pub epoch: u64,
    pub lease_expires_at: u64,
    pub classification: Option<CiRecoveryClassification>,
    pub action: Option<ActionView>,
    pub failed_sha: Option<Seq<char>>,
    pub resolved: bool,
}

impl View for CiOwnerState {
    type V = OwnerStateView;

    open spec fn view(&self) -> OwnerStateView {
        OwnerStateView {
            incident_id: self.incident_id.deep_view(),
            owner: self.owner.deep_view(),
            epoch: self.epoch,
            lease_expires_at: self.lease_expires_at,
            classification: self.classification,
            action: self.action.deep_view(),
            failed_sha: self.failed_sha.deep_view(),
            resolved: self.resolved,
        }
    }
}

pub open spec fn owner_evolve(s: OwnerStateView, f: CiFactView) -> OwnerStateView {
    match f {
        CiFactView::Claimed { incident_id, trigger, owner, lease_expires_at, .. } =>
            OwnerStateView {
            incident_id: Some(incident_id),
            owner: Some(owner),
            epoch: 1,
            lease_expires_at,
            classification: None,
            action: None,
            failed_sha: Some(trigger.failed_sha),
            resolved: false,
        },
        CiFactView::Transferred { owner, epoch, lease_expires_at, .. } => OwnerStateView {
            owner: Some(owner),
            epoch,
            lease_expires_at,
            ..s
        },
        CiFactView::TakenOver { owner, epoch, lease_expires_at, .. } => OwnerStateView {
            owner: Some(owner),
            epoch,
            lease_expires_at,
            ..s
        },
        CiFactView::HeartbeatRecorded { lease_expires_at, .. } => OwnerStateView {
            lease_expires_at,
            ..s
        },
        CiFactView::Diagnosed { diagnosis, .. } => OwnerStateView {
            classification: Some(diagnosis.classification),
            ..s
        },
        CiFactView::ActionChosen { action, .. } => OwnerStateView { action: Some(action), ..s },
        CiFactView::ReplacementRecorded { replacement, .. } => if replacement.status
            == CiRecoveryReplacementStatus::Failed {
            OwnerStateView { action: None, ..s }
        } else {
            s
        },
        CiFactView::Resolved { .. } => OwnerStateView { resolved: true, ..s },
        CiFactView::LegacySnapshot { state } => OwnerStateView {
            incident_id: Some(state.incident_id),
            owner: Some(state.owner),
            epoch: state.epoch,
            lease_expires_at: state.lease_expires_at,
            classification: match state.diagnosis {
                Some(d) => Some(d.classification),
                None => None,
            },
            action: state.next_action,
            failed_sha: Some(state.trigger.failed_sha),
            resolved: state.phase == CiRecoveryPhase::Resolved,
        },
        _ => s,
    }
}

pub open spec fn owner_state_guard(
    s: OwnerStateView,
    incident_id: Seq<char>,
    expected_epoch: u64,
    owner: ParticipantView,
    observed_at: u64,
) -> Option<CiCommandError> {
    owner_guard(
        s.resolved,
        s.incident_id,
        s.owner,
        s.epoch,
        s.lease_expires_at,
        incident_id,
        expected_epoch,
        owner,
        observed_at,
    )
}

pub open spec fn renew_decision(
    s: OwnerStateView,
    incident_id: Seq<char>,
    expected_epoch: u64,
    owner: ParticipantView,
    observed_at: u64,
    lease_expires_at: u64,
) -> Result<CiFactView, CiCommandError> {
    match owner_state_guard(s, incident_id, expected_epoch, owner, observed_at) {
        Some(e) => Err(e),
        None => Ok(CiFactView::HeartbeatRecorded { epoch: expected_epoch, owner, lease_expires_at }),
    }
}

pub open spec fn diagnosis_decision(
    s: OwnerStateView,
    incident_id: Seq<char>,
    expected_epoch: u64,
    owner: ParticipantView,
    observed_at: u64,
    failure_record: crate::ci_types::FailureRecordView,
    diagnosis: crate::ci_types::DiagnosisView,
) -> Result<CiFactView, CiCommandError> {
    match owner_state_guard(s, incident_id, expected_epoch, owner, observed_at) {
        Some(e) => Err(e),
        None => Ok(
            CiFactView::Diagnosed { epoch: expected_epoch, owner, failure_record, diagnosis },
        ),
    }
}

/// A caused failure is repaired; an unrelated or transient one is rerun.
pub open spec fn action_fits(c: CiRecoveryClassification, k: CiRecoveryActionKind) -> bool {
    match c {
        CiRecoveryClassification::Caused => k == CiRecoveryActionKind::Repair,
        _ => k == CiRecoveryActionKind::Rerun,
    }
}

pub open spec fn select_decision(
    s: OwnerStateView,
    incident_id: Seq<char>,
    expected_epoch: u64,
    owner: ParticipantView,
    observed_at: u64,
    action: ActionView,
) -> Result<CiFactView, CiCommandError> {
    match owner_state_guard(s, incident_id, expected_epoch, owner, observed_at) {
        Some(e) => Err(e),
        None => match s.classification {
            None => Err(CiCommandError::DiagnosisRequired),
            Some(c) => if !action_fits(c, action.kind) {
                Err(CiCommandError::ActionConflictsDiagnosis)
            } else {
                Ok(CiFactView::ActionChosen { epoch: expected_epoch, owner, action })
            },
        },
    }
}

pub open spec fn replacement_decision(
    s: OwnerStateView,
    incident_id: Seq<char>,
    expected_epoch: u64,
    owner: ParticipantView,
    observed_at: u64,
    replacement: ReplacementView,
) -> Result<CiFactView, CiCommandError> {
    match owner_state_guard(s, incident_id, expected_epoch, owner, observed_at) {
        Some(e) => Err(e),
        None => match s.action {
            None => Err(CiCommandError::NextActionRequired),
            Some(a) => if a.kind == CiRecoveryActionKind::Rerun && s.failed_sha != Some(
                replacement.sha,
            ) {
                Err(CiCommandError::RerunShaMismatch)
            } else {
                Ok(
                    CiFactView::ReplacementRecorded {
                        epoch: expected_epoch,
                        owner,
                        replacement,
                    },
                )
            },
        },
    }
}

impl CiOwnerState {
    pub fn new() -> (r: Self)
        ensures
            r@ == (OwnerStateView {
                incident_id: None,
                owner: None,
                epoch: 0,
                lease_expires_at: 0,
                classification: None,
                action: None,
                failed_sha: None,
                resolved: false,
            }),
    {
        CiOwnerState {
            incident_id: None,
            owner: None,
            epoch: 0,
            lease_expires_at: 0,
            classification: None,
            action: None,
            failed_sha: None,
            resolved: false,
        }
    }

    pub fn evolve(&mut self, fact: &CiRecoveryFact)
        ensures
            final(self)@ == owner_evolve(old(self)@, fact@),
    {
        match fact {
            CiRecoveryFact::Claimed { incident_id, trigger, owner, lease_expires_at, .. } => {
                self.incident_id = Some(incident_id.clone());
                self.owner = Some(owner.duplicate());
                self.epoch = 1;
                self.lease_expires_at = *lease_expires_at;
                self.classification = None;
                self.action = None;
                self.failed_sha = Some(trigger.failed_sha.clone());
                self.resolved = false;
            },
            CiRecoveryFact::Transferred { owner, epoch, lease_expires_at, .. }
            | CiRecoveryFact::TakenOver { owner, epoch, lease_expires_at, .. } => {
                self.owner = Some(owner.duplicate());
                self.epoch = *epoch;
                self.lease_expires_at = *lease_expires_at;
            },
            CiRecoveryFact::HeartbeatRecorded { lease_expires_at, .. } => {
                self.lease_expires_at = *lease_expires_at;
            },
            CiRecoveryFact::Diagnosed { diagnosis, .. } => {
                self.classification = Some(diagnosis.classification);
            },
            CiRecoveryFact::ActionChosen { action, .. } => {
                self.action = Some(action.duplicate());
            },
            CiRecoveryFact::ReplacementRecorded { replacement, .. } => {
                if replacement.status == CiRecoveryReplacementStatus::Failed {
                    self.action = None;
                }
            },
            CiRecoveryFact::Resolved { .. } => self.resolved = true,
            CiRecoveryFact::LegacySnapshot { state } => {
                self.incident_id = Some(state.incident_id.clone());
                self.owner = Some(state.owner.duplicate());
                self.epoch = state.epoch;
                self.lease_expires_at = state.lease_expires_at;
                self.classification = match &state.diagnosis {
                    Some(d) => Some(d.classification),
                    None => None,
                };
                self.action = match &state.next_action {
                    Some(a) => Some(a.duplicate()),
                    None => None,
                };
                self.failed_sha = Some(state.trigger.failed_sha.clone());
                self.resolved = state.state == CiRecoveryPhase::Resolved;
            },
            _ => {},
        }
    }

    fn guard(
        &self,
        incident_id: &str,
        expected_epoch: u64,
        owner: &CiRecoveryParticipant,
        observed_at: u64,
    ) -> (r: Option<CiCommandError>)
        ensures
            r == owner_state_guard(self@, incident_id@, expected_epoch, owner@, observed_at),
    {
        check_owner(
            self.resolved,
            &self.incident_id,
            &self.owner,
            self.epoch,
            self.lease_expires_at,
            incident_id,
            expected_epoch,
            owner,
            observed_at,
        )
    }

    /// Extends the owner's lease.
    pub fn decide_renew(
        &self,
        incident_id: &str,
        expected_epoch: u64,
        owner: &CiRecoveryParticipant,
        observed_at: u64,
        lease_expires_at: u64,
    ) -> (r: Result<CiRecoveryFact, CiCommandError>)
        ensures
            decision_view(r) == renew_decision(
                self@,
                incident_id@,
                expected_epoch,
                owner@,
                observed_at,
                lease_expires_at,
            ),
    {
        if let Some(e) = self.guard(incident_id, expected_epoch, owner, observed_at) {
            return Err(e);
        }
        Ok(
            CiRecoveryFact::HeartbeatRecorded {
                epoch: expected_epoch,
                owner: owner.duplicate(),
                lease_expires_at,
            },
        )
    }

    /// Records the owner's diagnosis of the failure.
    pub fn decide_diagnosis(
        &self,
        incident_id: &str,
        expected_epoch: u64,
        owner: &CiRecoveryParticipant,
        observed_at: u64,
        failure_record: &CiRecoveryFailureRecord,
        diagnosis: &CiRecoveryDiagnosis,
    ) -> (r: Result<CiRecoveryFact, CiCommandError>)
        ensures
            decision_view(r) == diagnosis_decision(
                self@,
                incident_id@,
                expected_epoch,
                owner@,
                observed_at,
                failure_record@,
                diagnosis@,
            ),
    {
        if let Some(e) = self.guard(incident_id, expected_epoch, owner, observed_at) {
            return Err(e);
        }
        Ok(
            CiRecoveryFact::Diagnosed {
                epoch: expected_epoch,
                owner: owner.duplicate(),
                failure_record: failure_record.duplicate(),
                diagnosis: diagnosis.duplicate(),
            },
        )
    }

    /// Chooses the next action, which must fit the diagnosis.
    pub fn decide_action(
        &self,
        incident_id: &str,
        expected_epoch: u64,
        owner: &CiRecoveryParticipant,
        observed_at: u64,
        action: &CiRecoveryAction,
    ) -> (r: Result<CiRecoveryFact, CiCommandError>)
        ensures
            decision_view(r) == select_decision(
                self@,
                incident_id@,
                expected_epoch,
                owner@,
                observed_at,
                action@,
            ),
    {
        if let Some(e) = self.guard(incident_id, expected_epoch, owner, observed_at) {
            return Err(e);
        }
        let classification = match self.classification {
            Some(c) => c,
            None => {
                return Err(CiCommandError::DiagnosisRequired);
            },
        };
        let fits = match classification {
            CiRecoveryClassification::Caused => action.kind == CiRecoveryActionKind::Repair,
            _ => action.kind == CiRecoveryActionKind::Rerun,
        };
        if !fits {
            return Err(CiCommandError::ActionConflictsDiagnosis);
        }
        Ok(
            CiRecoveryFact::ActionChosen {
                epoch: expected_epoch,
                owner: owner.duplicate(),
                action: action.duplicate(),
            },
        )
    }

    /// Records the replacement CI run; a rerun must be of the failed commit.
    pub fn decide_replacement(
        &self,
        incident_id: &str,
        expected_epoch: u64,
        owner: &CiRecoveryParticipant,
        observed_at: u64,
        replacement: &CiRecoveryReplacement,
    ) -> (r: Result<CiRecoveryFact, CiCommandError>)
        ensures
            decision_view(r) == replacement_decision(
                self@,
                incident_id@,
                expected_epoch,
                owner@,
                observed_at,
                replacement@,
            ),
    {
        if let Some(e) = self.guard(incident_id, expected_epoch, owner, observed_at) {
            return Err(e);
        }
        let kind = match &self.action {
            Some(a) => a.kind,
            None => {
                return Err(CiCommandError::NextActionRequired);
            },
        };
        if kind == CiRecoveryActionKind::Rerun {
            let same_sha = match &self.failed_sha {
                Some(sha) => *sha == replacement.sha,
                None => false,
            };
            if !same_sha {
                return Err(CiCommandError::RerunShaMismatch);
            }
        }
        Ok(
            CiRecoveryFact::ReplacementRecorded {
                epoch: expected_epoch,
                owner: owner.duplicate(),
                replacement: replacement.duplicate(),
            },
        )
    }
}

// ---------------------------------------------------------------------------
// Resolve

/// What a resolution needs: the incident, who has joined, the last
/// replacement run recorded, and whether it is resolved.
#[derive(Debug)]
pub struct ResolveCiRecoveryState {
    pub incident_id: Option<String>,
    pub participants: Vec<CiRecoveryParticipant>,
    pub replacement: Option<CiRecoveryReplacement>,
    pub resolved: bool,
}

pub struct ResolveStateView {
    pub incident_id: Option<Seq<char>>,
    pub participants: Seq<ParticipantView>,
    pub replacement: Option<ReplacementView>,
    pub resolved: bool,
}

impl View for ResolveCiRecoveryState {
    type V = ResolveStateView;

    open spec fn view(&self) -> ResolveStateView {
        ResolveStateView {
            incident_id: self.incident_id.deep_view(),
            participants: self.participants.deep_view(),
            replacement: self.replacement.deep_view(),
            resolved: self.resolved,
        }
    }
}

pub open spec fn resolve_evolve(s: ResolveStateView, f: CiFactView) -> ResolveStateView {
    match f {
        CiFactView::Claimed { incident_id, owner, .. } => ResolveStateView {
            incident_id: Some(incident_id),
            participants: seq![owner],
            replacement: None,
            resolved: false,
        },
        CiFactView::Joined { participant, .. } => ResolveStateView {
            participants: push_opt_absent(s.participants, participant),
            ..s
        },
        CiFactView::Transferred { participant, .. } => ResolveStateView {
            participants: push_opt_absent(s.participants, participant),
            ..s
        },
        CiFactView::TakenOver { participant, .. } => ResolveStateView {
            participants: push_opt_absent(s.participants, participant),
            ..s
        },
        CiFactView::ReplacementRecorded { replacement, .. } => ResolveStateView {
            replacement: Some(replacement),
            ..s
        },
        CiFactView::Resolved { .. } => ResolveStateView { resolved: true, ..s },
        CiFactView::LegacySnapshot { state } => ResolveStateView {
            incident_id: Some(state.incident_id),
            participants: state.participants,
            replacement: state.replacement,
            resolved: state.phase == CiRecoveryPhase::Resolved,
        },
        _ => s,
    }
}

pub open spec fn resolve_decision(
    s: ResolveStateView,
    incident_id: Seq<char>,
    participant: ParticipantView,
    proof: crate::ci_types::ReleaseProofView,
) -> Result<CiFactView, CiCommandError> {
    if s.resolved {
        Err(CiCommandError::IncidentResolved)
    } else if s.incident_id != Some(incident_id) {
        Err(CiCommandError::IncidentMismatch)
    } else if !s.participants.contains(participant) {
        Err(CiCommandError::ParticipantRequired)
    } else {
        match s.replacement {
            None => Err(CiCommandError::ReplacementRequired),
            Some(r) => if r.status == CiRecoveryReplacementStatus::Failed {
                Err(CiCommandError::ReplacementFailed)
            } else if r.run_id != proof.replacement_run_id || r.run_url
                != proof.replacement_run_url || r.sha != proof.sha {
                Err(CiCommandError::ReleaseProofMismatch)
            } else {
                Ok(CiFactView::Resolved { participant, proof })
            },
        }
    }
}

impl ResolveCiRecoveryState {
    pub fn new() -> (r: Self)
        ensures
            r@ == (ResolveStateView {
                incident_id: None,
                participants: Seq::empty(),
                replacement: None,
                resolved: false,
            }),
    {
        let r = ResolveCiRecoveryState {
            incident_id: None,
            participants: Vec::new(),
            replacement: None,
            resolved: false,
        };
        assert(r.participants.deep_view() =~= Seq::<ParticipantView>::empty());
        r
    }

    pub fn evolve(&mut self, fact: &CiRecoveryFact)
        ensures
            final(self)@ == resolve_evolve(old(self)@, fact@),
    {
        match fact {
            CiRecoveryFact::Claimed { incident_id, owner, .. } => {
                self.incident_id = Some(incident_id.clone());
                self.participants = single_participant(owner);
                self.replacement = None;
                self.resolved = false;
            },
            CiRecoveryFact::Joined { participant, .. }
            | CiRecoveryFact::Transferred { participant, .. }
            | CiRecoveryFact::TakenOver { participant, .. } => {
                push_participant_absent(&mut self.participants, participant);
            },
            CiRecoveryFact::ReplacementRecorded { replacement, .. } => {
                self.replacement = Some(replacement.duplicate());
            },
            CiRecoveryFact::Resolved { .. } => self.resolved = true,
            CiRecoveryFact::LegacySnapshot { state } => {
                self.incident_id = Some(state.incident_id.clone());
                self.participants = duplicate_participants(&state.participants);
                self.replacement = match &state.replacement {
                    Some(r) => Some(r.duplicate()),
                    None => None,
                };
                self.resolved = state.state == CiRecoveryPhase::Resolved;
            },
            _ => {},
        }
    }

    /// Resolves the incident on proof that the recorded replacement run is
    /// the one that passed.
    pub fn decide(
        &self,
        incident_id: &str,
        participant: &CiRecoveryParticipant,
        proof: &CiRecoveryReleaseProof,
    ) -> (r: Result<CiRecoveryFact, CiCommandError>)
        ensures
            decision_view(r) == resolve_decision(self@, incident_id@, participant@, proof@),
    {
        if self.resolved {
            return Err(CiCommandError::IncidentResolved);
        }
        if !same_incident(&self.incident_id, incident_id) {
            return Err(CiCommandError::IncidentMismatch);
        }
        if !contains_participant(&self.participants, participant) {
            return Err(CiCommandError::ParticipantRequired);
        }
        match &self.replacement {
            None => Err(CiCommandError::ReplacementRequired),
            Some(r) => {
                if r.status == CiRecoveryReplacementStatus::Failed {
                    Err(CiCommandError::ReplacementFailed)
                } else if r.run_id != proof.replacement_run_id || r.run_url
                    != proof.replacement_run_url || r.sha != proof.sha {
                    Err(CiCommandError::ReleaseProofMismatch)
                } else {
                    Ok(
                        CiRecoveryFact::Resolved {
                            participant: participant.duplicate(),
                            proof: proof.duplicate(),
                        },
                    )
                }
            },
        }
    }
}

// ---------------------------------------------------------------------------
// Folding a command's state from the incident stream

pub open spec fn claim_fold(h: Seq<CiFactView>) -> ClaimCiRecoveryState
    decreases h.len(),
{
    if h.len() == 0 {
        ClaimCiRecoveryState { active_incident: false }
    } else {
        claim_evolve(claim_fold(h.drop_last()), h.last())
    }
}

pub open spec fn join_fold(h: Seq<CiFactView>) -> JoinStateView
    decreases h.len(),
{
    if h.len() == 0 {
        JoinStateView {
            active_incident: false,
            triggers: Seq::empty(),
            participants: Seq::empty(),
            failed_replacement: None,
        }
    } else {
        join_evolve(join_fold(h.drop_last()), h.last())
    }
}

pub open spec fn ownership_fold(h: Seq<CiFactView>) -> OwnershipView
    decreases h.len(),
{
    if h.len() == 0 {
        OwnershipView {
            incident_id: None,
            owner: None,
            epoch: 0,
            lease_expires_at: 0,
            participants: Seq::empty(),
            assignment_count: 0,
            resolved: false,
        }
    } else {
        ownership_evolve(ownership_fold(h.drop_last()), h.last())
    }
}

pub open spec fn report_fold(h: Seq<CiFactView>) -> ReportStateView
    decreases h.len(),
{
    if h.len() == 0 {
        ReportStateView { incident_id: None, epoch: 0, assignments: Seq::empty(), resolved: false }
    } else {
        report_evolve(report_fold(h.drop_last()), h.last())
    }
}

pub open spec fn owner_fold(h: Seq<CiFactView>) -> OwnerStateView
    decreases h.len(),
{
    if h.len() == 0 {
        OwnerStateView {
            incident_id: None,
            owner: None,
            epoch: 0,
            lease_expires_at: 0,
            classification: None,
            action: None,
            failed_sha: None,
            resolved: false,
        }
    } else {
        owner_evolve(owner_fold(h.drop_last()), h.last())
    }
}

pub open spec fn resolve_fold(h: Seq<CiFactView>) -> ResolveStateView
    decreases h.len(),
{
    if h.len() == 0 {
        ResolveStateView {
            incident_id: None,
            participants: Seq::empty(),
            replacement: None,
            resolved: false,
        }
    } else {
        resolve_evolve(resolve_fold(h.drop_last()), h.last())
    }
}

impl ClaimCiRecoveryState {
    /// The state folded from the whole incident stream.
    pub fn replay(history: &Vec<CiRecoveryFact>) -> (r: Self)
        ensures
            r == claim_fold(history.deep_view()),
    {
        let mut s = Self::new();
        let mut i: usize = 0;
        while i < history.len()
            invariant
                i <= history@.len(),
                s == claim_fold(history.deep_view().take(i as int)),
            decreases history.len() - i,
        {
            assert(history.deep_view().take(i + 1).drop_last() =~= history.deep_view().take(
                i as int,
            ));
            s.evolve(&history[i]);
            i = i + 1;
        }
        assert(history.deep_view().take(i as int) =~= history.deep_view());
        s
    }
}

impl JoinCiRecoveryState {
    /// The state folded from the whole incident stream.
    pub fn replay(history: &Vec<CiRecoveryFact>) -> (r: Self)
        ensures
            r@ == join_fold(history.deep_view()),
    {
        let mut s = Self::new();
        let mut i: usize = 0;
        while i < history.len()
            invariant
                i <= history@.len(),
                s@ == join_fold(history.deep_view().take(i as int)),
            decreases history.len() - i,
        {
            assert(history.deep_view().take(i + 1).drop_last() =~= history.deep_view().take(
                i as int,
            ));
            s.evolve(&history[i]);
            i = i + 1;
        }
        assert(history.deep_view().take(i as int) =~= history.deep_view());
        s
    }
}

impl CiOwnershipState {
    /// The state folded from the whole incident stream.
    pub fn replay(history: &Vec<CiRecoveryFact>) -> (r: Self)
        ensures
            r@ == ownership_fold(history.deep_view()),
    {
        let mut s = Self::new();
        let mut i: usize = 0;
        while i < history.len()
            invariant
                i <= history@.len(),
                s@ == ownership_fold(history.deep_view().take(i as int)),
            decreases history.len() - i,
        {
            assert(history.deep_view().take(i + 1).drop_last() =~= history.deep_view().take(
                i as int,
            ));
            s.evolve(&history[i]);
            i = i + 1;
        }
        assert(history.deep_view().take(i as int) =~= history.deep_view());
        s
    }
}

impl ReportCiRecoveryWorkState {
    /// The state folded from the whole incident stream.
    pub fn replay(history: &Vec<CiRecoveryFact>) -> (r: Self)
        ensures
            r@ == report_fold(history.deep_view()),
    {
        let mut s = Self::new();
        let mut i: usize = 0;
        while i < history.len()
            invariant
                i <= history@.len(),
                s@ == report_fold(history.deep_view().take(i as int)),
            decreases history.len() - i,
        {
            assert(history.deep_view().take(i + 1).drop_last() =~= history.deep_view().take(
                i as int,
            ));
            s.evolve(&history[i]);
            i = i + 1;
        }
        assert(history.deep_view().take(i as int) =~= history.deep_view());
        s
    }
}

impl CiOwnerState {
    /// The state folded from the whole incident stream.
    pub fn replay(history: &Vec<CiRecoveryFact>) -> (r: Self)
        ensures
            r@ == owner_fold(history.deep_view()),
    {
        let mut s = Self::new();
        let mut i: usize = 0;
        while i < history.len()
            invariant
                i <= history@.len(),
                s@ == owner_fold(history.deep_view().take(i as int)),
            decreases history.len() - i,
        {
            assert(history.deep_view().take(i + 1).drop_last() =~= history.deep_view().take(
                i as int,
            ));
            s.evolve(&history[i]);
            i = i + 1;
        }
        assert(history.deep_view().take(i as int) =~= history.deep_view());
        s
    }
}

impl ResolveCiRecoveryState {
    /// The state folded from the whole incident stream.
    pub fn replay(history: &Vec<CiRecoveryFact>) -> (r: Self)
        ensures
            r@ == resolve_fold(history.deep_view()),
    {
        let mut s = Self::new();
        let mut i: usize = 0;
        while i < history.len()
            invariant
                i <= history@.len(),
                s@ == resolve_fold(history.deep_view().take(i as int)),
            decreases history.len() - i,
        {
            assert(history.deep_view().take(i + 1).drop_last() =~= history.deep_view().take(
                i as int,
            ));
            s.evolve(&history[i]);
            i = i + 1;
        }
        assert(history.deep_view().take(i as int) =~= history.deep_view());
        s
    }
}

} // verus!
