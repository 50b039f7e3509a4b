//! The shared CI-recovery incident as folded from its recorded facts.
use vstd::prelude::*;
use crate::ci_types::{
    contains_participant, contains_trigger, duplicate_assignments, duplicate_participants,
    duplicate_triggers, ActionView, AssignmentView, CiRecoveryAction, CiRecoveryAssignment,
    CiRecoveryDiagnosis, CiRecoveryFailureRecord, CiRecoveryParticipant, CiRecoveryPhase,
    CiRecoveryReleaseProof, CiRecoveryReplacement, CiRecoveryReplacementStatus, CiRecoveryReport,
    CiRecoveryTrigger, DiagnosisView, FailureRecordView, ParticipantView, ReleaseProofView,
    ReplacementView, ReportView, TriggerView,
};
use crate::text::str_eq;

verus! {

/// The incident: who owns it under which epoch and lease, who takes part,
/// the work handed out, and how far the recovery has come.
#[derive(Debug)]
pub struct CiRecoveryState {
    pub schema_version: u32,
    pub incident_id: String,
    pub state: CiRecoveryPhase,
    pub epoch: u64,
    pub trigger: CiRecoveryTrigger,
    pub triggers: Vec<CiRecoveryTrigger>,
    pub owner: CiRecoveryParticipant,
    pub lease_expires_at: u64,
    pub participants: Vec<CiRecoveryParticipant>,
    pub assignments: Vec<CiRecoveryAssignment>,
    pub failure_record: Option<CiRecoveryFailureRecord>,
    pub diagnosis: Option<CiRecoveryDiagnosis>,
    pub next_action: Option<CiRecoveryAction>,
    pub replacement: Option<CiRecoveryReplacement>,
    pub release_proof: Option<CiRecoveryReleaseProof>,
}

pub struct CiStateView {
    pub schema_version: u32,
    pub incident_id: Seq<char>,
    pub phase: CiRecoveryPhase,
    pub epoch: u64,
    pub trigger: TriggerView,
    pub triggers: Seq<TriggerView>,
    pub owner: ParticipantView,
    pub lease_expires_at: u64,
    pub participants: Seq<ParticipantView>,
    pub assignments: Seq<AssignmentView>,
    pub failure_record: Option<FailureRecordView>,
    pub diagnosis: Option<DiagnosisView>,
    pub next_action: Option<ActionView>,
    pub replacement: Option<ReplacementView>,
    pub release_proof: Option<ReleaseProofView>,
}

impl View for CiRecoveryState {
    type V = CiStateView;

    open spec fn view(&self) -> CiStateView {
        CiStateView {
            schema_version: self.schema_version,
            incident_id: self.incident_id@,
            phase: self.state,
            epoch: self.epoch,
            trigger: self.trigger@,
            triggers: self.triggers.deep_view(),
            owner: self.owner@,
            lease_expires_at: self.lease_expires_at,
            participants: self.participants.deep_view(),
            assignments: self.assignments.deep_view(),
            failure_record: self.failure_record.deep_view(),
            diagnosis: self.diagnosis.deep_view(),
            next_action: self.next_action.deep_view(),
            replacement: self.replacement.deep_view(),
            release_proof: self.release_proof.deep_view(),
        }
    }
}

impl DeepView for CiRecoveryState {
    type V = CiStateView;

    open spec fn deep_view(&self) -> CiStateView {
        self@
    }
}

impl CiRecoveryState {
    pub fn duplicate(&self) -> (r: Self)
        ensures
            r@ == self@,
    {
        CiRecoveryState {
            schema_version: self.schema_version,
            incident_id: self.incident_id.clone(),
            state: self.state,
            epoch: self.epoch,
            trigger: self.trigger.duplicate(),
            triggers: duplicate_triggers(&self.triggers),
            owner: self.owner.duplicate(),
            lease_expires_at: self.lease_expires_at,
            participants: duplicate_participants(&self.participants),
            assignments: duplicate_assignments(&self.assignments),
            failure_record: match &self.failure_record {
                Some(x) => Some(x.duplicate()),
                None => None,
            },
            diagnosis: match &self.diagnosis {
                Some(x) => Some(x.duplicate()),
                None => None,
            },
            next_action: match &self.next_action {
                Some(x) => Some(x.duplicate()),
                None => None,
            },
            replacement: match &self.replacement {
                Some(x) => Some(x.duplicate()),
                None => None,
            },
            release_proof: match &self.release_proof {
                Some(x) => Some(x.duplicate()),
                None => None,
            },
        }
    }
}

/// A fact recorded on the incident stream.
#[derive(Debug)]
pub enum CiRecoveryFact {
    Claimed {
        schema_version: u32,
        incident_id: String,
        trigger: CiRecoveryTrigger,
        owner: CiRecoveryParticipant,
        lease_expires_at: u64,
    },
    Joined { trigger: Option<CiRecoveryTrigger>, participant: Option<CiRecoveryParticipant> },
    Transferred {
        owner: CiRecoveryParticipant,
        epoch: u64,
        lease_expires_at: u64,
        participant: Option<CiRecoveryParticipant>,
    },
    TakenOver {
        owner: CiRecoveryParticipant,
        epoch: u64,
        lease_expires_at: u64,
        participant: Option<CiRecoveryParticipant>,
    },
    Assigned { assignment: CiRecoveryAssignment },
    Reported { assignment_id: String, assignee: CiRecoveryParticipant, report: CiRecoveryReport },
    HeartbeatRecorded { epoch: u64, owner: CiRecoveryParticipant, lease_expires_at: u64 },
    Diagnosed {
        epoch: u64,
        owner: CiRecoveryParticipant,
        failure_record: CiRecoveryFailureRecord,
        diagnosis: CiRecoveryDiagnosis,
    },
    ActionChosen { epoch: u64, owner: CiRecoveryParticipant, action: CiRecoveryAction },
    ReplacementRecorded {
        epoch: u64,
        owner: CiRecoveryParticipant,
        replacement: CiRecoveryReplacement,
    },
    Resolved { participant: CiRecoveryParticipant, proof: CiRecoveryReleaseProof },
    /// A whole incident state published by an earlier release of the tool.
    LegacySnapshot { state: CiRecoveryState },
}

pub enum CiFactView {
    Claimed {
        schema_version: u32,
        incident_id: Seq<char>,
        trigger: TriggerView,
        owner: ParticipantView,
        lease_expires_at: u64,
    },
    Joined { trigger: Option<TriggerView>, participant: Option<ParticipantView> },
    Transferred {
        owner: ParticipantView,
        epoch: u64,
        lease_expires_at: u64,
        participant: Option<ParticipantView>,
    },
    TakenOver {
        owner: ParticipantView,
        epoch: u64,
        lease_expires_at: u64,
        participant: Option<ParticipantView>,
    },
    Assigned { assignment: AssignmentView },
    Reported { assignment_id: Seq<char>, assignee: ParticipantView, report: ReportView },
    HeartbeatRecorded { epoch: u64, owner: ParticipantView, lease_expires_at: u64 },
    Diagnosed {
        epoch: u64,
        owner: ParticipantView,
        failure_record: FailureRecordView,
        diagnosis: DiagnosisView,
    },
    ActionChosen { epoch: u64, owner: ParticipantView, action: ActionView },
    ReplacementRecorded { epoch: u64, owner: ParticipantView, replacement: ReplacementView },
    Resolved { participant: ParticipantView, proof: ReleaseProofView },
    LegacySnapshot { state: CiStateView },
}

impl View for CiRecoveryFact {
    type V = CiFactView;

    open spec fn view(&self) -> CiFactView {
        match self {
            CiRecoveryFact::Claimed {
                schema_version,
                incident_id,
                trigger,
                owner,
                lease_expires_at,
            } => CiFactView::Claimed {
                schema_version: *schema_version,
                incident_id: incident_id@,
                trigger: trigger@,
                owner: owner@,
                lease_expires_at: *lease_expires_at,
            },
            CiRecoveryFact::Joined { trigger, participant } => CiFactView::Joined {
                trigger: trigger.deep_view(),
                participant: participant.deep_view(),
            },
            CiRecoveryFact::Transferred { owner, epoch, lease_expires_at, participant } =>
                CiFactView::Transferred {
                owner: owner@,
                epoch: *epoch,
                lease_expires_at: *lease_expires_at,
                participant: participant.deep_view(),
            },
            CiRecoveryFact::TakenOver { owner, epoch, lease_expires_at, participant } =>
                CiFactView::TakenOver {
                owner: owner@,
                epoch: *epoch,
                lease_expires_at: *lease_expires_at,
                participant: participant.deep_view(),
            },
            CiRecoveryFact::Assigned { assignment } => CiFactView::Assigned {
                assignment: assignment@,
            },
            CiRecoveryFact::Reported { assignment_id, assignee, report } => CiFactView::Reported {
                assignment_id: assignment_id@,
                assignee: assignee@,
                report: report@,
            },
            CiRecoveryFact::HeartbeatRecorded { epoch, owner, lease_expires_at } =>
                CiFactView::HeartbeatRecorded {
                epoch: *epoch,
                owner: owner@,
                lease_expires_at: *lease_expires_at,
            },
            CiRecoveryFact::Diagnosed { epoch, owner, failure_record, diagnosis } =>
                CiFactView::Diagnosed {
                epoch: *epoch,
                owner: owner@,
                failure_record: failure_record@,
                diagnosis: diagnosis@,
            },
            CiRecoveryFact::ActionChosen { epoch, owner, action } => CiFactView::ActionChosen {
                epoch: *epoch,
                owner: owner@,
                action: action@,
            },
            CiRecoveryFact::ReplacementRecorded { epoch, owner, replacement } =>
                CiFactView::ReplacementRecorded {
                epoch: *epoch,
                owner: owner@,
                replacement: replacement@,
            },
            CiRecoveryFact::Resolved { participant, proof } => CiFactView::Resolved {
                participant: participant@,
                proof: proof@,
            },
            CiRecoveryFact::LegacySnapshot { state } => CiFactView::LegacySnapshot {
                state: state@,
            },
        }
    }
}

impl DeepView for CiRecoveryFact {
    type V = CiFactView;

    open spec fn deep_view(&self) -> CiFactView {
        self@
    }
}

/// Why a recorded fact cannot be folded onto the incident.
#[derive(Clone, Copy, Debug, PartialEq, Eq, Structural)]
pub enum CiFoldError {
    JoinWithoutClaim,
    JoinEmptyFact,
    OwnershipChangeWithoutClaim,
    AssignmentWithoutClaim,
    AssignmentDuplicate,
    ReportWithoutClaim,
    ReportAssignmentMissing,
    ReportAssigneeInvalid,
    ReportDuplicate,
    HeartbeatWithoutClaim,
    HeartbeatOwnerInvalid,
    DiagnosisWithoutClaim,
    DiagnosisOwnerInvalid,
    ActionWithoutClaim,
    ActionOwnerInvalid,
    ActionWithoutDiagnosis,
    ReplacementWithoutClaim,
    ReplacementOwnerInvalid,
    ReplacementWithoutAction,
    ResolutionWithoutClaim,
    ResolutionParticipantInvalid,
    ResolutionWithoutReplacement,
    ResolutionProofInvalid,
}

/// The stable code that a refused fact reports.
pub open spec fn ci_fold_error_text(e: CiFoldError) -> Seq<char> {
    match e {
        CiFoldError::JoinWithoutClaim => "ci_recovery_join_without_claim=true"@,
        CiFoldError::JoinEmptyFact => "ci_recovery_join_empty_fact=true"@,
        CiFoldError::OwnershipChangeWithoutClaim => "ci_recovery_ownership_change_without_claim=true"@,
        CiFoldError::AssignmentWithoutClaim => "ci_recovery_assignment_without_claim=true"@,
        CiFoldError::AssignmentDuplicate => "ci_recovery_assignment_duplicate=true"@,
        CiFoldError::ReportWithoutClaim => "ci_recovery_report_without_claim=true"@,
        CiFoldError::ReportAssignmentMissing => "ci_recovery_report_assignment_missing=true"@,
        CiFoldError::ReportAssigneeInvalid => "ci_recovery_report_assignee_invalid=true"@,
        CiFoldError::ReportDuplicate => "ci_recovery_report_duplicate=true"@,
        CiFoldError::HeartbeatWithoutClaim => "ci_recovery_heartbeat_without_claim=true"@,
        CiFoldError::HeartbeatOwnerInvalid => "ci_recovery_heartbeat_owner_invalid=true"@,
        CiFoldError::DiagnosisWithoutClaim => "ci_recovery_diagnosis_without_claim=true"@,
        CiFoldError::DiagnosisOwnerInvalid => "ci_recovery_diagnosis_owner_invalid=true"@,
        CiFoldError::ActionWithoutClaim => "ci_recovery_action_without_claim=true"@,
        CiFoldError::ActionOwnerInvalid => "ci_recovery_action_owner_invalid=true"@,
        CiFoldError::ActionWithoutDiagnosis => "ci_recovery_action_without_diagnosis=true"@,
        CiFoldError::ReplacementWithoutClaim => "ci_recovery_replacement_without_claim=true"@,
        CiFoldError::ReplacementOwnerInvalid => "ci_recovery_replacement_owner_invalid=true"@,
        CiFoldError::ReplacementWithoutAction => "ci_recovery_replacement_without_action=true"@,
        CiFoldError::ResolutionWithoutClaim => "ci_recovery_resolution_without_claim=true"@,
        CiFoldError::ResolutionParticipantInvalid => "ci_recovery_resolution_participant_invalid=true"@,
        CiFoldError::ResolutionWithoutReplacement => "ci_recovery_resolution_without_replacement=true"@,
        CiFoldError::ResolutionProofInvalid => "ci_recovery_resolution_proof_invalid=true"@,
    }
}

impl CiFoldError {
    pub fn as_str(self) -> (r: &'static str)
        ensures
            r@ == ci_fold_error_text(self),
    {
        match self {
            CiFoldError::JoinWithoutClaim => "ci_recovery_join_without_claim=true",
            CiFoldError::JoinEmptyFact => "ci_recovery_join_empty_fact=true",
            CiFoldError::OwnershipChangeWithoutClaim =>
                "ci_recovery_ownership_change_without_claim=true",
            CiFoldError::AssignmentWithoutClaim => "ci_recovery_assignment_without_claim=true",
            CiFoldError::AssignmentDuplicate => "ci_recovery_assignment_duplicate=true",
            CiFoldError::ReportWithoutClaim => "ci_recovery_report_without_claim=true",
            CiFoldError::ReportAssignmentMissing => "ci_recovery_report_assignment_missing=true",
            CiFoldError::ReportAssigneeInvalid => "ci_recovery_report_assignee_invalid=true",
            CiFoldError::ReportDuplicate => "ci_recovery_report_duplicate=true",
            CiFoldError::HeartbeatWithoutClaim => "ci_recovery_heartbeat_without_claim=true",
            CiFoldError::HeartbeatOwnerInvalid => "ci_recovery_heartbeat_owner_invalid=true",
            CiFoldError::DiagnosisWithoutClaim => "ci_recovery_diagnosis_without_claim=true",
            CiFoldError::DiagnosisOwnerInvalid => "ci_recovery_diagnosis_owner_invalid=true",
            CiFoldError::ActionWithoutClaim => "ci_recovery_action_without_claim=true",
            CiFoldError::ActionOwnerInvalid => "ci_recovery_action_owner_invalid=true",
            CiFoldError::ActionWithoutDiagnosis => "ci_recovery_action_without_diagnosis=true",
            CiFoldError::ReplacementWithoutClaim => "ci_recovery_replacement_without_claim=true",
            CiFoldError::ReplacementOwnerInvalid => "ci_recovery_replacement_owner_invalid=true",
            CiFoldError::ReplacementWithoutAction => "ci_recovery_replacement_without_action=true",
            CiFoldError::ResolutionWithoutClaim => "ci_recovery_resolution_without_claim=true",
            CiFoldError::ResolutionParticipantInvalid =>
                "ci_recovery_resolution_participant_invalid=true",
            CiFoldError::ResolutionWithoutReplacement =>
                "ci_recovery_resolution_without_replacement=true",
            CiFoldError::ResolutionProofInvalid => "ci_recovery_resolution_proof_invalid=true",
        }
    }
}

/// `s` with `x` appended unless it already holds it.
pub open spec fn push_absent<A>(s: Seq<A>, x: A) -> Seq<A> {
    if s.contains(x) {
        s
    } else {
        s.push(x)
    }
}

pub open spec fn push_opt_absent<A>(s: Seq<A>, x: Option<A>) -> Seq<A> {
    match x {
        Some(v) => push_absent(s, v),
        None => s,
    }
}

pub open spec fn has_assignment_id(s: Seq<AssignmentView>, id: Seq<char>) -> bool {
    exists|i: int| 0 <= i < s.len() && #[trigger] s[i].id == id
}

pub open spec fn is_first_with_id(s: Seq<AssignmentView>, id: Seq<char>, i: int) -> bool {
    &&& 0 <= i < s.len()
    &&& s[i].id == id
    &&& forall|j: int| 0 <= j < i ==> #[trigger] s[j].id != id
}

/// The position of the first assignment named `id`.
pub open spec fn first_assignment(s: Seq<AssignmentView>, id: Seq<char>) -> Option<int> {
    if exists|i: int| is_first_with_id(s, id, i) {
        Some(choose|i: int| is_first_with_id(s, id, i))
    } else {
        None
    }
}

pub open spec fn success_text() -> Seq<char> {
    seq!['s', 'u', 'c', 'c', 'e', 's', 's']
}

/// Whether a release proof names the replacement run and reports success.
pub open spec fn proof_matches(r: ReplacementView, p: ReleaseProofView) -> bool {
    &&& r.status != CiRecoveryReplacementStatus::Failed
    &&& r.run_id == p.replacement_run_id
    &&& r.run_url == p.replacement_run_url
    &&& r.sha == p.sha
    &&& p.terminal_status == success_text()
}

/// The error, if any, that folding `f` onto `s` meets.
pub open spec fn ci_fact_error(s: Option<CiStateView>, f: CiFactView) -> Option<CiFoldError> {
    match f {
        CiFactView::Claimed { .. } => None,
        CiFactView::Joined { trigger, participant } => match s {
            None => Some(CiFoldError::JoinWithoutClaim),
            Some(_) => if trigger is None && participant is None {
                Some(CiFoldError::JoinEmptyFact)
            } else {
                None
            },
        },
        CiFactView::Transferred { .. } => if s is None {
            Some(CiFoldError::OwnershipChangeWithoutClaim)
        } else {
            None
        },
        CiFactView::TakenOver { .. } => if s is None {
            Some(CiFoldError::OwnershipChangeWithoutClaim)
        } else {
            None
        },
        CiFactView::Assigned { assignment } => match s {
            None => Some(CiFoldError::AssignmentWithoutClaim),
            Some(st) => if has_assignment_id(st.assignments, assignment.id) {
                Some(CiFoldError::AssignmentDuplicate)
            } else {
                None
            },
        },
        CiFactView::Reported { assignment_id, assignee, report } => match s {
            None => Some(CiFoldError::ReportWithoutClaim),
            Some(st) => match first_assignment(st.assignments, assignment_id) {
                None => Some(CiFoldError::ReportAssignmentMissing),
                Some(i) => if st.assignments[i].assignee != assignee {
                    Some(CiFoldError::ReportAssigneeInvalid)
                } else if st.assignments[i].report is Some {
                    Some(CiFoldError::ReportDuplicate)
                } else {
                    None
                },
            },
        },
        CiFactView::HeartbeatRecorded { epoch, owner, .. } => match s {
            None => Some(CiFoldError::HeartbeatWithoutClaim),
            Some(st) => if st.epoch != epoch || st.owner != owner {
                Some(CiFoldError::HeartbeatOwnerInvalid)
            } else {
                None
            },
        },
        CiFactView::Diagnosed { epoch, owner, .. } => match s {
            None => Some(CiFoldError::DiagnosisWithoutClaim),
            Some(st) => if st.epoch != epoch || st.owner != owner {
                Some(CiFoldError::DiagnosisOwnerInvalid)
            } else {
                None
            },
        },
        CiFactView::ActionChosen { epoch, owner, .. } => match s {
            None => Some(CiFoldError::ActionWithoutClaim),
            Some(st) => if st.epoch != epoch || st.owner != owner {
                Some(CiFoldError::ActionOwnerInvalid)
            } else if st.diagnosis is None {
                Some(CiFoldError::ActionWithoutDiagnosis)
            } else {
                None
            },
        },
        CiFactView::ReplacementRecorded { epoch, owner, .. } => match s {
            None => Some(CiFoldError::ReplacementWithoutClaim),
            Some(st) => if st.epoch != epoch || st.owner != owner {
                Some(CiFoldError::ReplacementOwnerInvalid)
            } else if st.next_action is None {
                Some(CiFoldError::ReplacementWithoutAction)
            } else {
                None
            },
        },
        CiFactView::Resolved { participant, proof } => match s {
            None => Some(CiFoldError::ResolutionWithoutClaim),
            Some(st) => if !st.participants.contains(participant) {
                Some(CiFoldError::ResolutionParticipantInvalid)
            } else {
                match st.replacement {
                    None => Some(CiFoldError::ResolutionWithoutReplacement),
                    Some(r) => if !proof_matches(r, proof) {
                        Some(CiFoldError::ResolutionProofInvalid)
                    } else {
                        None
                    },
                }
            },
        },
        CiFactView::LegacySnapshot { .. } => None,
    }
}

/// The incident opened by a claim.
pub open spec fn claimed_state(
    schema_version: u32,
    incident_id: Seq<char>,
    trigger: TriggerView,
    owner: ParticipantView,
    lease_expires_at: u64,
) -> CiStateView {
    CiStateView {
        schema_version,
        incident_id,
        phase: CiRecoveryPhase::Diagnosing,
        epoch: 1,
        trigger,
        triggers: seq![trigger],
        owner,
        lease_expires_at,
        participants: seq![owner],
        assignments: Seq::empty(),
        failure_record: None,
        diagnosis: None,
        next_action: None,
        replacement: None,
        release_proof: None,
    }
}

/// The incident after an admissible fact `f`.
pub open spec fn ci_apply(s: Option<CiStateView>, f: CiFactView) -> Option<CiStateView> {
    match f {
        CiFactView::Claimed { schema_version, incident_id, trigger, owner, lease_expires_at } =>
            Some(claimed_state(schema_version, incident_id, trigger, owner, lease_expires_at)),
        CiFactView::LegacySnapshot { state } => Some(state),
        _ => match s {
            None => None,
            Some(st) => Some(ci_apply_to(st, f)),
        },
    }
}

pub open spec fn ci_apply_to(st: CiStateView, f: CiFactView) -> CiStateView {
    match f {
        CiFactView::Joined { trigger, participant } => CiStateView {
            trigger: match trigger {
                Some(t) => t,
                None => st.trigger,
            },
            triggers: push_opt_absent(st.triggers, trigger),
            participants: push_opt_absent(st.participants, participant),
            ..st
        },
        CiFactView::Transferred { owner, epoch, lease_expires_at, participant } => CiStateView {
            owner,
            epoch,
            lease_expires_at,
            participants: push_opt_absent(st.participants, participant),
            ..st
        },
        CiFactView::TakenOver { owner, epoch, lease_expires_at, participant } => CiStateView {
            owner,
            epoch,
            lease_expires_at,
            participants: push_opt_absent(st.participants, participant),
            ..st
        },
        CiFactView::Assigned { assignment } => CiStateView {
            assignments: st.assignments.push(assignment),
            ..st
        },
        CiFactView::Reported { assignment_id, report, .. } => {
            let i = first_assignment(st.assignments, assignment_id)->0;
            CiStateView {
                assignments: st.assignments.update(
                    i,
                    AssignmentView { report: Some(report), ..st.assignments[i] },
                ),
                ..st
            }
        },
        CiFactView::HeartbeatRecorded { lease_expires_at, .. } => CiStateView {
            lease_expires_at,
            ..st
        },
        CiFactView::Diagnosed { failure_record, diagnosis, .. } => CiStateView {
            failure_record: Some(failure_record),
            diagnosis: Some(diagnosis),
            next_action: None,
            replacement: None,
            release_proof: None,
            phase: CiRecoveryPhase::Diagnosing,
            ..st
        },
        CiFactView::ActionChosen { action, .. } => CiStateView {
            next_action: Some(action),
            phase: CiRecoveryPhase::ActionSelected,
            ..st
        },
        CiFactView::ReplacementRecorded { replacement, .. } => if replacement.status
            == CiRecoveryReplacementStatus::Failed {
            CiStateView {
                replacement: Some(replacement),
                phase: CiRecoveryPhase::Diagnosing,
                failure_record: None,
                diagnosis: None,
                next_action: None,
                ..st
            }
        } else {
            CiStateView {
                replacement: Some(replacement),
                phase: CiRecoveryPhase::WaitingCi,
                ..st
            }
        },
        CiFactView::Resolved { proof, .. } => CiStateView {
            release_proof: Some(proof),
            phase: CiRecoveryPhase::Resolved,
            ..st
        },
        _ => st,
    }
}

/// One step of the incident fold: the new incident, or why `f` is refused.
pub open spec fn ci_step(s: Option<CiStateView>, f: CiFactView) -> Result<
    Option<CiStateView>,
    CiFoldError,
> {
    match ci_fact_error(s, f) {
        Some(e) => Err(e),
        None => Ok(ci_apply(s, f)),
    }
}

/// The incident folded from a whole stream of facts, from no incident.
pub open spec fn ci_fold(facts: Seq<CiFactView>) -> Result<Option<CiStateView>, CiFoldError>
    decreases facts.len(),
{
    if facts.len() == 0 {
        Ok(None)
    } else {
        match ci_fold(facts.drop_last()) {
            Ok(s) => ci_step(s, facts.last()),
            Err(e) => Err(e),
        }
    }
}

/// The position of the first assignment named `id`.
pub fn find_assignment(v: &Vec<CiRecoveryAssignment>, id: &String) -> (r: Option<usize>)
    ensures
        match r {
            Some(i) => first_assignment(v.deep_view(), id@) == Some(i as int)
                && has_assignment_id(v.deep_view(), id@),
            None => first_assignment(v.deep_view(), id@) is None
                && !has_assignment_id(v.deep_view(), id@),
        },
{
    let ghost dv = v.deep_view();
    let mut i: usize = 0;
    while i < v.len()
        invariant
            i <= v@.len(),
            dv == v.deep_view(),
            forall|j: int| 0 <= j < i ==> #[trigger] dv[j].id != id@,
        decreases v.len() - i,
    {
        if v[i].id == *id {
            proof {
                assert(dv[i as int].id == id@);
                assert(is_first_with_id(dv, id@, i as int));
                let k = choose|k: int| is_first_with_id(dv, id@, k);
                if k < i {
                    assert(dv[k].id != id@);
                }
                if k > i {
                    assert(dv[i as int].id != id@);
                }
            }
            return Some(i);
        }
        i = i + 1;
    }
    proof {
        assert forall|k: int| !is_first_with_id(dv, id@, k) by {
            if is_first_with_id(dv, id@, k) {
                assert(dv[k].id != id@);
            }
        }
        assert forall|k: int| !(0 <= k < dv.len() && #[trigger] dv[k].id == id@) by {
            if 0 <= k < dv.len() {
                assert(dv[k].id != id@);
            }
        }
    }
    None
}

fn owner_mismatch(st: &CiRecoveryState, epoch: u64, owner: &CiRecoveryParticipant) -> (r: bool)
    ensures
        r == (st@.epoch != epoch || st@.owner != owner@),
{
    st.epoch != epoch || !st.owner.same(owner)
}

/// Whether `proof` names the recorded replacement run and reports success.
pub fn proof_matches_replacement(
    replacement: &CiRecoveryReplacement,
    proof: &CiRecoveryReleaseProof,
) -> (r: bool)
    ensures
        r == proof_matches(replacement@, proof@),
{
    proof {
        reveal_strlit("success");
        assert("success"@ =~= success_text());
    }
    replacement.status != CiRecoveryReplacementStatus::Failed && replacement.run_id
        == proof.replacement_run_id && replacement.run_url == proof.replacement_run_url
        && replacement.sha == proof.sha && str_eq(proof.terminal_status.as_str(), "success")
}

/// The error, if any, that folding `fact` onto `state` meets.
pub fn ci_fact_error_of(state: &Option<CiRecoveryState>, fact: &CiRecoveryFact) -> (r: Option<
    CiFoldError,
>)
    ensures
        r == ci_fact_error(state.deep_view(), fact@),
{
    match fact {
        CiRecoveryFact::Claimed { .. } => None,
        CiRecoveryFact::LegacySnapshot { .. } => None,
        CiRecoveryFact::Joined { trigger, participant } => match state {
            None => Some(CiFoldError::JoinWithoutClaim),
            Some(_) => if trigger.is_none() && participant.is_none() {
                Some(CiFoldError::JoinEmptyFact)
            } else {
                None
            },
        },
        CiRecoveryFact::Transferred { .. } | CiRecoveryFact::TakenOver { .. } => match state {
            None => Some(CiFoldError::OwnershipChangeWithoutClaim),
            Some(_) => None,
        },
        CiRecoveryFact::Assigned { assignment } => match state {
            None => Some(CiFoldError::AssignmentWithoutClaim),
            Some(st) => match find_assignment(&st.assignments, &assignment.id) {
                Some(_) => Some(CiFoldError::AssignmentDuplicate),
                None => None,
            },
        },
        CiRecoveryFact::Reported { assignment_id, assignee, .. } => match state {
            None => Some(CiFoldError::ReportWithoutClaim),
            Some(st) => match find_assignment(&st.assignments, assignment_id) {
                None => Some(CiFoldError::ReportAssignmentMissing),
                Some(i) => {
                    let a = &st.assignments[i];
                    proof {
                        assert(st.assignments.deep_view()[i as int] == a@);
                    }
                    if !a.assignee.same(assignee) {
                        Some(CiFoldError::ReportAssigneeInvalid)
                    } else if a.report.is_some() {
                        Some(CiFoldError::ReportDuplicate)
                    } else {
                        None
                    }
                },
            },
        },
        CiRecoveryFact::HeartbeatRecorded { epoch, owner, .. } => match state {
            None => Some(CiFoldError::HeartbeatWithoutClaim),
            Some(st) => if owner_mismatch(st, *epoch, owner) {
                Some(CiFoldError::HeartbeatOwnerInvalid)
            } else {
                None
            },
        },
        CiRecoveryFact::Diagnosed { epoch, owner, .. } => match state {
            None => Some(CiFoldError::DiagnosisWithoutClaim),
            Some(st) => if owner_mismatch(st, *epoch, owner) {
                Some(CiFoldError::DiagnosisOwnerInvalid)
            } else {
                None
            },
        },
        CiRecoveryFact::ActionChosen { epoch, owner, .. } => match state {
            None => Some(CiFoldError::ActionWithoutClaim),
            Some(st) => if owner_mismatch(st, *epoch, owner) {
                Some(CiFoldError::ActionOwnerInvalid)
            } else if st.diagnosis.is_none() {
                Some(CiFoldError::ActionWithoutDiagnosis)
            } else {
                None
            },
        },
        CiRecoveryFact::ReplacementRecorded { epoch, owner, .. } => match state {
            None => Some(CiFoldError::ReplacementWithoutClaim),
            Some(st) => if owner_mismatch(st, *epoch, owner) {
                Some(CiFoldError::ReplacementOwnerInvalid)
            } else if st.next_action.is_none() {
                Some(CiFoldError::ReplacementWithoutAction)
            } else {
                None
            },
        },
        CiRecoveryFact::Resolved { participant, proof } => match state {
            None => Some(CiFoldError::ResolutionWithoutClaim),
            Some(st) => if !contains_participant(&st.participants, participant) {
                Some(CiFoldError::ResolutionParticipantInvalid)
            } else {
                match &st.replacement {
                    None => Some(CiFoldError::ResolutionWithoutReplacement),
                    Some(r) => if !proof_matches_replacement(r, proof) {
                        Some(CiFoldError::ResolutionProofInvalid)
                    } else {
                        None
                    },
                }
            },
        },
    }
}

fn push_participant_absent(v: &mut Vec<CiRecoveryParticipant>, p: &Option<CiRecoveryParticipant>)
    ensures
        final(v).deep_view() == push_opt_absent(old(v).deep_view(), p.deep_view()),
{
    if let Some(p) = p {
        if !contains_participant(v, p) {
            v.push(p.duplicate());
            assert(v.deep_view() =~= old(v).deep_view().push(p@));
        }
    }
}

/// The incident after an admissible fact.
fn ci_apply_exec(state: Option<CiRecoveryState>, fact: &CiRecoveryFact) -> (r: Option<
    CiRecoveryState,
>)
    requires
        ci_fact_error(state.deep_view(), fact@) is None,
    ensures
        r.deep_view() == ci_apply(state.deep_view(), fact@),
{
    match fact {
        CiRecoveryFact::Claimed { schema_version, incident_id, trigger, owner, lease_expires_at } =>
            {
            let mut triggers: Vec<CiRecoveryTrigger> = Vec::new();
            triggers.push(trigger.duplicate());
            let mut participants: Vec<CiRecoveryParticipant> = Vec::new();
            participants.push(owner.duplicate());
            let st = CiRecoveryState {
                schema_version: *schema_version,
                incident_id: incident_id.clone(),
                state: CiRecoveryPhase::Diagnosing,
                epoch: 1,
                trigger: trigger.duplicate(),
                triggers,
                owner: owner.duplicate(),
                lease_expires_at: *lease_expires_at,
                participants,
                assignments: Vec::new(),
                failure_record: None,
                diagnosis: None,
                next_action: None,
                replacement: None,
                release_proof: None,
            };
            assert(st.triggers.deep_view() =~= seq![trigger@]);
            assert(st.participants.deep_view() =~= seq![owner@]);
            assert(st.assignments.deep_view() =~= Seq::<AssignmentView>::empty());
            Some(st)
        },
        CiRecoveryFact::LegacySnapshot { state: snapshot } => Some(snapshot.duplicate()),
        _ => {
            let mut st = state.unwrap();
            let ghost old_st = st@;
            match fact {
                CiRecoveryFact::Joined { trigger, participant } => {
                    if let Some(t) = trigger {
                        st.trigger = t.duplicate();
                        if !contains_trigger(&st.triggers, t) {
                            st.triggers.push(t.duplicate());
                            assert(st.triggers.deep_view() =~= old_st.triggers.push(t@));
                        }
                    }
                    push_participant_absent(&mut st.participants, participant);
                },
                CiRecoveryFact::Transferred { owner, epoch, lease_expires_at, participant }
                | CiRecoveryFact::TakenOver { owner, epoch, lease_expires_at, participant } => {
                    st.owner = owner.duplicate();
                    st.epoch = *epoch;
                    st.lease_expires_at = *lease_expires_at;
                    push_participant_absent(&mut st.participants, participant);
                },
                CiRecoveryFact::Assigned { assignment } => {
                    st.assignments.push(assignment.duplicate());
                    assert(st.assignments.deep_view() =~= old_st.assignments.push(assignment@));
                },
                CiRecoveryFact::Reported { assignment_id, report, .. } => {
                    let i = find_assignment(&st.assignments, assignment_id).unwrap();
                    let mut a = st.assignments[i].duplicate();
                    a.report = Some(report.duplicate());
                    let ghost av = a@;
                    st.assignments.set(i, a);
                    assert(st.assignments.deep_view() =~= old_st.assignments.update(i as int, av));
                },
                CiRecoveryFact::HeartbeatRecorded { lease_expires_at, .. } => {
                    st.lease_expires_at = *lease_expires_at;
                },
                CiRecoveryFact::Diagnosed { failure_record, diagnosis, .. } => {
                    st.failure_record = Some(failure_record.duplicate());
                    st.diagnosis = Some(diagnosis.duplicate());
                    st.next_action = None;
                    st.replacement = None;
                    st.release_proof = None;
                    st.state = CiRecoveryPhase::Diagnosing;
                },
                CiRecoveryFact::ActionChosen { action, .. } => {
                    st.next_action = Some(action.duplicate());
                    st.state = CiRecoveryPhase::ActionSelected;
                },
                CiRecoveryFact::ReplacementRecorded { replacement, .. } => {
                    let failed = replacement.status == CiRecoveryReplacementStatus::Failed;
                    st.replacement = Some(replacement.duplicate());
                    if failed {
                        st.state = CiRecoveryPhase::Diagnosing;
                        st.failure_record = None;
                        st.diagnosis = None;
                        st.next_action = None;
                    } else {
                        st.state = CiRecoveryPhase::WaitingCi;
                    }
                },
                CiRecoveryFact::Resolved { proof, .. } => {
                    st.release_proof = Some(proof.duplicate());
                    st.state = CiRecoveryPhase::Resolved;
                },
                _ => {},
            }
            Some(st)
        },
    }
}

/// Folds one recorded fact onto the incident. A refused fact leaves the
/// incident as it was.
pub fn apply_ci_fact(state: &mut Option<CiRecoveryState>, fact: &CiRecoveryFact) -> (r: Result<
    (),
    CiFoldError,
>)
    ensures
        match r {
            Ok(_) => ci_step(old(state).deep_view(), fact@) == Ok::<
                Option<CiStateView>,
                CiFoldError,
            >(final(state).deep_view()),
            Err(e) => ci_step(old(state).deep_view(), fact@) == Err::<
                Option<CiStateView>,
                CiFoldError,
            >(e) && final(state).deep_view() == old(state).deep_view(),
        },
{
    match ci_fact_error_of(state, fact) {
        Some(e) => Err(e),
        None => {
            let current = state.take();
            *state = ci_apply_exec(current, fact);
            Ok(())
        },
    }
}

/// The incident folded from a whole stream of facts.
pub fn project_ci_recovery(facts: &Vec<CiRecoveryFact>) -> (r: Result<
    Option<CiRecoveryState>,
    CiFoldError,
>)
    ensures
        match r {
            Ok(s) => ci_fold(facts.deep_view()) == Ok::<Option<CiStateView>, CiFoldError>(
                s.deep_view(),
            ),
            Err(e) => ci_fold(facts.deep_view()) == Err::<Option<CiStateView>, CiFoldError>(e),
        },
{
    let mut state: Option<CiRecoveryState> = None;
    let mut i: usize = 0;
    while i < facts.len()
        invariant
            i <= facts@.len(),
            ci_fold(facts.deep_view().take(i as int)) == Ok::<Option<CiStateView>, CiFoldError>(
                state.deep_view(),
            ),
        decreases facts.len() - i,
    {
        assert(facts.deep_view().take(i + 1).drop_last() =~= facts.deep_view().take(i as int));
        assert(facts.deep_view().take(i + 1).last() == facts@[i as int]@);
        match apply_ci_fact(&mut state, &facts[i]) {
            Ok(()) => {},
            Err(e) => {
                proof {
                    lemma_ci_fold_error_sticks(facts.deep_view(), i + 1, e);
                    assert(facts.deep_view().take(facts.deep_view().len() as int)
                        =~= facts.deep_view());
                }
                return Err(e);
            },
        }
        i = i + 1;
    }
    assert(facts.deep_view().take(i as int) =~= facts.deep_view());
    Ok(state)
}

/// Once a prefix of the stream is refused, the whole stream is.
proof fn lemma_ci_fold_error_sticks(facts: Seq<CiFactView>, n: int, e: CiFoldError)
    requires
        0 <= n <= facts.len(),
        ci_fold(facts.take(n)) == Err::<Option<CiStateView>, CiFoldError>(e),
    ensures
        ci_fold(facts.take(facts.len() as int)) == Err::<Option<CiStateView>, CiFoldError>(e),
    decreases facts.len() - n,
{
    if n < facts.len() {
        assert(facts.take(n + 1).drop_last() =~= facts.take(n));
        lemma_ci_fold_error_sticks(facts, n + 1, e);
    }
}

} // verus!
