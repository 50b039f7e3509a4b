//! Properties of the CI-recovery incident that hold across its commands and
//! its fold.
use vstd::prelude::*;
use crate::ci_commands::{
    claim_decision, claim_evolve, claim_fold, diagnosis_decision, next_epoch, owner_evolve,
    ownership_evolve, ownership_fold, renew_decision, replacement_decision, report_decision,
    report_evolve, resolve_decision, resolve_evolve, select_decision, takeover_decision,
    transfer_decision, ClaimCiRecoveryState, CiCommandError, OwnerStateView, OwnershipView,
    ReportStateView, ResolveStateView,
};
use crate::ci_state::{ci_fold, ci_step, first_assignment, CiFactView, CiFoldError, CiStateView};
use crate::ci_types::{
    CiRecoveryActionKind, CiRecoveryClassification, CiRecoveryReplacementStatus,
    ActionView, AssignmentView, CiRecoveryPhase, DiagnosisView, FailureRecordView,
    ParticipantView, ReleaseProofView, ReplacementView, ReportView, TriggerView,
};

verus! {

/// Once an incident is claimed, another claim is refused until the incident
/// is resolved; after the resolution a new claim is decided.
pub proof fn lemma_claim_once_until_resolved(
    s: ClaimCiRecoveryState,
    claimed: CiFactView,
    resolved: CiFactView,
    incident_id: Seq<char>,
    schema_version: u32,
    trigger: TriggerView,
    owner: ParticipantView,
    lease_expires_at: u64,
)
    requires
        claimed is Claimed,
        resolved is Resolved,
    ensures
        claim_decision(
            claim_evolve(s, claimed),
            incident_id,
            schema_version,
            trigger,
            owner,
            lease_expires_at,
        ) == Err::<CiFactView, CiCommandError>(CiCommandError::ClaimAlreadyActive),
        claim_decision(
            claim_evolve(claim_evolve(s, claimed), resolved),
            incident_id,
            schema_version,
            trigger,
            owner,
            lease_expires_at,
        ) == Ok::<CiFactView, CiCommandError>(
            CiFactView::Claimed { schema_version, incident_id, trigger, owner, lease_expires_at },
        ),
{
}

/// At one observed time, a transfer by the owner and a takeover by anyone
/// cannot both be decided: the first needs the lease running, the second
/// needs it ended.
pub proof fn lemma_transfer_and_takeover_exclusive(
    s: OwnershipView,
    incident_id: Seq<char>,
    expected_epoch: u64,
    caller: ParticipantView,
    recipient: ParticipantView,
    successor: ParticipantView,
    observed_at: u64,
    lease_a: u64,
    lease_b: u64,
)
    ensures
        !(transfer_decision(
            s,
            incident_id,
            expected_epoch,
            caller,
            recipient,
            observed_at,
            lease_a,
        ) is Ok && takeover_decision(
            s,
            incident_id,
            expected_epoch,
            successor,
            observed_at,
            lease_b,
        ) is Ok),
{
}

/// A decided transfer, once recorded, makes the recipient the owner under
/// the next epoch with the new lease, and a repeat of the same transfer is
/// refused as stale.
pub proof fn lemma_transfer_moves_ownership(
    s: OwnershipView,
    incident_id: Seq<char>,
    expected_epoch: u64,
    caller: ParticipantView,
    recipient: ParticipantView,
    observed_at: u64,
    lease_expires_at: u64,
)
    requires
        transfer_decision(
            s,
            incident_id,
            expected_epoch,
            caller,
            recipient,
            observed_at,
            lease_expires_at,
        ) is Ok,
        expected_epoch < u64::MAX,
    ensures
        ({
            let f = transfer_decision(
                s,
                incident_id,
                expected_epoch,
                caller,
                recipient,
                observed_at,
                lease_expires_at,
            )->Ok_0;
            let t = ownership_evolve(s, f);
            &&& t.owner == Some(recipient)
            &&& t.epoch == expected_epoch + 1
            &&& t.lease_expires_at == lease_expires_at
            &&& t.participants.contains(recipient)
            &&& transfer_decision(
                t,
                incident_id,
                expected_epoch,
                caller,
                recipient,
                observed_at,
                lease_expires_at,
            ) == Err::<CiFactView, CiCommandError>(CiCommandError::StaleEpoch)
        }),
{
    let f = transfer_decision(
        s,
        incident_id,
        expected_epoch,
        caller,
        recipient,
        observed_at,
        lease_expires_at,
    )->Ok_0;
    let t = ownership_evolve(s, f);
    if !s.participants.contains(recipient) {
        assert(t.participants.last() == recipient);
    }
}

/// A decided takeover, once recorded, makes the successor the owner under
/// the next epoch, and the successor cannot take it over again.
pub proof fn lemma_takeover_moves_ownership(
    s: OwnershipView,
    incident_id: Seq<char>,
    expected_epoch: u64,
    successor: ParticipantView,
    observed_at: u64,
    lease_expires_at: u64,
)
    requires
        takeover_decision(s, incident_id, expected_epoch, successor, observed_at, lease_expires_at)
            is Ok,
    ensures
        ({
            let f = takeover_decision(
                s,
                incident_id,
                expected_epoch,
                successor,
                observed_at,
                lease_expires_at,
            )->Ok_0;
            let t = ownership_evolve(s, f);
            &&& t.owner == Some(successor)
            &&& t.epoch == next_epoch(expected_epoch)
            &&& t.participants.contains(successor)
            &&& takeover_decision(
                t,
                incident_id,
                t.epoch,
                successor,
                observed_at,
                lease_expires_at,
            ) == Err::<CiFactView, CiCommandError>(CiCommandError::AlreadyOwner)
        }),
{
    let f = takeover_decision(
        s,
        incident_id,
        expected_epoch,
        successor,
        observed_at,
        lease_expires_at,
    )->Ok_0;
    let t = ownership_evolve(s, f);
    if !s.participants.contains(successor) {
        assert(t.participants.last() == successor);
    }
}

/// After the resolution is recorded, every owner's command is refused as
/// resolved.
pub proof fn lemma_resolution_closes_owner_commands(
    s: OwnerStateView,
    resolved: CiFactView,
    incident_id: Seq<char>,
    expected_epoch: u64,
    owner: ParticipantView,
    observed_at: u64,
    lease_expires_at: u64,
    failure_record: FailureRecordView,
    diagnosis: DiagnosisView,
    action: ActionView,
    replacement: ReplacementView,
)
    requires
        resolved is Resolved,
    ensures
        ({
            let t = owner_evolve(s, resolved);
            let refused = Err::<CiFactView, CiCommandError>(CiCommandError::IncidentResolved);
            &&& renew_decision(t, incident_id, expected_epoch, owner, observed_at, lease_expires_at)
                == refused
            &&& diagnosis_decision(
                t,
                incident_id,
                expected_epoch,
                owner,
                observed_at,
                failure_record,
                diagnosis,
            ) == refused
            &&& select_decision(t, incident_id, expected_epoch, owner, observed_at, action)
                == refused
            &&& replacement_decision(
                t,
                incident_id,
                expected_epoch,
                owner,
                observed_at,
                replacement,
            ) == refused
        }),
{
}

/// After the resolution is recorded, ownership changes, assignments,
/// reports and a second resolution are refused as resolved.
pub proof fn lemma_resolution_closes_incident(
    o: OwnershipView,
    r: ReportStateView,
    v: ResolveStateView,
    resolved: CiFactView,
    incident_id: Seq<char>,
    expected_epoch: u64,
    caller: ParticipantView,
    other: ParticipantView,
    observed_at: u64,
    lease_expires_at: u64,
    assignment: AssignmentView,
    assignment_id: Seq<char>,
    report: ReportView,
    proof: ReleaseProofView,
)
    requires
        resolved is Resolved,
    ensures
        ({
            let refused = Err::<CiFactView, CiCommandError>(CiCommandError::IncidentResolved);
            let o2 = ownership_evolve(o, resolved);
            &&& transfer_decision(
                o2,
                incident_id,
                expected_epoch,
                caller,
                other,
                observed_at,
                lease_expires_at,
            ) == refused
            &&& takeover_decision(
                o2,
                incident_id,
                expected_epoch,
                other,
                observed_at,
                lease_expires_at,
            ) == refused
            &&& crate::ci_commands::assign_decision(
                o2,
                incident_id,
                expected_epoch,
                caller,
                assignment,
                observed_at,
            ) == refused
            &&& report_decision(report_evolve(r, resolved), incident_id, assignment_id, caller, report)
                == refused
            &&& resolve_decision(resolve_evolve(v, resolved), incident_id, caller, proof)
                == refused
        }),
{
}

/// A piece of work is reported once: after a decided report is recorded,
/// the same report is refused.
pub proof fn lemma_report_once(
    s: ReportStateView,
    incident_id: Seq<char>,
    assignment_id: Seq<char>,
    assignee: ParticipantView,
    report: ReportView,
)
    requires
        report_decision(s, incident_id, assignment_id, assignee, report) is Ok,
    ensures
        report_decision(
            report_evolve(s, report_decision(s, incident_id, assignment_id, assignee, report)->Ok_0),
            incident_id,
            assignment_id,
            assignee,
            report,
        ) == Err::<CiFactView, CiCommandError>(CiCommandError::AssignmentAlreadyReported),
{
    let f = report_decision(s, incident_id, assignment_id, assignee, report)->Ok_0;
    let i = first_assignment(s.assignments, assignment_id)->0;
    let t = report_evolve(s, f);
    let updated = AssignmentView { report: Some(report), ..s.assignments[i] };
    assert(t.assignments == s.assignments.update(i, updated));
    assert(crate::ci_state::is_first_with_id(s.assignments, assignment_id, i));
    assert(crate::ci_state::is_first_with_id(t.assignments, assignment_id, i)) by {
        assert forall|j: int| 0 <= j < i implies #[trigger] t.assignments[j].id != assignment_id by {
            assert(t.assignments[j] == s.assignments[j]);
        }
    }
    let k = first_assignment(t.assignments, assignment_id)->0;
    assert(crate::ci_state::is_first_with_id(t.assignments, assignment_id, k));
    if k < i {
        assert(t.assignments[k].id != assignment_id);
    }
    if k > i {
        assert(t.assignments[i].id != assignment_id);
    }
}

/// Whether `f` records owner's work on an incident that the fold already
/// holds as resolved, which reopens it in the fold.
pub open spec fn reopens_resolved(folded: Result<Option<CiStateView>, CiFoldError>, f: CiFactView) -> bool {
    match folded {
        Ok(Some(st)) => st.phase == CiRecoveryPhase::Resolved && (f is Diagnosed || f is ActionChosen
            || f is ReplacementRecorded),
        _ => false,
    }
}

/// No fact of the stream records owner's work on a resolved incident.
pub open spec fn no_work_after_resolution(h: Seq<CiFactView>) -> bool {
    forall|i: int| 0 <= i < h.len() ==> !reopens_resolved(ci_fold(#[trigger] h.take(i)), h[i])
}

proof fn lemma_no_work_prefix(h: Seq<CiFactView>)
    requires
        h.len() > 0,
        no_work_after_resolution(h),
    ensures
        no_work_after_resolution(h.drop_last()),
        !reopens_resolved(ci_fold(h.drop_last()), h.last()),
{
    let p = h.drop_last();
    assert forall|i: int| 0 <= i < p.len() implies !reopens_resolved(
        ci_fold(#[trigger] p.take(i)),
        p[i],
    ) by {
        assert(p.take(i) =~= h.take(i));
        assert(!reopens_resolved(ci_fold(h.take(i)), h[i]));
    }
    assert(h.take(p.len() as int) =~= p);
    assert(!reopens_resolved(ci_fold(h.take(p.len() as int)), h[p.len() as int]));
}

/// The claim command sees an open incident exactly when the folded incident
/// exists and is unresolved, for streams that record no owner's work after
/// the resolution (owner's work after it would reopen the incident in the
/// fold while the claim command still counts it as closed).
pub proof fn lemma_claim_state_matches_projection(h: Seq<CiFactView>)
    requires
        ci_fold(h) is Ok,
        no_work_after_resolution(h),
    ensures
        claim_fold(h).active_incident <==> match ci_fold(h)->Ok_0 {
            Some(st) => st.phase != CiRecoveryPhase::Resolved,
            None => false,
        },
    decreases h.len(),
{
    if h.len() > 0 {
        let p = h.drop_last();
        lemma_no_work_prefix(h);
        assert(ci_fold(p) is Ok);
        lemma_claim_state_matches_projection(p);
    }
}

/// The ownership commands know the incident exactly when the fold has one,
/// with the same identifier, owner, epoch and participants, and count it
/// resolved when the fold does (for streams that record no owner's work
/// after the resolution).
pub proof fn lemma_ownership_state_matches_projection(h: Seq<CiFactView>)
    requires
        ci_fold(h) is Ok,
        no_work_after_resolution(h),
    ensures
        match ci_fold(h)->Ok_0 {
            Some(st) => {
                &&& ownership_fold(h).incident_id == Some(st.incident_id)
                &&& ownership_fold(h).owner == Some(st.owner)
                &&& ownership_fold(h).epoch == st.epoch
                &&& ownership_fold(h).participants == st.participants
                &&& ownership_fold(h).resolved == (st.phase == CiRecoveryPhase::Resolved)
            },
            None => ownership_fold(h).incident_id is None && !ownership_fold(h).resolved,
        },
    decreases h.len(),
{
    if h.len() > 0 {
        let p = h.drop_last();
        lemma_no_work_prefix(h);
        assert(ci_fold(p) is Ok);
        lemma_ownership_state_matches_projection(p);
    }
}

/// A transfer that the command decides is accepted by the fold, which then
/// records the recipient as owner under the next epoch.
pub proof fn lemma_decided_transfer_projects(
    h: Seq<CiFactView>,
    incident_id: Seq<char>,
    expected_epoch: u64,
    caller: ParticipantView,
    recipient: ParticipantView,
    observed_at: u64,
    lease_expires_at: u64,
)
    requires
        ci_fold(h) is Ok,
        no_work_after_resolution(h),
        transfer_decision(
            ownership_fold(h),
            incident_id,
            expected_epoch,
            caller,
            recipient,
            observed_at,
            lease_expires_at,
        ) is Ok,
    ensures
        ({
            let f = transfer_decision(
                ownership_fold(h),
                incident_id,
                expected_epoch,
                caller,
                recipient,
                observed_at,
                lease_expires_at,
            )->Ok_0;
            &&& ci_step(ci_fold(h)->Ok_0, f) is Ok
            &&& ci_step(ci_fold(h)->Ok_0, f)->Ok_0 is Some
            &&& ci_step(ci_fold(h)->Ok_0, f)->Ok_0->0.owner == recipient
            &&& ci_step(ci_fold(h)->Ok_0, f)->Ok_0->0.epoch == next_epoch(expected_epoch)
            &&& ci_fold(h.push(f)) == ci_step(ci_fold(h)->Ok_0, f)
        }),
{
    lemma_ownership_state_matches_projection(h);
    let f = transfer_decision(
        ownership_fold(h),
        incident_id,
        expected_epoch,
        caller,
        recipient,
        observed_at,
        lease_expires_at,
    )->Ok_0;
    assert(h.push(f).drop_last() =~= h);
}

/// An incident is resolved only on proof of the replacement run it
/// recorded: a resolution names that run's id, URL and commit, and that run
/// has not failed; a proof naming any other run, URL or commit is refused
/// as not matching.
pub proof fn lemma_resolution_requires_recorded_run(
    s: ResolveStateView,
    incident_id: Seq<char>,
    participant: ParticipantView,
    proof: ReleaseProofView,
)
    ensures
        resolve_decision(s, incident_id, participant, proof) is Ok ==> {
            &&& !s.resolved
            &&& s.incident_id == Some(incident_id)
            &&& s.participants.contains(participant)
            &&& s.replacement is Some
            &&& s.replacement->0.run_id == proof.replacement_run_id
            &&& s.replacement->0.run_url == proof.replacement_run_url
            &&& s.replacement->0.sha == proof.sha
            &&& s.replacement->0.status != CiRecoveryReplacementStatus::Failed
        },
        !s.resolved && s.incident_id == Some(incident_id) && s.participants.contains(participant)
            && s.replacement is Some && s.replacement->0.status != CiRecoveryReplacementStatus::Failed && (
        s.replacement->0.run_id != proof.replacement_run_id || s.replacement->0.run_url
            != proof.replacement_run_url || s.replacement->0.sha != proof.sha) ==> resolve_decision(
            s,
            incident_id,
            participant,
            proof,
        ) == Err::<CiFactView, CiCommandError>(CiCommandError::ReleaseProofMismatch),
{
}

/// The chosen action follows the diagnosis: a caused failure may only be
/// repaired, and an unrelated or transient one only rerun. Any other
/// choice, by an owner otherwise entitled to choose, is refused as
/// conflicting with the diagnosis.
pub proof fn lemma_action_follows_diagnosis(
    s: OwnerStateView,
    incident_id: Seq<char>,
    expected_epoch: u64,
    owner: ParticipantView,
    observed_at: u64,
    action: ActionView,
)
    ensures
        select_decision(s, incident_id, expected_epoch, owner, observed_at, action) is Ok ==> {
            &&& crate::ci_commands::owner_state_guard(s, incident_id, expected_epoch, owner, observed_at) is None
            &&& s.classification is Some
            &&& (s.classification->0 == CiRecoveryClassification::Caused ==> action.kind
                == CiRecoveryActionKind::Repair)
            &&& (s.classification->0 == CiRecoveryClassification::Unrelated ==> action.kind
                == CiRecoveryActionKind::Rerun)
            &&& (s.classification->0 == CiRecoveryClassification::Transient ==> action.kind
                == CiRecoveryActionKind::Rerun)
        },
        crate::ci_commands::owner_state_guard(s, incident_id, expected_epoch, owner, observed_at) is None
            && (s.classification == Some(CiRecoveryClassification::Unrelated) || s.classification == Some(
            CiRecoveryClassification::Transient,
        )) && action.kind != CiRecoveryActionKind::Rerun ==> select_decision(
            s,
            incident_id,
            expected_epoch,
            owner,
            observed_at,
            action,
        ) == Err::<CiFactView, CiCommandError>(CiCommandError::ActionConflictsDiagnosis),
        crate::ci_commands::owner_state_guard(s, incident_id, expected_epoch, owner, observed_at) is None
            && s.classification == Some(CiRecoveryClassification::Caused) && action.kind
            != CiRecoveryActionKind::Repair ==> select_decision(
            s,
            incident_id,
            expected_epoch,
            owner,
            observed_at,
            action,
        ) == Err::<CiFactView, CiCommandError>(CiCommandError::ActionConflictsDiagnosis),
{
}

} // verus!
