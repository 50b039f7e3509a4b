//! The vocabulary of a shared CI-recovery incident.
use vstd::prelude::*;
use crate::text::str_eq;

verus! {

/// The failed CI run that opened, or joined, an incident.
#[derive(Debug)]
pub struct CiRecoveryTrigger {
    pub run_id: String,
    pub run_url: String,
    pub failed_sha: String,
    pub workflow: String,
    pub git_ref: String,
}

pub struct TriggerView {
    pub run_id: Seq<char>,
    pub run_url: Seq<char>,
    pub failed_sha: Seq<char>,
    pub workflow: Seq<char>,
    pub git_ref: Seq<char>,
}

impl View for CiRecoveryTrigger {
    type V = TriggerView;

    open spec fn view(&self) -> TriggerView {
        TriggerView {
            run_id: self.run_id@,
            run_url: self.run_url@,
            failed_sha: self.failed_sha@,
            workflow: self.workflow@,
            git_ref: self.git_ref@,
        }
    }
}

impl CiRecoveryTrigger {
    pub fn duplicate(&self) -> (r: Self)
        ensures
            r@ == self@,
    {
        CiRecoveryTrigger {
            run_id: self.run_id.clone(),
            run_url: self.run_url.clone(),
            failed_sha: self.failed_sha.clone(),
            workflow: self.workflow.clone(),
            git_ref: self.git_ref.clone(),
        }
    }

    pub fn same(&self, other: &Self) -> (r: bool)
        ensures
            r == (self@ == other@),
    {
        self.run_id == other.run_id && self.run_url == other.run_url && self.failed_sha
            == other.failed_sha && self.workflow == other.workflow && self.git_ref == other.git_ref
    }
}

/// A session taking part in an incident.
#[derive(Debug)]
pub struct CiRecoveryParticipant {
    pub host: String,
    pub session: String,
}

pub struct ParticipantView {
    pub host: Seq<char>,
    pub session: Seq<char>,
}

impl View for CiRecoveryParticipant {
    type V = ParticipantView;

    open spec fn view(&self) -> ParticipantView {
        ParticipantView { host: self.host@, session: self.session@ }
    }
}

impl CiRecoveryParticipant {
    pub fn duplicate(&self) -> (r: Self)
        ensures
            r@ == self@,
    {
        CiRecoveryParticipant { host: self.host.clone(), session: self.session.clone() }
    }

    pub fn same(&self, other: &Self) -> (r: bool)
        ensures
            r == (self@ == other@),
    {
        self.host == other.host && self.session == other.session
    }
}

/// Where an incident stands.
#[derive(Clone, Copy, Debug, PartialEq, Eq, Structural)]
pub enum CiRecoveryPhase {
    Diagnosing,
    ActionSelected,
    WaitingCi,
    Resolved,
}

pub open spec fn phase_text(p: CiRecoveryPhase) -> Seq<char> {
    match p {
        CiRecoveryPhase::Diagnosing => "diagnosing"@,
        CiRecoveryPhase::ActionSelected => "action-selected"@,
        CiRecoveryPhase::WaitingCi => "waiting-ci"@,
        CiRecoveryPhase::Resolved => "resolved"@,
    }
}

impl CiRecoveryPhase {
    pub fn as_str(self) -> (r: &'static str)
        ensures
            r@ == phase_text(self),
    {
        match self {
            CiRecoveryPhase::Diagnosing => "diagnosing",
            CiRecoveryPhase::ActionSelected => "action-selected",
            CiRecoveryPhase::WaitingCi => "waiting-ci",
            CiRecoveryPhase::Resolved => "resolved",
        }
    }

    /// The phase written as `value`; no other text names a phase.
    pub fn parse(value: &str) -> (r: Option<Self>)
        ensures
            match r {
                Some(p) => phase_text(p) == value@,
                None => forall|p: CiRecoveryPhase| phase_text(p) != value@,
            },
    {
        if str_eq(value, "diagnosing") {
            Some(CiRecoveryPhase::Diagnosing)
        } else if str_eq(value, "action-selected") {
            Some(CiRecoveryPhase::ActionSelected)
        } else if str_eq(value, "waiting-ci") {
            Some(CiRecoveryPhase::WaitingCi)
        } else if str_eq(value, "resolved") {
            Some(CiRecoveryPhase::Resolved)
        } else {
            None
        }
    }
}

/// How the failure relates to the change under recovery.
#[derive(Clone, Copy, Debug, PartialEq, Eq, Structural)]
pub enum CiRecoveryClassification {
    Caused,
    Unrelated,
    Transient,
}

pub open spec fn classification_text(c: CiRecoveryClassification) -> Seq<char> {
    match c {
        CiRecoveryClassification::Caused => "caused"@,
        CiRecoveryClassification::Unrelated => "unrelated"@,
        CiRecoveryClassification::Transient => "transient"@,
    }
}

impl CiRecoveryClassification {
    pub fn as_str(self) -> (r: &'static str)
        ensures
            r@ == classification_text(self),
    {
        match self {
            CiRecoveryClassification::Caused => "caused",
            CiRecoveryClassification::Unrelated => "unrelated",
            CiRecoveryClassification::Transient => "transient",
        }
    }

    pub fn parse(value: &str) -> (r: Option<Self>)
        ensures
            match r {
                Some(c) => classification_text(c) == value@,
                None => forall|c: CiRecoveryClassification| classification_text(c) != value@,
            },
    {
        if str_eq(value, "caused") {
            Some(CiRecoveryClassification::Caused)
        } else if str_eq(value, "unrelated") {
            Some(CiRecoveryClassification::Unrelated)
        } else if str_eq(value, "transient") {
            Some(CiRecoveryClassification::Transient)
        } else {
            None
        }
    }
}

/// The recovery action chosen for a diagnosed failure.
#[derive(Clone, Copy, Debug, PartialEq, Eq, Structural)]
pub enum CiRecoveryActionKind {
    Repair,
    Rerun,
}

pub open spec fn action_kind_text(k: CiRecoveryActionKind) -> Seq<char> {
    match k {
        CiRecoveryActionKind::Repair => "repair"@,
        CiRecoveryActionKind::Rerun => "rerun"@,
    }
}

impl CiRecoveryActionKind {
    pub fn as_str(self) -> (r: &'static str)
        ensures
            r@ == action_kind_text(self),
    {
        match self {
            CiRecoveryActionKind::Repair => "repair",
            CiRecoveryActionKind::Rerun => "rerun",
        }
    }

    pub fn parse(value: &str) -> (r: Option<Self>)
        ensures
            match r {
                Some(k) => action_kind_text(k) == value@,
                None => forall|k: CiRecoveryActionKind| action_kind_text(k) != value@,
            },
    {
        if str_eq(value, "repair") {
            Some(CiRecoveryActionKind::Repair)
        } else if str_eq(value, "rerun") {
            Some(CiRecoveryActionKind::Rerun)
        } else {
            None
        }
    }
}

/// The state of the run that replaces the failed one.
#[derive(Clone, Copy, Debug, PartialEq, Eq, Structural)]
pub enum CiRecoveryReplacementStatus {
    Queued,
    Running,
    Failed,
}

pub open spec fn replacement_status_text(s: CiRecoveryReplacementStatus) -> Seq<char> {
    match s {
        CiRecoveryReplacementStatus::Queued => "queued"@,
        CiRecoveryReplacementStatus::Running => "running"@,
        CiRecoveryReplacementStatus::Failed => "failed"@,
    }
}

impl CiRecoveryReplacementStatus {
    pub fn as_str(self) -> (r: &'static str)
        ensures
            r@ == replacement_status_text(self),
    {
        match self {
            CiRecoveryReplacementStatus::Queued => "queued",
            CiRecoveryReplacementStatus::Running => "running",
            CiRecoveryReplacementStatus::Failed => "failed",
        }
    }

    pub fn parse(value: &str) -> (r: Option<Self>)
        ensures
            match r {
                Some(s) => replacement_status_text(s) == value@,
                None => forall|s: CiRecoveryReplacementStatus| replacement_status_text(s) != value@,
            },
    {
        if str_eq(value, "queued") {
            Some(CiRecoveryReplacementStatus::Queued)
        } else if str_eq(value, "running") {
            Some(CiRecoveryReplacementStatus::Running)
        } else if str_eq(value, "failed") {
            Some(CiRecoveryReplacementStatus::Failed)
        } else {
            None
        }
    }
}

/// Where in CI the failure shows.
#[derive(Debug)]
pub struct CiRecoveryFailureRecord {
    pub job: String,
    pub step: String,
    pub log_evidence: String,
}

pub struct FailureRecordView {
    pub job: Seq<char>,
    pub step: Seq<char>,
    pub log_evidence: Seq<char>,
}

impl View for CiRecoveryFailureRecord {
    type V = FailureRecordView;

    open spec fn view(&self) -> FailureRecordView {
        FailureRecordView { job: self.job@, step: self.step@, log_evidence: self.log_evidence@ }
    }
}

impl CiRecoveryFailureRecord {
    pub fn duplicate(&self) -> (r: Self)
        ensures
            r@ == self@,
    {
        CiRecoveryFailureRecord {
            job: self.job.clone(),
            step: self.step.clone(),
            log_evidence: self.log_evidence.clone(),
        }
    }
}

/// The owner's diagnosis of the failure.
#[derive(Debug)]
pub struct CiRecoveryDiagnosis {
    pub cause: String,
    pub classification: CiRecoveryClassification,
}

pub struct DiagnosisView {
    pub cause: Seq<char>,
    pub classification: CiRecoveryClassification,
}

impl View for CiRecoveryDiagnosis {
    type V = DiagnosisView;

    open spec fn view(&self) -> DiagnosisView {
        DiagnosisView { cause: self.cause@, classification: self.classification }
    }
}

impl CiRecoveryDiagnosis {
    pub fn duplicate(&self) -> (r: Self)
        ensures
            r@ == self@,
    {
        CiRecoveryDiagnosis { cause: self.cause.clone(), classification: self.classification }
    }
}

/// The action the owner chose.
#[derive(Debug)]
pub struct CiRecoveryAction {
    pub kind: CiRecoveryActionKind,
    pub description: String,
}

pub struct ActionView {
    pub kind: CiRecoveryActionKind,
    pub description: Seq<char>,
}

impl View for CiRecoveryAction {
    type V = ActionView;

    open spec fn view(&self) -> ActionView {
        ActionView { kind: self.kind, description: self.description@ }
    }
}

impl CiRecoveryAction {
    pub fn duplicate(&self) -> (r: Self)
        ensures
            r@ == self@,
    {
        CiRecoveryAction { kind: self.kind, description: self.description.clone() }
    }
}

/// The run started to replace the failed one.
#[derive(Debug)]
pub struct CiRecoveryReplacement {
    pub run_id: String,
    pub run_url: String,
    pub sha: String,
    pub status: CiRecoveryReplacementStatus,
}

pub struct ReplacementView {
    pub run_id: Seq<char>,
    pub run_url: Seq<char>,
    pub sha: Seq<char>,
    pub status: CiRecoveryReplacementStatus,
}

impl View for CiRecoveryReplacement {
    type V = ReplacementView;

    open spec fn view(&self) -> ReplacementView {
        ReplacementView { run_id: self.run_id@, run_url: self.run_url@, sha: self.sha@, status: self.status }
    }
}

impl CiRecoveryReplacement {
    pub fn duplicate(&self) -> (r: Self)
        ensures
            r@ == self@,
    {
        CiRecoveryReplacement {
            run_id: self.run_id.clone(),
            run_url: self.run_url.clone(),
            sha: self.sha.clone(),
            status: self.status,
        }
    }
}

/// Evidence that the replacement run succeeded.
#[derive(Debug)]
pub struct CiRecoveryReleaseProof {
    pub replacement_run_id: String,
    pub replacement_run_url: String,
    pub sha: String,
    pub terminal_status: String,
}

pub struct ReleaseProofView {
    pub replacement_run_id: Seq<char>,
    pub replacement_run_url: Seq<char>,
    pub sha: Seq<char>,
    pub terminal_status: Seq<char>,
}

impl View for CiRecoveryReleaseProof {
    type V = ReleaseProofView;

    open spec fn view(&self) -> ReleaseProofView {
        ReleaseProofView {
            replacement_run_id: self.replacement_run_id@,
            replacement_run_url: self.replacement_run_url@,
            sha: self.sha@,
            terminal_status: self.terminal_status@,
        }
    }
}

impl CiRecoveryReleaseProof {
    pub fn duplicate(&self) -> (r: Self)
        ensures
            r@ == self@,
    {
        CiRecoveryReleaseProof {
            replacement_run_id: self.replacement_run_id.clone(),
            replacement_run_url: self.replacement_run_url.clone(),
            sha: self.sha.clone(),
            terminal_status: self.terminal_status.clone(),
        }
    }
}

/// An assignee's result for one assignment.
#[derive(Debug)]
pub struct CiRecoveryReport {
    pub summary: String,
    pub evidence: String,
}

pub struct ReportView {
    pub summary: Seq<char>,
    pub evidence: Seq<char>,
}

impl View for CiRecoveryReport {
    type V = ReportView;

    open spec fn view(&self) -> ReportView {
        ReportView { summary: self.summary@, evidence: self.evidence@ }
    }
}

impl CiRecoveryReport {
    pub fn duplicate(&self) -> (r: Self)
        ensures
            r@ == self@,
    {
        CiRecoveryReport { summary: self.summary.clone(), evidence: self.evidence.clone() }
    }
}

/// Work the owner handed to a participant.
#[derive(Debug)]
pub struct CiRecoveryAssignment {
    pub id: String,
    pub owner_epoch: u64,
    pub assignee: CiRecoveryParticipant,
    pub capabilities: Vec<String>,
    pub scope: String,
    pub report: Option<CiRecoveryReport>,
}

pub struct AssignmentView {
    pub id: Seq<char>,
    pub owner_epoch: u64,
    pub assignee: ParticipantView,
    pub capabilities: Seq<Seq<char>>,
    pub scope: Seq<char>,
    pub report: Option<ReportView>,
}

pub open spec fn strings_view(v: Seq<String>) -> Seq<Seq<char>> {
    v.map_values(|s: String| s@)
}

pub open spec fn opt_report_view(o: Option<CiRecoveryReport>) -> Option<ReportView> {
    match o {
        Some(r) => Some(r@),
        None => None,
    }
}

impl View for CiRecoveryAssignment {
    type V = AssignmentView;

    open spec fn view(&self) -> AssignmentView {
        AssignmentView {
            id: self.id@,
            owner_epoch: self.owner_epoch,
            assignee: self.assignee@,
            capabilities: strings_view(self.capabilities@),
            scope: self.scope@,
            report: opt_report_view(self.report),
        }
    }
}

pub fn duplicate_strings(v: &Vec<String>) -> (r: Vec<String>)
    ensures
        strings_view(r@) == strings_view(v@),
{
    let mut r: Vec<String> = Vec::new();
    let mut i: usize = 0;
    while i < v.len()
        invariant
            i <= v@.len(),
            r@.len() == i,
            forall|j: int| 0 <= j < i ==> #[trigger] r@[j]@ == v@[j]@,
        decreases v.len() - i,
    {
        r.push(v[i].clone());
        i = i + 1;
    }
    assert(strings_view(r@) =~= strings_view(v@));
    r
}

impl CiRecoveryAssignment {
    pub fn duplicate(&self) -> (r: Self)
        ensures
            r@ == self@,
    {
        CiRecoveryAssignment {
            id: self.id.clone(),
            owner_epoch: self.owner_epoch,
            assignee: self.assignee.duplicate(),
            capabilities: duplicate_strings(&self.capabilities),
            scope: self.scope.clone(),
            report: match &self.report {
                Some(r) => Some(r.duplicate()),
                None => None,
            },
        }
    }
}

/// Collections of incident records are read through the views of their items.
impl DeepView for CiRecoveryTrigger {
    type V = TriggerView;

    open spec fn deep_view(&self) -> TriggerView {
        self@
    }
}

impl DeepView for CiRecoveryParticipant {
    type V = ParticipantView;

    open spec fn deep_view(&self) -> ParticipantView {
        self@
    }
}

impl DeepView for CiRecoveryFailureRecord {
    type V = FailureRecordView;

    open spec fn deep_view(&self) -> FailureRecordView {
        self@
    }
}

impl DeepView for CiRecoveryDiagnosis {
    type V = DiagnosisView;

    open spec fn deep_view(&self) -> DiagnosisView {
        self@
    }
}

impl DeepView for CiRecoveryAction {
    type V = ActionView;

    open spec fn deep_view(&self) -> ActionView {
        self@
    }
}

impl DeepView for CiRecoveryReplacement {
    type V = ReplacementView;

    open spec fn deep_view(&self) -> ReplacementView {
        self@
    }
}

impl DeepView for CiRecoveryReleaseProof {
    type V = ReleaseProofView;

    open spec fn deep_view(&self) -> ReleaseProofView {
        self@
    }
}

impl DeepView for CiRecoveryReport {
    type V = ReportView;

    open spec fn deep_view(&self) -> ReportView {
        self@
    }
}

impl DeepView for CiRecoveryAssignment {
    type V = AssignmentView;

    open spec fn deep_view(&self) -> AssignmentView {
        self@
    }
}

/// Whether `p` is among `v`, compared field by field.
pub fn contains_participant(v: &Vec<CiRecoveryParticipant>, p: &CiRecoveryParticipant) -> (r: bool)
    ensures
        r == v.deep_view().contains(p@),
{
    let mut i: usize = 0;
    while i < v.len()
        invariant
            i <= v@.len(),
            forall|j: int| 0 <= j < i ==> v@[j]@ != p@,
        decreases v.len() - i,
    {
        if v[i].same(p) {
            assert(v.deep_view()[i as int] == p@);
            return true;
        }
        i = i + 1;
    }
    assert(!v.deep_view().contains(p@)) by {
        if v.deep_view().contains(p@) {
            let k = choose|k: int| 0 <= k < v.deep_view().len() && v.deep_view()[k] == p@;
            assert(v@[k]@ == p@);
        }
    }
    false
}

/// Whether `t` is among `v`, compared field by field.
pub fn contains_trigger(v: &Vec<CiRecoveryTrigger>, t: &CiRecoveryTrigger) -> (r: bool)
    ensures
        r == v.deep_view().contains(t@),
{
    let mut i: usize = 0;
    while i < v.len()
        invariant
            i <= v@.len(),
            forall|j: int| 0 <= j < i ==> v@[j]@ != t@,
        decreases v.len() - i,
    {
        if v[i].same(t) {
            assert(v.deep_view()[i as int] == t@);
            return true;
        }
        i = i + 1;
    }
    assert(!v.deep_view().contains(t@)) by {
        if v.deep_view().contains(t@) {
            let k = choose|k: int| 0 <= k < v.deep_view().len() && v.deep_view()[k] == t@;
            assert(v@[k]@ == t@);
        }
    }
    false
}

/// A copy of a list of participants.
pub fn duplicate_participants(v: &Vec<CiRecoveryParticipant>) -> (r: Vec<CiRecoveryParticipant>)
    ensures
        r.deep_view() == v.deep_view(),
{
    let mut r: Vec<CiRecoveryParticipant> = Vec::new();
    let mut i: usize = 0;
    while i < v.len()
        invariant
            i <= v@.len(),
            r@.len() == i,
            forall|j: int| 0 <= j < i ==> #[trigger] r@[j]@ == v@[j]@,
        decreases v.len() - i,
    {
        r.push(v[i].duplicate());
        i = i + 1;
    }
    assert(r.deep_view() =~= v.deep_view());
    r
}

/// A copy of a list of triggers.
pub fn duplicate_triggers(v: &Vec<CiRecoveryTrigger>) -> (r: Vec<CiRecoveryTrigger>)
    ensures
        r.deep_view() == v.deep_view(),
{
    let mut r: Vec<CiRecoveryTrigger> = Vec::new();
    let mut i: usize = 0;
    while i < v.len()
        invariant
            i <= v@.len(),
            r@.len() == i,
            forall|j: int| 0 <= j < i ==> #[trigger] r@[j]@ == v@[j]@,
        decreases v.len() - i,
    {
        r.push(v[i].duplicate());
        i = i + 1;
    }
    assert(r.deep_view() =~= v.deep_view());
    r
}

/// A copy of a list of assignments.
pub fn duplicate_assignments(v: &Vec<CiRecoveryAssignment>) -> (r: Vec<CiRecoveryAssignment>)
    ensures
        r.deep_view() == v.deep_view(),
{
    let mut r: Vec<CiRecoveryAssignment> = Vec::new();
    let mut i: usize = 0;
    while i < v.len()
        invariant
            i <= v@.len(),
            r@.len() == i,
            forall|j: int| 0 <= j < i ==> #[trigger] r@[j]@ == v@[j]@,
        decreases v.len() - i,
    {
        r.push(v[i].duplicate());
        i = i + 1;
    }
    assert(r.deep_view() =~= v.deep_view());
    r
}

} // verus!
