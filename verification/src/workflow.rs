//! The product-discovery workflow: its two commands, the facts they emit,
//! and the projection that replays those facts into the current frontier.
use vstd::prelude::*;
use crate::text::{
    all_space, chars_all_space, chars_of, chars_start_with, owned, parse_unsigned,
    parse_unsigned_chars, starts_with, str_eq, utf8_len, utf8_len_exceeds,
};

verus! {

/// Stream that holds the local workflow's facts.
pub const WORKFLOW_STREAM: &'static str = "workflow-local";

/// Largest observation, in UTF-8 bytes, that a discovery fact may carry.
pub const MAX_OBSERVATION_BYTES: u64 = 1024;

pub open spec fn record_discovery_evidence() -> Seq<char> {
    "RecordDiscoveryEvidence"@
}

pub open spec fn form_product_hypothesis() -> Seq<char> {
    "FormProductHypothesis"@
}

pub open spec fn discovery_evidence_recorded() -> Seq<char> {
    "DiscoveryEvidenceRecorded"@
}

pub open spec fn product_hypothesis_formed() -> Seq<char> {
    "ProductHypothesisFormed"@
}

/// Why a workflow fact cannot be replayed.
#[derive(Clone, Copy, Debug, PartialEq, Eq, Structural)]
pub enum WorkflowReplayReason {
    EventUnknown,
    InvalidObservation,
    EventNotEmittedByCommand,
    CommandNotEligible,
}

/// A workflow fact that the projection refuses.
#[derive(Clone, Copy, Debug, PartialEq, Eq, Structural)]
pub struct WorkflowReplayError(pub WorkflowReplayReason);

pub open spec fn replay_reason_text(reason: WorkflowReplayReason) -> Seq<char> {
    match reason {
        WorkflowReplayReason::EventUnknown => "event_unknown"@,
        WorkflowReplayReason::InvalidObservation => "invalid_observation"@,
        WorkflowReplayReason::EventNotEmittedByCommand => "event_not_emitted_by_command"@,
        WorkflowReplayReason::CommandNotEligible => "command_not_eligible"@,
    }
}

impl WorkflowReplayError {
    /// The stable reason code that the error displays as.
    pub fn as_str(&self) -> (r: &'static str)
        ensures
            r@ == replay_reason_text(self.0),
    {
        match self.0 {
            WorkflowReplayReason::EventUnknown => "event_unknown",
            WorkflowReplayReason::InvalidObservation => "invalid_observation",
            WorkflowReplayReason::EventNotEmittedByCommand => "event_not_emitted_by_command",
            WorkflowReplayReason::CommandNotEligible => "command_not_eligible",
        }
    }
}

/// The name of a workflow command; only the two known commands parse.
#[derive(Debug)]
pub struct WorkflowCommandName(String);

impl View for WorkflowCommandName {
    type V = Seq<char>;

    closed spec fn view(&self) -> Seq<char> {
        self.0@
    }
}

pub open spec fn is_command_name(value: Seq<char>) -> bool {
    value == record_discovery_evidence() || value == form_product_hypothesis()
}

impl WorkflowCommandName {
    pub fn parse(value: &str) -> (r: Result<Self, WorkflowReplayError>)
        ensures
            match r {
                Ok(name) => is_command_name(value@) && name@ == value@,
                Err(e) => !is_command_name(value@) && e.0 == WorkflowReplayReason::EventUnknown,
            },
    {
        if str_eq(value, "RecordDiscoveryEvidence") || str_eq(value, "FormProductHypothesis") {
            Ok(WorkflowCommandName(owned(value)))
        } else {
            Err(WorkflowReplayError(WorkflowReplayReason::EventUnknown))
        }
    }

    pub fn as_str(&self) -> (r: &str)
        ensures
            r@ == self@,
    {
        self.0.as_str()
    }
}

/// The name of a workflow event; only the two known events parse.
#[derive(Debug)]
pub struct WorkflowEventName(String);

impl View for WorkflowEventName {
    type V = Seq<char>;

    closed spec fn view(&self) -> Seq<char> {
        self.0@
    }
}

pub open spec fn is_event_name(value: Seq<char>) -> bool {
    value == discovery_evidence_recorded() || value == product_hypothesis_formed()
}

impl WorkflowEventName {
    pub fn parse(value: &str) -> (r: Result<Self, WorkflowReplayError>)
        ensures
            match r {
                Ok(name) => is_event_name(value@) && name@ == value@,
                Err(e) => !is_event_name(value@) && e.0 == WorkflowReplayReason::EventUnknown,
            },
    {
        if str_eq(value, "DiscoveryEvidenceRecorded") || str_eq(value, "ProductHypothesisFormed") {
            Ok(WorkflowEventName(owned(value)))
        } else {
            Err(WorkflowReplayError(WorkflowReplayReason::EventUnknown))
        }
    }

    pub fn as_str(&self) -> (r: &str)
        ensures
            r@ == self@,
    {
        self.0.as_str()
    }
}

/// What the workflow status reports for a frontier.
#[derive(Debug, Clone, Copy, PartialEq, Eq)]
pub struct WorkflowDecision {
    pub frontier: u8,
    pub next: &'static str,
    pub evidence: &'static str,
    pub events: &'static str,
}

/// A fact of the workflow stream.
#[derive(Debug, Clone)]
pub enum WorkflowEvent {
    DiscoveryEvidenceRecordedV1 {
        workflow_id: String,
        command: String,
        event: String,
        observation: String,
    },
}

/// Whether an observation is acceptable: not blank, and at most 1024 bytes.
pub open spec fn observation_valid(observation: Seq<char>) -> bool {
    !all_space(observation) && utf8_len(observation) <= MAX_OBSERVATION_BYTES
}

pub fn observation_is_valid(observation: &str) -> (r: bool)
    ensures
        r == observation_valid(observation@),
{
    let chars = chars_of(observation);
    !chars_all_space(chars.as_slice()) && !utf8_len_exceeds(chars.as_slice(), MAX_OBSERVATION_BYTES)
}

/// The frontier that replaying one discovery fact reaches from `frontier`,
/// or the reason the fact is refused.
pub open spec fn replay_step(
    frontier: u8,
    command: Seq<char>,
    event: Seq<char>,
    observation: Seq<char>,
) -> Result<u8, WorkflowReplayReason> {
    if !is_command_name(command) || !is_event_name(event) {
        Err(WorkflowReplayReason::EventUnknown)
    } else if !observation_valid(observation) {
        Err(WorkflowReplayReason::InvalidObservation)
    } else if command == record_discovery_evidence() {
        if event != discovery_evidence_recorded() {
            Err(WorkflowReplayReason::EventNotEmittedByCommand)
        } else if frontier != 0 {
            Err(WorkflowReplayReason::CommandNotEligible)
        } else {
            Ok(1)
        }
    } else if event != product_hypothesis_formed() {
        Err(WorkflowReplayReason::EventNotEmittedByCommand)
    } else {
        Err(WorkflowReplayReason::CommandNotEligible)
    }
}

pub open spec fn replay_event(frontier: u8, event: WorkflowEvent) -> Result<u8, WorkflowReplayReason> {
    match event {
        WorkflowEvent::DiscoveryEvidenceRecordedV1 { command, event, observation, .. } => replay_step(
            frontier,
            command@,
            event@,
            observation@,
        ),
    }
}

/// The replayed state of the workflow: how far discovery has come.
#[derive(Debug, Clone, Copy, PartialEq, Eq)]
pub struct WorkflowProjection {
    frontier: u8,
}

impl View for WorkflowProjection {
    type V = u8;

    closed spec fn view(&self) -> u8 {
        self.frontier
    }
}

impl Default for WorkflowProjection {
    /// The initial projection.
    fn default() -> (p: Self)
        ensures
            p@ == 0,
    {
        WorkflowProjection::initial()
    }
}

impl WorkflowProjection {
    #[verifier::type_invariant]
    spec fn known_frontier(self) -> bool {
        self.frontier <= 1
    }

    /// The frontier reached; every projection stands on one of the two
    /// known frontiers.
    pub fn frontier(&self) -> (f: u8)
        ensures
            f == self@,
            f <= 1,
    {
        proof {
            use_type_invariant(self);
        }
        self.frontier
    }

    pub fn initial() -> (p: Self)
        ensures
            p@ == 0,
    {
        WorkflowProjection { frontier: 0 }
    }

    /// The next command, its evidence kinds and the event it emits.
    pub fn decision(self) -> (d: WorkflowDecision)
        ensures
            d.frontier == self@,
            self@ <= 1,
            self@ == 0 ==> d.next@ == record_discovery_evidence()
                && d.evidence@ == "artifact,observation,measurement"@
                && d.events@ == discovery_evidence_recorded(),
            self@ == 1 ==> d.next@ == form_product_hypothesis() && d.evidence@ == "derived"@
                && d.events@ == product_hypothesis_formed(),
    {
        proof {
            use_type_invariant(&self);
        }
        if self.frontier == 0 {
            WorkflowDecision {
                frontier: 0,
                next: "RecordDiscoveryEvidence",
                evidence: "artifact,observation,measurement",
                events: "DiscoveryEvidenceRecorded",
            }
        } else {
            WorkflowDecision {
                frontier: 1,
                next: "FormProductHypothesis",
                evidence: "derived",
                events: "ProductHypothesisFormed",
            }
        }
    }

    /// Replays one fact, refusing those the workflow could not have emitted.
    pub fn try_apply(self, event: &WorkflowEvent) -> (r: Result<Self, WorkflowReplayError>)
        ensures
            match (r, replay_event(self@, *event)) {
                (Ok(p), Ok(f)) => p@ == f,
                (Err(e), Err(reason)) => e.0 == reason,
                _ => false,
            },
    {
        proof {
            use_type_invariant(&self);
        }
        match event {
            WorkflowEvent::DiscoveryEvidenceRecordedV1 { command, event, observation, .. } => {
                let command = WorkflowCommandName::parse(command.as_str())?;
                let event = WorkflowEventName::parse(event.as_str())?;
                if !observation_is_valid(observation.as_str()) {
                    return Err(WorkflowReplayError(WorkflowReplayReason::InvalidObservation));
                }
                if str_eq(command.as_str(), "RecordDiscoveryEvidence") {
                    if !str_eq(event.as_str(), "DiscoveryEvidenceRecorded") {
                        return Err(WorkflowReplayError(WorkflowReplayReason::EventNotEmittedByCommand));
                    }
                    if self.frontier != 0 {
                        return Err(WorkflowReplayError(WorkflowReplayReason::CommandNotEligible));
                    }
                    Ok(WorkflowProjection { frontier: 1 })
                } else {
                    if !str_eq(event.as_str(), "ProductHypothesisFormed") {
                        return Err(WorkflowReplayError(WorkflowReplayReason::EventNotEmittedByCommand));
                    }
                    Err(WorkflowReplayError(WorkflowReplayReason::CommandNotEligible))
                }
            },
        }
    }

    /// Replays one fact; a refused fact leaves the projection unchanged.
    pub fn apply(self, event: &WorkflowEvent) -> (p: Self)
        ensures
            p@ == match replay_event(self@, *event) {
                Ok(f) => f,
                Err(_) => self@,
            },
    {
        match self.try_apply(event) {
            Ok(p) => p,
            Err(_) => self,
        }
    }
}


/// Why a workflow command refuses to emit its fact.
#[derive(Clone, Copy, Debug, PartialEq, Eq, Structural)]
pub enum WorkflowCommandError {
    StaleFrontier,
}

/// Records discovery evidence: the only command the initial frontier admits.
#[derive(Debug, Clone)]
pub struct RecordDiscoveryEvidence {
    pub workflow_id: String,
    pub observation: String,
}

/// Appends an arbitrary workflow fact; used to exercise replay.
#[derive(Debug, Clone)]
pub struct RecordWorkflowTestEvent {
    pub workflow_id: String,
    pub command: String,
    pub event: String,
    pub observation: String,
}

/// The view of a workflow fact as plain character sequences.
pub open spec fn event_fields(e: WorkflowEvent) -> (Seq<char>, Seq<char>, Seq<char>, Seq<char>) {
    match e {
        WorkflowEvent::DiscoveryEvidenceRecordedV1 { workflow_id, command, event, observation } => (
            workflow_id@,
            command@,
            event@,
            observation@,
        ),
    }
}

impl RecordDiscoveryEvidence {
    /// Folds a fact into the command's state.
    pub fn apply(&self, state: WorkflowProjection, event: &WorkflowEvent) -> (p: WorkflowProjection)
        ensures
            p@ == match replay_event(state@, *event) {
                Ok(f) => f,
                Err(_) => state@,
            },
    {
        state.apply(event)
    }

    /// Emits the discovery fact when the workflow is still at its first
    /// frontier.
    pub fn handle(&self, state: WorkflowProjection) -> (r: Result<Vec<WorkflowEvent>, WorkflowCommandError>)
        ensures
            state@ != 0 ==> r == Err::<Vec<WorkflowEvent>, _>(WorkflowCommandError::StaleFrontier),
            state@ == 0 ==> (r matches Ok(events) && events.len() == 1 && event_fields(events[0]) == (
                self.workflow_id@,
                record_discovery_evidence(),
                discovery_evidence_recorded(),
                self.observation@,
            )),
    {
        if state.frontier() != 0 {
            return Err(WorkflowCommandError::StaleFrontier);
        }
        let mut events = Vec::new();
        events.push(
            WorkflowEvent::DiscoveryEvidenceRecordedV1 {
                workflow_id: self.workflow_id.clone(),
                command: owned("RecordDiscoveryEvidence"),
                event: owned("DiscoveryEvidenceRecorded"),
                observation: self.observation.clone(),
            },
        );
        Ok(events)
    }
}

impl RecordWorkflowTestEvent {
    pub fn apply(&self, state: WorkflowProjection, event: &WorkflowEvent) -> (p: WorkflowProjection)
        ensures
            p@ == match replay_event(state@, *event) {
                Ok(f) => f,
                Err(_) => state@,
            },
    {
        state.apply(event)
    }

    /// Emits the given fact unconditionally.
    pub fn handle(&self, state: WorkflowProjection) -> (events: Vec<WorkflowEvent>)
        ensures
            events.len() == 1,
            event_fields(events[0]) == (
                self.workflow_id@,
                self.command@,
                self.event@,
                self.observation@,
            ),
    {
        let mut events = Vec::new();
        events.push(
            WorkflowEvent::DiscoveryEvidenceRecordedV1 {
                workflow_id: self.workflow_id.clone(),
                command: self.command.clone(),
                event: self.event.clone(),
                observation: self.observation.clone(),
            },
        );
        events
    }
}

/// Replays a whole stream, stopping at the first refused fact.
pub open spec fn replay_all(frontier: u8, events: Seq<WorkflowEvent>) -> Result<u8, WorkflowReplayReason>
    decreases events.len(),
{
    if events.len() == 0 {
        Ok(frontier)
    } else {
        match replay_event(frontier, events[0]) {
            Ok(f) => replay_all(f, events.drop_first()),
            Err(reason) => Err(reason),
        }
    }
}

/// Replays the workflow stream from the initial projection.
pub fn replay_workflow(events: &[WorkflowEvent]) -> (r: Result<WorkflowProjection, WorkflowReplayError>)
    ensures
        match (r, replay_all(0, events@)) {
            (Ok(p), Ok(f)) => p@ == f,
            (Err(e), Err(reason)) => e.0 == reason,
            _ => false,
        },
{
    let mut state = WorkflowProjection::initial();
    let mut i: usize = 0;
    assert(events@.subrange(0, events@.len() as int) =~= events@);
    while i < events.len()
        invariant
            i <= events.len(),
            replay_all(0, events@) == replay_all(state@, events@.subrange(i as int, events@.len() as int)),
        decreases events.len() - i,
    {
        let ghost rest = events@.subrange(i as int, events@.len() as int);
        assert(rest[0] == events@[i as int]);
        assert(rest.drop_first() =~= events@.subrange(i + 1, events@.len() as int));
        state = state.try_apply(&events[i])?;
        i = i + 1;
    }
    assert(events@.subrange(i as int, events@.len() as int) =~= Seq::<WorkflowEvent>::empty());
    Ok(state)
}

/// A replayed fact advances the workflow at most once: only the initial
/// frontier moves, and only to the next one.
pub proof fn lemma_replay_advances_once(frontier: u8, event: WorkflowEvent)
    ensures
        replay_event(frontier, event) matches Ok(f) ==> frontier == 0 && f == 1,
{
}

/// The fact that `RecordDiscoveryEvidence` emits for a valid observation
/// replays onto the initial frontier and advances it.
pub proof fn lemma_recorded_evidence_replays(workflow_id: Seq<char>, observation: Seq<char>)
    requires
        observation_valid(observation),
    ensures
        replay_step(0, record_discovery_evidence(), discovery_evidence_recorded(), observation)
            == Ok::<u8, WorkflowReplayReason>(1),
{
}

/// Every successful replay of a stream ends on a known frontier.
pub proof fn lemma_replay_all_known(frontier: u8, events: Seq<WorkflowEvent>)
    requires
        frontier <= 1,
    ensures
        replay_all(frontier, events) matches Ok(f) ==> f <= 1 && frontier <= f,
    decreases events.len(),
{
    if events.len() > 0 {
        if let Ok(f) = replay_event(frontier, events[0]) {
            lemma_replay_all_known(f, events.drop_first());
        }
    }
}


/// The flags of `workflow execute RecordDiscoveryEvidence`.
#[derive(Debug, Clone)]
pub struct DiscoveryEvidenceArguments {
    pub event: String,
    pub expected_frontier: String,
    pub observation: String,
}

/// Reads `--flag value` pairs from position `index` on. Each of the three
/// flags may appear once, no value may start with `--`, and all three must
/// be present.
pub open spec fn parse_evidence_pairs(
    args: Seq<Seq<char>>,
    index: int,
    event: Option<Seq<char>>,
    expected: Option<Seq<char>>,
    observation: Option<Seq<char>>,
) -> Option<(Seq<char>, Seq<char>, Seq<char>)>
    decreases args.len() - index,
{
    if index >= args.len() {
        match (event, expected, observation) {
            (Some(e), Some(x), Some(o)) => Some((e, x, o)),
            _ => None,
        }
    } else if index + 1 >= args.len() {
        None
    } else {
        let flag = args[index];
        let value = args[index + 1];
        if starts_with(value, "--"@) {
            None
        } else if flag == "--event"@ && event is None {
            parse_evidence_pairs(args, index + 2, Some(value), expected, observation)
        } else if flag == "--expected-frontier"@ && expected is None {
            parse_evidence_pairs(args, index + 2, event, Some(value), observation)
        } else if flag == "--observation"@ && observation is None {
            parse_evidence_pairs(args, index + 2, event, expected, Some(value))
        } else {
            None
        }
    }
}

pub open spec fn string_views(args: Seq<String>) -> Seq<Seq<char>> {
    args.map_values(|a: String| a@)
}

/// Parses the flags that follow the command name (`arguments[0]`).
pub fn parse_discovery_evidence_arguments(arguments: &[String]) -> (r: Option<DiscoveryEvidenceArguments>)
    ensures
        match (r, parse_evidence_pairs(string_views(arguments@), 1, None, None, None)) {
            (Some(a), Some((e, x, o))) => a.event@ == e && a.expected_frontier@ == x
                && a.observation@ == o,
            (None, None) => true,
            _ => false,
        },
        r is Some <==> evidence_arguments_well_formed(string_views(arguments@)),
{
    let ghost args = string_views(arguments@);
    proof {
        lemma_evidence_arguments_closed_form(args);
    }
    let mut event: Option<String> = None;
    let mut expected_frontier: Option<String> = None;
    let mut observation: Option<String> = None;
    let mut index: usize = 1;
    while index < arguments.len()
        invariant
            args == string_views(arguments@),
            parse_evidence_pairs(args, 1, None, None, None) is Some <==> evidence_arguments_well_formed(args),
            1 <= index,
            parse_evidence_pairs(args, 1, None, None, None) == parse_evidence_pairs(
                args,
                index as int,
                match event { Some(v) => Some(v@), None => None },
                match expected_frontier { Some(v) => Some(v@), None => None },
                match observation { Some(v) => Some(v@), None => None },
            ),
        decreases arguments.len() - index,
    {
        if index + 1 >= arguments.len() {
            return None;
        }
        let flag = arguments[index].as_str();
        let value = arguments[index + 1].as_str();
        assert(args[index as int] == flag@);
        assert(args[index + 1] == value@);
        let value_chars = chars_of(value);
        if chars_start_with(value_chars.as_slice(), chars_of("--").as_slice()) {
            return None;
        }
        if str_eq(flag, "--event") && event.is_none() {
            event = Some(owned(value));
        } else if str_eq(flag, "--expected-frontier") && expected_frontier.is_none() {
            expected_frontier = Some(owned(value));
        } else if str_eq(flag, "--observation") && observation.is_none() {
            observation = Some(owned(value));
        } else {
            return None;
        }
        index = index + 2;
    }
    match (event, expected_frontier, observation) {
        (Some(event), Some(expected_frontier), Some(observation)) => Some(
            DiscoveryEvidenceArguments { event, expected_frontier, observation },
        ),
        _ => None,
    }
}

/// Whether flag `f` stands in one of the three flag positions.
pub open spec fn evidence_flag_given(args: Seq<Seq<char>>, f: Seq<char>) -> bool {
    args[1] == f || args[3] == f || args[5] == f
}

/// The value that follows flag `f` among the three flag positions.
pub open spec fn evidence_flag_value(args: Seq<Seq<char>>, f: Seq<char>) -> Seq<char> {
    if args[1] == f {
        args[2]
    } else if args[3] == f {
        args[4]
    } else {
        args[6]
    }
}

/// The accepted shape of the evidence arguments, stated directly: the
/// command name and exactly three `--flag value` pairs, the three flags in
/// any order, and no value that starts with `--`.
pub open spec fn evidence_arguments_well_formed(args: Seq<Seq<char>>) -> bool {
    &&& args.len() == 7
    &&& evidence_flag_given(args, "--event"@)
    &&& evidence_flag_given(args, "--expected-frontier"@)
    &&& evidence_flag_given(args, "--observation"@)
    &&& !starts_with(args[2], "--"@)
    &&& !starts_with(args[4], "--"@)
    &&& !starts_with(args[6], "--"@)
}

/// The evidence arguments parse exactly when they are the command name
/// followed by the three flags, each once and in any order, each with a
/// value that does not start with `--`; each field is the value after its
/// flag.
pub proof fn lemma_evidence_arguments_closed_form(args: Seq<Seq<char>>)
    ensures
        parse_evidence_pairs(args, 1, None, None, None) is Some <==> evidence_arguments_well_formed(args),
        evidence_arguments_well_formed(args) ==> parse_evidence_pairs(args, 1, None, None, None) == Some(
            (
                evidence_flag_value(args, "--event"@),
                evidence_flag_value(args, "--expected-frontier"@),
                evidence_flag_value(args, "--observation"@),
            ),
        ),
{
    reveal_strlit("--event");
    reveal_strlit("--expected-frontier");
    reveal_strlit("--observation");
    reveal_strlit("--");
    assert("--event"@.len() == 7 && "--expected-frontier"@.len() == 19 && "--observation"@.len() == 13);
    reveal_with_fuel(parse_evidence_pairs, 5);
}

/// Why `workflow execute` refuses a request before touching the store.
#[derive(Clone, Copy, Debug, PartialEq, Eq, Structural)]
pub enum WorkflowExecuteRejection {
    CommandNotEligible,
    CommandUnknown,
    EventNotEmittedByCommand,
    ExpectedFrontierInvalid,
    InvalidObservation,
}

/// A well-formed request to record discovery evidence.
#[derive(Debug, Clone)]
pub struct DiscoveryEvidenceRequest {
    pub expected_frontier: u8,
    pub observation: String,
}

/// The outcome of checking the `workflow execute` arguments.
pub open spec fn plan_execute(args: Seq<Seq<char>>) -> Result<(u8, Seq<char>), WorkflowExecuteRejection> {
    if args.len() > 0 && args[0] == form_product_hypothesis() {
        Err(WorkflowExecuteRejection::CommandNotEligible)
    } else if !(args.len() > 0 && args[0] == record_discovery_evidence()) {
        Err(WorkflowExecuteRejection::CommandUnknown)
    } else {
        match parse_evidence_pairs(args, 1, None, None, None) {
            None => Err(WorkflowExecuteRejection::CommandUnknown),
            Some((event, expected, observation)) => {
                if event != discovery_evidence_recorded() {
                    Err(WorkflowExecuteRejection::EventNotEmittedByCommand)
                } else {
                    match parse_unsigned(expected, 255) {
                        None => Err(WorkflowExecuteRejection::ExpectedFrontierInvalid),
                        Some(x) => if !observation_valid(observation) {
                            Err(WorkflowExecuteRejection::InvalidObservation)
                        } else {
                            Ok((x as u8, observation))
                        },
                    }
                }
            },
        }
    }
}

/// Checks the arguments of `workflow execute` (the command name first).
pub fn plan_workflow_execute(arguments: &[String]) -> (r: Result<DiscoveryEvidenceRequest, WorkflowExecuteRejection>)
    ensures
        match (r, plan_execute(string_views(arguments@))) {
            (Ok(req), Ok((x, o))) => req.expected_frontier == x && req.observation@ == o,
            (Err(e), Err(f)) => e == f,
            _ => false,
        },
{
    let ghost args = string_views(arguments@);
    if arguments.len() > 0 && str_eq(arguments[0].as_str(), "FormProductHypothesis") {
        return Err(WorkflowExecuteRejection::CommandNotEligible);
    }
    if !(arguments.len() > 0 && str_eq(arguments[0].as_str(), "RecordDiscoveryEvidence")) {
        return Err(WorkflowExecuteRejection::CommandUnknown);
    }
    let parsed = match parse_discovery_evidence_arguments(arguments) {
        Some(parsed) => parsed,
        None => return Err(WorkflowExecuteRejection::CommandUnknown),
    };
    if !str_eq(parsed.event.as_str(), "DiscoveryEvidenceRecorded") {
        return Err(WorkflowExecuteRejection::EventNotEmittedByCommand);
    }
    let expected_chars = chars_of(parsed.expected_frontier.as_str());
    let expected = match parse_unsigned_chars(expected_chars.as_slice(), 255) {
        Some(x) => x as u8,
        None => return Err(WorkflowExecuteRejection::ExpectedFrontierInvalid),
    };
    if !observation_is_valid(parsed.observation.as_str()) {
        return Err(WorkflowExecuteRejection::InvalidObservation);
    }
    Ok(DiscoveryEvidenceRequest { expected_frontier: expected, observation: parsed.observation })
}

/// Whether the frontier the caller expected is the one the stream reached.
pub fn frontier_is_current(expected: u8, projection: WorkflowProjection) -> (r: bool)
    ensures
        r == (expected == projection@),
{
    expected == projection.frontier()
}

} // verus!
