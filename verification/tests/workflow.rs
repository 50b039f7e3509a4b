use tiber::workflow::{parse_discovery_evidence_arguments, WorkflowEvent, WorkflowProjection, WORKFLOW_STREAM};

fn event(command: &str, event: &str, observation: &str) -> WorkflowEvent {
    WorkflowEvent::DiscoveryEvidenceRecordedV1 {
        workflow_id: tiber::cli::stream_id(WORKFLOW_STREAM).expect("valid stream"),
        command: command.to_owned(),
        event: event.to_owned(),
        observation: observation.to_owned(),
    }
}

#[test]
fn initial_projection_selects_only_discovery_evidence_recording() {
    assert_eq!(
        WorkflowProjection::initial().decision().next,
        "RecordDiscoveryEvidence"
    );
}

#[test]
fn unknown_semantic_event_does_not_advance_the_projection() {
    let event = event("RecordDiscoveryEvidence", "UnknownWorkflowEvent", "fixture");
    assert_eq!(
        WorkflowProjection::initial()
            .apply(&event)
            .decision()
            .frontier,
        0
    );
}

#[test]
fn ineligible_semantic_command_does_not_advance_the_projection() {
    let event = event("FormProductHypothesis", "ProductHypothesisFormed", "fixture");
    assert_eq!(
        WorkflowProjection::initial()
            .apply(&event)
            .decision()
            .frontier,
        0
    );
}

fn args(xs: &[&str]) -> Vec<String> {
    xs.iter().map(|x| x.to_string()).collect()
}

#[test]
fn discovery_evidence_arguments_take_three_flags_in_any_order() {
    let parsed = parse_discovery_evidence_arguments(&args(&[
        "RecordDiscoveryEvidence",
        "--observation",
        "saw it",
        "--event",
        "DiscoveryEvidenceRecorded",
        "--expected-frontier",
        "0",
    ]))
    .expect("three flags in any order");
    assert_eq!(parsed.event, "DiscoveryEvidenceRecorded");
    assert_eq!(parsed.expected_frontier, "0");
    assert_eq!(parsed.observation, "saw it");

    let base = ["RecordDiscoveryEvidence", "--event", "E", "--expected-frontier", "0", "--observation", "o"];
    assert!(parse_discovery_evidence_arguments(&args(&base)).is_some());
    // A missing flag, a repeated flag, a dangling flag, a value like a flag, an extra pair.
    assert!(parse_discovery_evidence_arguments(&args(&base[..5])).is_none());
    assert!(parse_discovery_evidence_arguments(&args(&base[..6])).is_none());
    assert!(parse_discovery_evidence_arguments(&args(&[
        "RecordDiscoveryEvidence", "--event", "E", "--event", "F", "--observation", "o"
    ]))
    .is_none());
    assert!(parse_discovery_evidence_arguments(&args(&[
        "RecordDiscoveryEvidence", "--event", "--x", "--expected-frontier", "0", "--observation", "o"
    ]))
    .is_none());
    let mut extra = args(&base);
    extra.extend(args(&["--event", "F"]));
    assert!(parse_discovery_evidence_arguments(&extra).is_none());
    assert!(parse_discovery_evidence_arguments(&args(&["RecordDiscoveryEvidence"])).is_none());
}
