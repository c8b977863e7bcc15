use matrix_gen::synthesis::{synthesis_outcome, synthesis_payload, synthesis_request};
use matrix_gen::{build_synthesis_request, strip_fence, AgentId, InstructionPair, Message, OracleError, Scenario};

fn make_scenario(content: &str) -> Scenario {
    let mut s = Scenario::new();
    s.record(Message {
        from: AgentId(0),
        tick: 1,
        content: content.into(),
    });
    s
}

#[test]
fn build_request_contains_transcript_content() {
    let scenario = make_scenario("hello from agent zero");
    let req = build_synthesis_request(&scenario, 2);
    assert!(req.system.is_some());
    assert!(req.user.contains("hello from agent zero"));
    assert!(req.user.contains("agent=0"));
    assert!(req.user.contains("t=1"));
}

#[test]
fn build_request_exact_text() {
    let mut scenario = make_scenario("hi");
    scenario.record(Message {
        from: AgentId(17),
        tick: 305,
        content: "yo".into(),
    });
    let req = build_synthesis_request(&scenario, 4);
    assert_eq!(
        req.user,
        "Scenario transcript:\n[t=1 agent=0] hi\n[t=305 agent=17] yo\n\n\
         Produce exactly 4 instruction-response pairs that a user might plausibly send to an assistant, with each response grounded in the scenario above.\n\
         Reply with a JSON array of objects: [{\"instruction\": \"...\", \"response\": \"...\"}, ...]\n\
         JSON only, no prose."
    );
    assert!(req.system.unwrap().starts_with("You are a data-synthesis assistant."));
}

#[test]
fn empty_scenario_returns_empty() {
    assert!(synthesis_request(&Scenario::new(), 3).is_none());
}

#[test]
fn zero_count_returns_empty() {
    let scenario = make_scenario("some content");
    assert!(synthesis_request(&scenario, 0).is_none());
    assert!(synthesis_request(&scenario, 1).is_some());
}

#[test]
fn code_fenced_response_parses_correctly() {
    let fenced = "```json\n[{\"instruction\":\"x\",\"response\":\"y\"}]\n```";
    assert_eq!(
        synthesis_payload(fenced),
        "[{\"instruction\":\"x\",\"response\":\"y\"}]"
    );
}

#[test]
fn unfenced_payload_is_trimmed_reply() {
    assert_eq!(synthesis_payload("  \n[1, 2]\t\n"), "[1, 2]");
    assert_eq!(synthesis_payload("``` \n[]\n```  "), " \n[]");
}

#[test]
fn strip_fence_cases() {
    assert_eq!(strip_fence("```json\n\n[]\n\n```"), Some("[]"));
    assert_eq!(strip_fence("```\n{}\n```"), Some("{}"));
    assert_eq!(strip_fence("```json```"), Some(""));
    assert_eq!(strip_fence("```"), None);
    assert_eq!(strip_fence("[]"), None);
    assert_eq!(strip_fence("```json\n[]"), None);
}

#[test]
fn scripted_oracle_returns_parsed_pairs() {
    let pairs = vec![InstructionPair {
        instruction: "What is bookbinding?".into(),
        response: "It is the craft of assembling books.".into(),
    }];
    let out = synthesis_outcome(Ok(pairs.clone())).unwrap();
    assert_eq!(out, pairs);
}

#[test]
fn malformed_json_returns_backend_error() {
    let err = synthesis_outcome(Err("expected value at line 1 column 1".into())).unwrap_err();
    assert!(matches!(err, OracleError::Backend(_)));
    if let OracleError::Backend(msg) = err {
        assert!(msg.contains("synthesis parse:"));
        assert_eq!(msg, "synthesis parse: expected value at line 1 column 1");
    }
}
