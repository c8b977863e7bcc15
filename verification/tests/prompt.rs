use matrix_gen::{build_actor_request, Agent, AgentId, Goal, MemoryEntry, MemorySource, PlanStep, Profile};

fn make_agent() -> Agent {
    Agent::new(
        AgentId(1),
        Profile {
            profession: Some("botanist".into()),
            interests: vec!["fungi".into()],
            bio: Some("grew up near a forest".into()),
            historical_statements: vec![],
        },
        Goal {
            description: "catalog all local species".into(),
            plan: vec![
                PlanStep {
                    description: "collect samples".into(),
                    completed: false,
                },
                PlanStep {
                    description: "write report".into(),
                    completed: true,
                },
            ],
        },
    )
}

#[test]
fn prompt_mentions_goal() {
    let agent = make_agent();
    let req = build_actor_request(&agent);
    assert!(req.system.unwrap().contains("catalog all local species"));
}

#[test]
fn prompt_includes_plan_steps_with_indices() {
    let agent = make_agent();
    let req = build_actor_request(&agent);
    assert!(req.user.contains("0. collect samples"));
    assert!(req.user.contains("1. write report"));
}

#[test]
fn prompt_includes_recent_memory_section() {
    let mut agent = make_agent();
    agent.memory.push(MemoryEntry {
        tick: 5,
        content: "observed something".into(),
        source: MemorySource::SelfAction,
    });
    let req = build_actor_request(&agent);
    assert!(req.user.contains("Recent memory:"));
    assert!(req.user.contains("t=5: observed something"));
}

#[test]
fn system_prompt_exact_text() {
    let agent = make_agent();
    let req = build_actor_request(&agent);
    assert_eq!(
        req.system.unwrap(),
        "You are a botanist. Interests: fungi. Bio: grew up near a forest. \
         Your life goal: catalog all local species. \
         You act proactively to pursue your goal, or react to what you observe."
    );
}

#[test]
fn system_prompt_without_optional_parts() {
    let agent = Agent::new(
        AgentId(2),
        Profile {
            profession: None,
            interests: vec!["a".into(), "b".into(), "c".into()],
            bio: None,
            historical_statements: vec![],
        },
        Goal {
            description: "g".into(),
            plan: vec![],
        },
    );
    let req = build_actor_request(&agent);
    assert_eq!(
        req.system.unwrap(),
        "Interests: a, b, c. Your life goal: g. \
         You act proactively to pursue your goal, or react to what you observe."
    );
}

#[test]
fn user_prompt_exact_text() {
    let mut agent = make_agent();
    agent.memory.push(MemoryEntry {
        tick: 12,
        content: "hi".into(),
        source: MemorySource::SelfAction,
    });
    let req = build_actor_request(&agent);
    let expected = "Plan:\n  [ ] 0. collect samples\n  [x] 1. write report\n\
                    \nRecent memory:\n  t=12: hi\n\
                    \nRespond with a single JSON object describing your next action. Schema:\n\
                    {\"type\": \"speak\", \"content\": \"...\"}\n\
                    {\"type\": \"react\", \"to\": <agent_id_u64>, \"content\": \"...\"}\n\
                    {\"type\": \"advance_plan\", \"step\": <index>, \"content\": \"...\"}\n\
                    {\"type\": \"reflect\", \"content\": \"...\"}\n\
                    JSON only, no prose.";
    assert_eq!(req.user, expected);
}

#[test]
fn user_prompt_shows_only_the_latest_eight_entries() {
    let mut agent = make_agent();
    for t in 0..10u64 {
        agent.memory.push(MemoryEntry {
            tick: t,
            content: format!("m{t}"),
            source: MemorySource::SelfAction,
        });
    }
    let req = build_actor_request(&agent);
    assert!(!req.user.contains("t=0: m0"));
    assert!(!req.user.contains("t=1: m1"));
    for t in 2..10u64 {
        assert!(req.user.contains(&format!("  t={t}: m{t}\n")));
    }
    let first = req.user.find("t=2: m2").unwrap();
    let last = req.user.find("t=9: m9").unwrap();
    assert!(first < last);
}
