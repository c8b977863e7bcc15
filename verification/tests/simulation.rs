use matrix_gen::{
    Action, Agent, AgentId, BroadcastModulator, DropSelfModulator, Goal, MemorySource, Modulator,
    Oracle, PlanStep, Profile, ScriptedOracle, Simulation, Termination,
};

fn make_agents() -> Vec<Agent> {
    (0..3)
        .map(|i| {
            Agent::new(
                AgentId(i),
                Profile {
                    profession: None,
                    interests: vec![],
                    bio: None,
                    historical_statements: vec![],
                },
                Goal {
                    description: format!("goal {i}"),
                    plan: vec![],
                },
            )
        })
        .collect()
}

fn scripted(replies: &[&str]) -> ScriptedOracle {
    ScriptedOracle::new(replies.iter().map(|s| s.to_string()).collect())
}

/// Turns a reply into an action the way the application's JSON decoding
/// would, for the replies these tests use.
fn parse_reply(raw: &str) -> Option<Action> {
    let v: serde_json::Value = serde_json::from_str(raw.trim()).ok()?;
    let content = v.get("content")?.as_str()?.to_string();
    match v.get("type")?.as_str()? {
        "speak" => Some(Action::Speak { content }),
        "react" => Some(Action::React {
            to: v.get("to")?.as_u64()?,
            content,
        }),
        "advance_plan" => Some(Action::AdvancePlan {
            step: v.get("step")?.as_u64()? as usize,
            content,
        }),
        "reflect" => Some(Action::Reflect { content }),
        _ => None,
    }
}

fn step<M: Modulator>(sim: &mut Simulation<ScriptedOracle, M>) {
    let req = sim.actor_request();
    let raw = sim.oracle_mut().complete(&req).unwrap();
    let parsed = parse_reply(&raw);
    sim.step(&raw, parsed);
}

fn run<M: Modulator>(sim: &mut Simulation<ScriptedOracle, M>, termination: Termination) {
    while !sim.is_done(&termination) {
        step(sim);
    }
}

fn counts(agent: &Agent) -> (usize, usize) {
    let self_actions = agent
        .memory
        .entries
        .iter()
        .filter(|e| matches!(e.source, MemorySource::SelfAction))
        .count();
    let observed = agent
        .memory
        .entries
        .iter()
        .filter(|e| matches!(e.source, MemorySource::Observed { .. }))
        .count();
    (self_actions, observed)
}

#[test]
fn broadcast_three_ticks_round_robin() {
    let mut sim = Simulation::new(
        make_agents(),
        scripted(&["act A", "act B", "act C", "act D"]),
        BroadcastModulator,
    );
    run(&mut sim, Termination::MaxTicks(3));

    assert_eq!(sim.tick(), 3);

    let msgs = &sim.scenario().messages;
    assert_eq!(msgs.len(), 3);
    assert_eq!(msgs[0].content, "act A");
    assert_eq!(msgs[1].content, "act B");
    assert_eq!(msgs[2].content, "act C");

    assert_eq!(msgs[0].from, AgentId(0));
    assert_eq!(msgs[1].from, AgentId(1));
    assert_eq!(msgs[2].from, AgentId(2));

    assert_eq!(counts(&sim.agents()[0]), (1, 2));
}

#[test]
fn drop_self_modulator_same_outcome() {
    let mut sim = Simulation::new(
        make_agents(),
        scripted(&["act A", "act B", "act C", "act D"]),
        DropSelfModulator,
    );
    run(&mut sim, Termination::MaxTicks(3));

    assert_eq!(sim.tick(), 3);
    assert_eq!(sim.scenario().messages.len(), 3);
    assert_eq!(counts(&sim.agents()[0]), (1, 2));
}

#[test]
fn reflect_stays_private() {
    let mut sim = Simulation::new(
        make_agents(),
        scripted(&[r#"{"type":"reflect","content":"hmm"}"#]),
        BroadcastModulator,
    );
    step(&mut sim);

    assert!(sim.scenario().messages.is_empty());

    let self_actions: Vec<_> = sim.agents()[0]
        .memory
        .entries
        .iter()
        .filter(|e| matches!(e.source, MemorySource::SelfAction))
        .collect();
    assert_eq!(self_actions.len(), 1);
    assert_eq!(self_actions[0].content, "hmm");

    for agent in &sim.agents()[1..] {
        assert!(agent.memory.entries.is_empty());
    }
}

#[test]
fn advance_plan_marks_step_complete() {
    let agents = vec![Agent::new(
        AgentId(0),
        Profile {
            profession: None,
            interests: vec![],
            bio: None,
            historical_statements: vec![],
        },
        Goal {
            description: "finish project".into(),
            plan: vec![PlanStep {
                description: "do the thing".into(),
                completed: false,
            }],
        },
    )];
    let mut sim = Simulation::new(
        agents,
        scripted(&[r#"{"type":"advance_plan","step":0,"content":"did it"}"#]),
        BroadcastModulator,
    );
    step(&mut sim);

    assert!(sim.agents()[0].goal.plan[0].completed);
}

#[test]
fn advance_plan_out_of_range_changes_no_step() {
    let agents = vec![Agent::new(
        AgentId(0),
        Profile {
            profession: None,
            interests: vec![],
            bio: None,
            historical_statements: vec![],
        },
        Goal {
            description: "finish project".into(),
            plan: vec![PlanStep {
                description: "do the thing".into(),
                completed: false,
            }],
        },
    )];
    let mut sim = Simulation::new(agents, scripted(&[]), BroadcastModulator);
    sim.step(
        "",
        Some(Action::AdvancePlan {
            step: 5,
            content: "skipped ahead".into(),
        }),
    );
    assert!(!sim.agents()[0].goal.plan[0].completed);
    assert_eq!(sim.scenario().messages[0].content, "skipped ahead");
}

#[test]
fn malformed_json_falls_back_to_speak() {
    let mut sim = Simulation::new(
        make_agents(),
        scripted(&["not json at all"]),
        BroadcastModulator,
    );
    step(&mut sim);

    assert_eq!(sim.scenario().messages.len(), 1);
    assert_eq!(sim.scenario().messages[0].content, "not json at all");
}

#[test]
fn unparsed_reply_is_trimmed() {
    let mut sim = Simulation::new(make_agents(), scripted(&[]), BroadcastModulator);
    sim.step("\n  hello there \t", None);
    assert_eq!(sim.scenario().messages[0].content, "hello there");
    assert_eq!(sim.agents()[0].memory.entries[0].content, "hello there");
    assert_eq!(sim.agents()[1].memory.entries[0].content, "hello there");
    assert_eq!(
        sim.agents()[1].memory.entries[0].source,
        MemorySource::Observed { from: AgentId(0) }
    );
}

#[test]
fn quota_termination_stops_early() {
    let mut sim = Simulation::new(
        make_agents(),
        scripted(&["act A", "act B", "act C", "act D"]),
        BroadcastModulator,
    );
    run(&mut sim, Termination::ScenarioMessageQuota(2));

    assert_eq!(sim.scenario().messages.len(), 2);
    assert_eq!(sim.tick(), 2);
}

#[test]
fn actor_request_targets_round_robin_actor() {
    let mut sim = Simulation::new(make_agents(), scripted(&[]), BroadcastModulator);
    assert!(sim.actor_request().system.unwrap().contains("goal 0"));
    sim.step("x", None);
    assert!(sim.actor_request().system.unwrap().contains("goal 1"));
    sim.step("x", None);
    sim.step("x", None);
    assert!(sim.actor_request().system.unwrap().contains("goal 0"));
}

#[test]
fn scenario_stays_an_ordered_transcript() {
    let mut sim = Simulation::new(make_agents(), scripted(&[]), DropSelfModulator);
    let replies: [(&str, Option<Action>); 7] = [
        ("a", None),
        ("", Some(Action::Reflect { content: "quiet".into() })),
        ("", Some(Action::React { to: 0, content: "yes".into() })),
        ("b", None),
        ("", Some(Action::Reflect { content: "again".into() })),
        ("", Some(Action::AdvancePlan { step: 0, content: "none".into() })),
        ("  c  ", None),
    ];
    let mut previous_lengths: Vec<usize> = vec![0; 3];
    for (raw, parsed) in replies {
        sim.step(raw, parsed);
        let msgs = &sim.scenario().messages;
        assert!(msgs.len() as u64 <= sim.tick());
        for w in msgs.windows(2) {
            assert!(w[0].tick < w[1].tick);
        }
        for m in msgs {
            assert!(m.tick < sim.tick());
            assert_eq!(m.from, AgentId(m.tick % 3));
        }
        for (k, agent) in sim.agents().iter().enumerate() {
            assert!(agent.memory.entries.len() >= previous_lengths[k]);
            previous_lengths[k] = agent.memory.entries.len();
        }
    }
    let contents: Vec<&str> = sim
        .scenario()
        .messages
        .iter()
        .map(|m| m.content.as_str())
        .collect();
    assert_eq!(contents, vec!["a", "yes", "b", "none", "c"]);
    // Each agent spoke or reflected in its own turns and observed every
    // message of the others.
    assert_eq!(counts(&sim.agents()[0]), (3, 2));
    assert_eq!(counts(&sim.agents()[1]), (2, 5));
    assert_eq!(counts(&sim.agents()[2]), (2, 3));
}

fn agent_with_plan(id: u64, done: &[bool]) -> Agent {
    Agent::new(
        AgentId(id),
        Profile {
            profession: None,
            interests: vec![],
            bio: None,
            historical_statements: vec![],
        },
        Goal {
            description: "g".into(),
            plan: done
                .iter()
                .map(|&completed| PlanStep {
                    description: "s".into(),
                    completed,
                })
                .collect(),
        },
    )
}

#[test]
fn run_stops_when_goals_are_met() {
    let mut sim = Simulation::new(
        vec![agent_with_plan(0, &[true]), agent_with_plan(1, &[true, true])],
        scripted(&[]),
        BroadcastModulator,
    );
    assert!(sim.is_done(&Termination::MaxTicks(10)));
    assert!(sim.is_done(&Termination::ScenarioMessageQuota(10)));
    run(&mut sim, Termination::MaxTicks(10));
    assert_eq!(sim.tick(), 0);
}

#[test]
fn run_stops_once_the_last_step_is_done() {
    let mut sim = Simulation::new(
        vec![agent_with_plan(0, &[false]), agent_with_plan(1, &[true])],
        scripted(&[
            r#"{"type":"advance_plan","step":0,"content":"finished"}"#,
            "never asked",
        ]),
        BroadcastModulator,
    );
    assert!(!sim.is_done(&Termination::MaxTicks(10)));
    run(&mut sim, Termination::MaxTicks(10));
    assert_eq!(sim.tick(), 1);
    assert_eq!(sim.scenario().messages.len(), 1);
}

#[test]
fn empty_plans_never_count_as_met() {
    let sim = Simulation::new(
        vec![agent_with_plan(0, &[]), agent_with_plan(1, &[true])],
        scripted(&[]),
        BroadcastModulator,
    );
    assert!(!sim.is_done(&Termination::MaxTicks(1)));
    let none: Simulation<ScriptedOracle, BroadcastModulator> =
        Simulation::new(vec![], scripted(&[]), BroadcastModulator);
    assert!(!none.is_done(&Termination::MaxTicks(1)));
    assert!(none.is_done(&Termination::MaxTicks(0)));
}
