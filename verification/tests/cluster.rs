use matrix_gen::cluster::{apply_assignments, cluster_count, initial_centroids, profile_text};
use matrix_gen::{Agent, AgentId, ClusterId, Goal, PlanStep, Profile};

fn make_agent(id: u64, profession: &str, interests: &[&str]) -> Agent {
    let profile = Profile {
        profession: Some(profession.into()),
        interests: interests.iter().map(|s| s.to_string()).collect(),
        bio: None,
        historical_statements: vec![],
    };
    let goal = Goal {
        description: "do things".into(),
        plan: vec![PlanStep {
            description: "step".into(),
            completed: false,
        }],
    };
    Agent::new(AgentId(id), profile, goal)
}

#[test]
fn empty_slice_is_ok() {
    assert_eq!(cluster_count(0, 2), None);
}

#[test]
fn k_zero_assigns_nothing() {
    assert_eq!(cluster_count(1, 0), None);
    let mut agents = vec![make_agent(0, "baker", &["bread"])];
    apply_assignments(&mut agents, &vec![]);
    assert!(agents[0].cluster.is_none());
}

#[test]
fn k_larger_than_agents_clamps_gracefully() {
    assert_eq!(cluster_count(2, 10), Some(2));
    assert_eq!(cluster_count(5, 3), Some(3));
    let mut agents = vec![
        make_agent(0, "painter", &["oils"]),
        make_agent(1, "sculptor", &["clay"]),
    ];
    apply_assignments(&mut agents, &vec![1, 0]);
    assert_eq!(agents[0].cluster, Some(ClusterId(1)));
    assert_eq!(agents[1].cluster, Some(ClusterId(0)));
}

#[test]
fn initial_centroids_are_distinct_positions() {
    for seed in 0..20u64 {
        let c = initial_centroids(7, 3, seed);
        assert_eq!(c.len(), 3);
        for (i, &x) in c.iter().enumerate() {
            assert!(x < 7);
            assert!(!c[..i].contains(&x));
        }
    }
    assert_eq!(initial_centroids(4, 3, 42), initial_centroids(4, 3, 42));
    let mut all = initial_centroids(5, 5, 1);
    all.sort();
    assert_eq!(all, vec![0, 1, 2, 3, 4]);
}

#[test]
fn profile_text_concatenates_profile() {
    let mut a = make_agent(0, "librarian", &["bookbinding", "ferns"]);
    a.profile.bio = Some("quiet".into());
    a.profile.historical_statements = vec!["shelved".into()];
    assert_eq!(profile_text(&a), "librarian bookbinding ferns quiet shelved");
    let b = Agent::new(
        AgentId(1),
        Profile {
            profession: None,
            interests: vec![],
            bio: None,
            historical_statements: vec![],
        },
        Goal {
            description: "g".into(),
            plan: vec![],
        },
    );
    assert_eq!(profile_text(&b), "");
}
