use matrix_gen::{AgentId, BroadcastModulator, ClusterId, DropSelfModulator, Message, Modulator, Tick};

fn make_msg(from: u64, tick: Tick) -> Message {
    Message {
        from: AgentId(from),
        tick,
        content: "test".into(),
    }
}

fn unclustered(ids: &[u64]) -> Vec<(AgentId, Option<ClusterId>)> {
    ids.iter().map(|&i| (AgentId(i), None)).collect()
}

#[test]
fn broadcast_delivers_to_all_candidates() {
    let m = BroadcastModulator;
    let candidates = unclustered(&[1, 2, 3]);
    let msg = make_msg(0, 0);
    let result = m.route(&msg, None, &candidates);
    assert_eq!(result, vec![AgentId(1), AgentId(2), AgentId(3)]);
}

#[test]
fn drop_self_excludes_sender() {
    let m = DropSelfModulator;
    let candidates = unclustered(&[0, 1, 2]);
    let msg = make_msg(0, 0);
    let result = m.route(&msg, None, &candidates);
    assert_eq!(result, vec![AgentId(1), AgentId(2)]);
}

#[test]
fn drop_self_passes_through_when_sender_absent() {
    let m = DropSelfModulator;
    let candidates = unclustered(&[1, 2]);
    let msg = make_msg(0, 0);
    let result = m.route(&msg, None, &candidates);
    assert_eq!(result, vec![AgentId(1), AgentId(2)]);
}

#[test]
fn builtin_modulators_ignore_clusters() {
    let candidates = vec![
        (AgentId(1), Some(ClusterId(0))),
        (AgentId(2), Some(ClusterId(1))),
        (AgentId(0), None),
    ];
    let msg = make_msg(0, 3);
    assert_eq!(
        BroadcastModulator.route(&msg, Some(ClusterId(1)), &candidates),
        vec![AgentId(1), AgentId(2), AgentId(0)]
    );
    assert_eq!(
        DropSelfModulator.route(&msg, Some(ClusterId(1)), &candidates),
        vec![AgentId(1), AgentId(2)]
    );
}
