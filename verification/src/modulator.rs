//! Modulators decide which agents hear a broadcast message.

use vstd::prelude::*;

use crate::agent::{AgentId, ClusterId};
use crate::message::{Message, MessageView};

verus! {

/// The ids of candidate recipients given with their clusters.
pub open spec fn candidate_ids(candidates: Seq<(AgentId, Option<ClusterId>)>) -> Seq<AgentId> {
    candidates.map_values(|c: (AgentId, Option<ClusterId>)| c.0)
}

/// Routes a message to a subset of candidate recipients. The sender's
/// cluster and each candidate's cluster are given, so that a modulator can
/// gate communication between groups.
pub trait Modulator {
    /// The recipients chosen for `msg`, sent from `sender_cluster`, among
    /// `candidates` (each an id with its cluster).
    spec fn spec_route(
        &self,
        msg: MessageView,
        sender_cluster: Option<ClusterId>,
        candidates: Seq<(AgentId, Option<ClusterId>)>,
    ) -> Seq<AgentId>;

    fn route(
        &self,
        msg: &Message,
        sender_cluster: Option<ClusterId>,
        candidates: &[(AgentId, Option<ClusterId>)],
    ) -> (r: Vec<AgentId>)
        ensures
            r@ == self.spec_route(msg@, sender_cluster, candidates@),
    ;
}

/// Delivers every message to every candidate.
pub struct BroadcastModulator;

impl Modulator for BroadcastModulator {
    open spec fn spec_route(
        &self,
        msg: MessageView,
        sender_cluster: Option<ClusterId>,
        candidates: Seq<(AgentId, Option<ClusterId>)>,
    ) -> Seq<AgentId> {
        candidate_ids(candidates)
    }

    fn route(
        &self,
        msg: &Message,
        sender_cluster: Option<ClusterId>,
        candidates: &[(AgentId, Option<ClusterId>)],
    ) -> (r: Vec<AgentId>) {
        let mut out: Vec<AgentId> = Vec::new();
        let mut i: usize = 0;
        while i < candidates.len()
            invariant
                i <= candidates@.len(),
                out@ == candidate_ids(candidates@.take(i as int)),
            decreases candidates@.len() - i,
        {
            out.push(candidates[i].0);
            assert(out@ =~= candidate_ids(candidates@.take(i + 1)));
            i += 1;
        }
        assert(candidates@.take(candidates@.len() as int) =~= candidates@);
        out
    }
}

/// The candidates other than the sender.
pub open spec fn others(candidates: Seq<AgentId>, sender: AgentId) -> Seq<AgentId> {
    candidates.filter(|id: AgentId| id != sender)
}

/// Delivers every message to every candidate except its sender.
pub struct DropSelfModulator;

impl Modulator for DropSelfModulator {
    open spec fn spec_route(
        &self,
        msg: MessageView,
        sender_cluster: Option<ClusterId>,
        candidates: Seq<(AgentId, Option<ClusterId>)>,
    ) -> Seq<AgentId> {
        others(candidate_ids(candidates), msg.from)
    }

    fn route(
        &self,
        msg: &Message,
        sender_cluster: Option<ClusterId>,
        candidates: &[(AgentId, Option<ClusterId>)],
    ) -> (r: Vec<AgentId>) {
        let ghost ids = candidate_ids(candidates@);
        let mut out: Vec<AgentId> = Vec::new();
        let mut i: usize = 0;
        while i < candidates.len()
            invariant
                i <= candidates@.len(),
                ids == candidate_ids(candidates@),
                out@ == others(ids.take(i as int), msg.from),
            decreases candidates@.len() - i,
        {
            proof {
                reveal_with_fuel(Seq::<AgentId>::filter, 1);
                assert(ids.take(i + 1).drop_last() =~= ids.take(i as int));
                assert(ids.take(i + 1).last() == candidates@[i as int].0);
            }
            let id = candidates[i].0;
            if id != msg.from {
                out.push(id);
            }
            i += 1;
        }
        assert(ids.take(candidates@.len() as int) =~= ids);
        out
    }
}

} // verus!
