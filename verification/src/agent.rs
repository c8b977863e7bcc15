//! Agents: a profile, a goal, a memory and an optional cluster.

use vstd::prelude::*;

use crate::memory::{entry_is, Memory, MemorySource};
use crate::profile::{Goal, Profile};

verus! {

#[derive(Debug, Clone, Copy, PartialEq, Eq, Hash, Structural)]
pub struct AgentId(pub u64);

#[derive(Debug, Clone, Copy, PartialEq, Eq, Hash, Structural)]
pub struct ClusterId(pub u32);

#[derive(Debug, Clone, PartialEq, Eq)]
pub struct Agent {
    pub id: AgentId,
    pub profile: Profile,
    pub goal: Goal,
    pub memory: Memory,
    pub cluster: Option<ClusterId>,
}

impl Agent {
    /// A fresh agent: its memory starts with its historical statements, and it
    /// belongs to no cluster yet.
    pub fn new(id: AgentId, profile: Profile, goal: Goal) -> (a: Self)
        ensures
            a.id == id,
            a.profile == profile,
            a.goal == goal,
            a.cluster is None,
            a.memory.entries@.len() == profile.historical_statements@.len(),
            forall|i: int|
                0 <= i < profile.historical_statements@.len() ==> entry_is(
                    #[trigger] a.memory.entries@[i],
                    0,
                    profile.historical_statements@[i]@,
                    MemorySource::Historical,
                ),
    {
        let memory = Memory::with_history(profile.historical_statements.as_slice());
        Agent { id, profile, goal, memory, cluster: None }
    }
}

} // verus!
