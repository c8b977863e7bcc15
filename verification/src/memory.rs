//! An agent's memory: what it knew beforehand, did, and observed.

use vstd::prelude::*;

use crate::agent::AgentId;

verus! {

/// Simulation time, counted in steps.
pub type Tick = u64;

#[derive(Debug, Clone, PartialEq, Eq)]
pub struct Memory {
    pub entries: Vec<MemoryEntry>,
}

#[derive(Debug, Clone, PartialEq, Eq)]
pub struct MemoryEntry {
    pub tick: Tick,
    pub content: String,
    pub source: MemorySource,
}

#[derive(Debug, Clone, Copy, PartialEq, Eq, Structural)]
pub enum MemorySource {
    Historical,
    SelfAction,
    Observed { from: AgentId },
}

/// `e` records `content` at `tick`, coming from `source`.
pub open spec fn entry_is(e: MemoryEntry, tick: Tick, content: Seq<char>, source: MemorySource) -> bool {
    &&& e.tick == tick
    &&& e.content@ == content
    &&& e.source == source
}

impl Memory {
    pub fn new() -> (m: Self)
        ensures
            m.entries@.len() == 0,
    {
        Memory { entries: Vec::new() }
    }

    /// A memory holding the given statements, in order, as historical entries
    /// at tick 0.
    pub fn with_history(historical: &[String]) -> (m: Self)
        ensures
            m.entries@.len() == historical@.len(),
            forall|i: int|
                0 <= i < historical@.len() ==> entry_is(
                    #[trigger] m.entries@[i],
                    0,
                    historical@[i]@,
                    MemorySource::Historical,
                ),
    {
        let mut entries: Vec<MemoryEntry> = Vec::new();
        let mut i: usize = 0;
        while i < historical.len()
            invariant
                i <= historical@.len(),
                entries@.len() == i,
                forall|k: int|
                    0 <= k < i ==> entry_is(
                        #[trigger] entries@[k],
                        0,
                        historical@[k]@,
                        MemorySource::Historical,
                    ),
            decreases historical@.len() - i,
        {
            entries.push(
                MemoryEntry { tick: 0, content: historical[i].clone(), source: MemorySource::Historical },
            );
            i += 1;
        }
        Memory { entries }
    }

    pub fn push(&mut self, entry: MemoryEntry)
        ensures
            final(self).entries@ == old(self).entries@.push(entry),
    {
        self.entries.push(entry);
    }
}

impl Default for Memory {
    fn default() -> (m: Self)
        ensures
            m.entries@.len() == 0,
    {
        Memory::new()
    }
}

} // verus!
