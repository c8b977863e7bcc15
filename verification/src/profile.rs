//! The real-world-grounded profile an agent is anchored to, and its goal.

use vstd::prelude::*;

verus! {

/// Anonymized real-world-grounded profile: the attributes the simulator
/// uses, whatever source they were drawn from.
#[derive(Debug, Clone, PartialEq, Eq)]
pub struct Profile {
    pub profession: Option<String>,
    pub interests: Vec<String>,
    pub bio: Option<String>,
    /// Past statements grounding the agent's voice and prior behavior.
    pub historical_statements: Vec<String>,
}

/// A life goal plus a step-by-step plan to achieve it.
#[derive(Debug, Clone, PartialEq, Eq)]
pub struct Goal {
    pub description: String,
    pub plan: Vec<PlanStep>,
}

#[derive(Debug, Clone, PartialEq, Eq)]
pub struct PlanStep {
    pub description: String,
    pub completed: bool,
}

} // verus!
