//! Instruction-tuning examples synthesized from scenarios.

use vstd::prelude::*;

verus! {

#[derive(Debug, Clone, PartialEq, Eq)]
pub struct InstructionPair {
    pub instruction: String,
    pub response: String,
}

} // verus!
