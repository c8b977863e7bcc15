//! What an agent does on its turn.

use vstd::prelude::*;

verus! {

/// One agent turn, as decided from the oracle's reply.
#[derive(Debug, Clone, PartialEq, Eq)]
pub enum Action {
    /// Public statement broadcast to other agents.
    Speak { content: String },
    /// Direct reaction to a specific observation, broadcast as a statement.
    React { to: u64, content: String },
    /// Mark a plan step complete; content is a short narration of doing it.
    AdvancePlan { step: usize, content: String },
    /// Silent internal note. Stored in own memory, not broadcast.
    Reflect { content: String },
}

impl Action {
    /// The text carried by the action, whatever its kind.
    pub open spec fn spec_content(&self) -> Seq<char> {
        match self {
            Action::Speak { content } => content@,
            Action::React { content, .. } => content@,
            Action::AdvancePlan { content, .. } => content@,
            Action::Reflect { content } => content@,
        }
    }

    /// Every action but a reflection is shown to other agents.
    pub open spec fn spec_is_broadcast(&self) -> bool {
        !(self is Reflect)
    }

    pub fn content(&self) -> (r: &str)
        ensures
            r@ == self.spec_content(),
    {
        match self {
            Action::Speak { content } => content.as_str(),
            Action::React { content, .. } => content.as_str(),
            Action::AdvancePlan { content, .. } => content.as_str(),
            Action::Reflect { content } => content.as_str(),
        }
    }

    pub fn is_broadcast(&self) -> (r: bool)
        ensures
            r == self.spec_is_broadcast(),
    {
        match self {
            Action::Reflect { .. } => false,
            _ => true,
        }
    }
}

} // verus!
