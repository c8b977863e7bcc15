//! Messages exchanged between agents.

use vstd::prelude::*;

use crate::agent::AgentId;
use crate::memory::Tick;

verus! {

#[derive(Debug, Clone, PartialEq, Eq)]
pub struct Message {
    pub from: AgentId,
    pub tick: Tick,
    pub content: String,
}

/// What a message says: its sender, tick and text.
pub struct MessageView {
    pub from: AgentId,
    pub tick: Tick,
    pub content: Seq<char>,
}

impl View for Message {
    type V = MessageView;

    open spec fn view(&self) -> MessageView {
        MessageView { from: self.from, tick: self.tick, content: self.content@ }
    }
}

} // verus!
