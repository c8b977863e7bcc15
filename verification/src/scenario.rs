//! A scenario: the transcript of broadcast messages of one simulation.

use vstd::prelude::*;

use crate::message::Message;

verus! {

#[derive(Debug, Clone)]
pub struct Scenario {
    pub messages: Vec<Message>,
}

impl Scenario {
    pub fn new() -> (s: Self)
        ensures
            s.messages@.len() == 0,
    {
        Scenario { messages: Vec::new() }
    }

    pub fn record(&mut self, msg: Message)
        ensures
            final(self).messages@ == old(self).messages@.push(msg),
    {
        self.messages.push(msg);
    }
}

impl Default for Scenario {
    fn default() -> (s: Self)
        ensures
            s.messages@.len() == 0,
    {
        Scenario::new()
    }
}

} // verus!
