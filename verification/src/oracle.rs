//! The language-model oracle: a prompt goes in, generated text comes out.

use std::collections::VecDeque;

use vstd::prelude::*;

use crate::text::views;

verus! {

/// A single prompt to the oracle.
#[derive(Debug, Clone)]
pub struct OracleRequest {
    pub system: Option<String>,
    pub user: String,
}

#[derive(Debug)]
pub enum OracleError {
    /// A scripted oracle ran out of responses.
    Exhausted,
    /// The backend failed; the text says how.
    Backend(String),
}

/// A language-model call: takes a request, returns generated text.
///
/// Network-backed oracles await their reply; the simulation hands that reply
/// back to the library (see `Simulation::step`), so this trait is the
/// synchronous face of the oracles that need no I/O.
pub trait Oracle {
    fn complete(&mut self, request: &OracleRequest) -> Result<String, OracleError>;
}

/// Returns the user prompt verbatim. For sanity tests.
pub struct EchoOracle;

impl Oracle for EchoOracle {
    fn complete(&mut self, request: &OracleRequest) -> (r: Result<String, OracleError>)
        ensures
            r matches Ok(s) && s@ == request.user@,
    {
        Ok(request.user.clone())
    }
}

/// Returns canned responses in order; exhausted when the queue drains.
pub struct ScriptedOracle {
    responses: VecDeque<String>,
}

impl View for ScriptedOracle {
    /// The responses still to be handed out, first one first.
    type V = Seq<Seq<char>>;

    closed spec fn view(&self) -> Seq<Seq<char>> {
        views(self.responses@)
    }
}

impl ScriptedOracle {
    pub fn new(responses: Vec<String>) -> (o: Self)
        ensures
            o@ == views(responses@),
    {
        let mut queue: VecDeque<String> = VecDeque::new();
        let mut rest = responses;
        let ghost all = rest@;
        // Move the responses over back to front, so that the queue keeps
        // their order.
        while rest.len() > 0
            invariant
                rest@ == all.subrange(0, rest@.len() as int),
                queue@ == all.subrange(rest@.len() as int, all.len() as int),
                rest@.len() <= all.len(),
            decreases rest@.len(),
        {
            let s = rest.pop().unwrap();
            queue.push_front(s);
            assert(queue@ =~= all.subrange(rest@.len() as int, all.len() as int));
        }
        assert(queue@ =~= all);
        ScriptedOracle { responses: queue }
    }
}

impl Oracle for ScriptedOracle {
    fn complete(&mut self, request: &OracleRequest) -> (r: Result<String, OracleError>)
        ensures
            old(self)@.len() > 0 ==> (r matches Ok(s) && s@ == old(self)@[0] && final(self)@
                == old(self)@.drop_first()),
            old(self)@.len() == 0 ==> (r matches Err(OracleError::Exhausted) && final(self)@
                == old(self)@),
    {
        match self.responses.pop_front() {
            Some(s) => Ok(s),
            None => Err(OracleError::Exhausted),
        }
    }
}

} // verus!
