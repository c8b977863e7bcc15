//! The simulation loop: agents take turns in round-robin order; each turn the
//! oracle's reply becomes an action, which the actor remembers and, unless it
//! is a reflection, is recorded in the scenario and routed to other agents.
//!
//! Asking the oracle is I/O and stays with the caller: `actor_request` gives
//! the prompt of the next turn, and `step` takes the reply and carries out
//! everything else.

use vstd::prelude::*;

use crate::action::Action;
use crate::agent::{Agent, AgentId, ClusterId};
use crate::memory::{entry_is, MemoryEntry, MemorySource, Tick};
use crate::message::{Message, MessageView};
use crate::modulator::{candidate_ids, others, BroadcastModulator, DropSelfModulator, Modulator};
use crate::oracle::OracleRequest;
use crate::profile::PlanStep;
use crate::prompt::{build_actor_request, system_prompt, user_prompt};
use crate::scenario::Scenario;
use crate::text::{trim, trimmed};

verus! {

/// When a run stops, besides stopping once every agent has met its goal.
pub enum Termination {
    /// Once the tick reaches this value.
    MaxTicks(Tick),
    /// Once the scenario holds this many messages.
    ScenarioMessageQuota(usize),
}

pub struct Simulation<O, M> {
    agents: Vec<Agent>,
    oracle: O,
    modulator: M,
    tick: Tick,
    scenario: Scenario,
}

/// The state of a simulation, as its contracts speak of it.
pub struct SimState<M> {
    pub agents: Seq<Agent>,
    pub tick: Tick,
    pub messages: Seq<Message>,
    pub modulator: M,
}

impl<O, M> View for Simulation<O, M> {
    type V = SimState<M>;

    closed spec fn view(&self) -> SimState<M> {
        SimState {
            agents: self.agents@,
            tick: self.tick,
            messages: self.scenario.messages@,
            modulator: self.modulator,
        }
    }
}

/// The agents' ids, in order.
pub open spec fn ids_of(agents: Seq<Agent>) -> Seq<AgentId> {
    agents.map_values(|a: Agent| a.id)
}

/// `j` is the first position of `id` in `ids`.
pub open spec fn is_first_index(ids: Seq<AgentId>, id: AgentId, j: int) -> bool {
    &&& 0 <= j < ids.len()
    &&& ids[j] == id
    &&& forall|k: int| 0 <= k < j ==> #[trigger] ids[k] != id
}

/// The first position of `id` in `ids`, or -1 when it does not occur.
pub open spec fn first_index(ids: Seq<AgentId>, id: AgentId) -> int {
    if exists|j: int| is_first_index(ids, id, j) {
        choose|j: int| is_first_index(ids, id, j)
    } else {
        -1
    }
}

proof fn lemma_first_index(ids: Seq<AgentId>, id: AgentId, j: int)
    requires
        is_first_index(ids, id, j),
    ensures
        first_index(ids, id) == j,
{
    let c = choose|c: int| is_first_index(ids, id, c);
    if c < j {
        assert(ids[c] != id);
    }
    if j < c {
        assert(ids[j] != id);
    }
}

/// How many of `recipients` are delivered to the agent at position `k`: a
/// recipient id reaches the first agent that carries it.
pub open spec fn deliveries(ids: Seq<AgentId>, recipients: Seq<AgentId>, k: int) -> nat
    decreases recipients.len(),
{
    if recipients.len() == 0 {
        0
    } else {
        deliveries(ids, recipients.drop_last(), k) + if first_index(ids, recipients.last()) == k {
            1nat
        } else {
            0nat
        }
    }
}

/// The position of the agent whose turn it is.
pub open spec fn actor_index<M>(s: SimState<M>) -> int {
    (s.tick as int) % (s.agents.len() as int)
}

/// The text of the action decided from a reply: that of the parsed action,
/// or the trimmed reply itself when it did not parse.
pub open spec fn reply_content(raw: Seq<char>, parsed: Option<Action>) -> Seq<char> {
    match parsed {
        Some(a) => a.spec_content(),
        None => trimmed(raw),
    }
}

/// Whether the action decided from a reply is shown to others; a reply that
/// did not parse is spoken aloud.
pub open spec fn reply_broadcast(parsed: Option<Action>) -> bool {
    match parsed {
        Some(a) => a.spec_is_broadcast(),
        None => true,
    }
}

/// The plan after the action decided from a reply: an `AdvancePlan` with a
/// step inside the plan marks that step completed; anything else leaves the
/// plan alone.
pub open spec fn advanced_plan(plan: Seq<PlanStep>, parsed: Option<Action>) -> Seq<PlanStep> {
    match parsed {
        Some(Action::AdvancePlan { step, .. }) => if step < plan.len() {
            plan.update(step as int, PlanStep { description: plan[step as int].description, completed: true })
        } else {
            plan
        },
        _ => plan,
    }
}

/// Each agent's id with its cluster, in order.
pub open spec fn pairs_of(agents: Seq<Agent>) -> Seq<(AgentId, Option<ClusterId>)> {
    agents.map_values(|a: Agent| (a.id, a.cluster))
}

/// The candidates a broadcast of `actor` is offered to: every agent with
/// another id, as its id and cluster, in order.
pub open spec fn candidates_for(agents: Seq<Agent>, actor: AgentId) -> Seq<(AgentId, Option<ClusterId>)> {
    pairs_of(agents).filter(|c: (AgentId, Option<ClusterId>)| c.0 != actor)
}

/// The recipients the modulator picks for the action decided from a reply
/// (none when it is not broadcast).
pub open spec fn recipients_of<M: Modulator>(s: SimState<M>, raw: Seq<char>, parsed: Option<Action>) -> Seq<AgentId> {
    let actor = s.agents[actor_index(s)];
    if reply_broadcast(parsed) {
        s.modulator.spec_route(
            MessageView { from: actor.id, tick: s.tick, content: reply_content(raw, parsed) },
            actor.cluster,
            candidates_for(s.agents, actor.id),
        )
    } else {
        Seq::empty()
    }
}

/// `new` is the memory `old` after a turn at `tick` with text `content` by
/// `from`: the actor (when `acted`) first remembers its own action, then each
/// of the `observed` deliveries adds an observation.
pub open spec fn memory_after(
    old: Seq<MemoryEntry>,
    new: Seq<MemoryEntry>,
    acted: bool,
    observed: nat,
    tick: Tick,
    content: Seq<char>,
    from: AgentId,
) -> bool {
    let mid = old.len() + if acted {
        1int
    } else {
        0int
    };
    &&& new.len() == mid + observed
    &&& new.subrange(0, old.len() as int) == old
    &&& acted ==> entry_is(new[old.len() as int], tick, content, MemorySource::SelfAction)
    &&& forall|p: int|
        mid <= p < new.len() ==> entry_is(
            #[trigger] new[p],
            tick,
            content,
            MemorySource::Observed { from },
        )
}

/// `new` is `old` with one more message, from `from` at `tick` saying
/// `content`.
pub open spec fn recorded(
    old: Seq<Message>,
    new: Seq<Message>,
    from: AgentId,
    tick: Tick,
    content: Seq<char>,
) -> bool {
    &&& new.len() == old.len() + 1
    &&& new.subrange(0, old.len() as int) == old
    &&& new.last()@ == (MessageView { from, tick, content })
}

/// `new` is `old` after one turn whose oracle reply was `raw`, parsed (or
/// not) into `parsed`.
pub open spec fn stepped<M: Modulator>(
    old: SimState<M>,
    new: SimState<M>,
    raw: Seq<char>,
    parsed: Option<Action>,
) -> bool {
    let i = actor_index(old);
    let actor = old.agents[i];
    let content = reply_content(raw, parsed);
    let recipients = recipients_of(old, raw, parsed);
    &&& new.tick == old.tick + 1
    &&& new.modulator == old.modulator
    &&& new.agents.len() == old.agents.len()
    &&& forall|k: int|
        #![trigger new.agents[k]]
        0 <= k < old.agents.len() ==> {
            let a = old.agents[k];
            let b = new.agents[k];
            &&& b.id == a.id
            &&& b.profile == a.profile
            &&& b.cluster == a.cluster
            &&& b.goal.description == a.goal.description
            &&& b.goal.plan@ == if k == i {
                advanced_plan(a.goal.plan@, parsed)
            } else {
                a.goal.plan@
            }
            &&& memory_after(
                a.memory.entries@,
                b.memory.entries@,
                k == i,
                deliveries(ids_of(old.agents), recipients, k),
                old.tick,
                content,
                actor.id,
            )
        }
    &&& if reply_broadcast(parsed) {
        recorded(old.messages, new.messages, actor.id, old.tick, content)
    } else {
        new.messages == old.messages
    }
}

/// The action decided from the oracle's reply `raw`: the action it parsed
/// into, or, when it did not parse, speaking the trimmed reply aloud.
pub fn decide_action(raw: &str, parsed: Option<Action>) -> (a: Action)
    ensures
        parsed matches Some(p) ==> a == p,
        parsed is None ==> (a matches Action::Speak { content } && content@ == trimmed(raw@)),
        a.spec_content() == reply_content(raw@, parsed),
        a.spec_is_broadcast() == reply_broadcast(parsed),
{
    match parsed {
        Some(a) => a,
        None => Action::Speak { content: String::from_str(trim(raw)) },
    }
}

fn candidates(agents: &Vec<Agent>, actor: AgentId) -> (r: Vec<(AgentId, Option<ClusterId>)>)
    ensures
        r@ == candidates_for(agents@, actor),
{
    let mut out: Vec<(AgentId, Option<ClusterId>)> = Vec::new();
    let mut i: usize = 0;
    proof {
        reveal_with_fuel(Seq::<(AgentId, Option<ClusterId>)>::filter, 1);
        assert(agents@.take(0) =~= Seq::<Agent>::empty());
        assert(candidates_for(agents@.take(0), actor) =~= Seq::empty());
    }
    while i < agents.len()
        invariant
            i <= agents@.len(),
            out@ == candidates_for(agents@.take(i as int), actor),
        decreases agents@.len() - i,
    {
        proof {
            reveal_with_fuel(Seq::<(AgentId, Option<ClusterId>)>::filter, 1);
            assert(agents@.take(i + 1).drop_last() =~= agents@.take(i as int));
            assert(pairs_of(agents@.take(i + 1)).drop_last() =~= pairs_of(agents@.take(i as int)));
            assert(pairs_of(agents@.take(i + 1)).last() == (agents@[i as int].id, agents@[i as int].cluster));
        }
        if agents[i].id != actor {
            out.push((agents[i].id, agents[i].cluster));
        }
        i += 1;
    }
    assert(agents@.take(agents@.len() as int) =~= agents@);
    out
}

/// The position of the first agent carrying `id`, if any.
fn find_agent(agents: &Vec<Agent>, id: AgentId) -> (r: Option<usize>)
    ensures
        r matches Some(j) ==> j == first_index(ids_of(agents@), id),
        r is None ==> first_index(ids_of(agents@), id) == -1,
{
    let ghost ids = ids_of(agents@);
    let mut j: usize = 0;
    while j < agents.len()
        invariant
            j <= agents@.len(),
            ids == ids_of(agents@),
            forall|k: int| 0 <= k < j ==> #[trigger] ids[k] != id,
        decreases agents@.len() - j,
    {
        if agents[j].id == id {
            proof {
                lemma_first_index(ids, id, j as int);
            }
            return Some(j);
        }
        j += 1;
    }
    proof {
        if exists|c: int| is_first_index(ids, id, c) {
            let c = choose|c: int| is_first_index(ids, id, c);
            assert(ids[c] != id);
        }
    }
    None
}


/// Everything of `b` but its memory is that of `a`.
pub open spec fn same_but_memory(a: Agent, b: Agent) -> bool {
    &&& b.id == a.id
    &&& b.profile == a.profile
    &&& b.cluster == a.cluster
    &&& b.goal == a.goal
}

/// Delivers an observation of `content`, said by `from` at `tick`, to the
/// first agent carrying each recipient id.
fn deliver(agents: &mut Vec<Agent>, recipients: &Vec<AgentId>, tick: Tick, content: &str, from: AgentId)
    ensures
        final(agents)@.len() == old(agents)@.len(),
        forall|k: int|
            #![trigger final(agents)@[k]]
            0 <= k < old(agents)@.len() ==> {
                &&& same_but_memory(old(agents)@[k], final(agents)@[k])
                &&& memory_after(
                    old(agents)@[k].memory.entries@,
                    final(agents)@[k].memory.entries@,
                    false,
                    deliveries(ids_of(old(agents)@), recipients@, k),
                    tick,
                    content@,
                    from,
                )
            },
{
    let ghost start = agents@;
    let ghost ids = ids_of(agents@);
    let mut q: usize = 0;
    proof {
        assert(recipients@.take(0).len() == 0);
        assert forall|k: int| 0 <= k < start.len() implies #[trigger] start[k].memory.entries@.subrange(
            0,
            start[k].memory.entries@.len() as int,
        ) == start[k].memory.entries@ by {
            assert(start[k].memory.entries@.subrange(0, start[k].memory.entries@.len() as int)
                =~= start[k].memory.entries@);
        }
    }
    while q < recipients.len()
        invariant
            q <= recipients@.len(),
            agents@.len() == start.len(),
            ids == ids_of(start),
            ids_of(agents@) == ids,
            forall|k: int|
                #![trigger agents@[k]]
                0 <= k < start.len() ==> {
                    &&& same_but_memory(start[k], agents@[k])
                    &&& memory_after(
                        start[k].memory.entries@,
                        agents@[k].memory.entries@,
                        false,
                        deliveries(ids, recipients@.take(q as int), k),
                        tick,
                        content@,
                        from,
                    )
                },
        decreases recipients@.len() - q,
    {
        proof {
            assert(recipients@.take(q + 1).drop_last() =~= recipients@.take(q as int));
            assert(recipients@.take(q + 1).last() == recipients@[q as int]);
        }
        let r = recipients[q];
        match find_agent(agents, r) {
            Some(j) => {
                let ghost before = agents@;
                agents[j].memory.push(
                    MemoryEntry {
                        tick,
                        content: String::from_str(content),
                        source: MemorySource::Observed { from },
                    },
                );
                proof {
                    assert(ids_of(agents@) =~= ids);
                    let old_e = start[j as int].memory.entries@;
                    let new_e = agents@[j as int].memory.entries@;
                    assert(new_e.subrange(0, old_e.len() as int) =~= before[j as int].memory.entries@.subrange(0, old_e.len() as int));
                }
            },
            None => {},
        }
        q += 1;
    }
    assert(recipients@.take(recipients@.len() as int) =~= recipients@);
}


/// Whether a run stops in state `s`.
/// `plan` has steps and all of them are completed.
pub open spec fn plan_complete(plan: Seq<PlanStep>) -> bool {
    &&& plan.len() > 0
    &&& forall|q: int| 0 <= q < plan.len() ==> #[trigger] plan[q].completed
}

/// Every agent (of at least one) has met its goal: its plan has steps and all
/// of them are completed.
pub open spec fn goals_met(agents: Seq<Agent>) -> bool {
    &&& agents.len() > 0
    &&& forall|k: int| 0 <= k < agents.len() ==> plan_complete(#[trigger] agents[k].goal.plan@)
}

/// Whether a run stops in state `s`: when every agent has met its goal, or
/// when the termination's own bound is reached.
pub open spec fn done<M>(s: SimState<M>, termination: Termination) -> bool {
    goals_met(s.agents) || match termination {
        Termination::MaxTicks(n) => s.tick >= n,
        Termination::ScenarioMessageQuota(n) => s.messages.len() >= n,
    }
}

fn plan_is_complete(plan: &Vec<PlanStep>) -> (r: bool)
    ensures
        r == plan_complete(plan@),
{
    if plan.len() == 0 {
        return false;
    }
    let mut q: usize = 0;
    while q < plan.len()
        invariant
            q <= plan@.len(),
            forall|j: int| 0 <= j < q ==> #[trigger] plan@[j].completed,
        decreases plan@.len() - q,
    {
        if !plan[q].completed {
            return false;
        }
        q += 1;
    }
    true
}

/// Whether every agent has met its goal.
pub fn all_goals_met(agents: &Vec<Agent>) -> (r: bool)
    ensures
        r == goals_met(agents@),
{
    if agents.len() == 0 {
        return false;
    }
    let mut k: usize = 0;
    while k < agents.len()
        invariant
            k <= agents@.len(),
            forall|j: int| 0 <= j < k ==> plan_complete(#[trigger] agents@[j].goal.plan@),
        decreases agents@.len() - k,
    {
        if !plan_is_complete(&agents[k].goal.plan) {
            return false;
        }
        k += 1;
    }
    true
}

proof fn lemma_memory_compose(
    old: Seq<MemoryEntry>,
    mid: Seq<MemoryEntry>,
    new: Seq<MemoryEntry>,
    acted: bool,
    observed: nat,
    tick: Tick,
    content: Seq<char>,
    from: AgentId,
)
    requires
        acted ==> (mid.len() == old.len() + 1 && mid.subrange(0, old.len() as int) == old
            && entry_is(mid[old.len() as int], tick, content, MemorySource::SelfAction)),
        !acted ==> mid == old,
        memory_after(mid, new, false, observed, tick, content, from),
    ensures
        memory_after(old, new, acted, observed, tick, content, from),
{
    if acted {
        assert(new[old.len() as int] == new.subrange(0, mid.len() as int)[old.len() as int]);
        assert(new.subrange(0, old.len() as int) =~= new.subrange(0, mid.len() as int).subrange(
            0,
            old.len() as int,
        ));
    }
}

impl<O, M: Modulator> Simulation<O, M> {
    /// The oracle the simulation was made with.
    pub closed spec fn spec_oracle(&self) -> O {
        self.oracle
    }

    /// A simulation at tick 0 with an empty scenario.
    pub fn new(agents: Vec<Agent>, oracle: O, modulator: M) -> (s: Self)
        ensures
            s@.agents == agents@,
            s@.tick == 0,
            s@.messages.len() == 0,
            s@.modulator == modulator,
            s.spec_oracle() == oracle,
    {
        Simulation { agents, oracle, modulator, tick: 0, scenario: Scenario::new() }
    }

    pub fn tick(&self) -> (t: Tick)
        ensures
            t == self@.tick,
    {
        self.tick
    }

    pub fn scenario(&self) -> (s: &Scenario)
        ensures
            s.messages@ == self@.messages,
    {
        &self.scenario
    }

    pub fn agents(&self) -> (a: &Vec<Agent>)
        ensures
            a@ == self@.agents,
    {
        &self.agents
    }

    pub fn oracle(&self) -> (o: &O)
        ensures
            *o == self.spec_oracle(),
    {
        &self.oracle
    }

    /// The oracle, to be asked for the next reply.
    pub fn oracle_mut(&mut self) -> (o: &mut O)
        ensures
            *o == old(self).spec_oracle(),
            final(self)@ == old(self)@,
            final(self).spec_oracle() == *final(o),
    {
        &mut self.oracle
    }

    /// Whether a run with the given termination stops here: every agent has
    /// met its goal, or the termination's bound is reached.
    pub fn is_done(&self, termination: &Termination) -> (r: bool)
        ensures
            r == done(self@, *termination),
    {
        if all_goals_met(&self.agents) {
            return true;
        }
        match termination {
            Termination::MaxTicks(n) => self.tick >= *n,
            Termination::ScenarioMessageQuota(n) => self.scenario.messages.len() >= *n,
        }
    }

    /// The request asking the oracle for the action of the agent whose turn
    /// it is.
    pub fn actor_request(&self) -> (r: OracleRequest)
        requires
            self@.agents.len() > 0,
        ensures
            r.system matches Some(s) && s@ == system_prompt(self@.agents[actor_index(self@)]),
            r.user@ == user_prompt(self@.agents[actor_index(self@)]),
    {
        let n = self.agents.len();
        let idx = (self.tick % (n as u64)) as usize;
        build_actor_request(&self.agents[idx])
    }

    /// One turn, given the oracle's reply `raw` to `actor_request` and what it
    /// parsed into as an action (`None` when it did not parse).
    pub fn step(&mut self, raw: &str, parsed: Option<Action>)
        requires
            old(self)@.agents.len() > 0,
            old(self)@.tick < u64::MAX,
        ensures
            stepped(old(self)@, final(self)@, raw@, parsed),
            final(self).spec_oracle() == old(self).spec_oracle(),
    {
        let ghost s0 = self@;
        let n = self.agents.len();
        let idx = (self.tick % (n as u64)) as usize;
        assert(idx == actor_index(s0));
        let actor_id = self.agents[idx].id;
        let tick = self.tick;
        let action = decide_action(raw, parsed);
        if let Action::AdvancePlan { step, .. } = &action {
            let step = *step;
            if step < self.agents[idx].goal.plan.len() {
                self.agents[idx].goal.plan[step].completed = true;
            }
        }
        let ghost plan_done = self.agents@;
        assert(plan_done[idx as int].goal.plan@ =~= advanced_plan(s0.agents[idx as int].goal.plan@, parsed));
        let content = action.content();
        self.agents[idx].memory.push(
            MemoryEntry { tick, content: String::from_str(content), source: MemorySource::SelfAction },
        );
        let ghost s1 = self@;
        assert(ids_of(s1.agents) =~= ids_of(s0.agents));
        assert(pairs_of(s1.agents) =~= pairs_of(s0.agents));
        assert(s1.agents[idx as int].memory.entries@.subrange(0, s0.agents[idx as int].memory.entries@.len() as int)
            =~= s0.agents[idx as int].memory.entries@);
        if action.is_broadcast() {
            let msg = Message { from: actor_id, tick, content: String::from_str(content) };
            self.scenario.record(Message { from: actor_id, tick, content: String::from_str(content) });
            let sender_cluster = self.agents[idx].cluster;
            let candidates = candidates(&self.agents, actor_id);
            let recipients = self.modulator.route(&msg, sender_cluster, candidates.as_slice());
            deliver(&mut self.agents, &recipients, tick, content, actor_id);
            proof {
                let s2 = self@;
                assert(recipients@ == recipients_of(s0, raw@, parsed));
                assert(s2.messages.subrange(0, s0.messages.len() as int) =~= s0.messages);
                assert forall|k: int| #![trigger s2.agents[k]] 0 <= k < s0.agents.len() implies memory_after(
                    s0.agents[k].memory.entries@,
                    s2.agents[k].memory.entries@,
                    k == idx,
                    deliveries(ids_of(s0.agents), recipients@, k),
                    tick,
                    content@,
                    actor_id,
                ) by {
                    lemma_memory_compose(
                        s0.agents[k].memory.entries@,
                        s1.agents[k].memory.entries@,
                        s2.agents[k].memory.entries@,
                        k == idx,
                        deliveries(ids_of(s0.agents), recipients@, k),
                        tick,
                        content@,
                        actor_id,
                    );
                }
            }
        } else {
            proof {
                assert forall|k: int| #![trigger s1.agents[k]] 0 <= k < s0.agents.len() implies memory_after(
                    s0.agents[k].memory.entries@,
                    s1.agents[k].memory.entries@,
                    k == idx,
                    0,
                    tick,
                    content@,
                    actor_id,
                ) by {
                    if k != idx {
                        assert(s1.agents[k].memory.entries@.subrange(0, s0.agents[k].memory.entries@.len() as int)
                            =~= s0.agents[k].memory.entries@);
                    }
                }
            }
        }
        self.tick = tick + 1;
    }
}


/// No more messages have been recorded than turns have been taken.
pub open spec fn messages_within_ticks<M>(s: SimState<M>) -> bool {
    s.messages.len() <= s.tick
}

/// The scenario is the transcript of past turns: messages come in strictly
/// increasing tick order, each from before the current tick, and each was
/// sent by the agent whose turn that tick was.
pub open spec fn scenario_consistent<M>(s: SimState<M>) -> bool {
    &&& forall|m: int| 0 <= m < s.messages.len() ==> #[trigger] s.messages[m].tick < s.tick
    &&& forall|m: int, m2: int|
        0 <= m < m2 < s.messages.len() ==> #[trigger] s.messages[m].tick < #[trigger] s.messages[m2].tick
    &&& s.agents.len() > 0 ==> forall|m: int|
        0 <= m < s.messages.len() ==> #[trigger] s.messages[m].from == s.agents[(s.messages[m].tick
            as int) % (s.agents.len() as int)].id
}

/// A new simulation holds no message and is consistent.
pub proof fn lemma_new_is_consistent<M>(s: SimState<M>)
    requires
        s.tick == 0,
        s.messages.len() == 0,
    ensures
        messages_within_ticks(s),
        scenario_consistent(s),
{
}

/// A turn records at most one message and advances the tick by one, so the
/// scenario never holds more messages than turns taken.
pub proof fn lemma_step_keeps_messages_within_ticks<M: Modulator>(
    old: SimState<M>,
    new: SimState<M>,
    raw: Seq<char>,
    parsed: Option<Action>,
)
    requires
        old.agents.len() > 0,
        stepped(old, new, raw, parsed),
        messages_within_ticks(old),
    ensures
        messages_within_ticks(new),
        new.messages.len() <= old.messages.len() + 1,
{
}

/// A turn keeps the scenario a consistent transcript.
pub proof fn lemma_step_keeps_scenario_consistent<M: Modulator>(
    old: SimState<M>,
    new: SimState<M>,
    raw: Seq<char>,
    parsed: Option<Action>,
)
    requires
        old.agents.len() > 0,
        stepped(old, new, raw, parsed),
        scenario_consistent(old),
    ensures
        scenario_consistent(new),
{
    let n = old.agents.len() as int;
    assert forall|k: int| 0 <= k < n implies #[trigger] new.agents[k].id == old.agents[k].id by {}
    if reply_broadcast(parsed) {
        assert forall|m: int| 0 <= m < old.messages.len() implies new.messages[m] == old.messages[m] by {
            assert(new.messages[m] == new.messages.subrange(0, old.messages.len() as int)[m]);
        }
        let last = new.messages.len() - 1;
        assert(new.messages[last].tick == old.tick);
        assert(new.messages[last].from == old.agents[actor_index(old)].id);
        assert forall|m: int| 0 <= m < new.messages.len() implies #[trigger] new.messages[m].from
            == new.agents[(new.messages[m].tick as int) % n].id by {
            if m < old.messages.len() {
                assert(old.messages[m].from == old.agents[(old.messages[m].tick as int) % n].id);
                let j = (old.messages[m].tick as int) % n;
                assert(0 <= j < n);
                assert(new.agents[j].id == old.agents[j].id);
            } else {
                let j = actor_index(old);
                assert(new.agents[j].id == old.agents[j].id);
            }
        }
        assert forall|m: int, m2: int| 0 <= m < m2 < new.messages.len() implies #[trigger] new.messages[m].tick
            < #[trigger] new.messages[m2].tick by {
            if m2 < old.messages.len() {
                assert(old.messages[m].tick < old.messages[m2].tick);
            } else {
                assert(old.messages[m].tick < old.tick);
            }
        }
        assert forall|m: int| 0 <= m < new.messages.len() implies #[trigger] new.messages[m].tick < new.tick by {
            if m < old.messages.len() {
                assert(old.messages[m].tick < old.tick);
            }
        }
    } else {
        assert forall|m: int| 0 <= m < new.messages.len() implies #[trigger] new.messages[m].from
            == new.agents[(new.messages[m].tick as int) % n].id by {
            let j = (old.messages[m].tick as int) % n;
            assert(new.agents[j].id == old.agents[j].id);
        }
        assert forall|m: int| 0 <= m < new.messages.len() implies #[trigger] new.messages[m].tick < new.tick by {
            assert(old.messages[m].tick < old.tick);
        }
    }
}

/// `b` holds the same agent as `a`: same id, profile, cluster, goal and
/// memory.
pub open spec fn agent_unchanged(a: Agent, b: Agent) -> bool {
    &&& b.id == a.id
    &&& b.profile == a.profile
    &&& b.cluster == a.cluster
    &&& b.goal.description == a.goal.description
    &&& b.goal.plan@ == a.goal.plan@
    &&& b.memory.entries@ == a.memory.entries@
}

/// A reflection stays private: the scenario is unchanged, no other agent's
/// memory changes, and the actor remembers exactly its reflection.
pub proof fn lemma_step_reflect_is_private<M: Modulator>(
    old: SimState<M>,
    new: SimState<M>,
    raw: Seq<char>,
    content: String,
)
    requires
        old.agents.len() > 0,
        stepped(old, new, raw, Some(Action::Reflect { content })),
    ensures
        new.messages == old.messages,
        forall|k: int|
            0 <= k < old.agents.len() && k != actor_index(old) ==> agent_unchanged(
                old.agents[k],
                #[trigger] new.agents[k],
            ),
        new.agents[actor_index(old)].memory.entries@ == old.agents[actor_index(
            old,
        )].memory.entries@.push(new.agents[actor_index(old)].memory.entries@.last()),
        entry_is(
            new.agents[actor_index(old)].memory.entries@.last(),
            old.tick,
            content@,
            MemorySource::SelfAction,
        ),
{
    let i = actor_index(old);
    assert(recipients_of(old, raw, Some(Action::Reflect { content })) =~= Seq::<AgentId>::empty());
    assert forall|k: int| 0 <= k < old.agents.len() && k != i implies agent_unchanged(
        old.agents[k],
        #[trigger] new.agents[k],
    ) by {
        let a = old.agents[k];
        let b = new.agents[k];
        assert(b.memory.entries@ =~= b.memory.entries@.subrange(0, a.memory.entries@.len() as int));
    }
    let olde = old.agents[i].memory.entries@;
    let newe = new.agents[i].memory.entries@;
    assert(newe =~= olde.push(newe.last())) by {
        assert(newe.subrange(0, olde.len() as int) == olde);
        assert forall|p: int| 0 <= p < olde.len() implies newe[p] == olde[p] by {
            assert(newe[p] == newe.subrange(0, olde.len() as int)[p]);
        }
    }
}

/// Memory only grows, and a completed plan step stays completed.
pub proof fn lemma_step_only_adds<M: Modulator>(
    old: SimState<M>,
    new: SimState<M>,
    raw: Seq<char>,
    parsed: Option<Action>,
)
    requires
        old.agents.len() > 0,
        stepped(old, new, raw, parsed),
    ensures
        forall|k: int|
            0 <= k < old.agents.len() ==> #[trigger] new.agents[k].memory.entries@.subrange(
                0,
                old.agents[k].memory.entries@.len() as int,
            ) == old.agents[k].memory.entries@,
        forall|k: int, q: int|
            0 <= k < old.agents.len() && 0 <= q < old.agents[k].goal.plan@.len()
                && #[trigger] old.agents[k].goal.plan@[q].completed ==> #[trigger] new.agents[k].goal.plan@[q].completed,
        forall|k: int|
            0 <= k < old.agents.len() ==> #[trigger] new.agents[k].goal.plan@.len()
                == old.agents[k].goal.plan@.len(),
{
}

/// A run bounded by a tick count stops exactly at that count: a turn taken
/// before the bound never goes past it.
pub proof fn lemma_max_ticks_not_overshot<M: Modulator>(
    old: SimState<M>,
    new: SimState<M>,
    raw: Seq<char>,
    parsed: Option<Action>,
    max: Tick,
)
    requires
        old.agents.len() > 0,
        stepped(old, new, raw, parsed),
        !done(old, Termination::MaxTicks(max)),
    ensures
        new.tick <= max,
        new.tick == max ==> done(new, Termination::MaxTicks(max)),
{
}

/// A run bounded by a message quota stops exactly at the quota: a turn taken
/// below the quota never goes past it.
pub proof fn lemma_quota_not_overshot<M: Modulator>(
    old: SimState<M>,
    new: SimState<M>,
    raw: Seq<char>,
    parsed: Option<Action>,
    quota: usize,
)
    requires
        old.agents.len() > 0,
        stepped(old, new, raw, parsed),
        !done(old, Termination::ScenarioMessageQuota(quota)),
    ensures
        new.messages.len() <= quota,
        new.messages.len() == quota ==> done(new, Termination::ScenarioMessageQuota(quota)),
{
}


/// No two agents share an id.
pub open spec fn distinct_ids(agents: Seq<Agent>) -> bool {
    forall|a: int, b: int| 0 <= a < b < agents.len() ==> #[trigger] agents[a].id != #[trigger] agents[b].id
}

proof fn lemma_deliveries_of_others(ids: Seq<AgentId>, actor: AgentId, k: int, m: int)
    requires
        forall|a: int, b: int| 0 <= a < b < ids.len() ==> #[trigger] ids[a] != #[trigger] ids[b],
        0 <= k < ids.len(),
        0 <= m <= ids.len(),
    ensures
        deliveries(ids, others(ids.take(m), actor), k) == if k < m && ids[k] != actor {
            1nat
        } else {
            0nat
        },
    decreases m,
{
    reveal_with_fuel(Seq::<AgentId>::filter, 1);
    if m == 0 {
        assert(ids.take(0) =~= Seq::<AgentId>::empty());
    } else {
        lemma_deliveries_of_others(ids, actor, k, m - 1);
        let prev = others(ids.take(m - 1), actor);
        assert(ids.take(m).drop_last() =~= ids.take(m - 1));
        assert(ids.take(m).last() == ids[m - 1]);
        if ids[m - 1] != actor {
            let cur = others(ids.take(m), actor);
            assert(cur == prev.push(ids[m - 1]));
            assert(cur.drop_last() =~= prev);
            assert(is_first_index(ids, ids[m - 1], m - 1));
            lemma_first_index(ids, ids[m - 1], m - 1);
        }
    }
}

/// The ids of the candidates of a broadcast are the ids other than the
/// sender's, in order.
pub proof fn lemma_candidate_ids(agents: Seq<Agent>, actor: AgentId)
    ensures
        candidate_ids(candidates_for(agents, actor)) == others(ids_of(agents), actor),
    decreases agents.len(),
{
    reveal_with_fuel(Seq::<(AgentId, Option<ClusterId>)>::filter, 1);
    reveal_with_fuel(Seq::<AgentId>::filter, 1);
    if agents.len() == 0 {
        assert(candidate_ids(candidates_for(agents, actor)) =~= others(ids_of(agents), actor));
    } else {
        let prev = agents.drop_last();
        lemma_candidate_ids(prev, actor);
        assert(pairs_of(agents).drop_last() =~= pairs_of(prev));
        assert(ids_of(agents).drop_last() =~= ids_of(prev));
        let c = candidates_for(agents, actor);
        let cp = candidates_for(prev, actor);
        if agents.last().id != actor {
            assert(c == cp.push((agents.last().id, agents.last().cluster)));
            assert(candidate_ids(c) =~= candidate_ids(cp).push(agents.last().id));
        } else {
            assert(c == cp);
        }
    }
}

/// When ids are distinct, offering a broadcast to every other agent reaches
/// each of them exactly once and never the sender.
pub proof fn lemma_others_reached_once(agents: Seq<Agent>, actor: AgentId, k: int)
    requires
        distinct_ids(agents),
        0 <= k < agents.len(),
    ensures
        deliveries(ids_of(agents), others(ids_of(agents), actor), k) == if agents[k].id == actor {
            0nat
        } else {
            1nat
        },
{
    let ids = ids_of(agents);
    assert forall|a: int, b: int| 0 <= a < b < ids.len() implies #[trigger] ids[a] != #[trigger] ids[b] by {
        assert(agents[a].id != agents[b].id);
    }
    lemma_deliveries_of_others(ids, actor, k, ids.len() as int);
    assert(ids.take(ids.len() as int) =~= ids);
}

proof fn lemma_others_idempotent(c: Seq<AgentId>, a: AgentId)
    ensures
        others(others(c, a), a) == others(c, a),
    decreases c.len(),
{
    reveal_with_fuel(Seq::<AgentId>::filter, 1);
    if c.len() > 0 {
        lemma_others_idempotent(c.drop_last(), a);
        if c.last() != a {
            let o = others(c, a);
            assert(o.drop_last() =~= others(c.drop_last(), a));
            assert(o.last() == c.last());
        }
    }
}

/// With distinct ids and broadcast routing, a spoken turn shows the message
/// to every other agent exactly once: each of them gains one observation,
/// and the actor gains only the memory of its own action.
pub proof fn lemma_broadcast_turn_reaches_everyone_once(
    old: SimState<BroadcastModulator>,
    new: SimState<BroadcastModulator>,
    raw: Seq<char>,
    parsed: Option<Action>,
    k: int,
)
    requires
        old.agents.len() > 0,
        distinct_ids(old.agents),
        stepped(old, new, raw, parsed),
        reply_broadcast(parsed),
        0 <= k < old.agents.len(),
    ensures
        new.agents[k].memory.entries@.len() == old.agents[k].memory.entries@.len() + 1,
        k != actor_index(old) ==> entry_is(
            new.agents[k].memory.entries@.last(),
            old.tick,
            reply_content(raw, parsed),
            MemorySource::Observed { from: old.agents[actor_index(old)].id },
        ),
        k == actor_index(old) ==> entry_is(
            new.agents[k].memory.entries@.last(),
            old.tick,
            reply_content(raw, parsed),
            MemorySource::SelfAction,
        ),
{
    let i = actor_index(old);
    lemma_candidate_ids(old.agents, old.agents[i].id);
    lemma_others_reached_once(old.agents, old.agents[i].id, k);
    if k != i {
        assert(old.agents[k].id != old.agents[i].id) by {
            if k < i {
                assert(old.agents[k].id != old.agents[i].id);
            } else {
                assert(old.agents[i].id != old.agents[k].id);
            }
        }
    }
}

/// Routing that drops the sender reaches the same agents as broadcast
/// routing: the candidates already exclude the sender.
pub proof fn lemma_drop_self_turn_reaches_everyone_once(
    old: SimState<DropSelfModulator>,
    new: SimState<DropSelfModulator>,
    raw: Seq<char>,
    parsed: Option<Action>,
    k: int,
)
    requires
        old.agents.len() > 0,
        distinct_ids(old.agents),
        stepped(old, new, raw, parsed),
        reply_broadcast(parsed),
        0 <= k < old.agents.len(),
    ensures
        new.agents[k].memory.entries@.len() == old.agents[k].memory.entries@.len() + 1,
        k != actor_index(old) ==> entry_is(
            new.agents[k].memory.entries@.last(),
            old.tick,
            reply_content(raw, parsed),
            MemorySource::Observed { from: old.agents[actor_index(old)].id },
        ),
        k == actor_index(old) ==> entry_is(
            new.agents[k].memory.entries@.last(),
            old.tick,
            reply_content(raw, parsed),
            MemorySource::SelfAction,
        ),
{
    let i = actor_index(old);
    let actor = old.agents[i].id;
    lemma_candidate_ids(old.agents, actor);
    lemma_others_idempotent(ids_of(old.agents), actor);
    assert(recipients_of(old, raw, parsed) == others(ids_of(old.agents), actor));
    lemma_others_reached_once(old.agents, actor, k);
    if k != i {
        assert(old.agents[k].id != old.agents[i].id) by {
            if k < i {
                assert(old.agents[k].id != old.agents[i].id);
            } else {
                assert(old.agents[i].id != old.agents[k].id);
            }
        }
    }
}


/// Once every agent has met its goal it stays so: a turn never undoes a
/// completed step nor changes a plan's length, so a run that has stopped for
/// met goals would stop again.
pub proof fn lemma_step_keeps_goals_met<M: Modulator>(
    old: SimState<M>,
    new: SimState<M>,
    raw: Seq<char>,
    parsed: Option<Action>,
)
    requires
        old.agents.len() > 0,
        stepped(old, new, raw, parsed),
        goals_met(old.agents),
    ensures
        goals_met(new.agents),
{
    lemma_step_only_adds(old, new, raw, parsed);
    assert forall|k: int| 0 <= k < new.agents.len() implies plan_complete(#[trigger] new.agents[k].goal.plan@) by {
        assert(plan_complete(old.agents[k].goal.plan@));
        assert forall|q: int| 0 <= q < new.agents[k].goal.plan@.len() implies #[trigger] new.agents[k].goal.plan@[q].completed by {
            assert(old.agents[k].goal.plan@[q].completed);
        }
    }
}


/// An `AdvancePlan` turn completes exactly the named step of the actor's
/// plan when it lies inside the plan, and nothing else: every other step of
/// the actor, and every step of every other agent, keeps its description and
/// its completion; a step outside the plan changes nothing.
pub proof fn lemma_advance_plan_completes_named_step<M: Modulator>(
    old: SimState<M>,
    new: SimState<M>,
    raw: Seq<char>,
    step: usize,
    content: String,
)
    requires
        old.agents.len() > 0,
        stepped(old, new, raw, Some(Action::AdvancePlan { step, content })),
    ensures
        forall|k: int|
            0 <= k < old.agents.len() ==> #[trigger] new.agents[k].goal.plan@.len()
                == old.agents[k].goal.plan@.len(),
        forall|k: int, q: int|
            0 <= k < old.agents.len() && 0 <= q < old.agents[k].goal.plan@.len()
                ==> #[trigger] new.agents[k].goal.plan@[q].description
                == old.agents[k].goal.plan@[q].description,
        step < old.agents[actor_index(old)].goal.plan@.len() ==> new.agents[actor_index(
            old,
        )].goal.plan@[step as int].completed,
        forall|k: int, q: int|
            0 <= k < old.agents.len() && 0 <= q < old.agents[k].goal.plan@.len() && !(k
                == actor_index(old) && q == step) ==> #[trigger] new.agents[k].goal.plan@[q].completed
                == old.agents[k].goal.plan@[q].completed,
{
    assert forall|k: int, q: int|
        0 <= k < old.agents.len() && 0 <= q < old.agents[k].goal.plan@.len() && !(k == actor_index(old)
            && q == step) implies #[trigger] new.agents[k].goal.plan@[q].completed
        == old.agents[k].goal.plan@[q].completed by {
        let b = new.agents[k];
    }
    assert forall|k: int, q: int|
        0 <= k < old.agents.len() && 0 <= q < old.agents[k].goal.plan@.len() implies #[trigger] new.agents[k].goal.plan@[q].description
        == old.agents[k].goal.plan@[q].description by {
        let b = new.agents[k];
    }
    assert forall|k: int| 0 <= k < old.agents.len() implies #[trigger] new.agents[k].goal.plan@.len()
        == old.agents[k].goal.plan@.len() by {
        let b = new.agents[k];
    }
    let b = new.agents[actor_index(old)];
}

/// Any other action leaves every plan as it was.
pub proof fn lemma_other_actions_keep_plans<M: Modulator>(
    old: SimState<M>,
    new: SimState<M>,
    raw: Seq<char>,
    parsed: Option<Action>,
)
    requires
        old.agents.len() > 0,
        stepped(old, new, raw, parsed),
        !(parsed matches Some(Action::AdvancePlan { .. })),
    ensures
        forall|k: int| 0 <= k < old.agents.len() ==> #[trigger] new.agents[k].goal.plan@ == old.agents[k].goal.plan@,
{
    assert forall|k: int| 0 <= k < old.agents.len() implies #[trigger] new.agents[k].goal.plan@
        == old.agents[k].goal.plan@ by {
        let b = new.agents[k];
    }
}

/// When a run stops: exactly when there is at least one agent and every
/// agent has a plan with all its steps completed, or the termination's bound
/// is reached (the tick for a tick bound, the scenario's message count for a
/// quota). Below the bound, with some goal unmet, a run goes on.
pub proof fn lemma_done_exactly<M>(s: SimState<M>, termination: Termination)
    ensures
        done(s, termination) <==> ((s.agents.len() > 0 && forall|k: int|
            0 <= k < s.agents.len() ==> (#[trigger] s.agents[k].goal.plan@.len() > 0 && forall|q: int|
                0 <= q < s.agents[k].goal.plan@.len() ==> s.agents[k].goal.plan@[q].completed)) || match termination {
            Termination::MaxTicks(n) => n <= s.tick,
            Termination::ScenarioMessageQuota(n) => n <= s.messages.len(),
        }),
{
    if goals_met(s.agents) {
        assert forall|k: int| 0 <= k < s.agents.len() implies (#[trigger] s.agents[k].goal.plan@.len() > 0
            && forall|q: int| 0 <= q < s.agents[k].goal.plan@.len() ==> s.agents[k].goal.plan@[q].completed) by {
            assert(plan_complete(s.agents[k].goal.plan@));
        }
    }
}


/// Every turn is taken by agent `tick mod n`: it remembers the decided
/// action's text (the parsed action's, or the trimmed reply when nothing
/// parsed) as its own action at the old tick, the tick advances by one, and
/// unless the action is a reflection the scenario gains exactly that message
/// from that agent at that tick; a reflection leaves the scenario unchanged.
pub proof fn lemma_turn_remembers_and_records<M: Modulator>(
    old: SimState<M>,
    new: SimState<M>,
    raw: Seq<char>,
    parsed: Option<Action>,
)
    requires
        old.agents.len() > 0,
        stepped(old, new, raw, parsed),
    ensures
        ({
            let i = (old.tick as int) % (old.agents.len() as int);
            let text = match parsed {
                Some(a) => a.spec_content(),
                None => trimmed(raw),
            };
            let before = old.agents[i].memory.entries@;
            let after = new.agents[i].memory.entries@;
            &&& new.tick == old.tick + 1
            &&& after.len() > before.len()
            &&& after[before.len() as int].tick == old.tick
            &&& after[before.len() as int].content@ == text
            &&& after[before.len() as int].source == MemorySource::SelfAction
            &&& if parsed matches Some(Action::Reflect { .. }) {
                new.messages == old.messages
            } else {
                &&& new.messages.len() == old.messages.len() + 1
                &&& forall|m: int| 0 <= m < old.messages.len() ==> #[trigger] new.messages[m] == old.messages[m]
                &&& new.messages.last().from == old.agents[i].id
                &&& new.messages.last().tick == old.tick
                &&& new.messages.last().content@ == text
            }
        }),
{
    let i = actor_index(old);
    let b = new.agents[i];
    if !(parsed matches Some(Action::Reflect { .. })) {
        assert forall|m: int| 0 <= m < old.messages.len() implies #[trigger] new.messages[m] == old.messages[m] by {
            assert(new.messages[m] == new.messages.subrange(0, old.messages.len() as int)[m]);
        }
    }
}

} // verus!
