//! The prompt an agent's turn is decided from.

use vstd::prelude::*;

use crate::agent::Agent;
use crate::memory::MemoryEntry;
use crate::oracle::OracleRequest;
use crate::profile::PlanStep;
use crate::text::{decimal, joined, push_decimal, push_joined, views};

verus! {

/// How many of the latest memory entries the prompt shows.
pub const RECENT_MEMORY_LIMIT: usize = 8;

/// The closing instructions of every actor prompt: the JSON schema of an
/// action.
pub open spec fn action_schema() -> Seq<char> {
    "\nRespond with a single JSON object describing your next action. Schema:\n{\"type\": \"speak\", \"content\": \"...\"}\n{\"type\": \"react\", \"to\": <agent_id_u64>, \"content\": \"...\"}\n{\"type\": \"advance_plan\", \"step\": <index>, \"content\": \"...\"}\n{\"type\": \"reflect\", \"content\": \"...\"}\nJSON only, no prose."@
}

/// Who the agent is and what it wants.
pub open spec fn system_prompt(agent: Agent) -> Seq<char> {
    (match agent.profile.profession {
        Some(p) => "You are a "@ + p@ + ". "@,
        None => Seq::empty(),
    }) + (if agent.profile.interests@.len() > 0 {
        "Interests: "@ + joined(views(agent.profile.interests@), ", "@) + ". "@
    } else {
        Seq::empty()
    }) + (match agent.profile.bio {
        Some(b) => "Bio: "@ + b@ + ". "@,
        None => Seq::empty(),
    }) + "Your life goal: "@ + agent.goal.description@ + ". "@
        + "You act proactively to pursue your goal, or react to what you observe."@
}

/// One line of the plan listing: its completion mark, index and description.
pub open spec fn plan_line(index: nat, step: PlanStep) -> Seq<char> {
    "  ["@ + (if step.completed {
        "x"@
    } else {
        " "@
    }) + "] "@ + decimal(index) + ". "@ + step.description@ + "\n"@
}

/// The plan listing, one line per step, numbered from 0.
pub open spec fn plan_text(plan: Seq<PlanStep>) -> Seq<char>
    decreases plan.len(),
{
    if plan.len() == 0 {
        Seq::empty()
    } else {
        plan_text(plan.drop_last()) + plan_line((plan.len() - 1) as nat, plan.last())
    }
}

/// One line of the memory listing: tick and content.
pub open spec fn memory_line(entry: MemoryEntry) -> Seq<char> {
    "  t="@ + decimal(entry.tick as nat) + ": "@ + entry.content@ + "\n"@
}

/// The memory listing, one line per entry, oldest first.
pub open spec fn memory_text(entries: Seq<MemoryEntry>) -> Seq<char>
    decreases entries.len(),
{
    if entries.len() == 0 {
        Seq::empty()
    } else {
        memory_text(entries.drop_last()) + memory_line(entries.last())
    }
}

/// The latest `RECENT_MEMORY_LIMIT` entries (all of them when there are
/// fewer), oldest first.
pub open spec fn recent_entries(entries: Seq<MemoryEntry>) -> Seq<MemoryEntry> {
    if entries.len() > RECENT_MEMORY_LIMIT {
        entries.subrange(entries.len() - RECENT_MEMORY_LIMIT, entries.len() as int)
    } else {
        entries
    }
}

/// The agent's plan, recent memory, and the action schema.
pub open spec fn user_prompt(agent: Agent) -> Seq<char> {
    "Plan:\n"@ + plan_text(agent.goal.plan@) + "\nRecent memory:\n"@ + memory_text(
        recent_entries(agent.memory.entries@),
    ) + action_schema()
}

/// The request that asks the oracle for the agent's next action.
pub fn build_actor_request(agent: &Agent) -> (r: OracleRequest)
    ensures
        r.system matches Some(s) && s@ == system_prompt(*agent),
        r.user@ == user_prompt(*agent),
{
    let system = build_system_prompt(agent);
    let user = build_user_prompt(agent);
    OracleRequest { system: Some(system), user }
}

fn build_system_prompt(agent: &Agent) -> (s: String)
    ensures
        s@ == system_prompt(*agent),
{
    let mut s = String::new();
    if let Some(p) = &agent.profile.profession {
        s.append("You are a ");
        s.append(p.as_str());
        s.append(". ");
    }
    if agent.profile.interests.len() > 0 {
        s.append("Interests: ");
        push_joined(&mut s, agent.profile.interests.as_slice(), ", ");
        s.append(". ");
    }
    if let Some(bio) = &agent.profile.bio {
        s.append("Bio: ");
        s.append(bio.as_str());
        s.append(". ");
    }
    s.append("Your life goal: ");
    s.append(agent.goal.description.as_str());
    s.append(". ");
    s.append("You act proactively to pursue your goal, or react to what you observe.");
    assert(s@ =~= system_prompt(*agent));
    s
}

fn push_plan_line(out: &mut String, index: usize, step: &PlanStep)
    ensures
        final(out)@ == old(out)@ + plan_line(index as nat, *step),
{
    out.append("  [");
    if step.completed {
        out.append("x");
    } else {
        out.append(" ");
    }
    out.append("] ");
    push_decimal(out, index as u64);
    out.append(". ");
    out.append(step.description.as_str());
    out.append("\n");
    assert(final(out)@ =~= old(out)@ + plan_line(index as nat, *step));
}

fn push_memory_line(out: &mut String, entry: &MemoryEntry)
    ensures
        final(out)@ == old(out)@ + memory_line(*entry),
{
    out.append("  t=");
    push_decimal(out, entry.tick);
    out.append(": ");
    out.append(entry.content.as_str());
    out.append("\n");
    assert(final(out)@ =~= old(out)@ + memory_line(*entry));
}

fn build_user_prompt(agent: &Agent) -> (s: String)
    ensures
        s@ == user_prompt(*agent),
{
    let mut s = String::new();
    s.append("Plan:\n");
    let ghost head = s@;
    let plan = &agent.goal.plan;
    let mut i: usize = 0;
    while i < plan.len()
        invariant
            i <= plan@.len(),
            s@ == head + plan_text(plan@.take(i as int)),
        decreases plan@.len() - i,
    {
        assert(plan@.take(i + 1).drop_last() =~= plan@.take(i as int));
        push_plan_line(&mut s, i, &plan[i]);
        i += 1;
    }
    assert(plan@.take(plan@.len() as int) =~= plan@);
    s.append("\nRecent memory:\n");
    let ghost mid = s@;
    let entries = &agent.memory.entries;
    let n = entries.len();
    let start: usize = if n > RECENT_MEMORY_LIMIT {
        n - RECENT_MEMORY_LIMIT
    } else {
        0
    };
    let mut k: usize = start;
    while k < n
        invariant
            start <= k <= n,
            n == entries@.len(),
            s@ == mid + memory_text(entries@.subrange(start as int, k as int)),
        decreases n - k,
    {
        assert(entries@.subrange(start as int, k + 1).drop_last() =~= entries@.subrange(
            start as int,
            k as int,
        ));
        push_memory_line(&mut s, &entries[k]);
        k += 1;
    }
    assert(entries@.subrange(start as int, n as int) =~= recent_entries(entries@));
    s.append("\nRespond with a single JSON object describing your next action. Schema:\n{\"type\": \"speak\", \"content\": \"...\"}\n{\"type\": \"react\", \"to\": <agent_id_u64>, \"content\": \"...\"}\n{\"type\": \"advance_plan\", \"step\": <index>, \"content\": \"...\"}\n{\"type\": \"reflect\", \"content\": \"...\"}\nJSON only, no prose.");
    assert(s@ =~= user_prompt(*agent));
    s
}


/// The memory listing is one line "  t=<tick>: <content>\n" per entry, in
/// order, whatever the entry's source.
pub proof fn lemma_memory_text_lists_every_entry(entries: Seq<MemoryEntry>)
    ensures
        memory_text(entries) == entries.map_values(
            |e: MemoryEntry| "  t="@ + decimal(e.tick as nat) + ": "@ + e.content@ + "\n"@,
        ).flatten(),
    decreases entries.len(),
{
    let lines = entries.map_values(
        |e: MemoryEntry| "  t="@ + decimal(e.tick as nat) + ": "@ + e.content@ + "\n"@,
    );
    lines.lemma_flatten_and_flatten_alt_are_equivalent();
    if entries.len() > 0 {
        lemma_memory_text_lists_every_entry(entries.drop_last());
        let prev = entries.drop_last().map_values(
            |e: MemoryEntry| "  t="@ + decimal(e.tick as nat) + ": "@ + e.content@ + "\n"@,
        );
        prev.lemma_flatten_and_flatten_alt_are_equivalent();
        assert(lines.drop_last() =~= prev);
    } else {
        assert(lines =~= Seq::<Seq<char>>::empty());
    }
}

/// The plan listing is one line "  [x] <index>. <description>\n" (a space in
/// place of `x` for a step not completed) per step, in order, numbered from 0.
pub proof fn lemma_plan_text_lists_every_step(plan: Seq<PlanStep>)
    ensures
        plan_text(plan) == Seq::new(
            plan.len(),
            |q: int|
                "  ["@ + (if plan[q].completed {
                    "x"@
                } else {
                    " "@
                }) + "] "@ + decimal(q as nat) + ". "@ + plan[q].description@ + "\n"@,
        ).flatten(),
    decreases plan.len(),
{
    let lines = Seq::new(
        plan.len(),
        |q: int|
            "  ["@ + (if plan[q].completed {
                "x"@
            } else {
                " "@
            }) + "] "@ + decimal(q as nat) + ". "@ + plan[q].description@ + "\n"@,
    );
    lines.lemma_flatten_and_flatten_alt_are_equivalent();
    if plan.len() > 0 {
        let prev_plan = plan.drop_last();
        lemma_plan_text_lists_every_step(prev_plan);
        let prev = Seq::new(
            prev_plan.len(),
            |q: int|
                "  ["@ + (if prev_plan[q].completed {
                    "x"@
                } else {
                    " "@
                }) + "] "@ + decimal(q as nat) + ". "@ + prev_plan[q].description@ + "\n"@,
        );
        prev.lemma_flatten_and_flatten_alt_are_equivalent();
        assert(lines.drop_last() =~= prev);
    } else {
        assert(lines =~= Seq::<Seq<char>>::empty());
    }
}

/// The user prompt of an agent: "Plan:\n", one line per plan step, then
/// "\nRecent memory:\n" and one line per memory entry for the latest
/// `min(8, entries)` entries (of every source), oldest first, then the action
/// schema.
pub proof fn lemma_user_prompt_shows_plan_and_latest_memory(agent: Agent)
    ensures
        ({
            let plan = agent.goal.plan@;
            let es = agent.memory.entries@;
            let start = if es.len() > 8 {
                es.len() - 8
            } else {
                0
            };
            user_prompt(agent) == "Plan:\n"@ + Seq::new(
                plan.len(),
                |q: int|
                    "  ["@ + (if plan[q].completed {
                        "x"@
                    } else {
                        " "@
                    }) + "] "@ + decimal(q as nat) + ". "@ + plan[q].description@ + "\n"@,
            ).flatten() + "\nRecent memory:\n"@ + es.subrange(start, es.len() as int).map_values(
                |e: MemoryEntry| "  t="@ + decimal(e.tick as nat) + ": "@ + e.content@ + "\n"@,
            ).flatten() + action_schema()
        }),
{
    let es = agent.memory.entries@;
    let start = if es.len() > 8 {
        es.len() - 8
    } else {
        0
    };
    lemma_plan_text_lists_every_step(agent.goal.plan@);
    assert(recent_entries(es) =~= es.subrange(start, es.len() as int));
    lemma_memory_text_lists_every_entry(es.subrange(start, es.len() as int));
}


/// The system prompt opens with the profession when there is one and closes
/// with the agent's goal and the standing instruction, whatever the rest of
/// the profile holds; interests and bio appear only when present.
pub proof fn lemma_system_prompt_frame(agent: Agent)
    ensures
        ({
            let sp = system_prompt(agent);
            let tail = "Your life goal: "@ + agent.goal.description@ + ". "@
                + "You act proactively to pursue your goal, or react to what you observe."@;
            &&& sp.len() >= tail.len()
            &&& sp.skip(sp.len() - tail.len()) == tail
            &&& agent.profile.profession matches Some(p) ==> sp.take(("You are a "@ + p@ + ". "@).len() as int)
                == "You are a "@ + p@ + ". "@
            &&& (agent.profile.profession is None && agent.profile.interests@.len() == 0
                && agent.profile.bio is None) ==> sp == tail
        }),
{
    let sp = system_prompt(agent);
    let tail = "Your life goal: "@ + agent.goal.description@ + ". "@
        + "You act proactively to pursue your goal, or react to what you observe."@;
    let head = (match agent.profile.profession {
        Some(p) => "You are a "@ + p@ + ". "@,
        None => Seq::empty(),
    });
    let mid = (if agent.profile.interests@.len() > 0 {
        "Interests: "@ + joined(views(agent.profile.interests@), ", "@) + ". "@
    } else {
        Seq::empty()
    }) + (match agent.profile.bio {
        Some(b) => "Bio: "@ + b@ + ". "@,
        None => Seq::empty(),
    });
    assert(sp =~= head + mid + tail);
    assert(sp.skip(sp.len() - tail.len()) =~= tail);
    assert(sp.take(head.len() as int) =~= head);
}

} // verus!
