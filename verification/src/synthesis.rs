//! Turning a scenario into instruction-tuning pairs.

use vstd::prelude::*;

use crate::instruction::InstructionPair;
use crate::message::Message;
use crate::oracle::{OracleError, OracleRequest};
use crate::scenario::Scenario;
use crate::text::{
    decimal, ends_with, lemma_without_leading, lemma_without_trailing, leading_run,
    matches_at, push_decimal, starts_with, trailing_run, trim, trimmed, without_leading,
    without_trailing,
};

verus! {

/// The system prompt of every synthesis request.
pub open spec fn synthesis_system_prompt() -> Seq<char> {
    "You are a data-synthesis assistant. Given a transcript of a multi-agent social simulation, produce realistic instruction-following examples that a human user might ask, grounded in the scenario context. Each example is an {instruction, response} pair."@
}

/// One transcript line: tick, sender and content.
pub open spec fn transcript_line(msg: Message) -> Seq<char> {
    "[t="@ + decimal(msg.tick as nat) + " agent="@ + decimal(msg.from.0 as nat) + "] "@
        + msg.content@ + "\n"@
}

/// The transcript of a scenario, one line per message, in order.
pub open spec fn transcript(messages: Seq<Message>) -> Seq<char>
    decreases messages.len(),
{
    if messages.len() == 0 {
        Seq::empty()
    } else {
        transcript(messages.drop_last()) + transcript_line(messages.last())
    }
}

/// The user prompt asking for `count` pairs grounded in the transcript.
pub open spec fn synthesis_user_prompt(messages: Seq<Message>, count: nat) -> Seq<char> {
    "Scenario transcript:\n"@ + transcript(messages) + "\nProduce exactly "@ + decimal(count)
        + " instruction-response pairs that a user might plausibly send to an assistant, with each response grounded in the scenario above.\nReply with a JSON array of objects: [{\"instruction\": \"...\", \"response\": \"...\"}, ...]\nJSON only, no prose."@
}

fn push_transcript_line(out: &mut String, msg: &Message)
    ensures
        final(out)@ == old(out)@ + transcript_line(*msg),
{
    out.append("[t=");
    push_decimal(out, msg.tick);
    out.append(" agent=");
    push_decimal(out, msg.from.0);
    out.append("] ");
    out.append(msg.content.as_str());
    out.append("\n");
    assert(final(out)@ =~= old(out)@ + transcript_line(*msg));
}

/// The request asking the oracle for `count` instruction pairs grounded in
/// the scenario's transcript.
pub fn build_synthesis_request(scenario: &Scenario, count: usize) -> (r: OracleRequest)
    ensures
        r.system matches Some(s) && s@ == synthesis_system_prompt(),
        r.user@ == synthesis_user_prompt(scenario.messages@, count as nat),
{
    let mut user = String::new();
    user.append("Scenario transcript:\n");
    let ghost head = user@;
    let msgs = &scenario.messages;
    let mut i: usize = 0;
    while i < msgs.len()
        invariant
            i <= msgs@.len(),
            user@ == head + transcript(msgs@.take(i as int)),
        decreases msgs@.len() - i,
    {
        assert(msgs@.take(i + 1).drop_last() =~= msgs@.take(i as int));
        push_transcript_line(&mut user, &msgs[i]);
        i += 1;
    }
    assert(msgs@.take(msgs@.len() as int) =~= msgs@);
    user.append("\nProduce exactly ");
    push_decimal(&mut user, count as u64);
    user.append(
        " instruction-response pairs that a user might plausibly send to an assistant, with each response grounded in the scenario above.\nReply with a JSON array of objects: [{\"instruction\": \"...\", \"response\": \"...\"}, ...]\nJSON only, no prose.",
    );
    assert(user@ =~= synthesis_user_prompt(scenario.messages@, count as nat));
    OracleRequest { system: Some(String::from_str("You are a data-synthesis assistant. Given a transcript of a multi-agent social simulation, produce realistic instruction-following examples that a human user might ask, grounded in the scenario context. Each example is an {instruction, response} pair.")), user }
}

/// The transcript is one line "[t=<tick> agent=<id>] <content>\n" per
/// message, for every message, in order.
pub proof fn lemma_transcript_lists_every_message(messages: Seq<Message>)
    ensures
        transcript(messages) == messages.map_values(
            |m: Message|
                "[t="@ + decimal(m.tick as nat) + " agent="@ + decimal(m.from.0 as nat) + "] "@
                    + m.content@ + "\n"@,
        ).flatten(),
    decreases messages.len(),
{
    let lines = messages.map_values(
        |m: Message|
            "[t="@ + decimal(m.tick as nat) + " agent="@ + decimal(m.from.0 as nat) + "] "@
                + m.content@ + "\n"@,
    );
    lines.lemma_flatten_and_flatten_alt_are_equivalent();
    if messages.len() > 0 {
        lemma_transcript_lists_every_message(messages.drop_last());
        let prev = messages.drop_last().map_values(
            |m: Message|
                "[t="@ + decimal(m.tick as nat) + " agent="@ + decimal(m.from.0 as nat) + "] "@
                    + m.content@ + "\n"@,
        );
        prev.lemma_flatten_and_flatten_alt_are_equivalent();
        assert(lines.drop_last() =~= prev);
    } else {
        assert(lines =~= Seq::<Seq<char>>::empty());
    }
}

/// The synthesis prompt holds the whole scenario: after "Scenario
/// transcript:\n" comes one line per message of the scenario, every one of
/// them in order, and then the request for `count` pairs.
pub proof fn lemma_synthesis_prompt_holds_whole_transcript(messages: Seq<Message>, count: nat)
    ensures
        synthesis_user_prompt(messages, count) == "Scenario transcript:\n"@ + messages.map_values(
            |m: Message|
                "[t="@ + decimal(m.tick as nat) + " agent="@ + decimal(m.from.0 as nat) + "] "@
                    + m.content@ + "\n"@,
        ).flatten() + "\nProduce exactly "@ + decimal(count)
            + " instruction-response pairs that a user might plausibly send to an assistant, with each response grounded in the scenario above.\nReply with a JSON array of objects: [{\"instruction\": \"...\", \"response\": \"...\"}, ...]\nJSON only, no prose."@,
{
    lemma_transcript_lists_every_message(messages);
}

/// Whether synthesis asks the oracle at all: an empty scenario, or a count of
/// zero, yields no pairs without a request.
pub open spec fn synthesis_needed(scenario: Scenario, count: nat) -> bool {
    count > 0 && scenario.messages@.len() > 0
}

/// The request of a synthesis of `count` pairs, or `None` when none is needed
/// (and the synthesis yields no pairs).
pub fn synthesis_request(scenario: &Scenario, count: usize) -> (r: Option<OracleRequest>)
    ensures
        r is Some <==> synthesis_needed(*scenario, count as nat),
        r matches Some(req) ==> (req.system matches Some(s) && s@ == synthesis_system_prompt()
            && req.user@ == synthesis_user_prompt(scenario.messages@, count as nat)),
{
    if count == 0 || scenario.messages.len() == 0 {
        None
    } else {
        Some(build_synthesis_request(scenario, count))
    }
}

/// The three backticks that open and close a code fence.
pub open spec fn fence() -> Seq<char> {
    seq!['`', '`', '`']
}

/// A code fence opened for JSON.
pub open spec fn fence_json() -> Seq<char> {
    fence() + seq!['j', 's', 'o', 'n']
}

/// The body of a code fence wrapping `s`: after an opening "```json" or
/// "```" and any newlines, up to a closing "```" and without the newlines
/// before it. `None` when `s` is not fenced so.
pub open spec fn unfenced(s: Seq<char>) -> Option<Seq<char>> {
    let opened = if starts_with(s, fence_json()) {
        Some(s.skip(fence_json().len() as int))
    } else if starts_with(s, fence()) {
        Some(s.skip(fence().len() as int))
    } else {
        None
    };
    match opened {
        None => None,
        Some(rest) => {
            let body = without_leading(rest, '\n');
            if ends_with(body, fence()) {
                Some(without_trailing(body.take(body.len() - fence().len()), '\n'))
            } else {
                None
            }
        },
    }
}

/// Fencing a body as JSON and unfencing gives the body back, for any body
/// that neither starts nor ends with a newline.
pub proof fn lemma_unfence_json_fence(body: Seq<char>)
    requires
        body.len() > 0 ==> body[0] != '\n' && body.last() != '\n',
    ensures
        unfenced(fence_json() + seq!['\n'] + body + seq!['\n'] + fence()) == Some(body),
{
    let s = fence_json() + seq!['\n'] + body + seq!['\n'] + fence();
    assert(s.take(7) =~= fence_json());
    let rest = s.skip(7);
    assert(rest =~= seq!['\n'] + body + seq!['\n'] + fence());
    if body.len() == 0 {
        assert(rest =~= seq!['\n', '\n', '`', '`', '`']);
        assert(leading_run(rest, '\n', 2));
        lemma_without_leading(rest, '\n', 2);
        let b2 = rest.skip(2);
        assert(b2 =~= fence());
        assert(b2.skip(b2.len() - 3) =~= fence());
        let inner = b2.take(b2.len() - 3);
        assert(trailing_run(inner, '\n', 0));
        lemma_without_trailing(inner, '\n', 0);
        assert(inner.take(0) =~= body);
    } else {
        assert(rest[1] == body[0]);
        assert(leading_run(rest, '\n', 1));
        lemma_without_leading(rest, '\n', 1);
        let b2 = rest.skip(1);
        assert(b2 =~= body + seq!['\n'] + fence());
        assert(b2.skip(b2.len() - 3) =~= fence());
        let inner = b2.take(b2.len() - 3);
        assert(inner =~= body + seq!['\n']);
        assert(inner[body.len() - 1] == body.last());
        assert(trailing_run(inner, '\n', body.len() as int));
        lemma_without_trailing(inner, '\n', body.len() as int);
        assert(inner.take(body.len() as int) =~= body);
    }
}

/// The body of a code fence around `s`, if `s` is one.
#[verifier::spinoff_prover]
pub fn strip_fence(s: &str) -> (r: Option<&str>)
    ensures
        r is Some <==> unfenced(s@) is Some,
        r matches Some(b) ==> b@ == unfenced(s@)->Some_0,
{
    let json: [char; 7] = ['`', '`', '`', 'j', 's', 'o', 'n'];
    let plain: [char; 3] = ['`', '`', '`'];
    assert(json@ =~= fence_json());
    assert(plain@ =~= fence());
    let n = s.unicode_len();
    let start: usize;
    if matches_at(s, n, 0, json.as_slice()) {
        assert(s@.take(7) =~= s@.subrange(0, 7));
        start = 7;
    } else if matches_at(s, n, 0, plain.as_slice()) {
        assert(s@.take(3) =~= s@.subrange(0, 3));
        assert(!starts_with(s@, fence_json())) by {
            if starts_with(s@, fence_json()) {
                assert(s@.subrange(0, 7) =~= s@.take(7));
            }
        }
        start = 3;
    } else {
        assert(!starts_with(s@, fence_json())) by {
            if starts_with(s@, fence_json()) {
                assert(s@.subrange(0, 7) =~= s@.take(7));
            }
        }
        assert(!starts_with(s@, fence())) by {
            if starts_with(s@, fence()) {
                assert(s@.subrange(0, 3) =~= s@.take(3));
            }
        }
        return None;
    }
    let ghost rest = s@.skip(start as int);
    let mut i: usize = start;
    while i < n
        invariant
            start <= i <= n,
            n == s@.len(),
            rest == s@.skip(start as int),
            forall|k: int| start <= k < i ==> #[trigger] s@[k] == '\n',
        ensures
            start <= i <= n,
            forall|k: int| start <= k < i ==> #[trigger] s@[k] == '\n',
            i < n ==> s@[i as int] != '\n',
        decreases n - i,
    {
        if s.get_char(i) != '\n' {
            break;
        }
        i += 1;
    }
    proof {
        assert(leading_run(rest, '\n', i - start)) by {
            assert forall|k: int| 0 <= k < i - start implies #[trigger] rest[k] == '\n' by {
                assert(rest[k] == s@[k + start]);
            }
        }
        lemma_without_leading(rest, '\n', i - start);
        assert(rest.skip(i - start) =~= s@.skip(i as int));
    }
    let ghost body = s@.skip(i as int);
    if n - i >= 3 && matches_at(s, n, n - 3, plain.as_slice()) {
        proof {
            assert(body.skip(body.len() - 3) =~= s@.subrange(n - 3, n as int));
        }
        let mut j: usize = n - 3;
        while j > i
            invariant
                i <= j <= n - 3,
                n == s@.len(),
                forall|k: int| j <= k < n - 3 ==> #[trigger] s@[k] == '\n',
            ensures
                i <= j <= n - 3,
                forall|k: int| j <= k < n - 3 ==> #[trigger] s@[k] == '\n',
                j > i ==> s@[j - 1] != '\n',
            decreases j,
        {
            if s.get_char(j - 1) != '\n' {
                break;
            }
            j -= 1;
        }
        proof {
            let inner = body.take(body.len() - 3);
            assert(inner =~= s@.subrange(i as int, n - 3));
            assert(trailing_run(inner, '\n', j - i)) by {
                assert forall|k: int| j - i <= k < inner.len() implies #[trigger] inner[k] == '\n' by {
                    assert(inner[k] == s@[k + i]);
                }
                if j > i {
                    assert(inner[j - i - 1] == s@[j - 1]);
                }
            }
            lemma_without_trailing(inner, '\n', j - i);
            assert(inner.take(j - i) =~= s@.subrange(i as int, j as int));
        }
        Some(s.substring_char(i, j))
    } else {
        proof {
            if ends_with(body, fence()) {
                assert(body.skip(body.len() - 3) =~= s@.subrange(n - 3, n as int));
            }
        }
        None
    }
}

/// What a synthesis reply is parsed from: the trimmed reply, or the body of
/// the code fence it is wrapped in.
pub open spec fn synthesis_payload_of(raw: Seq<char>) -> Seq<char> {
    match unfenced(trimmed(raw)) {
        Some(body) => body,
        None => trimmed(raw),
    }
}

pub fn synthesis_payload(raw: &str) -> (r: &str)
    ensures
        r@ == synthesis_payload_of(raw@),
{
    let trimmed_raw = trim(raw);
    match strip_fence(trimmed_raw) {
        Some(body) => body,
        None => trimmed_raw,
    }
}

/// The prefix of the error reported when a synthesis reply does not parse.
pub open spec fn synthesis_parse_prefix() -> Seq<char> {
    "synthesis parse: "@
}

/// The outcome of a synthesis from the parse of its payload: the pairs, or a
/// backend error carrying the parser's message.
pub fn synthesis_outcome(parsed: Result<Vec<InstructionPair>, String>) -> (r: Result<
    Vec<InstructionPair>,
    OracleError,
>)
    ensures
        parsed matches Ok(pairs) ==> (r matches Ok(out) && out == pairs),
        parsed matches Err(detail) ==> (r matches Err(OracleError::Backend(m)) && m@
            == synthesis_parse_prefix() + detail@),
{
    match parsed {
        Ok(pairs) => Ok(pairs),
        Err(detail) => {
            let mut m = String::from_str("synthesis parse: ");
            m.append(detail.as_str());
            Err(OracleError::Backend(m))
        },
    }
}

} // verus!
