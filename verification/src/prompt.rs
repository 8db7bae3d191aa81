//! The text sent to the agent for one variation.

use vstd::prelude::*;
use crate::scenario::{ChatMessage, EvalVariation};
use crate::text::{push_str, same_text};

verus! {

/// The speaker label printed for a conversation role.
pub open spec fn role_label(role: Seq<char>) -> Seq<char> {
    if role == "user"@ {
        "User"@
    } else if role == "assistant"@ {
        "Assistant"@
    } else {
        role
    }
}

/// The transcript of `history`: each turn as `Label: content` followed by a
/// blank line.
pub open spec fn transcript(history: Seq<ChatMessage>) -> Seq<char>
    decreases history.len(),
{
    if history.len() == 0 {
        Seq::empty()
    } else {
        let m = history.last();
        transcript(history.drop_last()) + role_label(m.role@) + ": "@ + m.content@ + "\n\n"@
    }
}

/// The line that asks the agent to continue a conversation.
pub open spec fn continuation_header() -> Seq<char> {
    "Continue this conversation and respond to the final user message.\n\n"@
}

/// The single prompt for a variation: the bare prompt when there is no
/// history; otherwise the header, the transcript, and the prompt as the final
/// user turn.
pub open spec fn prompt_text(history: Seq<ChatMessage>, prompt: Seq<char>) -> Seq<char> {
    if history.len() == 0 {
        prompt
    } else {
        continuation_header() + transcript(history) + "User: "@ + prompt
    }
}

/// The label for `role`.
fn role_label_of(role: &str) -> (r: &str)
    ensures
        r@ == role_label(role@),
{
    if same_text(role, "user") {
        "User"
    } else if same_text(role, "assistant") {
        "Assistant"
    } else {
        role
    }
}

/// Prepends the conversation history (if any) to the prompt, so that a single
/// CLI invocation carries the whole conversational context.
pub fn build_prompt(variation: &EvalVariation) -> (p: String)
    ensures
        p@ == prompt_text(variation.history@, variation.prompt@),
{
    if variation.history.len() == 0 {
        return variation.prompt.clone();
    }
    let mut buf = String::new();
    push_str(&mut buf, "Continue this conversation and respond to the final user message.\n\n");
    let mut i: usize = 0;
    while i < variation.history.len()
        invariant
            i <= variation.history@.len(),
            buf@ == continuation_header() + transcript(variation.history@.take(i as int)),
        decreases variation.history@.len() - i,
    {
        let msg = &variation.history[i];
        push_str(&mut buf, role_label_of(msg.role.as_str()));
        push_str(&mut buf, ": ");
        push_str(&mut buf, msg.content.as_str());
        push_str(&mut buf, "\n\n");
        proof {
            let h = variation.history@.take(i + 1);
            assert(h.drop_last() == variation.history@.take(i as int));
            assert(h.last() == *msg);
        }
        i = i + 1;
    }
    assert(variation.history@.take(variation.history@.len() as int) == variation.history@);
    push_str(&mut buf, "User: ");
    push_str(&mut buf, variation.prompt.as_str());
    buf
}

/// The placeholder answer used in a dry run, naming the scenario and variation.
pub open spec fn dry_run_text(scenario_id: Seq<char>, variation_id: Seq<char>) -> Seq<char> {
    "[DRY-RUN stub — "@ + scenario_id + " / "@ + variation_id
        + "] Placeholder response for check-logic validation."@
}

/// The stub response that a dry run evaluates in place of an agent's answer.
pub fn dry_run_response(scenario_id: &str, variation_id: &str) -> (r: String)
    ensures
        r@ == dry_run_text(scenario_id@, variation_id@),
{
    let mut r = String::new();
    push_str(&mut r, "[DRY-RUN stub — ");
    push_str(&mut r, scenario_id);
    push_str(&mut r, " / ");
    push_str(&mut r, variation_id);
    push_str(&mut r, "] Placeholder response for check-logic validation.");
    r
}

} // verus!
