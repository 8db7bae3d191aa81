//! Test scenarios: what the runner reads of a scenario suite.

use vstd::prelude::*;
use crate::text::same_text;

verus! {

/// One earlier turn of a conversation.
pub struct ChatMessage {
    /// `user`, `assistant`, or another speaker label.
    pub role: String,
    pub content: String,
}

/// What a response to a variation is scored against.
pub struct VariationRubric {
    /// Keywords the response is expected to contain.
    pub expected_keywords: Vec<String>,
    /// Fewest words the response may have, where bounded.
    pub min_words: Option<u32>,
    /// Most words the response may have, where bounded.
    pub max_words: Option<u32>,
    /// Named checks that must pass.
    pub checks: Vec<String>,
}

/// The texts of a list of strings.
pub open spec fn texts(v: Seq<String>) -> Seq<Seq<char>> {
    v.map_values(|s: String| s@)
}

/// The mathematical content of a [`VariationRubric`].
pub struct RubricView {
    pub expected_keywords: Seq<Seq<char>>,
    pub min_words: Option<u32>,
    pub max_words: Option<u32>,
    pub checks: Seq<Seq<char>>,
}

impl View for VariationRubric {
    type V = RubricView;

    open spec fn view(&self) -> RubricView {
        RubricView {
            expected_keywords: texts(self.expected_keywords@),
            min_words: self.min_words,
            max_words: self.max_words,
            checks: texts(self.checks@),
        }
    }
}

/// One prompt variation of a scenario.
pub struct EvalVariation {
    pub id: String,
    /// The final user message sent to the agent.
    pub prompt: String,
    /// Conversation turns that precede the prompt (may be empty).
    pub history: Vec<ChatMessage>,
    /// What the response is scored against, before any profile override.
    pub rubric: VariationRubric,
}

/// What a scenario's rubric allows the agent to do.
pub struct ScenarioRubric {
    /// When false the agent is asked to run without tool execution.
    pub tools_enabled: bool,
}

/// A test scenario: several prompt variations that exercise one behaviour.
pub struct EvalScenario {
    pub id: String,
    pub name: String,
    pub category: String,
    pub rubric: ScenarioRubric,
    pub variations: Vec<EvalVariation>,
}

/// An ordered collection of scenarios.
pub struct EvalScenarioSuite {
    pub scenarios: Vec<EvalScenario>,
}

/// A scenario with this id is selected by the filter `ids` (empty selects all).
pub open spec fn is_selected(ids: Seq<String>, id: Seq<char>) -> bool {
    ids.len() == 0 || exists|k: int| 0 <= k < ids.len() && (#[trigger] ids[k])@ == id
}

/// Positions, in suite order, of the first `n` scenarios that the filter selects.
pub open spec fn selected_positions(scenarios: Seq<EvalScenario>, ids: Seq<String>, n: nat) -> Seq<usize>
    decreases n,
{
    if n == 0 {
        Seq::empty()
    } else {
        let earlier = selected_positions(scenarios, ids, (n - 1) as nat);
        if is_selected(ids, scenarios[n - 1].id@) {
            earlier.push((n - 1) as usize)
        } else {
            earlier
        }
    }
}

/// Whether `id` is among `ids`, or `ids` is empty.
fn selects(ids: &Vec<String>, id: &String) -> (b: bool)
    ensures
        b == is_selected(ids@, id@),
{
    if ids.len() == 0 {
        return true;
    }
    let mut k: usize = 0;
    while k < ids.len()
        invariant
            k <= ids@.len(),
            forall|j: int| 0 <= j < k ==> (#[trigger] ids@[j])@ != id@,
        decreases ids@.len() - k,
    {
        if same_text(ids[k].as_str(), id.as_str()) {
            return true;
        }
        k = k + 1;
    }
    false
}

impl EvalScenarioSuite {
    /// Positions of the scenarios whose id is in `ids`, in suite order; all
    /// positions when `ids` is empty.
    pub fn filter_by_ids(&self, ids: &Vec<String>) -> (r: Vec<usize>)
        ensures
            r@ == selected_positions(self.scenarios@, ids@, self.scenarios@.len()),
    {
        let mut r: Vec<usize> = Vec::new();
        let mut i: usize = 0;
        while i < self.scenarios.len()
            invariant
                i <= self.scenarios@.len(),
                r@ == selected_positions(self.scenarios@, ids@, i as nat),
            decreases self.scenarios@.len() - i,
        {
            if selects(ids, &self.scenarios[i].id) {
                r.push(i);
            }
            i = i + 1;
        }
        r
    }
}

} // verus!
