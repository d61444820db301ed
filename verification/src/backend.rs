//! What a run is asked to do, the policy that drives it, and what it produces.
use vstd::prelude::*;
use vstd::string::*;

use crate::error::{AgentError, ErrorView};
use crate::events::{opt_text, StopReason, StopView};
use crate::extract::{extract_json, extracted};
use crate::json::{views, Json, JsonMap, JsonView, Number, NumberView};
use crate::text::{clip, clip_text, joined, same_text, IntoText};

verus! {

/// How the loop should spend model calls.
///
/// With two tiers, a cheap model drives the tool loop to gather context, then a
/// stronger model produces the final answer from what was gathered. That keeps
/// the bulk of the token volume on the cheap model while judgment stays on the
/// good one.
#[derive(Debug)]
pub struct ModelPolicy {
    /// Model for the tool-calling phase.
    pub explore: String,
    /// Model for the final answer. Equal to `explore` disables tiering.
    pub synthesize: String,
    /// Maximum tool-calling turns before synthesis is forced.
    pub max_turns: u32,
    /// Stop *once cumulative usage reaches this*, checked between turns.
    ///
    /// This is a **stop threshold, not a hard ceiling**: a call's cost cannot be
    /// known before making it, so the total can exceed this by at most one
    /// call's `max_tokens`. Named to say so. `None` disables the check.
    pub stop_after_tokens: Option<u32>,
    /// Wall-clock budget for the whole run.
    pub timeout_secs: Option<u64>,
    /// Per-call output cap sent to the provider. Also bounds the overshoot above.
    pub max_tokens: u32,
    /// The sampling temperature, as the number that is sent.
    pub temperature: Number,
    /// `tool_choice` for the first exploration turn only; later turns use
    /// `"auto"`. Lets a host force a tool call up front ("required") without
    /// forcing one every turn.
    pub initial_tool_choice: String,
    /// Cap on characters of tool output carried in the conversation.
    pub max_history_chars: usize,
    /// Whether a failing tool aborts the run or is fed back to the model.
    pub continue_on_tool_error: bool,
    /// Whether to run a final tools-forbidden synthesis turn once exploration is
    /// done.
    ///
    /// This is separate from tiering: a single-model run can want it too, to get
    /// "now produce only the JSON, no tools" on the same model. `single`
    /// defaults it off, `tiered` on; set it explicitly when neither fits.
    pub final_synthesis: bool,
    /// Extra top-level fields merged into every request body, applied last so
    /// they win over anything the wire format chose.
    ///
    /// The escape hatch for provider parameters this crate does not model.
    pub extra_body: JsonMap,
}

/// What a [`ModelPolicy`] is.
#[verifier::ext_equal]
pub struct PolicyView {
    pub explore: Seq<char>,
    pub synthesize: Seq<char>,
    pub max_turns: u32,
    pub stop_after_tokens: Option<u32>,
    pub timeout_secs: Option<u64>,
    pub max_tokens: u32,
    pub temperature: NumberView,
    pub initial_tool_choice: Seq<char>,
    pub max_history_chars: usize,
    pub continue_on_tool_error: bool,
    pub final_synthesis: bool,
    pub extra_body: Map<Seq<char>, JsonView>,
}

impl View for ModelPolicy {
    type V = PolicyView;

    open spec fn view(&self) -> PolicyView {
        PolicyView {
            explore: self.explore@,
            synthesize: self.synthesize@,
            max_turns: self.max_turns,
            stop_after_tokens: self.stop_after_tokens,
            timeout_secs: self.timeout_secs,
            max_tokens: self.max_tokens,
            temperature: self.temperature@,
            initial_tool_choice: self.initial_tool_choice@,
            max_history_chars: self.max_history_chars,
            continue_on_tool_error: self.continue_on_tool_error,
            final_synthesis: self.final_synthesis,
            extra_body: self.extra_body@,
        }
    }
}

/// The policy that names no model and has every limit at its default.
pub open spec fn default_policy() -> PolicyView {
    PolicyView {
        explore: Seq::empty(),
        synthesize: Seq::empty(),
        max_turns: 6,
        stop_after_tokens: Some(100_000),
        timeout_secs: Some(300),
        max_tokens: 4_000,
        temperature: NumberView::Float("0.20000000298023224"@),
        initial_tool_choice: "auto"@,
        max_history_chars: 45_000,
        continue_on_tool_error: true,
        final_synthesis: false,
        extra_body: Map::empty(),
    }
}

impl PolicyView {
    /// Whether tiering is active.
    pub open spec fn tiered(self) -> bool {
        self.explore != self.synthesize
    }

    /// The models that an answer is attributed to.
    pub open spec fn display(self) -> Seq<char> {
        if self.tiered() {
            self.synthesize + " (explore: "@ + self.explore + ")"@
        } else {
            self.synthesize
        }
    }
}

impl Default for ModelPolicy {
    fn default() -> (res: Self)
        ensures
            res@ == default_policy(),
            res.explore@.len() == 0,
            res.synthesize@.len() == 0,
            res.max_turns == 6,
            res.stop_after_tokens == Some(100_000u32),
            res.timeout_secs == Some(300u64),
            res.max_tokens == 4_000,
            res.temperature@ == NumberView::Float("0.20000000298023224"@),
            res.initial_tool_choice@ == "auto"@,
            res.max_history_chars == 45_000,
            res.continue_on_tool_error,
            !res.final_synthesis,
            res.extra_body@ == Map::<Seq<char>, JsonView>::empty(),
    {
        ModelPolicy {
            explore: String::new(),
            synthesize: String::new(),
            max_turns: 6,
            stop_after_tokens: Some(100_000),
            timeout_secs: Some(300),
            max_tokens: 4_000,
            temperature: Number::Float("0.20000000298023224".to_owned()),
            initial_tool_choice: "auto".to_owned(),
            max_history_chars: 45_000,
            continue_on_tool_error: true,
            final_synthesis: false,
            extra_body: JsonMap::new(),
        }
    }
}

impl Clone for ModelPolicy {
    fn clone(&self) -> (res: Self)
        ensures
            res@ == self@,
    {
        ModelPolicy {
            explore: self.explore.clone(),
            synthesize: self.synthesize.clone(),
            max_turns: self.max_turns,
            stop_after_tokens: self.stop_after_tokens,
            timeout_secs: self.timeout_secs,
            max_tokens: self.max_tokens,
            temperature: self.temperature.clone(),
            initial_tool_choice: self.initial_tool_choice.clone(),
            max_history_chars: self.max_history_chars,
            continue_on_tool_error: self.continue_on_tool_error,
            final_synthesis: self.final_synthesis,
            extra_body: self.extra_body.clone(),
        }
    }
}

impl ModelPolicy {
    /// Single-model policy — `explore` and `synthesize` are the same, and the
    /// loop's own completion is the answer (no separate synthesis turn).
    #[must_use]
    pub fn single<S: IntoText>(model: S) -> (res: Self)
        ensures
            res@ == (PolicyView {
                explore: model.text(),
                synthesize: model.text(),
                ..default_policy()
            }),
    {
        let mut policy = Self::default();
        let model = model.into_text();
        policy.explore = model.clone();
        policy.synthesize = model;
        policy
    }

    /// Two-tier policy: cheap exploration, then a strong-model synthesis turn.
    #[must_use]
    pub fn tiered<E: IntoText, S: IntoText>(explore: E, synthesize: S) -> (res: Self)
        ensures
            res@ == (PolicyView {
                explore: explore.text(),
                synthesize: synthesize.text(),
                final_synthesis: true,
                ..default_policy()
            }),
    {
        let mut policy = Self::default();
        policy.explore = explore.into_text();
        policy.synthesize = synthesize.into_text();
        policy.final_synthesis = true;
        policy
    }

    /// Whether tiering is active.
    #[must_use]
    pub fn is_tiered(&self) -> (res: bool)
        ensures
            res == self@.tiered(),
    {
        !same_text(self.explore.as_str(), self.synthesize.as_str())
    }

    /// Human-readable model attribution, honest about both tiers.
    #[must_use]
    pub fn display_model(&self) -> (res: String)
        ensures
            res@ == self@.display(),
    {
        if self.is_tiered() {
            let head = joined(self.synthesize.as_str(), " (explore: ");
            joined(joined(head.as_str(), self.explore.as_str()).as_str(), ")")
        } else {
            self.synthesize.clone()
        }
    }
}

/// What the loop was asked to do.
#[derive(Debug)]
pub struct RunRequest {
    pub system_prompt: String,
    pub user_prompt: String,
    /// Prior conversation, if resuming.
    pub messages: Vec<Json>,
    /// Names of the tools to expose. Empty exposes all registered tools.
    ///
    /// Tool descriptions are always-on context, so scoping a planner to a few
    /// delegation tools is both cheaper and more accurate than handing it
    /// everything.
    pub tool_scope: Vec<String>,
}

/// What a [`RunRequest`] is.
#[verifier::ext_equal]
pub struct RequestView {
    pub system_prompt: Seq<char>,
    pub user_prompt: Seq<char>,
    pub messages: Seq<JsonView>,
    pub tool_scope: Seq<Seq<char>>,
}

/// The texts of a list of strings.
pub open spec fn string_views(items: Seq<String>) -> Seq<Seq<char>> {
    items.map_values(|s: String| s@)
}

impl View for RunRequest {
    type V = RequestView;

    open spec fn view(&self) -> RequestView {
        RequestView {
            system_prompt: self.system_prompt@,
            user_prompt: self.user_prompt@,
            messages: views(self.messages@),
            tool_scope: string_views(self.tool_scope@),
        }
    }
}

impl Default for RunRequest {
    fn default() -> (res: Self)
        ensures
            res@ == (RequestView {
                system_prompt: Seq::empty(),
                user_prompt: Seq::empty(),
                messages: Seq::empty(),
                tool_scope: Seq::empty(),
            }),
    {
        let res = RunRequest {
            system_prompt: String::new(),
            user_prompt: String::new(),
            messages: Vec::new(),
            tool_scope: Vec::new(),
        };
        assert(res@.messages =~= Seq::empty());
        assert(res@.tool_scope =~= Seq::empty());
        res
    }
}

impl Clone for RunRequest {
    fn clone(&self) -> (res: Self)
        ensures
            res@ == self@,
    {
        let res = RunRequest {
            system_prompt: self.system_prompt.clone(),
            user_prompt: self.user_prompt.clone(),
            messages: self.messages.clone(),
            tool_scope: self.tool_scope.clone(),
        };
        assert(res@.messages =~= self@.messages);
        assert(res@.tool_scope =~= self@.tool_scope);
        res
    }
}

/// What the loop produced.
#[derive(Debug)]
pub struct RunOutcome {
    /// Final assistant text, if any.
    pub content: Option<String>,
    /// Model round-trips made, including the synthesis call on a tiered run —
    /// so this can exceed `ModelPolicy::max_turns`, which caps exploration only.
    pub turns: u32,
    pub total_tokens: u32,
    pub duration_ms: u64,
    pub stop_reason: StopReason,
    /// Full transcript, for persistence or a follow-up turn.
    pub messages: Vec<Json>,
    /// Model attribution — see [`ModelPolicy::display_model`].
    pub model: String,
}

/// What a [`RunOutcome`] is.
#[verifier::ext_equal]
pub struct OutcomeView {
    pub content: Option<Seq<char>>,
    pub turns: u32,
    pub total_tokens: u32,
    pub duration_ms: u64,
    pub stop_reason: StopView,
    pub messages: Seq<JsonView>,
    pub model: Seq<char>,
}

impl View for RunOutcome {
    type V = OutcomeView;

    open spec fn view(&self) -> OutcomeView {
        OutcomeView {
            content: opt_text(self.content),
            turns: self.turns,
            total_tokens: self.total_tokens,
            duration_ms: self.duration_ms,
            stop_reason: self.stop_reason@,
            messages: views(self.messages@),
            model: self.model@,
        }
    }
}

impl Clone for RunOutcome {
    fn clone(&self) -> (res: Self)
        ensures
            res@ == self@,
    {
        let res = RunOutcome {
            content: match &self.content {
                Some(s) => Some(s.clone()),
                None => None,
            },
            turns: self.turns,
            total_tokens: self.total_tokens,
            duration_ms: self.duration_ms,
            stop_reason: self.stop_reason.clone(),
            messages: self.messages.clone(),
            model: self.model.clone(),
        };
        assert(res@.messages =~= self@.messages);
        res
    }
}

/// The JSON that a final message holds, or the error when it holds none.
pub open spec fn structured_ending(content: Option<Seq<char>>) -> Result<Seq<char>, ErrorView> {
    let text = match content {
        Some(s) => s,
        None => Seq::empty(),
    };
    match extracted(text) {
        Some(json) => Ok(json),
        None => Err(
            ErrorView::Decode("no JSON object in response: "@ + clip_text(text, 300)),
        ),
    }
}

impl RunOutcome {
    /// The JSON in the final message, for a caller that wants a typed ending.
    ///
    /// # Errors
    /// [`AgentError::Decode`] if the final message contains no JSON.
    pub fn structured(&self) -> (res: Result<&str, AgentError>)
        ensures
            match res {
                Ok(json) => structured_ending(self@.content) == Ok::<Seq<char>, ErrorView>(json@),
                Err(e) => structured_ending(self@.content) == Err::<Seq<char>, ErrorView>(e@),
            },
    {
        let content = match &self.content {
            Some(s) => s.as_str(),
            None => {
                proof {
                    reveal_strlit("");
                    assert(""@ =~= Seq::<char>::empty());
                }
                ""
            },
        };
        match extract_json(content) {
            Some(json) => Ok(json),
            None => Err(
                AgentError::Decode(
                    joined("no JSON object in response: ", clip(content, 300).as_str()),
                ),
            ),
        }
    }
}

/// The error for a final message whose JSON is not what the caller asked for.
pub fn not_decoded(reason: &str, json: &str) -> (res: AgentError)
    ensures
        res@ == ErrorView::Decode(reason@ + ": "@ + clip_text(json@, 300)),
{
    AgentError::Decode(joined(joined(reason, ": ").as_str(), clip(json, 300).as_str()))
}

/// A run without a final message has no structured ending.
pub proof fn no_content_is_a_decode_error()
    ensures
        structured_ending(None) is Err,
{
    let none = Seq::<char>::empty();
    if extracted(none) is Some {
        crate::extract::extracted_json_is_part_of_the_text(none);
    }
}

/// A policy has two tiers if and only if its models differ, and then names both of
/// them, the one that answers first.
pub proof fn both_tiers_are_named(policy: PolicyView)
    ensures
        policy.tiered() <==> policy.explore != policy.synthesize,
        policy.display() == if policy.explore == policy.synthesize {
            policy.synthesize
        } else {
            policy.synthesize + " (explore: "@ + policy.explore + ")"@
        },
{
}

} // verus!
