//! What a guard is told about a turn, and what it decides.

use vstd::prelude::*;
use crate::text::opt_text;

verus! {

/// The state of a run as a guard sees it after one model turn.
pub struct GuardCtx {
    /// The user message that started the run.
    pub user_input: String,
    /// The text the model produced in this turn.
    pub model_response: String,
    /// Consecutive turns that held reasoning and nothing else.
    pub reasoning_only_strikes: usize,
    /// Consecutive turns that held nothing at all.
    pub empty_response_strikes: usize,
    /// Whether any tool was called in this run.
    pub run_has_tool_calls: bool,
    /// Whether the latest tool calls were all rejected before they ran.
    pub last_tool_calls_invalid: bool,
    /// Every user message of the session, oldest first.
    pub all_user_inputs: Vec<String>,
    /// The turn held reasoning and nothing else.
    pub is_reasoning_only: bool,
    /// The turn held nothing at all.
    pub is_empty_response: bool,
    /// The turn held text and no tool call.
    pub is_text_only: bool,
    /// Whether thinking is switched off for the rest of the run.
    pub thinking_disabled: bool,
    /// Whether thinking was on when the run started.
    pub original_thinking_enabled: bool,
}

/// What the run does next.
#[allow(inconsistent_fields)]
#[derive(Debug)]
pub enum GuardDecision {
    /// Go on, with an optional message to the model.
    Continue { nudge: Option<String> },
    /// The run is complete.
    Complete,
    /// The run has failed.
    Fail { error: String },
    /// Switch thinking off and go on with a message to the model.
    DisableThinking { nudge: String },
    /// Switch thinking back on.
    RestoreThinking,
}

/// The mathematical value of a [`GuardDecision`].
#[allow(inconsistent_fields)]
pub enum DecisionView {
    Continue { nudge: Option<Seq<char>> },
    Complete,
    Fail { error: Seq<char> },
    DisableThinking { nudge: Seq<char> },
    RestoreThinking,
}

impl View for GuardDecision {
    type V = DecisionView;

    open spec fn view(&self) -> DecisionView {
        match *self {
            GuardDecision::Continue { nudge } => DecisionView::Continue { nudge: opt_text(nudge) },
            GuardDecision::Complete => DecisionView::Complete,
            GuardDecision::Fail { error } => DecisionView::Fail { error: error@ },
            GuardDecision::DisableThinking { nudge } => DecisionView::DisableThinking {
                nudge: nudge@,
            },
            GuardDecision::RestoreThinking => DecisionView::RestoreThinking,
        }
    }
}

/// The decision to go on with the message `nudge`.
pub open spec fn nudged(nudge: Seq<char>) -> DecisionView {
    DecisionView::Continue { nudge: Some(nudge) }
}

/// A decision stands for what it says: its kind, and its message as it is.
pub proof fn law_decisions_stand_for_themselves(text: String, d: GuardDecision)
    ensures
        (GuardDecision::Continue { nudge: Some(text) })@ == (DecisionView::Continue {
            nudge: Some(text@),
        }),
        (GuardDecision::Continue { nudge: None })@ == (DecisionView::Continue { nudge: None }),
        (GuardDecision::Fail { error: text })@ == (DecisionView::Fail { error: text@ }),
        (GuardDecision::DisableThinking { nudge: text })@ == (DecisionView::DisableThinking {
            nudge: text@,
        }),
        d@ is Complete <==> d is Complete,
        d@ is RestoreThinking <==> d is RestoreThinking,
        nudged(text@) == (DecisionView::Continue { nudge: Some(text@) }),
{
}

} // verus!
