//! Guard configuration.

use vstd::prelude::*;

verus! {

/// What to do once the reasoning-only strikes run out.
#[derive(Clone, Copy, Debug, PartialEq, Eq, Structural)]
pub enum ReasoningOnlyAction {
    /// Fail the run.
    Fail,
    /// Switch thinking off and go on; fail if that does not help.
    DisableThinking,
}

/// Default guard configuration
pub struct DefaultGuardConfig {
    /// Maximum retries for reasoning-only responses
    pub reasoning_only_max_strikes: usize,
    /// Maximum retries for empty responses
    pub empty_response_max_strikes: usize,
    /// What to do once the reasoning-only strikes run out
    pub reasoning_only_action: ReasoningOnlyAction,
    /// Nudge message for reasoning-only responses
    pub reasoning_only_nudge: String,
    /// Nudge message sent when thinking is switched off
    pub disable_thinking_nudge: String,
    /// Nudge message for empty responses
    pub empty_response_nudge: String,
    /// Whether to use the LLM judge for text-only responses after tools
    pub use_llm_judge: bool,
    /// Timeout in seconds for the LLM judge call
    pub judge_timeout_secs: u64,
    /// Skip the judge if the response is at least this long (likely complete)
    pub judge_skip_threshold: usize,
    /// Whether to trust the model when the judge fails or times out.
    /// - true: fail-open (trust the model, end the loop)
    /// - false: fail-closed (do not trust it, force another turn)
    pub judge_fail_open: bool,
    /// Enable short-response detection: a long user input answered by a very
    /// short response is treated as potentially incomplete.
    pub detect_short_response: bool,
    /// User input must be longer than this to trigger short-response detection.
    pub short_response_min_input: usize,
    /// A response shorter than this counts as short.
    pub short_response_max_output: usize,
    /// Nudge message for short responses
    pub short_response_nudge: String,
    /// Number of recent user messages to put into the judge prompt.
    pub recent_user_count: usize,
}

pub const REASONING_ONLY_NUDGE: &'static str = "You produced internal reasoning but no tool call and no final answer. Make a decision now: call a tool to make progress, or write your final answer as plain text.";

pub const DISABLE_THINKING_NUDGE: &'static str = "Thinking has been disabled because you kept reasoning without output. Call a tool to make progress, or write your final answer as plain text.";

pub const EMPTY_RESPONSE_NUDGE: &'static str = "Your response was empty. Please provide a response with either a tool call or your final answer.";

pub const SHORT_RESPONSE_NUDGE: &'static str = "Your response may be incomplete — you may need to continue.";

impl Default for DefaultGuardConfig {
    fn default() -> (r: Self)
        ensures
            r.reasoning_only_max_strikes == 3,
            r.empty_response_max_strikes == 3,
            r.reasoning_only_action == ReasoningOnlyAction::Fail,
            r.reasoning_only_nudge@ == REASONING_ONLY_NUDGE@,
            r.disable_thinking_nudge@ == DISABLE_THINKING_NUDGE@,
            r.empty_response_nudge@ == EMPTY_RESPONSE_NUDGE@,
            r.use_llm_judge,
            r.judge_timeout_secs == 10,
            r.judge_skip_threshold == 256,
            !r.judge_fail_open,
            r.detect_short_response,
            r.short_response_min_input == 128,
            r.short_response_max_output == 64,
            r.short_response_nudge@ == SHORT_RESPONSE_NUDGE@,
            r.recent_user_count == 5,
    {
        DefaultGuardConfig {
            reasoning_only_max_strikes: 3,
            empty_response_max_strikes: 3,
            reasoning_only_action: ReasoningOnlyAction::Fail,
            reasoning_only_nudge: REASONING_ONLY_NUDGE.to_owned(),
            disable_thinking_nudge: DISABLE_THINKING_NUDGE.to_owned(),
            empty_response_nudge: EMPTY_RESPONSE_NUDGE.to_owned(),
            use_llm_judge: true,
            judge_timeout_secs: 10,
            judge_skip_threshold: 256,
            judge_fail_open: false,
            detect_short_response: true,
            short_response_min_input: 128,
            short_response_max_output: 64,
            short_response_nudge: SHORT_RESPONSE_NUDGE.to_owned(),
            recent_user_count: 5,
        }
    }
}

} // verus!
