//! The default guard.

use vstd::prelude::*;
use crate::guard::config::{DefaultGuardConfig, ReasoningOnlyAction};
use crate::guard::judge::{
    call_completion_judge, judge_prompt, no_client_verdict, settle_judge, settled_verdict,
    user_context, verdict_view, JudgeReply, JudgeRequest, JudgeResult, JudgeStep, VerdictView,
    JUDGE_SYSTEM_PROMPT,
};
use crate::guard::types::{nudged, DecisionView, GuardCtx, GuardDecision};
use crate::text::texts;

verus! {

/// Above this many characters of user input the judge is not consulted.
pub const INPUT_LEN_LIMIT: usize = 10_000;

pub const REISSUE_NUDGE: &'static str = "Your previous tool call was NOT executed — its arguments were invalid or truncated. The report you just wrote describes work that never happened; do not narrate results. Re-issue the tool call with complete, valid JSON arguments.";

pub const REASONING_FAIL: &'static str = "model produced only reasoning across multiple turns";

pub const REASONING_FAIL_DISABLED: &'static str = "model produced only reasoning even after thinking was disabled";

pub const EMPTY_FAIL: &'static str = "model returned empty responses repeatedly";

pub const UNVERIFIED_NUDGE: &'static str = "Cannot verify task completion, please continue working.";

/// Default guard implementation
///
/// Keeps no state of its own: everything it needs is in the [`GuardCtx`].
pub struct DefaultGuard {
    pub config: DefaultGuardConfig,
    /// Whether a model is at hand for the judge.
    pub has_llm_client: bool,
}

/// What a guard does with a turn: decide at once, or ask the judge first.
pub enum TurnStep {
    Decided(GuardDecision),
    AskJudge(JudgeRequest),
}

/// What the guard makes of a turn, before any judge has spoken.
pub enum Ruling {
    Decided(DecisionView),
    NeedsJudge,
}

/// A reasoning-only turn: nudge while strikes are left; then fail, or switch
/// thinking off where that is configured and not done yet.
pub open spec fn reasoning_only_ruling(c: DefaultGuardConfig, ctx: GuardCtx) -> DecisionView {
    if ctx.reasoning_only_strikes < c.reasoning_only_max_strikes {
        nudged(c.reasoning_only_nudge@)
    } else if c.reasoning_only_action == ReasoningOnlyAction::Fail {
        DecisionView::Fail { error: REASONING_FAIL@ }
    } else if ctx.thinking_disabled {
        DecisionView::Fail { error: REASONING_FAIL_DISABLED@ }
    } else {
        DecisionView::DisableThinking { nudge: c.disable_thinking_nudge@ }
    }
}

/// An empty turn: nudge while strikes are left, then fail.
pub open spec fn empty_response_ruling(c: DefaultGuardConfig, ctx: GuardCtx) -> DecisionView {
    if ctx.empty_response_strikes < c.empty_response_max_strikes {
        nudged(c.empty_response_nudge@)
    } else {
        DecisionView::Fail { error: EMPTY_FAIL@ }
    }
}

/// A substantial question that got a very short answer.
pub open spec fn is_short_response(c: DefaultGuardConfig, ctx: GuardCtx) -> bool {
    &&& c.detect_short_response
    &&& ctx.user_input@.len() > c.short_response_min_input
    &&& ctx.model_response@.len() < c.short_response_max_output
    &&& ctx.user_input@.len() > ctx.model_response@.len()
}

/// A text-only turn, up to the question whether the judge is needed.
pub open spec fn text_only_ruling(c: DefaultGuardConfig, ctx: GuardCtx) -> Ruling {
    let judged = ctx.run_has_tool_calls && c.use_llm_judge;
    let short = is_short_response(c, ctx);
    if ctx.last_tool_calls_invalid {
        Ruling::Decided(nudged(REISSUE_NUDGE@))
    } else if !judged {
        Ruling::Decided(
            if short {
                nudged(c.short_response_nudge@)
            } else {
                DecisionView::Complete
            },
        )
    } else if !short && ctx.model_response@.len() >= c.judge_skip_threshold {
        Ruling::Decided(DecisionView::Complete)
    } else if ctx.user_input@.len() > INPUT_LEN_LIMIT {
        Ruling::Decided(DecisionView::Complete)
    } else {
        Ruling::NeedsJudge
    }
}

/// What a verdict on a text-only turn leads to.
pub open spec fn verdict_ruling(v: VerdictView, fail_open: bool) -> DecisionView {
    match v {
        VerdictView::Judged { done, reason } => if done {
            DecisionView::Complete
        } else {
            nudged(
                "Your answer is incomplete: "@ + reason + ". Continue working on the task."@,
            )
        },
        VerdictView::Failed { error } => if fail_open {
            DecisionView::Complete
        } else {
            nudged(UNVERIFIED_NUDGE@)
        },
    }
}

/// A turn, up to the question whether the judge is needed: reasoning-only
/// comes before empty, and empty before text-only.
pub open spec fn turn_ruling(c: DefaultGuardConfig, ctx: GuardCtx) -> Ruling {
    if ctx.is_reasoning_only {
        Ruling::Decided(reasoning_only_ruling(c, ctx))
    } else if ctx.is_empty_response {
        Ruling::Decided(empty_response_ruling(c, ctx))
    } else if ctx.is_text_only {
        text_only_ruling(c, ctx)
    } else {
        Ruling::Decided(DecisionView::Complete)
    }
}

/// What the guard asks the judge about a turn.
pub open spec fn asks(c: DefaultGuardConfig, ctx: GuardCtx, q: JudgeRequest) -> bool {
    &&& q.json_object
    &&& q.system_prompt@ == JUDGE_SYSTEM_PROMPT@
    &&& q.timeout_secs == c.judge_timeout_secs
    &&& q.user_prompt@ == judge_prompt(
        user_context(ctx.user_input@, texts(ctx.all_user_inputs@), c.recent_user_count as nat),
        ctx.model_response@,
    )
}

/// What the guard does with a turn whose ruling is known.
pub open spec fn step_follows(
    c: DefaultGuardConfig,
    has_client: bool,
    ctx: GuardCtx,
    ruling: Ruling,
    step: TurnStep,
) -> bool {
    match ruling {
        Ruling::Decided(d) => step matches TurnStep::Decided(x) && x@ == d,
        Ruling::NeedsJudge => if has_client {
            step matches TurnStep::AskJudge(q) && asks(c, ctx, q)
        } else {
            step matches TurnStep::Decided(x) && x@ == verdict_ruling(
                no_client_verdict(c.judge_fail_open),
                c.judge_fail_open,
            )
        },
    }
}

/// The decision on a turn once the judge, where it is needed, has replied.
pub open spec fn full_ruling(
    c: DefaultGuardConfig,
    has_client: bool,
    ctx: GuardCtx,
    reply: JudgeReply,
) -> DecisionView {
    match turn_ruling(c, ctx) {
        Ruling::Decided(d) => d,
        Ruling::NeedsJudge => verdict_ruling(
            if has_client {
                settled_verdict(reply, c.judge_fail_open, c.judge_timeout_secs as nat)
            } else {
                no_client_verdict(c.judge_fail_open)
            },
            c.judge_fail_open,
        ),
    }
}

/// What the guard makes of a tool call.
pub open spec fn tool_call_ruling(ctx: GuardCtx) -> DecisionView {
    if ctx.thinking_disabled && ctx.original_thinking_enabled {
        DecisionView::RestoreThinking
    } else {
        DecisionView::Complete
    }
}

fn nudge(text: &str) -> (r: GuardDecision)
    ensures
        r@ == nudged(text@),
{
    GuardDecision::Continue { nudge: Some(text.to_owned()) }
}

impl DefaultGuard {
    pub fn new(config: DefaultGuardConfig) -> (r: Self)
        ensures
            r.config == config,
            !r.has_llm_client,
    {
        DefaultGuard { config, has_llm_client: false }
    }

    /// A guard that has a model at hand for the judge.
    pub fn with_llm_client(config: DefaultGuardConfig) -> (r: Self)
        ensures
            r.config == config,
            r.has_llm_client,
    {
        DefaultGuard { config, has_llm_client: true }
    }

    /// Decides on a turn that held reasoning and nothing else.
    pub fn handle_reasoning_only(&self, ctx: &GuardCtx) -> (r: GuardDecision)
        ensures
            r@ == reasoning_only_ruling(self.config, *ctx),
    {
        if ctx.reasoning_only_strikes < self.config.reasoning_only_max_strikes {
            return nudge(self.config.reasoning_only_nudge.as_str());
        }
        match self.config.reasoning_only_action {
            ReasoningOnlyAction::Fail => GuardDecision::Fail { error: REASONING_FAIL.to_owned() },
            ReasoningOnlyAction::DisableThinking => {
                if ctx.thinking_disabled {
                    GuardDecision::Fail { error: REASONING_FAIL_DISABLED.to_owned() }
                } else {
                    GuardDecision::DisableThinking {
                        nudge: self.config.disable_thinking_nudge.clone(),
                    }
                }
            },
        }
    }

    /// Decides on a turn that held nothing at all.
    pub fn handle_empty_response(&self, ctx: &GuardCtx) -> (r: GuardDecision)
        ensures
            r@ == empty_response_ruling(self.config, *ctx),
    {
        if ctx.empty_response_strikes >= self.config.empty_response_max_strikes {
            return GuardDecision::Fail { error: EMPTY_FAIL.to_owned() };
        }
        nudge(self.config.empty_response_nudge.as_str())
    }

    /// Decides on a turn that held text and no tool call, or asks the judge.
    pub fn handle_text_only(&self, ctx: &GuardCtx) -> (r: TurnStep)
        ensures
            step_follows(
                self.config,
                self.has_llm_client,
                *ctx,
                text_only_ruling(self.config, *ctx),
                r,
            ),
    {
        // A text-only turn that follows rejected tool calls is not completion:
        // the work the text describes never ran.
        if ctx.last_tool_calls_invalid {
            return TurnStep::Decided(nudge(REISSUE_NUDGE));
        }
        let input_len: usize = ctx.user_input.as_str().unicode_len();
        let output_len: usize = ctx.model_response.as_str().unicode_len();
        let short = self.config.detect_short_response && input_len
            > self.config.short_response_min_input && output_len
            < self.config.short_response_max_output && input_len > output_len;
        if !(ctx.run_has_tool_calls && self.config.use_llm_judge) {
            return TurnStep::Decided(
                if short {
                    nudge(self.config.short_response_nudge.as_str())
                } else {
                    GuardDecision::Complete
                },
            );
        }
        if !short && output_len >= self.config.judge_skip_threshold {
            return TurnStep::Decided(GuardDecision::Complete);
        }
        // The judge would be too slow on very large inputs.
        if input_len > INPUT_LEN_LIMIT {
            return TurnStep::Decided(GuardDecision::Complete);
        }
        match call_completion_judge(
            self.has_llm_client,
            ctx.user_input.as_str(),
            ctx.model_response.as_str(),
            &ctx.all_user_inputs,
            self.config.judge_fail_open,
            self.config.judge_timeout_secs,
            self.config.recent_user_count,
        ) {
            JudgeStep::Settled(v) => TurnStep::Decided(self.decide_on_verdict(v)),
            JudgeStep::Ask(q) => TurnStep::AskJudge(q),
        }
    }

    /// Decides on a text-only turn given the verdict on it.
    pub fn decide_on_verdict(&self, verdict: Result<JudgeResult, String>) -> (r: GuardDecision)
        ensures
            r@ == verdict_ruling(verdict_view(verdict), self.config.judge_fail_open),
    {
        match verdict {
            Ok(judge) => {
                if judge.done {
                    GuardDecision::Complete
                } else {
                    let mut m = "Your answer is incomplete: ".to_owned();
                    m.append(judge.reason.as_str());
                    m.append(". Continue working on the task.");
                    GuardDecision::Continue { nudge: Some(m) }
                }
            },
            Err(_) => {
                if self.config.judge_fail_open {
                    GuardDecision::Complete
                } else {
                    nudge(UNVERIFIED_NUDGE)
                }
            },
        }
    }

    /// Decides on a text-only turn given what came of the call to the judge.
    pub fn on_judge_reply(&self, reply: JudgeReply) -> (r: GuardDecision)
        ensures
            r@ == verdict_ruling(
                settled_verdict(
                    reply,
                    self.config.judge_fail_open,
                    self.config.judge_timeout_secs as nat,
                ),
                self.config.judge_fail_open,
            ),
    {
        self.decide_on_verdict(
            settle_judge(reply, self.config.judge_fail_open, self.config.judge_timeout_secs),
        )
    }

    /// Judges the scene of a turn: decides at once, or asks the judge.
    pub fn on_turn(&self, ctx: &GuardCtx) -> (r: TurnStep)
        ensures
            step_follows(
                self.config,
                self.has_llm_client,
                *ctx,
                turn_ruling(self.config, *ctx),
                r,
            ),
    {
        if ctx.is_reasoning_only {
            TurnStep::Decided(self.handle_reasoning_only(ctx))
        } else if ctx.is_empty_response {
            TurnStep::Decided(self.handle_empty_response(ctx))
        } else if ctx.is_text_only {
            self.handle_text_only(ctx)
        } else {
            TurnStep::Decided(GuardDecision::Complete)
        }
    }

    /// The decision on a turn, where `reply` is what a call to the judge, if
    /// one is made, comes back with.
    pub fn on_turn_with_reply(&self, ctx: &GuardCtx, reply: JudgeReply) -> (r: GuardDecision)
        ensures
            r@ == full_ruling(self.config, self.has_llm_client, *ctx, reply),
    {
        match self.on_turn(ctx) {
            TurnStep::Decided(d) => d,
            TurnStep::AskJudge(_) => self.on_judge_reply(reply),
        }
    }

    /// Switches thinking back on when the model calls a tool, if the guard had
    /// switched it off and the user had it on.
    pub fn on_tool_call(&self, ctx: &GuardCtx) -> (r: GuardDecision)
        ensures
            r@ == tool_call_ruling(*ctx),
            r@ == if ctx.thinking_disabled && ctx.original_thinking_enabled {
                DecisionView::RestoreThinking
            } else {
                DecisionView::Complete
            },
    {
        if ctx.thinking_disabled && ctx.original_thinking_enabled {
            return GuardDecision::RestoreThinking;
        }
        GuardDecision::Complete
    }
}

/// A text-only turn that follows rejected tool calls never completes the run,
/// whatever the judge would say.
pub proof fn law_rejected_calls_never_complete(
    c: DefaultGuardConfig,
    has_client: bool,
    ctx: GuardCtx,
    reply: JudgeReply,
)
    requires
        ctx.last_tool_calls_invalid,
        ctx.is_text_only,
    ensures
        full_ruling(c, has_client, ctx, reply) !is Complete,
{
}

/// Reasoning-only and empty turns never complete the run.
pub proof fn law_degenerate_turns_never_complete(
    c: DefaultGuardConfig,
    has_client: bool,
    ctx: GuardCtx,
    reply: JudgeReply,
)
    requires
        ctx.is_reasoning_only || ctx.is_empty_response,
    ensures
        full_ruling(c, has_client, ctx, reply) !is Complete,
{
}

/// A run that has used up its strikes on reasoning-only turns is stopped or
/// loses thinking; with thinking already off it is stopped.
pub proof fn law_reasoning_strikes_are_bounded(
    c: DefaultGuardConfig,
    has_client: bool,
    ctx: GuardCtx,
    reply: JudgeReply,
)
    requires
        ctx.is_reasoning_only,
        ctx.reasoning_only_strikes >= c.reasoning_only_max_strikes,
    ensures
        full_ruling(c, has_client, ctx, reply) is Fail || full_ruling(c, has_client, ctx, reply)
            is DisableThinking,
        ctx.thinking_disabled ==> full_ruling(c, has_client, ctx, reply) is Fail,
{
}

/// With failures not trusted, a text-only turn that needs the judge completes
/// the run only on the judge's own word.
pub proof fn law_fail_closed_needs_verdict(
    c: DefaultGuardConfig,
    has_client: bool,
    ctx: GuardCtx,
    reply: JudgeReply,
)
    requires
        !c.judge_fail_open,
        turn_ruling(c, ctx) is NeedsJudge,
        full_ruling(c, has_client, ctx, reply) is Complete,
    ensures
        has_client,
        reply is Verdict,
        reply->Verdict_0.done,
{
}

/// With failures trusted, a judge that fails completes the run.
pub proof fn law_fail_open_completes(
    c: DefaultGuardConfig,
    has_client: bool,
    ctx: GuardCtx,
    reply: JudgeReply,
)
    requires
        c.judge_fail_open,
        turn_ruling(c, ctx) is NeedsJudge,
        reply !is Verdict,
    ensures
        full_ruling(c, has_client, ctx, reply) is Complete,
{
}

/// Where a turn needs the judge and the judge answers, its word decides, with
/// failures trusted or not: the run is complete exactly when the judge says so,
/// and otherwise it goes on with a nudge that holds the judge's reason.
pub proof fn law_the_judges_word_decides(
    c: DefaultGuardConfig,
    ctx: GuardCtx,
    verdict: JudgeResult,
)
    requires
        turn_ruling(c, ctx) is NeedsJudge,
    ensures
        ({
            let d = full_ruling(c, true, ctx, JudgeReply::Verdict(verdict));
            &&& d is Complete <==> verdict.done
            &&& !verdict.done ==> (d matches DecisionView::Continue { nudge: Some(n) } && n
                == "Your answer is incomplete: "@ + verdict.reason@
                + ". Continue working on the task."@)
        }),
        forall|fail_open: bool| #[trigger]
            verdict_ruling(
                VerdictView::Judged { done: verdict.done, reason: verdict.reason@ },
                fail_open,
            ) is Complete <==> verdict.done,
{
}

/// A judge that could not be asked or did not answer completes the run exactly
/// when failures are trusted, and otherwise the run goes on.
pub proof fn law_a_failing_judge(
    c: DefaultGuardConfig,
    has_client: bool,
    ctx: GuardCtx,
    reply: JudgeReply,
)
    requires
        turn_ruling(c, ctx) is NeedsJudge,
        has_client ==> reply !is Verdict,
    ensures
        full_ruling(c, has_client, ctx, reply) is Complete <==> c.judge_fail_open,
        !c.judge_fail_open ==> full_ruling(c, has_client, ctx, reply) is Continue,
{
}

/// Whether a turn is a text and nothing else.
pub open spec fn plain_text_turn(ctx: GuardCtx) -> bool {
    ctx.is_text_only && !ctx.is_empty_response && !ctx.is_reasoning_only
}

/// Whether a long question got a short answer, by the numbers of the
/// configuration.
pub open spec fn question_outgrows_answer(c: DefaultGuardConfig, ctx: GuardCtx) -> bool {
    let asked = ctx.user_input@.len();
    let told = ctx.model_response@.len();
    c.detect_short_response && asked > c.short_response_min_input && told
        < c.short_response_max_output && asked > told
}

/// The judge is asked about a text exactly when the tools' calls were not
/// rejected, tools were used, the judge is on, the question is not too long for
/// it, and the answer is below the length that is trusted or too short for its
/// question.
pub proof fn law_when_the_judge_is_asked(c: DefaultGuardConfig, ctx: GuardCtx)
    requires
        plain_text_turn(ctx),
    ensures
        turn_ruling(c, ctx) is NeedsJudge <==> {
            &&& !ctx.last_tool_calls_invalid
            &&& ctx.run_has_tool_calls
            &&& c.use_llm_judge
            &&& ctx.user_input@.len() <= 10_000
            &&& ctx.model_response@.len() < c.judge_skip_threshold || question_outgrows_answer(
                c,
                ctx,
            )
        },
{
}

/// A text that needs no judge completes the run, unless the tools' calls were
/// rejected, or it is too short for its question and no judge can be asked: then
/// the run goes on, with the configured nudge in the latter case.
pub proof fn law_texts_without_a_judge(c: DefaultGuardConfig, ctx: GuardCtx)
    requires
        plain_text_turn(ctx),
        turn_ruling(c, ctx) !is NeedsJudge,
    ensures
        ({
            let goes_on = ctx.last_tool_calls_invalid || (question_outgrows_answer(c, ctx) && !(
            ctx.run_has_tool_calls && c.use_llm_judge));
            &&& turn_ruling(c, ctx) matches Ruling::Decided(d)
            &&& d is Complete <==> !goes_on
            &&& goes_on ==> d is Continue
            &&& goes_on && !ctx.last_tool_calls_invalid ==> d == (DecisionView::Continue {
                nudge: Some(c.short_response_nudge@),
            })
        }),
{
}

/// While strikes are left, reasoning-only and empty turns go on with the nudge
/// configured for them, whatever the turn's text is; with no strikes left an
/// empty turn fails, and a reasoning-only one fails too unless thinking can
/// still be switched off.
pub proof fn law_degenerate_turns(c: DefaultGuardConfig, ctx: GuardCtx)
    ensures
        ctx.is_reasoning_only && ctx.reasoning_only_strikes < c.reasoning_only_max_strikes
            ==> turn_ruling(c, ctx) == Ruling::Decided(
            DecisionView::Continue { nudge: Some(c.reasoning_only_nudge@) },
        ),
        ctx.is_reasoning_only && ctx.reasoning_only_strikes >= c.reasoning_only_max_strikes ==> {
            let d = turn_ruling(c, ctx)->Decided_0;
            let off = c.reasoning_only_action == ReasoningOnlyAction::DisableThinking
                && !ctx.thinking_disabled;
            &&& turn_ruling(c, ctx) is Decided
            &&& off ==> d == (DecisionView::DisableThinking { nudge: c.disable_thinking_nudge@ })
            &&& !off ==> d is Fail
        },
        !ctx.is_reasoning_only && ctx.is_empty_response && ctx.empty_response_strikes
            < c.empty_response_max_strikes ==> turn_ruling(c, ctx) == Ruling::Decided(
            DecisionView::Continue { nudge: Some(c.empty_response_nudge@) },
        ),
        !ctx.is_reasoning_only && ctx.is_empty_response && ctx.empty_response_strikes
            >= c.empty_response_max_strikes ==> (turn_ruling(c, ctx) matches Ruling::Decided(d)
            && d is Fail),
        !ctx.is_reasoning_only && !ctx.is_empty_response && !ctx.is_text_only ==> turn_ruling(
            c,
            ctx,
        ) == Ruling::Decided(DecisionView::Complete),
{
}

/// The guard asks the judge exactly where it needs one and has one, about the
/// user's messages and the answer of this turn; otherwise it decides at once.
pub proof fn law_the_judge_is_asked_where_there_is_one(
    c: DefaultGuardConfig,
    has_client: bool,
    ctx: GuardCtx,
    step: TurnStep,
)
    requires
        step_follows(c, has_client, ctx, turn_ruling(c, ctx), step),
    ensures
        step is AskJudge <==> turn_ruling(c, ctx) is NeedsJudge && has_client,
        step matches TurnStep::AskJudge(q) ==> q.json_object && q.system_prompt@
            == JUDGE_SYSTEM_PROMPT@ && q.timeout_secs == c.judge_timeout_secs && q.user_prompt@
            == judge_prompt(
            user_context(ctx.user_input@, texts(ctx.all_user_inputs@), c.recent_user_count as nat),
            ctx.model_response@,
        ),
        step matches TurnStep::Decided(d) ==> forall|reply: JudgeReply|
            d@ == #[trigger] full_ruling(c, has_client, ctx, reply),
{
}

/// A tool call switches thinking back on exactly when the guard had switched
/// off what the user had on, and never stops the run.
pub proof fn law_tool_calls_restore_thinking(ctx: GuardCtx)
    ensures
        tool_call_ruling(ctx) is RestoreThinking <==> ctx.thinking_disabled
            && ctx.original_thinking_enabled,
        tool_call_ruling(ctx) is RestoreThinking || tool_call_ruling(ctx) is Complete,
{
}

/// A run that goes on without the judge, or is stopped, says why: the calls
/// that never ran, the completion that could not be verified, or the turns that
/// held nothing to go on.
pub proof fn law_decisions_say_why(c: DefaultGuardConfig, ctx: GuardCtx, error: Seq<char>)
    ensures
        plain_text_turn(ctx) && ctx.last_tool_calls_invalid ==> turn_ruling(c, ctx)
            == Ruling::Decided(DecisionView::Continue { nudge: Some(REISSUE_NUDGE@) }),
        verdict_ruling(VerdictView::Failed { error }, false) == (DecisionView::Continue {
            nudge: Some("Cannot verify task completion, please continue working."@),
        }),
        !ctx.is_reasoning_only && ctx.is_empty_response && ctx.empty_response_strikes
            >= c.empty_response_max_strikes ==> turn_ruling(c, ctx) == Ruling::Decided(
            DecisionView::Fail { error: "model returned empty responses repeatedly"@ },
        ),
        ctx.is_reasoning_only && ctx.reasoning_only_strikes >= c.reasoning_only_max_strikes
            && c.reasoning_only_action == ReasoningOnlyAction::Fail ==> turn_ruling(c, ctx)
            == Ruling::Decided(
            DecisionView::Fail { error: "model produced only reasoning across multiple turns"@ },
        ),
        ctx.is_reasoning_only && ctx.reasoning_only_strikes >= c.reasoning_only_max_strikes
            && c.reasoning_only_action != ReasoningOnlyAction::Fail && ctx.thinking_disabled
            ==> turn_ruling(c, ctx) == Ruling::Decided(
            DecisionView::Fail {
                error: "model produced only reasoning even after thinking was disabled"@,
            },
        ),
{
}

} // verus!
