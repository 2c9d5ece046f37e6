//! The completion judge: a second model call that says whether a text-only
//! answer finishes the task.  This module builds what the judge is asked and
//! turns whatever comes back into a verdict.

use vstd::prelude::*;
use crate::text::{decimal, decimal_text, join, joined, texts};

verus! {

pub const JUDGE_SYSTEM_PROMPT: &'static str = "You are a task completion judge. Given the user's conversation history and the agent's response, determine if the agent has sufficiently answered the task. Reply with JSON: {\"done\": true/false, \"reason\": \"brief explanation\"}";

pub const NO_CLIENT: &'static str = "no LLM client available for judge";

/// The judge's verdict.
#[derive(Debug)]
pub struct JudgeResult {
    pub done: bool,
    pub reason: String,
}

/// What came of the call to the judge.
#[derive(Debug)]
pub enum JudgeReply {
    /// The judge answered in time and its answer was understood.
    Verdict(JudgeResult),
    /// The model call failed, with this error text.
    CallFailed(String),
    /// The answer could not be understood, with this error text.
    ParseFailed(String),
    /// No answer in time.
    TimedOut,
}

/// What the judge is asked.
#[derive(Debug)]
pub struct JudgeRequest {
    pub system_prompt: String,
    pub user_prompt: String,
    /// Whether the answer has to be a JSON object.
    pub json_object: bool,
    pub timeout_secs: u64,
}

/// How judging starts: settled without a call, or with a call.
pub enum JudgeStep {
    Settled(Result<JudgeResult, String>),
    Ask(JudgeRequest),
}

/// What judging came to: an answer with its reason, or an error.
pub enum VerdictView {
    Judged { done: bool, reason: Seq<char> },
    Failed { error: Seq<char> },
}

pub open spec fn verdict_view(r: Result<JudgeResult, String>) -> VerdictView {
    match r {
        Ok(j) => VerdictView::Judged { done: j.done, reason: j.reason@ },
        Err(e) => VerdictView::Failed { error: e@ },
    }
}

/// How many of `total` messages come before the last `count`.
pub open spec fn skipped(total: nat, count: nat) -> int {
    if total > count {
        total - count
    } else {
        0
    }
}

/// The messages from `start` on, each as its number in the session, a dot, a
/// space and its text.
pub open spec fn numbered(inputs: Seq<Seq<char>>, start: int) -> Seq<Seq<char>> {
    Seq::new(
        (inputs.len() - start) as nat,
        |i: int| decimal((start + i + 1) as nat) + ". "@ + inputs[start + i],
    )
}

/// The user's side of the conversation as the judge sees it: the last
/// `recent` messages, numbered, one per line; or the current input alone when
/// that leaves fewer than two messages.
pub open spec fn user_context(
    user_input: Seq<char>,
    inputs: Seq<Seq<char>>,
    recent: nat,
) -> Seq<char> {
    let start = skipped(inputs.len(), recent);
    if inputs.len() - start <= 1 {
        user_input
    } else {
        joined(numbered(inputs, start), "\n"@)
    }
}

/// The prompt that holds the user's context and the agent's response.
pub open spec fn judge_prompt(context: Seq<char>, response: Seq<char>) -> Seq<char> {
    "【User Messages】\n"@ + context + "\n\n【Agent Response】\n"@ + response
}

/// The error that a failed call stands for.
pub open spec fn reply_error(reply: JudgeReply, timeout_secs: nat) -> Seq<char> {
    match reply {
        JudgeReply::Verdict(_) => Seq::empty(),
        JudgeReply::CallFailed(e) => "LLM judge call failed: "@ + e@,
        JudgeReply::ParseFailed(e) => "Failed to parse judge response: "@ + e@,
        JudgeReply::TimedOut => "judge timeout after "@ + decimal(timeout_secs) + "s"@,
    }
}

/// The verdict a reply amounts to: the judge's own, or, where the call failed,
/// "done" when failures are trusted and the error when they are not.
pub open spec fn settled_verdict(
    reply: JudgeReply,
    fail_open: bool,
    timeout_secs: nat,
) -> VerdictView {
    match reply {
        JudgeReply::Verdict(j) => VerdictView::Judged { done: j.done, reason: j.reason@ },
        _ => if fail_open {
            VerdictView::Judged {
                done: true,
                reason: "judge failed ("@ + reply_error(reply, timeout_secs)
                    + "), trusting model"@,
            }
        } else {
            VerdictView::Failed { error: reply_error(reply, timeout_secs) }
        },
    }
}

/// The verdict where there is no model to ask.
pub open spec fn no_client_verdict(fail_open: bool) -> VerdictView {
    if fail_open {
        VerdictView::Judged { done: true, reason: NO_CLIENT@ }
    } else {
        VerdictView::Failed { error: NO_CLIENT@ }
    }
}

/// Builds the user's side of the conversation for the judge.
pub fn build_user_context(
    user_input: &str,
    all_user_inputs: &Vec<String>,
    recent_user_count: usize,
) -> (r: String)
    ensures
        r@ == user_context(user_input@, texts(all_user_inputs@), recent_user_count as nat),
{
    let total: usize = all_user_inputs.len();
    let start: usize = if total > recent_user_count {
        total - recent_user_count
    } else {
        0
    };
    if total - start <= 1 {
        return user_input.to_owned();
    }
    let mut rows: Vec<String> = Vec::new();
    let ghost inputs = texts(all_user_inputs@);
    let mut i: usize = start;
    while i < total
        invariant
            start <= i <= total,
            total == all_user_inputs@.len(),
            inputs == texts(all_user_inputs@),
            texts(rows@) == numbered(inputs, start as int).take(i - start),
        decreases total - i,
    {
        let ghost done = texts(rows@);
        let mut row = decimal_text((i as u64) + 1);
        row.append(". ");
        row.append(all_user_inputs[i].as_str());
        rows.push(row);
        i += 1;
        assert(texts(rows@) == done.push(row@));
        assert(numbered(inputs, start as int).take(i - start) == numbered(
            inputs,
            start as int,
        ).take(i - 1 - start).push(row@));
    }
    assert(numbered(inputs, start as int).take(total - start) == numbered(inputs, start as int));
    join(&rows, "\n")
}

/// Starts judging: settled at once without a model, otherwise the
/// question to put to it.
pub fn call_completion_judge(
    has_client: bool,
    user_input: &str,
    model_response: &str,
    all_user_inputs: &Vec<String>,
    judge_fail_open: bool,
    judge_timeout_secs: u64,
    recent_user_count: usize,
) -> (r: JudgeStep)
    ensures
        match r {
            JudgeStep::Settled(v) => !has_client && verdict_view(v) == no_client_verdict(
                judge_fail_open,
            ),
            JudgeStep::Ask(q) => has_client && q.json_object && q.system_prompt@
                == JUDGE_SYSTEM_PROMPT@
                && q.timeout_secs == judge_timeout_secs && q.user_prompt@ == judge_prompt(
                user_context(user_input@, texts(all_user_inputs@), recent_user_count as nat),
                model_response@,
            ),
        },
{
    if !has_client {
        if judge_fail_open {
            return JudgeStep::Settled(
                Ok(JudgeResult { done: true, reason: NO_CLIENT.to_owned() }),
            );
        } else {
            return JudgeStep::Settled(Err(NO_CLIENT.to_owned()));
        }
    }
    let context = build_user_context(user_input, all_user_inputs, recent_user_count);
    let mut prompt = "【User Messages】\n".to_owned();
    prompt.append(context.as_str());
    prompt.append("\n\n【Agent Response】\n");
    prompt.append(model_response);
    JudgeStep::Ask(
        JudgeRequest {
            system_prompt: JUDGE_SYSTEM_PROMPT.to_owned(),
            user_prompt: prompt,
            json_object: true,
            timeout_secs: judge_timeout_secs,
        },
    )
}

/// Turns what came of the judge call into a verdict.
pub fn settle_judge(reply: JudgeReply, judge_fail_open: bool, judge_timeout_secs: u64) -> (r: Result<
    JudgeResult,
    String,
>)
    ensures
        verdict_view(r) == settled_verdict(reply, judge_fail_open, judge_timeout_secs as nat),
{
    let error = match reply {
        JudgeReply::Verdict(j) => {
            return Ok(j);
        },
        JudgeReply::CallFailed(e) => {
            let mut m = "LLM judge call failed: ".to_owned();
            m.append(e.as_str());
            m
        },
        JudgeReply::ParseFailed(e) => {
            let mut m = "Failed to parse judge response: ".to_owned();
            m.append(e.as_str());
            m
        },
        JudgeReply::TimedOut => {
            let mut m = "judge timeout after ".to_owned();
            m.append(decimal_text(judge_timeout_secs).as_str());
            m.append("s");
            m
        },
    };
    if judge_fail_open {
        let mut reason = "judge failed (".to_owned();
        reason.append(error.as_str());
        reason.append("), trusting model");
        Ok(JudgeResult { done: true, reason })
    } else {
        Err(error)
    }
}

/// A judge whose failures are trusted never ends in an error, and a failed
/// call then counts as done.
pub proof fn law_fail_open_never_fails(reply: JudgeReply, timeout_secs: nat)
    ensures
        settled_verdict(reply, true, timeout_secs) is Judged,
        reply !is Verdict ==> settled_verdict(reply, true, timeout_secs)->done,
        no_client_verdict(true) is Judged && no_client_verdict(true)->done,
{
}

/// A judge whose failures are not trusted reports every failed call as an
/// error.
pub proof fn law_fail_closed_reports_failure(reply: JudgeReply, timeout_secs: nat)
    ensures
        reply !is Verdict ==> settled_verdict(reply, false, timeout_secs) is Failed,
        no_client_verdict(false) is Failed,
{
}

/// The judge's own answer is the verdict, as it is, with failures trusted or
/// not; a failed call tells its error, whatever comes of it.
pub proof fn law_verdicts_are_kept(
    verdict: JudgeResult,
    error: String,
    fail_open: bool,
    timeout_secs: nat,
)
    ensures
        settled_verdict(JudgeReply::Verdict(verdict), fail_open, timeout_secs) == (
        VerdictView::Judged { done: verdict.done, reason: verdict.reason@ }),
        settled_verdict(JudgeReply::CallFailed(error), false, timeout_secs) == (
        VerdictView::Failed { error: "LLM judge call failed: "@ + error@ }),
        settled_verdict(JudgeReply::ParseFailed(error), false, timeout_secs) == (
        VerdictView::Failed { error: "Failed to parse judge response: "@ + error@ }),
        settled_verdict(JudgeReply::TimedOut, false, timeout_secs) == (VerdictView::Failed {
            error: "judge timeout after "@ + decimal(timeout_secs) + "s"@,
        }),
{
}

/// The judge sees the last messages of the user, as many as asked for and there
/// are, one row each, in order and under their numbers in the session; with
/// fewer than two it sees the current input alone.
pub proof fn law_the_judge_sees_the_last_messages(
    user_input: Seq<char>,
    inputs: Seq<Seq<char>>,
    recent: nat,
)
    ensures
        ({
            let shown = if inputs.len() < recent {
                inputs.len()
            } else {
                recent
            };
            &&& shown < 2 ==> user_context(user_input, inputs, recent) == user_input
            &&& shown >= 2 ==> exists|rows: Seq<Seq<char>>| #[trigger]
                joined(rows, "\n"@) == user_context(user_input, inputs, recent) && rows.len()
                    == shown && forall|j: int|
                    0 <= j < shown ==> #[trigger] rows[j] == decimal(
                        (inputs.len() - shown + j + 1) as nat,
                    ) + ". "@ + inputs[inputs.len() - shown + j]
        }),
{
    let shown = if inputs.len() < recent {
        inputs.len()
    } else {
        recent
    };
    if shown >= 2 {
        let rows = numbered(inputs, skipped(inputs.len(), recent));
        assert(joined(rows, "\n"@) == user_context(user_input, inputs, recent));
    }
}

/// The judge's prompt holds the user's side first and the whole response last.
pub proof fn law_the_judge_sees_the_response(context: Seq<char>, response: Seq<char>)
    ensures
        ({
            let p = judge_prompt(context, response);
            &&& p.skip(p.len() - response.len()) == response
            &&& p.skip("【User Messages】\n"@.len() as int).take(context.len() as int) == context
            &&& p.len() == "【User Messages】\n"@.len() + context.len()
                + "\n\n【Agent Response】\n"@.len() + response.len()
        }),
{
    let p = judge_prompt(context, response);
    assert(p.skip(p.len() - response.len()) =~= response);
    assert(p.skip("【User Messages】\n"@.len() as int).take(context.len() as int) =~= context);
}

/// Where failures are trusted, the verdict's reason tells the failure; where
/// there is no model to ask, either outcome tells that.
pub proof fn law_trusted_failures_are_told(error: String, timeout_secs: nat)
    ensures
        settled_verdict(JudgeReply::CallFailed(error), true, timeout_secs) == (
        VerdictView::Judged {
            done: true,
            reason: "judge failed ("@ + ("LLM judge call failed: "@ + error@)
                + "), trusting model"@,
        }),
        settled_verdict(JudgeReply::ParseFailed(error), true, timeout_secs) == (
        VerdictView::Judged {
            done: true,
            reason: "judge failed ("@ + ("Failed to parse judge response: "@ + error@)
                + "), trusting model"@,
        }),
        settled_verdict(JudgeReply::TimedOut, true, timeout_secs) == (VerdictView::Judged {
            done: true,
            reason: "judge failed ("@ + ("judge timeout after "@ + decimal(timeout_secs) + "s"@)
                + "), trusting model"@,
        }),
        no_client_verdict(true) == (VerdictView::Judged {
            done: true,
            reason: "no LLM client available for judge"@,
        }),
        no_client_verdict(false) == (VerdictView::Failed {
            error: "no LLM client available for judge"@,
        }),
{
}

/// A verdict stands for the judge's answer with its reason, or for the error.
pub proof fn law_verdicts_stand_for_themselves(r: Result<JudgeResult, String>)
    ensures
        r matches Ok(j) ==> verdict_view(r) == (VerdictView::Judged {
            done: j.done,
            reason: j.reason@,
        }),
        r matches Err(e) ==> verdict_view(r) == (VerdictView::Failed { error: e@ }),
{
}

} // verus!
