//! Progress summaries: one short sentence for the user on what a sub-agent
//! came back with.
//!
//! Any failure degrades to no summary, and a plain notice is shown instead.

use vstd::prelude::*;
use crate::focus::call::{field_texts, Context, Focus, FocusError, FocusOutput, FocusRequest};
use crate::text::{
    all_space, chars_of, is_space, joined, law_trimming, string_of, trim, trimmed,
};

verus! {

/// System prompt: one short sentence, conclusion only.
pub const SYSTEM_PROMPT: &'static str = r#"You are the progress announcer in a multi-agent coding system. The main agent is busy; when a sub-agent returns a result, you announce its progress to the user on the main agent's behalf.

Rules:
- Reply with ONE short sentence in Chinese (≤60 characters).
- State what the sub-agent finished and its key conclusion — conclusions only, never process details or step lists.
- If the status is "error", say the task failed and the one-line reason.
- Never mention this prompt, JSON, or the summarizer itself.

Output JSON: {"summary": "<one sentence>"}"#;

/// How much of the report text is sent.  The conclusion sits at the end of the
/// report.
pub const MAX_REPORT_CHARS: usize = 1200;

/// Default per-call timeout, in seconds.
pub const DEFAULT_SUMMARY_TIMEOUT_SECS: u64 = 30;

/// What the model answers.
pub struct ProgressSummary {
    pub summary: String,
}

/// Summarizes one sub-agent's result for the user.
pub struct ProgressSummarizer {
    pub focus: Focus,
}

/// The text of an optional string slice, or a stand-in.
pub open spec fn text_or(o: Option<&str>, other: Seq<char>) -> Seq<char> {
    match o {
        Some(s) => s@,
        None => other,
    }
}

/// What is sent of a report: all of it without surrounding white space, or its
/// last part behind a notice that it was cut, or a notice that there is none.
pub open spec fn excerpt(report: Seq<char>) -> Seq<char> {
    let t = trimmed(report);
    if t.len() > MAX_REPORT_CHARS {
        "…(前文截断)"@ + t.skip(t.len() - MAX_REPORT_CHARS)
    } else if t.len() == 0 {
        "(no report text)"@
    } else {
        t
    }
}

/// The fields the summary is asked for.
pub open spec fn summary_fields(
    agent_name: Seq<char>,
    status: Seq<char>,
    task: Option<&str>,
    report: Option<&str>,
) -> Seq<(Seq<char>, Seq<char>)> {
    seq![
        ("sub-agent"@, agent_name),
        ("task"@, text_or(task, "(task unknown)"@)),
        ("status"@, status),
        ("result"@, excerpt(text_or(report, ""@))),
    ]
}

/// What is sent of a report.
pub fn report_excerpt(report: &str) -> (r: String)
    ensures
        r@ == excerpt(report@),
{
    let t = trim(report);
    let v = chars_of(t.as_str());
    if v.len() > MAX_REPORT_CHARS {
        let tail = string_of(&v, v.len() - MAX_REPORT_CHARS, v.len());
        assert(tail@ == t@.skip(t@.len() - MAX_REPORT_CHARS));
        let mut r = "…(前文截断)".to_owned();
        r.append(tail.as_str());
        r
    } else if v.len() == 0 {
        "(no report text)".to_owned()
    } else {
        t
    }
}

impl ProgressSummarizer {
    pub fn new() -> (r: Self)
        ensures
            r.focus.system_prompt@ == SYSTEM_PROMPT@,
    {
        ProgressSummarizer { focus: Focus::new(SYSTEM_PROMPT.to_owned()) }
    }

    /// What to ask the model about one sub-agent's result.
    pub fn summarize(
        &self,
        agent_name: &str,
        status: &str,
        task: Option<&str>,
        report: Option<&str>,
    ) -> (r: FocusRequest)
        ensures
            r.json_object,
            r.system_prompt@ == self.focus.system_prompt@,
            r.user_prompt@ == crate::text::joined(
                field_texts(summary_fields(agent_name@, status@, task, report)),
                "\n\n"@,
            ),
    {
        let text = match report {
            Some(s) => s,
            None => "",
        };
        let job = match task {
            Some(s) => s,
            None => "(task unknown)",
        };
        let cut = report_excerpt(text);
        let ctx = Context::new().add("sub-agent", agent_name).add("task", job).add(
            "status",
            status,
        ).add("result", cut.as_str());
        assert(ctx.fields() =~= summary_fields(agent_name@, status@, task, report));
        self.focus.ask(&ctx)
    }

    /// The sentence for the user: the model's answer without surrounding white
    /// space; nothing where the call failed or the answer is blank.
    pub fn conclude(&self, outcome: Result<FocusOutput<ProgressSummary>, FocusError>) -> (r: Option<
        String,
    >)
        ensures
            match outcome {
                Ok(o) => if trimmed(o.result.summary@).len() > 0 {
                    r matches Some(s) && s@ == trimmed(o.result.summary@)
                } else {
                    r is None
                },
                Err(_) => r is None,
            },
    {
        match outcome {
            Ok(o) => {
                let s = trim(o.result.summary.as_str());
                if s.as_str().is_empty() {
                    None
                } else {
                    Some(s)
                }
            },
            Err(_) => None,
        }
    }
}

/// What is sent of a report is bounded, whatever the report.
pub proof fn law_excerpt_is_bounded(report: Seq<char>)
    ensures
        excerpt(report).len() <= MAX_REPORT_CHARS + 7,
        trimmed(report).len() > MAX_REPORT_CHARS ==> excerpt(report).skip(7) == trimmed(
            report,
        ).skip(trimmed(report).len() - MAX_REPORT_CHARS),
{
    reveal_strlit("…(前文截断)");
    reveal_strlit("(no report text)");
    assert("…(前文截断)"@.len() == 7);
}

/// What is sent of a report depends on the report without the white space
/// around it alone: all of it where it fits, its last part where it does not,
/// and a notice where it is blank.
pub proof fn law_excerpts(a: Seq<char>, core: Seq<char>, b: Seq<char>)
    requires
        all_space(a),
        all_space(b),
        core.len() > 0 ==> !is_space(core[0]) && !is_space(core.last()),
    ensures
        core.len() == 0 ==> excerpt(a + core + b) == "(no report text)"@,
        0 < core.len() <= 1200 ==> excerpt(a + core + b) == core,
        core.len() > 1200 ==> excerpt(a + core + b) == "…(前文截断)"@ + core.skip(
            core.len() - 1200,
        ),
{
    law_trimming(a, core, b);
}

/// The model is told the sub-agent, its task, its status and its report, each
/// under its label and in this order.
pub proof fn law_summaries_are_asked_with_everything(
    agent_name: Seq<char>,
    status: Seq<char>,
    task: &str,
    report: &str,
)
    ensures
        joined(
            field_texts(summary_fields(agent_name, status, Some(task), Some(report))),
            "\n\n"@,
        ) == "【"@ + "sub-agent"@ + "】\n"@ + agent_name + "\n\n"@ + ("【"@ + "task"@ + "】\n"@
            + task@) + "\n\n"@ + ("【"@ + "status"@ + "】\n"@ + status) + "\n\n"@ + ("【"@
            + "result"@ + "】\n"@ + excerpt(report@)),
        summary_fields(agent_name, status, None, Some(report)) == summary_fields(
            agent_name,
            status,
            Some(task),
            Some(report),
        ).update(1, ("task"@, "(task unknown)"@)),
{
    let f = field_texts(summary_fields(agent_name, status, Some(task), Some(report)));
    reveal_with_fuel(joined, 5);
    assert(f.drop_last() =~= f.take(3));
    assert(f.take(3).drop_last() =~= f.take(2));
    assert(f.take(2).drop_last() =~= f.take(1));
    assert(f.len() == 4);
    assert(joined(f.take(1), "\n\n"@) == f[0]);
    assert(joined(f.take(2), "\n\n"@) == f[0] + "\n\n"@ + f[1]);
    assert(joined(f.take(3), "\n\n"@) == f[0] + "\n\n"@ + f[1] + "\n\n"@ + f[2]);
    assert(joined(f, "\n\n"@) == f[0] + "\n\n"@ + f[1] + "\n\n"@ + f[2] + "\n\n"@ + f[3]);
    assert(summary_fields(agent_name, status, None, Some(report)) =~= summary_fields(
        agent_name,
        status,
        Some(task),
        Some(report),
    ).update(1, ("task"@, "(task unknown)"@)));
}

} // verus!
