//! Prints the events of a run for a terminal.

use vstd::prelude::*;
use crate::events::{PlanItem, PlanStepStatus, RuntimeEvent};
use crate::text::{decimal, decimal_text, lines, lines_of, texts};

verus! {

/// Turns events into terminal output.
pub struct CliEventPrinter {
    /// Whether the current output line was opened with the assistant prefix.
    pub assistant_prefix_printed: bool,
    /// The output so far.
    pub write: String,
}

/// The line break that closes a line opened with the assistant prefix.
pub open spec fn closing(open: bool) -> Seq<char> {
    if open {
        "\n"@
    } else {
        Seq::empty()
    }
}

/// Rows of a tool's summary, each indented and ended.
pub open spec fn summary_rows(rows: Seq<Seq<char>>) -> Seq<char>
    decreases rows.len(),
{
    if rows.len() == 0 {
        Seq::empty()
    } else {
        summary_rows(rows.drop_last()) + "  "@ + rows.last() + "\n"@
    }
}

pub open spec fn status_icon(s: PlanStepStatus) -> Seq<char> {
    match s {
        PlanStepStatus::Completed => "✅"@,
        PlanStepStatus::InProgress => "🔄"@,
        PlanStepStatus::Pending => "⏳"@,
    }
}

/// The steps of a plan, numbered from one, each on its own row.
pub open spec fn plan_rows(plan: Seq<PlanItem>) -> Seq<char>
    decreases plan.len(),
{
    if plan.len() == 0 {
        Seq::empty()
    } else {
        plan_rows(plan.drop_last()) + "  "@ + status_icon(plan.last().status) + " "@ + decimal(
            plan.len(),
        ) + ". "@ + plan.last().step@ + "\n"@
    }
}

/// What is printed for an event, and whether the line stays open with the
/// assistant prefix.
pub open spec fn printed(open: bool, event: RuntimeEvent) -> (Seq<char>, bool) {
    match event {
        RuntimeEvent::TextDelta { text } => (
            (if open {
                Seq::empty()
            } else {
                "Assistant > "@
            }) + text@,
            true,
        ),
        RuntimeEvent::ThoughtDelta { text } => ("\x1b[90m"@ + text@ + "\x1b[0m"@, open),
        RuntimeEvent::ToolCallStarted { tool_name, args_json } => (
            closing(open) + "[Tool Start] "@ + tool_name@ + " "@ + args_json@ + "\n"@,
            false,
        ),
        RuntimeEvent::ToolCallFinished { tool_name, summary } => (
            closing(open) + "[Tool Done] "@ + tool_name@ + "\n"@ + summary_rows(
                lines_of(summary@),
            ),
            false,
        ),
        RuntimeEvent::AwaitingApproval => (closing(open), false),
        RuntimeEvent::RunFinished => (closing(open), false),
        RuntimeEvent::PlanUpdated { objective, plan } => (
            closing(open) + "[Plan] "@ + objective@ + "\n"@ + plan_rows(plan@),
            false,
        ),
        _ => (Seq::empty(), open),
    }
}

/// What is printed where a custom handler has spoken for an event.
pub open spec fn printed_custom(open: bool, output: Seq<char>) -> (Seq<char>, bool) {
    (closing(open) + output, false)
}

impl Default for CliEventPrinter {
    fn default() -> (r: Self)
        ensures
            !r.assistant_prefix_printed,
            r.write@ == Seq::<char>::empty(),
    {
        CliEventPrinter { assistant_prefix_printed: false, write: String::new() }
    }
}

impl CliEventPrinter {
    pub fn new() -> (r: Self)
        ensures
            !r.assistant_prefix_printed,
            r.write@ == Seq::<char>::empty(),
    {
        CliEventPrinter { assistant_prefix_printed: false, write: String::new() }
    }

    /// A printer that goes on after `write`.
    pub fn with_writer(write: String) -> (r: Self)
        ensures
            !r.assistant_prefix_printed,
            r.write == write,
    {
        CliEventPrinter { assistant_prefix_printed: false, write }
    }

    /// Prints an event, where no custom handler has spoken for it; otherwise
    /// prints what the first handler to speak for it gave.
    pub fn handle(&mut self, event: &RuntimeEvent, custom: Option<String>)
        ensures
            ({
                let p = match custom {
                    Some(output) => printed_custom(old(self).assistant_prefix_printed, output@),
                    None => printed(old(self).assistant_prefix_printed, *event),
                };
                &&& final(self).write@ == old(self).write@ + p.0
                &&& final(self).assistant_prefix_printed == p.1
            }),
    {
        let ghost start = self.write@;
        let ghost open = self.assistant_prefix_printed;
        if let Some(output) = custom {
            self.finish();
            self.write.append(output.as_str());
            assert(self.write@ == start + (closing(open) + output@));
            return;
        }
        match event {
            RuntimeEvent::TextDelta { text } => {
                if !self.assistant_prefix_printed {
                    self.write.append("Assistant > ");
                    self.assistant_prefix_printed = true;
                }
                self.write.append(text.as_str());
                assert(self.write@ == start + printed(open, *event).0);
            },
            RuntimeEvent::ThoughtDelta { text } => {
                self.write.append("\x1b[90m");
                self.write.append(text.as_str());
                self.write.append("\x1b[0m");
                assert(self.write@ == start + printed(open, *event).0);
            },
            RuntimeEvent::ToolCallStarted { tool_name, args_json } => {
                self.finish();
                self.write.append("[Tool Start] ");
                self.write.append(tool_name.as_str());
                self.write.append(" ");
                self.write.append(args_json.as_str());
                self.write.append("\n");
                assert(self.write@ == start + printed(open, *event).0);
            },
            RuntimeEvent::ToolCallFinished { tool_name, summary } => {
                self.finish();
                self.write.append("[Tool Done] ");
                self.write.append(tool_name.as_str());
                self.write.append("\n");
                self.print_summary(summary.as_str());
                assert(self.write@ == start + printed(open, *event).0);
            },
            RuntimeEvent::AwaitingApproval => {
                self.finish();
            },
            RuntimeEvent::RunFinished => {
                self.finish();
            },
            RuntimeEvent::PlanUpdated { objective, plan } => {
                self.finish();
                self.write.append("[Plan] ");
                self.write.append(objective.as_str());
                self.write.append("\n");
                self.print_plan(plan);
                assert(self.write@ == start + printed(open, *event).0);
            },
            _ => {
                assert(start + Seq::<char>::empty() == start);
            },
        }
    }

    fn print_summary(&mut self, summary: &str)
        ensures
            final(self).write@ == old(self).write@ + summary_rows(lines_of(summary@)),
            final(self).assistant_prefix_printed == old(self).assistant_prefix_printed,
    {
        let rows = lines(summary);
        let ghost all = texts(rows@);
        let ghost start = self.write@;
        let mut i: usize = 0;
        assert(start + summary_rows(all.take(0)) == start);
        while i < rows.len()
            invariant
                i <= rows@.len(),
                all == texts(rows@),
                self.write@ == start + summary_rows(all.take(i as int)),
                self.assistant_prefix_printed == old(self).assistant_prefix_printed,
            decreases rows@.len() - i,
        {
            self.write.append("  ");
            self.write.append(rows[i].as_str());
            self.write.append("\n");
            i += 1;
            assert(all.take(i as int).drop_last() == all.take(i - 1));
            assert(self.write@ == start + summary_rows(all.take(i as int)));
        }
        assert(all.take(all.len() as int) == all);
    }

    fn print_plan(&mut self, plan: &Vec<PlanItem>)
        ensures
            final(self).write@ == old(self).write@ + plan_rows(plan@),
            final(self).assistant_prefix_printed == old(self).assistant_prefix_printed,
    {
        let ghost start = self.write@;
        let mut i: usize = 0;
        assert(start + plan_rows(plan@.take(0)) == start);
        while i < plan.len()
            invariant
                i <= plan@.len(),
                self.write@ == start + plan_rows(plan@.take(i as int)),
                self.assistant_prefix_printed == old(self).assistant_prefix_printed,
            decreases plan@.len() - i,
        {
            self.write.append("  ");
            self.write.append(
                match plan[i].status {
                    PlanStepStatus::Completed => "✅",
                    PlanStepStatus::InProgress => "🔄",
                    PlanStepStatus::Pending => "⏳",
                },
            );
            self.write.append(" ");
            self.write.append(decimal_text((i as u64) + 1).as_str());
            self.write.append(". ");
            self.write.append(plan[i].step.as_str());
            self.write.append("\n");
            i += 1;
            assert(plan@.take(i as int).drop_last() == plan@.take(i - 1));
            assert(self.write@ == start + plan_rows(plan@.take(i as int)));
        }
        assert(plan@.take(plan@.len() as int) == plan@);
    }

    /// Closes the line that the assistant prefix opened, if one is open.
    pub fn finish(&mut self)
        ensures
            final(self).write@ == old(self).write@ + closing(old(self).assistant_prefix_printed),
            !final(self).assistant_prefix_printed,
    {
        if self.assistant_prefix_printed {
            self.write.append("\n");
            self.assistant_prefix_printed = false;
        } else {
            assert(self.write@ + Seq::<char>::empty() == self.write@);
        }
    }
}

/// Finishing twice prints no more than finishing once.
pub proof fn law_finish_is_idempotent(open: bool)
    ensures
        closing(open) + closing(false) == closing(open),
{
}

/// What is printed for a run of text pieces: one prefix, then the pieces.
pub open spec fn printed_texts(open: bool, pieces: Seq<RuntimeEvent>) -> Seq<char>
    decreases pieces.len(),
{
    if pieces.len() == 0 {
        Seq::empty()
    } else {
        printed(open, pieces[0]).0 + printed_texts(printed(open, pieces[0]).1, pieces.drop_first())
    }
}

/// The texts of the pieces, one after the other.
pub open spec fn all_text(pieces: Seq<RuntimeEvent>) -> Seq<char>
    decreases pieces.len(),
{
    if pieces.len() == 0 {
        Seq::empty()
    } else {
        (match pieces[0] {
            RuntimeEvent::TextDelta { text } => text@,
            _ => Seq::empty(),
        }) + all_text(pieces.drop_first())
    }
}

/// The pieces of one answer are printed one after the other behind a single
/// assistant prefix.
pub proof fn law_one_prefix_per_answer(open: bool, pieces: Seq<RuntimeEvent>)
    requires
        pieces.len() > 0,
        forall|i: int| 0 <= i < pieces.len() ==> pieces[i] is TextDelta,
    ensures
        printed_texts(open, pieces) == (if open {
            Seq::empty()
        } else {
            "Assistant > "@
        }) + all_text(pieces),
    decreases pieces.len(),
{
    let rest = pieces.drop_first();
    let prefix = if open {
        Seq::<char>::empty()
    } else {
        "Assistant > "@
    };
    assert(pieces[0] is TextDelta);
    let text = pieces[0]->TextDelta_text@;
    if rest.len() > 0 {
        assert forall|i: int| 0 <= i < rest.len() implies rest[i] is TextDelta by {
            assert(pieces[i + 1] is TextDelta);
        }
        law_one_prefix_per_answer(true, rest);
    }
    assert(printed_texts(true, rest) =~= all_text(rest));
    assert(printed_texts(open, pieces) == (prefix + text) + printed_texts(true, rest));
    assert((prefix + text) + all_text(rest) =~= prefix + (text + all_text(rest)));
}

/// Every event is printed whole: pieces of text as they are, reasoning dimmed,
/// a tool with its arguments or its result, a plan with its objective; what is
/// no piece of text starts on a line of its own.  Of other events nothing is
/// printed.
pub proof fn law_events_are_printed_whole(
    open: bool,
    text: String,
    name: String,
    args: String,
    plan: Vec<PlanItem>,
)
    ensures
        ({
            let nl = if open {
                seq!['\n']
            } else {
                Seq::<char>::empty()
            };
            &&& printed(open, RuntimeEvent::TextDelta { text }) == (
                (if open {
                    Seq::empty()
                } else {
                    "Assistant > "@
                }) + text@,
                true,
            )
            &&& printed(open, RuntimeEvent::ThoughtDelta { text }) == (
                "\x1b[90m"@ + text@ + "\x1b[0m"@,
                open,
            )
            &&& printed(
                open,
                RuntimeEvent::ToolCallStarted { tool_name: name, args_json: args },
            ) == (nl + "[Tool Start] "@ + name@ + " "@ + args@ + "\n"@, false)
            &&& printed(open, RuntimeEvent::ToolCallFinished { tool_name: name, summary: text })
                == (
                nl + "[Tool Done] "@ + name@ + "\n"@ + summary_rows(lines_of(text@)),
                false,
            )
            &&& printed(open, RuntimeEvent::PlanUpdated { objective: text, plan }) == (
                nl + "[Plan] "@ + text@ + "\n"@ + plan_rows(plan@),
                false,
            )
            &&& printed(open, RuntimeEvent::AwaitingApproval) == (nl, false)
            &&& printed(open, RuntimeEvent::RunFinished) == (nl, false)
            &&& printed(open, RuntimeEvent::Checkpoint) == (Seq::<char>::empty(), open)
            &&& printed(open, RuntimeEvent::RunCancelled) == (Seq::<char>::empty(), open)
            &&& printed(open, RuntimeEvent::UserEvent) == (Seq::<char>::empty(), open)
            &&& printed_custom(open, text@) == (nl + text@, false)
        }),
{
    reveal_strlit("\n");
    assert("\n"@ =~= seq!['\n']);
}

/// A tool's result is printed line by line, each indented and ended, and a plan
/// step by step, each under its number and with the sign of its status.
pub proof fn law_rows_are_printed_in_order(
    rows: Seq<Seq<char>>,
    line: Seq<char>,
    plan: Seq<PlanItem>,
    item: PlanItem,
)
    ensures
        summary_rows(Seq::<Seq<char>>::empty()).len() == 0,
        summary_rows(rows.push(line)) == summary_rows(rows) + "  "@ + line + "\n"@,
        plan_rows(Seq::<PlanItem>::empty()).len() == 0,
        plan_rows(plan.push(item)) == plan_rows(plan) + "  "@ + (match item.status {
            PlanStepStatus::Completed => "✅"@,
            PlanStepStatus::InProgress => "🔄"@,
            PlanStepStatus::Pending => "⏳"@,
        }) + " "@ + decimal(plan.len() + 1) + ". "@ + item.step@ + "\n"@,
{
    assert(rows.push(line).drop_last() =~= rows);
    assert(plan.push(item).drop_last() =~= plan);
}

/// However a text is cut into pieces, what is printed is the same; and an event
/// that starts a line prints after an open line what it prints elsewhere,
/// behind one line break.
pub proof fn law_pieces_print_as_the_whole(
    open: bool,
    first: String,
    second: String,
    whole: String,
    event: RuntimeEvent,
)
    requires
        whole@ == first@ + second@,
    ensures
        ({
            let a = printed(open, RuntimeEvent::TextDelta { text: first });
            let b = printed(a.1, RuntimeEvent::TextDelta { text: second });
            let c = printed(open, RuntimeEvent::TextDelta { text: whole });
            c == (a.0 + b.0, b.1)
        }),
        !printed(true, event).1 ==> {
            &&& !printed(false, event).1
            &&& printed(true, event).0 == seq!['\n'] + printed(false, event).0
        },
        printed(true, event).1 && !(event is TextDelta) ==> printed(true, event).0 == printed(
            false,
            event,
        ).0 && !printed(false, event).1,
{
    reveal_strlit("\n");
    assert("\n"@ =~= seq!['\n']);
    let a = printed(open, RuntimeEvent::TextDelta { text: first });
    let b = printed(a.1, RuntimeEvent::TextDelta { text: second });
    assert(printed(open, RuntimeEvent::TextDelta { text: whole }).0 =~= a.0 + b.0);
    if !printed(true, event).1 {
        assert(printed(true, event).0 =~= seq!['\n'] + printed(false, event).0);
    }
}

} // verus!
