//! What a running agent reports.

use vstd::prelude::*;

verus! {

/// How far a step of a plan has come.
#[derive(Clone, Copy, Debug, PartialEq, Eq, Structural)]
pub enum PlanStepStatus {
    Pending,
    InProgress,
    Completed,
}

/// One step of a plan.
pub struct PlanItem {
    pub step: String,
    pub status: PlanStepStatus,
}

/// An event of a run.
pub enum RuntimeEvent {
    /// A piece of the answer.
    TextDelta { text: String },
    /// A piece of the model's reasoning.
    ThoughtDelta { text: String },
    ToolCallStarted { tool_name: String, args_json: String },
    ToolCallFinished { tool_name: String, summary: String },
    AwaitingApproval,
    Checkpoint,
    RunFinished,
    RunCancelled,
    PlanUpdated { objective: String, plan: Vec<PlanItem> },
    UserEvent,
}

/// An event and the session it is of.
pub struct SessionEvent {
    pub session_id: u64,
    pub event: RuntimeEvent,
}

/// How a run ended.
pub enum RunOutcome {
    Completed,
    Cancelled,
    MaxTurnsExceeded { turns: u32 },
    Failed { error: String },
}

} // verus!
