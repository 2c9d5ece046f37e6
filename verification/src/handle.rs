//! Agent session handle: which session an input goes to, in which order inputs
//! are run, and how a run is closed for the caller.

use vstd::prelude::*;
use crate::error::AgentError;
use crate::events::{RuntimeEvent, SessionEvent};

verus! {

/// Why an input could not be sent.
#[derive(Clone, Copy, Debug, PartialEq, Eq, Structural)]
pub enum SendError {
    /// The worker is gone.
    ChannelClosed,
}

/// The most inputs that wait for the worker.
pub const COMMAND_QUEUE: usize = 32;

/// A handle to an agent.
pub struct AgentHandle {
    /// The session that inputs go to, where one was given.
    pub default_session_id: Option<u64>,
}

/// What the worker is asked to do.
#[derive(Debug, PartialEq)]
pub enum AgentCommand {
    RunTurn { session_id: u64, input: String },
}

/// Whether an error is a cancellation.
pub open spec fn is_cancelled(e: AgentError) -> bool {
    e is Cancelled
}

/// Whether a run has told its caller that it is over: it does so when it ends
/// and when it is cancelled.
pub open spec fn run_reported_end(result: Result<(), AgentError>) -> bool {
    match result {
        Ok(_) => true,
        Err(e) => is_cancelled(e),
    }
}

impl AgentHandle {
    pub fn new() -> (r: Self)
        ensures
            r.default_session_id is None,
    {
        AgentHandle { default_session_id: None }
    }

    /// A handle whose inputs go to one session.
    pub fn with_session(session_id: u64) -> (r: Self)
        ensures
            r.default_session_id == Some(session_id),
    {
        AgentHandle { default_session_id: Some(session_id) }
    }

    /// Whether a session has to be created for the next input.
    pub fn needs_session(&self) -> (r: bool)
        ensures
            r == (self.default_session_id is None),
    {
        self.default_session_id.is_none()
    }

    /// The command for an input: it goes to the default session, or to
    /// `created`, a session made for it.
    pub fn send_input(&self, input: &str, created: u64) -> (r: AgentCommand)
        ensures
            r matches AgentCommand::RunTurn { session_id, input: i } && i@ == input@ && session_id
                == (match self.default_session_id {
                Some(id) => id,
                None => created,
            }),
    {
        let id: u64 = match self.default_session_id {
            Some(id) => id,
            None => created,
        };
        self.send_input_with_session(input, id)
    }

    /// The command for an input to a given session.
    pub fn send_input_with_session(&self, input: &str, session_id: u64) -> (r: AgentCommand)
        ensures
            r matches AgentCommand::RunTurn { session_id: s, input: i } && i@ == input@ && s
                == session_id,
    {
        AgentCommand::RunTurn { session_id, input: input.to_owned() }
    }

    /// The event to send when a run of a session is over, so that the caller
    /// is not left waiting: none where the run has told so itself.
    pub fn closing_event(session_id: u64, result: &Result<(), AgentError>) -> (r: Option<
        SessionEvent,
    >)
        ensures
            r is Some <==> !run_reported_end(*result),
            r matches Some(e) ==> e.event is RunFinished && e.session_id == session_id,
    {
        match result {
            Ok(_) => None,
            Err(AgentError::Cancelled) => None,
            Err(_) => Some(SessionEvent { session_id, event: RuntimeEvent::RunFinished }),
        }
    }
}

// ---------------------------------------------------------------------------
// The worker
// ---------------------------------------------------------------------------

/// The mathematical value of an [`AgentCommand`].
pub struct CommandView {
    pub session_id: u64,
    pub input: Seq<char>,
}

impl View for AgentCommand {
    type V = CommandView;

    open spec fn view(&self) -> CommandView {
        match *self {
            AgentCommand::RunTurn { session_id, input } => CommandView {
                session_id,
                input: input@,
            },
        }
    }
}

pub open spec fn command_views(v: Seq<AgentCommand>) -> Seq<CommandView> {
    Seq::new(v.len(), |i: int| v[i]@)
}

/// What runs the commands: those that wait, and the session of the one under
/// way.
pub struct Worker {
    pub waiting: Vec<AgentCommand>,
    pub running: Option<u64>,
}

/// The mathematical value of a [`Worker`].
pub struct WorkerView {
    pub waiting: Seq<CommandView>,
    pub running: Option<u64>,
}

impl View for Worker {
    type V = WorkerView;

    open spec fn view(&self) -> WorkerView {
        WorkerView { waiting: command_views(self.waiting@), running: self.running }
    }
}

/// The event that closes a run of `session_id` for the caller, if one is owed.
pub open spec fn closing(session_id: u64, result: Result<(), AgentError>) -> Option<SessionEvent> {
    if run_reported_end(result) {
        None
    } else {
        Some(SessionEvent { session_id, event: RuntimeEvent::RunFinished })
    }
}

/// Whether the worker has a command to run and nothing under way.
pub open spec fn can_start(w: WorkerView) -> bool {
    w.running is None && w.waiting.len() > 0
}

/// The worker once it has started the command it can start, if any.
pub open spec fn after_start(w: WorkerView) -> WorkerView {
    if can_start(w) {
        WorkerView {
            waiting: w.waiting.drop_first(),
            running: Some(w.waiting[0].session_id),
        }
    } else {
        w
    }
}

impl Worker {
    /// A worker with nothing to do.
    pub fn new() -> (r: Self)
        ensures
            r@ == (WorkerView { waiting: Seq::empty(), running: None }),
    {
        let r = Worker { waiting: Vec::new(), running: None };
        assert(r@.waiting =~= Seq::empty());
        r
    }

    /// Accepts a command behind those that wait.
    pub fn accept(&mut self, command: AgentCommand)
        ensures
            final(self)@ == (WorkerView {
                waiting: old(self)@.waiting.push(command@),
                ..old(self)@
            }),
    {
        self.waiting.push(command);
        assert(self@.waiting =~= old(self)@.waiting.push(command@));
    }

    /// Starts the command that has waited longest, unless one is under way.
    pub fn start(&mut self) -> (r: Option<AgentCommand>)
        ensures
            final(self)@ == after_start(old(self)@),
            match r {
                Some(c) => can_start(old(self)@) && c@ == old(self)@.waiting[0],
                None => !can_start(old(self)@),
            },
    {
        if self.running.is_some() || self.waiting.len() == 0 {
            return None;
        }
        let command = self.waiting.remove(0);
        match &command {
            AgentCommand::RunTurn { session_id, input: _ } => {
                self.running = Some(*session_id);
            },
        }
        assert(self@.waiting =~= old(self)@.waiting.drop_first());
        Some(command)
    }

    /// Takes note that the run under way is over, with `result`; gives the
    /// event that closes it for the caller, if one is owed.
    pub fn finish(&mut self, result: &Result<(), AgentError>) -> (r: Option<SessionEvent>)
        ensures
            final(self)@ == (WorkerView { running: None, ..old(self)@ }),
            r == match old(self).running {
                Some(session_id) => closing(session_id, *result),
                None => None,
            },
    {
        let closing_event = match self.running {
            Some(session_id) => AgentHandle::closing_event(session_id, result),
            None => None,
        };
        self.running = None;
        assert(self@.waiting =~= old(self)@.waiting);
        closing_event
    }
}

/// What happens to a worker: a command is accepted, one is started, the run
/// under way reports an event, or it is over.
pub enum WorkerStep {
    Accept(CommandView),
    Start,
    Event(RuntimeEvent),
    Finish(Result<(), AgentError>),
}

/// What a worker has done: besides its own state, the commands it was given and
/// those it started, in order, how many runs are over, and the events it sent.
pub struct WorkerTrace {
    pub worker: WorkerView,
    pub accepted: Seq<CommandView>,
    pub started: Seq<CommandView>,
    pub finished: nat,
    pub sent: Seq<SessionEvent>,
}

/// A worker that has done nothing.
pub open spec fn idle() -> WorkerTrace {
    WorkerTrace {
        worker: WorkerView { waiting: Seq::empty(), running: None },
        accepted: Seq::empty(),
        started: Seq::empty(),
        finished: 0,
        sent: Seq::empty(),
    }
}

/// The events that a step sends: the event that a run reports, or the one that
/// closes it.
pub open spec fn sends(w: WorkerView, step: WorkerStep) -> Seq<SessionEvent> {
    match (w.running, step) {
        (Some(session_id), WorkerStep::Event(event)) => seq![SessionEvent { session_id, event }],
        (Some(session_id), WorkerStep::Finish(result)) => match closing(session_id, result) {
            Some(e) => seq![e],
            None => Seq::empty(),
        },
        _ => Seq::empty(),
    }
}

/// The trace after one more step.
pub open spec fn traced(t: WorkerTrace, step: WorkerStep) -> WorkerTrace {
    let sent = t.sent + sends(t.worker, step);
    match step {
        WorkerStep::Accept(c) => WorkerTrace {
            worker: WorkerView { waiting: t.worker.waiting.push(c), ..t.worker },
            accepted: t.accepted.push(c),
            sent,
            ..t
        },
        WorkerStep::Start => if can_start(t.worker) {
            WorkerTrace {
                worker: after_start(t.worker),
                started: t.started.push(t.worker.waiting[0]),
                sent,
                ..t
            }
        } else {
            WorkerTrace { sent, ..t }
        },
        WorkerStep::Event(_) => WorkerTrace { sent, ..t },
        WorkerStep::Finish(_) => WorkerTrace {
            worker: WorkerView { running: None, ..t.worker },
            finished: if t.worker.running is Some {
                t.finished + 1
            } else {
                t.finished
            },
            sent,
            ..t
        },
    }
}

/// The trace of a worker that goes through `steps`.
pub open spec fn trace(steps: Seq<WorkerStep>) -> WorkerTrace
    decreases steps.len(),
{
    if steps.len() == 0 {
        idle()
    } else {
        traced(trace(steps.drop_last()), steps.last())
    }
}

/// Every command accepted is started once, in the order of acceptance, or still
/// waits; one run at a time is under way, that of the command started last.
pub proof fn law_inputs_run_in_order(steps: Seq<WorkerStep>)
    ensures
        ({
            let t = trace(steps);
            &&& t.accepted == t.started + t.worker.waiting
            &&& match t.worker.running {
                Some(session_id) => {
                    &&& t.started.len() == t.finished + 1
                    &&& t.started.last().session_id == session_id
                },
                None => t.started.len() == t.finished,
            }
        }),
    decreases steps.len(),
{
    let t = trace(steps);
    if steps.len() > 0 {
        let b = trace(steps.drop_last());
        law_inputs_run_in_order(steps.drop_last());
        match steps.last() {
            WorkerStep::Accept(c) => {
                assert(b.started + b.worker.waiting.push(c) =~= (b.started + b.worker.waiting).push(
                    c,
                ));
            },
            WorkerStep::Start => {
                if can_start(b.worker) {
                    let c = b.worker.waiting[0];
                    assert(b.started.push(c) + b.worker.waiting.drop_first() =~= b.started
                        + b.worker.waiting);
                }
            },
            _ => {},
        }
    } else {
        assert(t.started + t.worker.waiting =~= t.accepted);
    }
}

/// Events are sent in the order in which runs report them, each with the
/// session of its run; a run that is over and has not told so itself is closed
/// by exactly one more event, `RunFinished` with its session.
pub proof fn law_runs_are_closed(steps: Seq<WorkerStep>, step: WorkerStep)
    ensures
        trace(steps.push(step)).sent == trace(steps).sent + sends(trace(steps).worker, step),
        trace(steps).worker.running matches Some(session_id) ==> {
            &&& step matches WorkerStep::Event(event) ==> sends(trace(steps).worker, step) == seq![
                SessionEvent { session_id, event },
            ]
            &&& step matches WorkerStep::Finish(result) ==> sends(trace(steps).worker, step)
                == if run_reported_end(result) {
                Seq::<SessionEvent>::empty()
            } else {
                seq![SessionEvent { session_id, event: RuntimeEvent::RunFinished }]
            }
        },
{
    assert(steps.push(step).drop_last() =~= steps);
}

/// Where every input goes to one session, as those of a handle made for it do,
/// every run and every event sent is of that session.
pub proof fn law_one_session(steps: Seq<WorkerStep>, session_id: u64)
    requires
        forall|i: int|
            0 <= i < steps.len() ==> (#[trigger] steps[i] matches WorkerStep::Accept(c)
                ==> c.session_id == session_id),
    ensures
        forall|i: int|
            0 <= i < trace(steps).accepted.len() ==> (#[trigger] trace(
                steps,
            ).accepted[i]).session_id == session_id,
        trace(steps).worker.running matches Some(s) ==> s == session_id,
        forall|i: int|
            0 <= i < trace(steps).sent.len() ==> (#[trigger] trace(steps).sent[i]).session_id
                == session_id,
    decreases steps.len(),
{
    if steps.len() > 0 {
        let b = steps.drop_last();
        assert forall|i: int| 0 <= i < b.len() implies (#[trigger] b[i] matches WorkerStep::Accept(
            c,
        ) ==> c.session_id == session_id) by {
            assert(b[i] == steps[i]);
        }
        law_one_session(b, session_id);
        law_inputs_run_in_order(b);
        let t = trace(b);
        assert(steps[steps.len() - 1] == steps.last());
        if can_start(t.worker) {
            assert(t.accepted[t.started.len() as int] == t.worker.waiting[0]);
        }
    }
}

/// What the result of sending to the worker means.
pub fn sent(delivered: bool) -> (r: Result<(), SendError>)
    ensures
        r == if delivered {
            Ok::<(), SendError>(())
        } else {
            Err::<(), SendError>(SendError::ChannelClosed)
        },
{
    if delivered {
        Ok(())
    } else {
        Err(SendError::ChannelClosed)
    }
}

/// A run that failed is closed for its caller with its session; one that ended
/// or was cancelled has told so itself and is not closed twice.
pub proof fn law_only_failed_runs_are_closed(session_id: u64, error: AgentError)
    ensures
        closing(session_id, Ok(())) is None,
        error is Cancelled ==> closing(session_id, Err(error)) is None,
        error !is Cancelled ==> closing(session_id, Err(error)) == Some(
            SessionEvent { session_id, event: RuntimeEvent::RunFinished },
        ),
        run_reported_end(Ok(())),
        run_reported_end(Err(error)) <==> error is Cancelled,
{
}

/// A worker without a run under way starts the command that has waited longest,
/// and one with a run under way, or with nothing to run, starts none.
pub proof fn law_waiting_commands_are_started(w: WorkerView)
    ensures
        can_start(w) <==> w.running is None && w.waiting.len() > 0,
        can_start(w) ==> after_start(w).running == Some(w.waiting[0].session_id) && seq![
            w.waiting[0],
        ] + after_start(w).waiting == w.waiting,
        !can_start(w) ==> after_start(w) == w,
{
    if can_start(w) {
        assert(seq![w.waiting[0]] + after_start(w).waiting =~= w.waiting);
    }
}

/// A command stands for its session and its input, and a worker for the
/// commands that wait, in order, and the run under way.
pub proof fn law_commands_stand_for_themselves(
    session_id: u64,
    input: String,
    w: Worker,
    i: int,
)
    ensures
        (AgentCommand::RunTurn { session_id, input })@ == (CommandView {
            session_id,
            input: input@,
        }),
        w@.running == w.running,
        w@.waiting.len() == w.waiting@.len(),
        0 <= i < w.waiting@.len() ==> w@.waiting[i] == w.waiting@[i]@,
{
}

} // verus!
