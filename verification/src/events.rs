//! Input and agent events as plain values.

use vstd::prelude::*;

verus! {

#[derive(Clone, Copy, Debug, PartialEq, Eq, Structural)]
pub enum KeyCode {
    Char(char),
    Enter,
    Esc,
    Tab,
    BackTab,
    Backspace,
    Delete,
    Left,
    Right,
    Up,
    Down,
    Home,
    End,
    PageUp,
    PageDown,
    /// Any other key.
    Other,
}

#[derive(Clone, Copy, Debug, PartialEq, Eq, Structural)]
pub enum KeyEventKind {
    Press,
    Repeat,
    Release,
}

/// The modifiers held while a key was pressed.
#[derive(Clone, Copy, Debug, PartialEq, Eq, Structural)]
pub struct KeyModifiers {
    pub control: bool,
    pub alt: bool,
    pub shift: bool,
    /// Any other modifier.
    pub other: bool,
}

impl KeyModifiers {
    /// No modifier, or shift alone.
    pub open spec fn plain(self) -> bool {
        !self.control && !self.alt && !self.other
    }
}

#[derive(Clone, Copy, Debug, PartialEq, Eq, Structural)]
pub struct KeyEvent {
    pub code: KeyCode,
    pub modifiers: KeyModifiers,
    pub kind: KeyEventKind,
}

#[derive(Clone, Copy, Debug, PartialEq, Eq, Structural)]
pub enum MouseEventKind {
    ScrollUp,
    ScrollDown,
    /// The left button went down.
    Down,
    /// The pointer moved while the left button was down.
    Drag,
    /// The left button was released.
    Up,
    /// Any other event.
    Other,
}

#[derive(Clone, Copy, Debug, PartialEq, Eq, Structural)]
pub struct MouseEvent {
    pub kind: MouseEventKind,
    pub column: u16,
    pub row: u16,
}

/// A piece of a tool call as a model streams it.
#[derive(Debug)]
pub struct ToolCallDelta {
    pub index: usize,
    pub name: Option<String>,
    pub arguments: String,
}

/// A piece of a model response.
#[derive(Debug)]
pub enum ModelDelta {
    Text(String),
    Reasoning(String),
    ToolCall(ToolCallDelta),
}

/// An event of one run.
#[derive(Debug)]
pub enum RunEvent {
    Started { run_id: String },
    MessagesDelivered { run_id: String },
    ModelStarted { run_id: String },
    ModelDelta { run_id: String, delta: ModelDelta },
    /// The response is complete; the provider may have reported its tokens.
    ModelCompleted { run_id: String, total_tokens: Option<u64> },
    EvalStarted { run_id: String },
    EvalCompleted { run_id: String },
    CompactionStarted { run_id: String },
    CompactionCompleted { run_id: String },
    CompactionFailed { run_id: String, message: String },
    Completed { run_id: String },
    Failed { message: String },
}

/// Why an agent was retired.
#[derive(Debug)]
pub enum StopReason {
    Interrupted,
    /// Any other reason, by its name.
    Other(String),
}

/// An event of an actor's runtime.
#[derive(Debug)]
pub enum RuntimeEvent {
    RuntimeResumed,
    CompactionStarted,
    CompactionCompleted,
    CompactionFailed { message: String },
}

/// How an agent's work ended.
#[derive(Debug)]
pub enum AgentOutcome {
    Completed { address: String },
    Failed { address: String, error: String },
    Cancelled { address: String, reason: Option<String> },
}

/// An event of the agent system.
#[derive(Debug)]
pub enum AgentSystemEvent {
    Hosted { address: String, parent: Option<String> },
    Retired { address: String, reason: StopReason },
    Outcome { outcome: AgentOutcome },
    ActorRuntime { address: String, event: RuntimeEvent },
    Run { address: String, event: RunEvent },
}

/// The run an event belongs to, when it names one.
pub open spec fn event_run(event: RunEvent) -> Option<Seq<char>> {
    match event {
        RunEvent::Started { run_id } => Some(run_id@),
        RunEvent::MessagesDelivered { run_id } => Some(run_id@),
        RunEvent::ModelStarted { run_id } => Some(run_id@),
        RunEvent::ModelDelta { run_id, delta } => Some(run_id@),
        RunEvent::ModelCompleted { run_id, total_tokens } => Some(run_id@),
        RunEvent::EvalStarted { run_id } => Some(run_id@),
        RunEvent::EvalCompleted { run_id } => Some(run_id@),
        RunEvent::CompactionStarted { run_id } => Some(run_id@),
        RunEvent::CompactionCompleted { run_id } => Some(run_id@),
        RunEvent::CompactionFailed { run_id, message } => Some(run_id@),
        RunEvent::Completed { run_id } => Some(run_id@),
        RunEvent::Failed { message } => None,
    }
}

/// Whether an event is part of a run's stream, and not its end.
pub open spec fn streams(event: RunEvent) -> bool {
    !(event is Completed) && !(event is Failed)
}

/// The run an event belongs to, when it names one.
pub fn run_event_id(event: &RunEvent) -> (r: Option<&String>)
    ensures
        (match r {
            Some(run) => Some(run@),
            None => None,
        }) == event_run(*event),
{
    match event {
        RunEvent::Started { run_id } => Some(run_id),
        RunEvent::MessagesDelivered { run_id } => Some(run_id),
        RunEvent::ModelStarted { run_id } => Some(run_id),
        RunEvent::ModelDelta { run_id, .. } => Some(run_id),
        RunEvent::ModelCompleted { run_id, .. } => Some(run_id),
        RunEvent::EvalStarted { run_id } => Some(run_id),
        RunEvent::EvalCompleted { run_id } => Some(run_id),
        RunEvent::CompactionStarted { run_id } => Some(run_id),
        RunEvent::CompactionCompleted { run_id } => Some(run_id),
        RunEvent::CompactionFailed { run_id, .. } => Some(run_id),
        RunEvent::Completed { run_id } => Some(run_id),
        RunEvent::Failed { .. } => None,
    }
}

/// Whether an event is part of a run's stream, and not its end.
pub fn is_streaming_event(event: &RunEvent) -> (r: bool)
    ensures
        r == streams(*event),
{
    match event {
        RunEvent::Completed { .. } => false,
        RunEvent::Failed { .. } => false,
        _ => true,
    }
}

/// The address an outcome reports on.
pub open spec fn outcome_of(outcome: AgentOutcome) -> Seq<char> {
    match outcome {
        AgentOutcome::Completed { address } => address@,
        AgentOutcome::Failed { address, error } => address@,
        AgentOutcome::Cancelled { address, reason } => address@,
    }
}

/// The address an outcome reports on.
pub fn outcome_address(outcome: &AgentOutcome) -> (r: &String)
    ensures
        r@ == outcome_of(*outcome),
{
    match outcome {
        AgentOutcome::Completed { address } => address,
        AgentOutcome::Failed { address, .. } => address,
        AgentOutcome::Cancelled { address, .. } => address,
    }
}

/// The agent an event is about.
pub open spec fn event_address(event: AgentSystemEvent) -> Seq<char> {
    match event {
        AgentSystemEvent::Hosted { address, parent } => address@,
        AgentSystemEvent::Retired { address, reason } => address@,
        AgentSystemEvent::Outcome { outcome } => outcome_of(outcome),
        AgentSystemEvent::ActorRuntime { address, event } => address@,
        AgentSystemEvent::Run { address, event } => address@,
    }
}

/// The agent whose journal has to be folded before the event is applied:
/// none for a streamed piece, which commits nothing.
pub open spec fn folds(event: AgentSystemEvent) -> Option<Seq<char>> {
    match event {
        AgentSystemEvent::Run { address, event } => if event is ModelDelta {
            None
        } else {
            Some(address@)
        },
        other => Some(event_address(other)),
    }
}

/// Which actor's journal to fold before applying the event. Streaming deltas
/// commit nothing, so they skip the fold; every other event marks a point
/// where the journal may have advanced.
pub fn fold_address(event: &AgentSystemEvent) -> (r: Option<String>)
    ensures
        crate::text::opt_text(r) == folds(*event),
{
    match event {
        AgentSystemEvent::Run { address, event } => match event {
            RunEvent::ModelDelta { .. } => None,
            _ => Some(address.clone()),
        },
        AgentSystemEvent::Hosted { address, .. } => Some(address.clone()),
        AgentSystemEvent::Retired { address, .. } => Some(address.clone()),
        AgentSystemEvent::ActorRuntime { address, .. } => Some(address.clone()),
        AgentSystemEvent::Outcome { outcome } => Some(outcome_address(outcome).clone()),
    }
}

} // verus!
