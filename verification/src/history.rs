//! Committed transcript rows and the messages exchanged with the runtime.

use crate::text;
use vstd::prelude::*;
use vstd::string::*;

verus! {

#[derive(Clone, Copy, Debug, PartialEq, Eq, Structural)]
pub enum HistoryKind {
    User,
    Assistant,
    Reasoning,
    ToolCall,
    ToolResult,
    System,
}

/// One transcript row.
#[derive(Clone, Debug, PartialEq, Eq)]
pub struct HistoryEntry {
    pub kind: HistoryKind,
    pub title: String,
    pub body: String,
}

/// The value of a [`HistoryEntry`].
pub struct Row {
    pub kind: HistoryKind,
    pub title: Seq<char>,
    pub body: Seq<char>,
}

impl View for HistoryEntry {
    type V = Row;

    open spec fn view(&self) -> Row {
        Row { kind: self.kind, title: self.title@, body: self.body@ }
    }
}

/// The values of a list of rows.
pub open spec fn rows_of(v: Seq<HistoryEntry>) -> Seq<Row> {
    v.map_values(|e: HistoryEntry| e@)
}

/// One committed transcript row. The run which produced it is known for rows
/// derived from a model turn or an eval.
#[derive(Clone, Debug, PartialEq, Eq)]
pub struct CommittedRow {
    pub entry: HistoryEntry,
    pub run_id: Option<String>,
}

/// The value of a [`CommittedRow`].
pub struct RunRow {
    pub row: Row,
    pub run: Option<Seq<char>>,
}

impl View for CommittedRow {
    type V = RunRow;

    open spec fn view(&self) -> RunRow {
        RunRow { row: self.entry@, run: text::opt_text(self.run_id) }
    }
}

/// The values of a list of committed rows.
pub open spec fn run_rows(v: Seq<CommittedRow>) -> Seq<RunRow> {
    v.map_values(|r: CommittedRow| r@)
}

/// Everything the journal tells about one agent when a session opens.
#[derive(Clone, Debug)]
pub struct AgentHistory {
    pub address: String,
    pub parent: Option<String>,
    pub model: Option<String>,
    pub status: String,
    pub run_completed: bool,
    /// Context consumption of the newest completed model response.
    pub context_tokens: Option<u64>,
    pub history: Vec<CommittedRow>,
}

impl AgentHistory {
    /// An idle root agent with the given rows.
    pub fn root(history: Vec<CommittedRow>) -> (r: Self)
        ensures
            r.address@ == "/root"@,
            r.parent is None,
            r.model is None,
            r.status@ == "Ready"@,
            r.run_completed,
            r.context_tokens is None,
            r.history == history,
    {
        AgentHistory {
            address: "/root".to_owned(),
            parent: None,
            model: None,
            status: "Ready".to_owned(),
            run_completed: true,
            context_tokens: None,
            history,
        }
    }
}

/// Everything one incremental fold committed, in journal order.
#[derive(Debug)]
pub struct FoldOutcome {
    pub rows: Vec<CommittedRow>,
    /// Context consumption of the newest completed model response.
    pub context_tokens: Option<u64>,
    /// Run of every model turn committed by this fold, in order.
    pub model_turns: Vec<String>,
    /// Mailbox messages consumed into context by this fold.
    pub consumed_message_ids: Vec<String>,
    /// The actor's active run after the fold, if any.
    pub active_run: Option<String>,
    /// Runs this fold observed reaching a terminal or interrupted entry.
    pub dead_runs: Vec<String>,
    /// Whether the fold ended on an interruption boundary.
    pub interrupted: bool,
    /// The model the actor runs with, when the fold told one.
    pub selected_model: Option<String>,
}

/// The value of a [`FoldOutcome`].
#[verifier::ext_equal]
pub struct Fold {
    pub rows: Seq<RunRow>,
    pub context_tokens: Option<u64>,
    pub model_turns: Seq<Seq<char>>,
    pub consumed: Seq<Seq<char>>,
    pub active_run: Option<Seq<char>>,
    pub dead_runs: Seq<Seq<char>>,
    pub interrupted: bool,
    pub selected_model: Option<Seq<char>>,
}

impl View for FoldOutcome {
    type V = Fold;

    open spec fn view(&self) -> Fold {
        Fold {
            rows: run_rows(self.rows@),
            context_tokens: self.context_tokens,
            model_turns: text::texts(self.model_turns@),
            consumed: text::texts(self.consumed_message_ids@),
            active_run: text::opt_text(self.active_run),
            dead_runs: text::texts(self.dead_runs@),
            interrupted: self.interrupted,
            selected_model: text::opt_text(self.selected_model),
        }
    }
}

impl FoldOutcome {
    /// A fold that committed nothing.
    pub fn empty() -> (r: Self)
        ensures
            r@ == (Fold {
                rows: Seq::empty(),
                context_tokens: None,
                model_turns: Seq::empty(),
                consumed: Seq::empty(),
                active_run: None,
                dead_runs: Seq::empty(),
                interrupted: false,
                selected_model: None,
            }),
    {
        let r = FoldOutcome {
            rows: Vec::new(),
            context_tokens: None,
            model_turns: Vec::new(),
            consumed_message_ids: Vec::new(),
            active_run: None,
            dead_runs: Vec::new(),
            interrupted: false,
            selected_model: None,
        };
        proof {
            assert(run_rows(r.rows@) =~= Seq::empty());
            assert(text::texts(r.model_turns@) =~= Seq::empty());
        }
        r
    }
}

/// The model and effort a fresh session starts with.
#[derive(Clone, Debug, PartialEq, Eq)]
pub struct RuntimePreferences {
    pub model_id: String,
    pub effort: String,
}

/// Receipt for a durably admitted user message.
#[derive(Debug)]
pub struct SentMessage {
    pub message_id: String,
    pub text: String,
}

/// What the interface asks its host to do.
#[derive(Clone, Debug)]
pub enum Command {
    /// A user message, durably admitted as a steer.
    Message(String),
    Interrupt,
    Compact,
    SwitchModel { index: usize, registry_id: String },
    SetEffort { index: usize, effort: String },
    New,
    LoadSession(u64),
    RefreshSessions,
    /// Drops a session that is not open.
    DeleteSession(u64),
    /// Replaces the open session by a fresh one and drops it.
    ReplaceSession { delete: u64 },
}

/// The value of a [`Command`].
pub enum Request {
    Message(Seq<char>),
    Interrupt,
    Compact,
    SwitchModel(usize, Seq<char>),
    SetEffort(usize, Seq<char>),
    New,
    LoadSession(u64),
    RefreshSessions,
    DeleteSession(u64),
    ReplaceSession(u64),
}

impl View for Command {
    type V = Request;

    open spec fn view(&self) -> Request {
        match *self {
            Command::Message(m) => Request::Message(m@),
            Command::Interrupt => Request::Interrupt,
            Command::Compact => Request::Compact,
            Command::SwitchModel { index, registry_id } => Request::SwitchModel(
                index,
                registry_id@,
            ),
            Command::SetEffort { index, effort } => Request::SetEffort(index, effort@),
            Command::New => Request::New,
            Command::LoadSession(id) => Request::LoadSession(id),
            Command::RefreshSessions => Request::RefreshSessions,
            Command::DeleteSession(id) => Request::DeleteSession(id),
            Command::ReplaceSession { delete } => Request::ReplaceSession(delete),
        }
    }
}

/// The value of an optional command.
pub open spec fn request(c: Option<Command>) -> Option<Request> {
    match c {
        Some(c) => Some(c@),
        None => None,
    }
}

/// Command results carry state transitions only; transcript content always
/// comes from the journal.
#[derive(Debug)]
pub enum CommandResult {
    Message(Result<SentMessage, String>),
    /// Whether the interruption found a run to stop.
    Interrupt(Result<bool, String>),
    Compact(Result<String, String>),
    SwitchModel { index: usize, result: Result<String, String> },
    SetEffort { index: usize, effort: String, result: Result<String, String> },
}

/// A copy of an optional string.
pub fn copy_opt(s: &Option<String>) -> (r: Option<String>)
    ensures
        text::opt_text(r) == text::opt_text(*s),
        r is Some == s is Some,
{
    match s {
        Some(s) => Some(s.clone()),
        None => None,
    }
}

/// Whether an optional string holds exactly `t`.
pub fn opt_is(s: &Option<String>, t: &str) -> (r: bool)
    ensures
        r == (text::opt_text(*s) == Some(t@)),
{
    match s {
        Some(s) => text::same(s.as_str(), t),
        None => false,
    }
}

} // verus!
