//! Rendering committed journal entries into transcript rows.

use crate::events;
use crate::events::ModelDelta;
use crate::history;
use crate::history::{AgentHistory, CommittedRow, Fold, FoldOutcome, HistoryEntry, HistoryKind, Row, RunRow};
use crate::intent;
use crate::text;
use vstd::prelude::*;
use vstd::string::*;

verus! {

/// The deepest nesting of a JSON text that is shown in its pretty form. The
/// parser takes a frame of the stack for each level.
pub const MAX_NESTING: usize = 512;

/// How far into its arrays and objects a reader of a JSON text has come.
pub struct Reading {
    pub depth: nat,
    pub deepest: nat,
    pub quoted: bool,
    pub escaped: bool,
}

impl Reading {
    /// The reading with one more byte: brackets outside strings nest.
    pub open spec fn step(self, b: u8) -> Reading {
        if self.escaped {
            Reading { escaped: false, ..self }
        } else if self.quoted {
            Reading { escaped: b == 0x5c, quoted: b != 0x22, ..self }
        } else if b == 0x22 {
            Reading { quoted: true, ..self }
        } else if b == 0x5b || b == 0x7b {
            let depth = self.depth + 1;
            Reading {
                depth,
                deepest: if depth > self.deepest {
                    depth
                } else {
                    self.deepest
                },
                ..self
            }
        } else if (b == 0x5d || b == 0x7d) && self.depth > 0 {
            Reading { depth: (self.depth - 1) as nat, ..self }
        } else {
            self
        }
    }
}

/// The reading of the first `n` bytes.
pub open spec fn reading(bytes: Seq<u8>, n: int) -> Reading
    decreases n,
{
    if n <= 0 {
        Reading { depth: 0, deepest: 0, quoted: false, escaped: false }
    } else {
        reading(bytes, n - 1).step(bytes[n - 1])
    }
}

/// How deep the arrays and objects of a JSON text are nested.
pub open spec fn nesting(json: Seq<char>) -> nat {
    let bytes = vstd::utf8::encode_utf8(json);
    reading(bytes, bytes.len() as int).deepest
}

/// How deep the arrays and objects of a JSON text are nested.
fn nesting_of(json: &str) -> (r: usize)
    ensures
        r == nesting(json@),
{
    let bytes = json.as_bytes();
    let n: usize = bytes.len();
    let mut i: usize = 0;
    let mut depth: usize = 0;
    let mut deepest: usize = 0;
    let mut quoted = false;
    let mut escaped = false;
    while i < n
        invariant
            i <= n,
            n == bytes@.len(),
            depth <= i,
            deepest <= i,
            reading(bytes@, i as int) == (Reading {
                depth: depth as nat,
                deepest: deepest as nat,
                quoted,
                escaped,
            }),
        decreases n - i,
    {
        let b = bytes[i];
        if escaped {
            escaped = false;
        } else if quoted {
            escaped = b == 0x5c;
            quoted = b != 0x22;
        } else if b == 0x22 {
            quoted = true;
        } else if b == 0x5b || b == 0x7b {
            depth = depth + 1;
            if depth > deepest {
                deepest = depth;
            }
        } else if (b == 0x5d || b == 0x7d) && depth > 0 {
            depth = depth - 1;
        }
        i = i + 1;
    }
    deepest
}

/// The pretty form of a JSON text, when it is one.
pub uninterp spec fn pretty_json(json: Seq<char>) -> Option<Seq<char>>;

/// `serde_json::to_string_pretty` of the value that a JSON text holds, read
/// without the parser's own limit on nesting. The result is a function of the
/// text alone.
#[verifier::external_body]
fn pretty(json: &str) -> (r: Option<String>)
    requires
        nesting(json@) <= MAX_NESTING,
    ensures
        text::opt_text(r) == pretty_json(json@),
{
    let mut reader = serde_json::Deserializer::from_str(json);
    reader.disable_recursion_limit();
    let value = <serde_json::Value as serde::de::Deserialize>::deserialize(&mut reader).ok()?;
    reader.end().ok()?;
    serde_json::to_string_pretty(&value).ok()
}

/// The string under `key` in the object that a JSON text holds.
pub uninterp spec fn json_field(json: Seq<char>, key: Seq<char>) -> Option<Seq<char>>;

/// `serde_json::Value::get` on the value that a JSON text holds; present when
/// it is an object with a string under `key`.
#[verifier::external_body]
fn text_field(json: &str, key: &str) -> (r: Option<String>)
    ensures
        text::opt_text(r) == json_field(json@, key@),
{
    let value: serde_json::Value = serde_json::from_str(json).ok()?;
    value.get(key)?.as_str().map(str::to_owned)
}

/// A JSON value as a reader sees it: a string by its content, anything else
/// in its pretty form, unless it is nested too deep for that.
pub open spec fn shown_json(json: Seq<char>) -> Seq<char> {
    match intent::json_string(vstd::utf8::encode_utf8(json)) {
        Some(s) => s,
        None => if nesting(json) > MAX_NESTING {
            json
        } else {
            match pretty_json(json) {
                Some(s) => s,
                None => json,
            }
        },
    }
}

/// The text that shows a JSON value.
pub fn display_json(json: &str) -> (r: String)
    ensures
        r@ == shown_json(json@),
{
    match intent::decode_string(json.as_bytes()) {
        Some(s) => s,
        None => if nesting_of(json) > MAX_NESTING {
            json.to_owned()
        } else {
            match pretty(json) {
                Some(s) => s,
                None => json.to_owned(),
            }
        },
    }
}

/// Where a mailbox message came from.
#[derive(Debug)]
pub enum MessageSource {
    User,
    Host(String),
    Actor(String),
}

/// What became of the TypeScript isolate.
#[derive(Clone, Copy, Debug, PartialEq, Eq, Structural)]
pub enum IsolateState {
    Retained,
    Reset,
}

/// What is known of an eval that was interrupted.
#[derive(Clone, Copy, Debug, PartialEq, Eq, Structural)]
pub enum EvalOutcome {
    FailureRecorded,
    Unknown,
}

/// A notice of the runtime to the model.
#[derive(Debug)]
pub enum SystemNotice {
    RunInterrupted { run_id: String, isolate: IsolateState, eval: Option<EvalOutcome> },
    RuntimeResumed {
        isolate: IsolateState,
        resumed_run: Option<String>,
        eval: Option<EvalOutcome>,
    },
}

/// A mailbox message. The payload is JSON; a notice is one that could be
/// decoded.
#[derive(Debug)]
pub struct Message {
    pub source: MessageSource,
    pub notice: Option<SystemNotice>,
    pub payload: String,
}

/// A message consumed into context; it may no longer be known.
#[derive(Debug)]
pub struct Consumed {
    pub id: String,
    pub message: Option<Message>,
}

/// What a model response asks for.
#[derive(Debug)]
pub enum Directive {
    Eval { intent: String, source: String },
    /// The output, as JSON.
    Output(String),
    Rejected,
}

/// A model response as it is displayed.
#[derive(Debug)]
pub struct Projection {
    pub display: Vec<ModelDelta>,
    pub directive: Directive,
}

/// How a context entry moved its actor on.
#[derive(Debug)]
pub enum Transition {
    Messages { consumed: Vec<Consumed> },
    Interrupted { run_id: String, consumed: Vec<Consumed> },
    /// A model turn. `projection` is present when a configured model could
    /// read the response; `total_tokens` when the provider reported them.
    Model {
        run_id: String,
        complete: bool,
        projection: Option<Projection>,
        total_tokens: Option<u64>,
    },
    Eval { run_id: String },
    /// A compaction, with its summary when the record could be decoded.
    Compaction { summary: Option<String> },
}

/// One committed context entry. The payload is JSON.
#[derive(Debug)]
pub struct ContextEntry {
    pub transition: Transition,
    pub payload: String,
}

/// The row of a runtime notice.
pub open spec fn notice_row(notice: SystemNotice) -> Row {
    match notice {
        SystemNotice::RunInterrupted { run_id, isolate, eval } => Row {
            kind: HistoryKind::System,
            title: "Run interrupted"@,
            body: "Run "@ + run_id@ + " was stopped at the user's request."@ + (match isolate {
                IsolateState::Retained => " TypeScript state was retained."@,
                IsolateState::Reset => {
                    " The TypeScript isolate was reset; external effects may already have completed."@
                },
            }) + (match eval {
                Some(EvalOutcome::FailureRecorded) => {
                    " A failure result was recorded for the interrupted eval."@
                },
                Some(EvalOutcome::Unknown) => {
                    " The interrupted eval has no authoritative result."@
                },
                None => ""@,
            }),
        },
        SystemNotice::RuntimeResumed { isolate, resumed_run, eval } => Row {
            kind: HistoryKind::System,
            title: "Runtime resumed"@,
            body: "The runtime resumed"@ + (match resumed_run {
                Some(run) => " while recovering run "@ + run@,
                None => ""@,
            }) + " with "@ + (match isolate {
                IsolateState::Retained => "Retained"@,
                IsolateState::Reset => "Reset"@,
            }) + " state."@ + (if eval is Some {
                " A prior eval did not have an authoritative result."@
            } else {
                ""@
            }),
        },
    }
}

/// Renders a runtime notice.
pub fn runtime_notice(notice: &SystemNotice) -> (r: HistoryEntry)
    ensures
        r@ == notice_row(*notice),
{
    match notice {
        SystemNotice::RunInterrupted { run_id, isolate, eval } => {
            let mut body = "Run ".to_owned();
            body.append(run_id.as_str());
            body.append(" was stopped at the user's request.");
            body.append(
                match isolate {
                    IsolateState::Retained => " TypeScript state was retained.",
                    IsolateState::Reset => {
                        " The TypeScript isolate was reset; external effects may already have completed."
                    },
                },
            );
            body.append(
                match eval {
                    Some(EvalOutcome::FailureRecorded) => {
                        " A failure result was recorded for the interrupted eval."
                    },
                    Some(EvalOutcome::Unknown) => {
                        " The interrupted eval has no authoritative result."
                    },
                    None => "",
                },
            );
            HistoryEntry { kind: HistoryKind::System, title: "Run interrupted".to_owned(), body }
        },
        SystemNotice::RuntimeResumed { isolate, resumed_run, eval } => {
            let mut body = "The runtime resumed".to_owned();
            let recovering = match resumed_run {
                Some(run) => text::concat(" while recovering run ", run.as_str()),
                None => "".to_owned(),
            };
            body.append(recovering.as_str());
            body.append(" with ");
            body.append(
                match isolate {
                    IsolateState::Retained => "Retained",
                    IsolateState::Reset => "Reset",
                },
            );
            body.append(" state.");
            body.append(
                if eval.is_some() {
                    " A prior eval did not have an authoritative result."
                } else {
                    ""
                },
            );
            HistoryEntry { kind: HistoryKind::System, title: "Runtime resumed".to_owned(), body }
        },
    }
}

/// The row of a consumed message: a host notice in words, anything else under
/// its sender.
pub open spec fn message_row(m: Message) -> Row {
    if m.source is Host && m.notice is Some {
        notice_row(m.notice->0)
    } else {
        Row {
            kind: if m.source is User {
                HistoryKind::User
            } else {
                HistoryKind::System
            },
            title: match m.source {
                MessageSource::User => "You"@,
                MessageSource::Host(component) => component@,
                MessageSource::Actor(id) => id@,
            },
            body: shown_json(m.payload@),
        }
    }
}

fn render_message(m: &Message) -> (r: HistoryEntry)
    ensures
        r@ == message_row(*m),
{
    match &m.source {
        MessageSource::User => HistoryEntry {
            kind: HistoryKind::User,
            title: "You".to_owned(),
            body: display_json(m.payload.as_str()),
        },
        MessageSource::Host(component) => {
            if let Some(notice) = &m.notice {
                return runtime_notice(notice);
            }
            HistoryEntry {
                kind: HistoryKind::System,
                title: component.clone(),
                body: display_json(m.payload.as_str()),
            }
        },
        MessageSource::Actor(id) => HistoryEntry {
            kind: HistoryKind::System,
            title: id.clone(),
            body: display_json(m.payload.as_str()),
        },
    }
}

/// The rows of the first `n` consumed messages; unknown ones have none.
pub open spec fn message_rows(consumed: Seq<Consumed>, n: int) -> Seq<Row>
    decreases n,
{
    if n <= 0 {
        Seq::empty()
    } else {
        match consumed[n - 1].message {
            Some(m) => message_rows(consumed, n - 1).push(message_row(m)),
            None => message_rows(consumed, n - 1),
        }
    }
}

fn push_row(rows: &mut Vec<HistoryEntry>, row: HistoryEntry)
    ensures
        history::rows_of(final(rows)@) == history::rows_of(old(rows)@).push(row@),
{
    let ghost before = rows@;
    let ghost value = row@;
    rows.push(row);
    proof {
        assert(history::rows_of(rows@) =~= history::rows_of(before).push(value));
    }
}

fn no_rows() -> (r: Vec<HistoryEntry>)
    ensures
        history::rows_of(r@) == Seq::<Row>::empty(),
{
    let r: Vec<HistoryEntry> = Vec::new();
    proof {
        assert(history::rows_of(r@) =~= Seq::<Row>::empty());
    }
    r
}

fn render_messages(consumed: &Vec<Consumed>) -> (r: Vec<HistoryEntry>)
    ensures
        history::rows_of(r@) == message_rows(consumed@, consumed@.len() as int),
{
    let mut rows = no_rows();
    let mut i: usize = 0;
    while i < consumed.len()
        invariant
            i <= consumed@.len(),
            history::rows_of(rows@) == message_rows(consumed@, i as int),
        decreases consumed@.len() - i,
    {
        if let Some(m) = &consumed[i].message {
            push_row(&mut rows, render_message(m));
        }
        i += 1;
    }
    rows
}

/// The title of an agent's row.
pub open spec fn titled(address: Seq<char>, what: Seq<char>) -> Seq<char> {
    address + " · "@ + what
}

/// The rows after a piece of text or reasoning: it continues the last row
/// when that has the same kind and title. Empty pieces and tool calls change
/// nothing.
pub open spec fn put_piece(rows: Seq<Row>, kind: HistoryKind, title: Seq<char>, body: Seq<char>) -> Seq<Row> {
    if body.len() == 0 {
        rows
    } else if rows.len() > 0 && rows.last().kind == kind && rows.last().title == title {
        rows.drop_last().push(Row { body: rows.last().body + body, ..rows.last() })
    } else {
        rows.push(Row { kind, title, body })
    }
}

pub open spec fn put_delta(rows: Seq<Row>, address: Seq<char>, delta: ModelDelta) -> Seq<Row> {
    match delta {
        ModelDelta::Text(s) => put_piece(rows, HistoryKind::Assistant, address, s@),
        ModelDelta::Reasoning(s) => put_piece(
            rows,
            HistoryKind::Reasoning,
            titled(address, "reasoning"@),
            s@,
        ),
        ModelDelta::ToolCall(_) => rows,
    }
}

fn append_piece(rows: &mut Vec<HistoryEntry>, kind: HistoryKind, title: String, body: &str)
    ensures
        history::rows_of(final(rows)@) == put_piece(
            history::rows_of(old(rows)@),
            kind,
            title@,
            body@,
        ),
{
    if body.is_empty() {
        return;
    }
    let n: usize = rows.len();
    let ghost before = rows@;
    proof {
        assert(history::rows_of(before).len() == n);
        if n > 0 {
            assert(history::rows_of(before)[n - 1] == before[n - 1]@);
        }
    }
    if n > 0 && rows[n - 1].kind == kind && text::same(
        rows[n - 1].title.as_str(),
        title.as_str(),
    ) {
        rows[n - 1].body.append(body);
        proof {
            assert(history::rows_of(rows@) =~= put_piece(
                history::rows_of(before),
                kind,
                title@,
                body@,
            ));
        }
    } else {
        push_row(rows, HistoryEntry { kind, title, body: body.to_owned() });
    }
}

/// Appends a piece of a model response to the rows.
pub fn append_model_delta(rows: &mut Vec<HistoryEntry>, address: &str, delta: &ModelDelta)
    ensures
        history::rows_of(final(rows)@) == put_delta(
            history::rows_of(old(rows)@),
            address@,
            *delta,
        ),
{
    match delta {
        ModelDelta::Text(s) => {
            append_piece(rows, HistoryKind::Assistant, address.to_owned(), s.as_str());
        },
        ModelDelta::Reasoning(s) => {
            append_piece(
                rows,
                HistoryKind::Reasoning,
                text::concat3(address, " · ", "reasoning"),
                s.as_str(),
            );
        },
        ModelDelta::ToolCall(_) => {},
    }
}

/// A native tool call put together from its pieces.
pub struct Call {
    pub index: int,
    pub name: Seq<char>,
    pub arguments: Seq<char>,
}

/// The exec form of a [`Call`].
#[derive(Debug)]
pub struct ToolCall {
    pub index: usize,
    pub name: String,
    pub arguments: String,
}

impl View for ToolCall {
    type V = Call;

    open spec fn view(&self) -> Call {
        Call { index: self.index as int, name: self.name@, arguments: self.arguments@ }
    }
}

pub open spec fn calls_of(v: Seq<ToolCall>) -> Seq<Call> {
    v.map_values(|c: ToolCall| c@)
}

/// Position of the first call whose index is not below `index`.
pub open spec fn call_slot(calls: Seq<Call>, i: int, index: int) -> int
    decreases calls.len() - i,
{
    if 0 <= i < calls.len() && calls[i].index < index {
        call_slot(calls, i + 1, index)
    } else {
        i
    }
}

/// The calls, ordered by index, after another piece of one of them.
pub open spec fn put_call(calls: Seq<Call>, delta: events::ToolCallDelta) -> Seq<Call> {
    let at = call_slot(calls, 0, delta.index as int);
    let name = match delta.name {
        Some(name) => name@,
        None => Seq::empty(),
    };
    if at < calls.len() && calls[at].index == delta.index {
        calls.update(
            at,
            Call {
                name: calls[at].name + name,
                arguments: calls[at].arguments + delta.arguments@,
                ..calls[at]
            },
        )
    } else {
        calls.insert(
            at,
            Call { index: delta.index as int, name, arguments: delta.arguments@ },
        )
    }
}

fn note_call(calls: &mut Vec<ToolCall>, delta: &events::ToolCallDelta)
    ensures
        calls_of(final(calls)@) == put_call(calls_of(old(calls)@), *delta),
{
    let ghost all = calls_of(calls@);
    let mut at: usize = 0;
    proof {
        assert(all.len() == calls@.len());
    }
    while at < calls.len() && calls[at].index < delta.index
        invariant
            at <= calls@.len(),
            all == calls_of(calls@),
            all.len() == calls@.len(),
            calls@ == old(calls)@,
            forall|k: int| 0 <= k < all.len() ==> all[k] == (#[trigger] calls@[k])@,
            call_slot(all, 0, delta.index as int) == call_slot(
                all,
                at as int,
                delta.index as int,
            ),
        decreases calls@.len() - at,
    {
        at += 1;
    }
    let ghost before = calls@;
    proof {
        if at < all.len() {
            assert(all[at as int] == calls@[at as int]@);
        }
    }
    if at < calls.len() && calls[at].index == delta.index {
        if let Some(name) = &delta.name {
            calls[at].name.append(name.as_str());
        }
        let ghost named = calls@[at as int]@;
        calls[at].arguments.append(delta.arguments.as_str());
        proof {
            let want = put_call(all, *delta);
            assert(named.name =~= want[at as int].name);
            assert(calls_of(calls@) =~= want);
        }
    } else {
        let name = match &delta.name {
            Some(name) => name.clone(),
            None => String::new(),
        };
        let call = ToolCall { index: delta.index, name, arguments: delta.arguments.clone() };
        let ghost value = call@;
        calls.insert(at, call);
        proof {
            let want = put_call(all, *delta);
            assert(value.name =~= want[at as int].name);
            assert(calls_of(calls@) =~= want);
        }
    }
}

/// The rows of the first `n` pieces of a response, tool calls aside.
pub open spec fn piece_rows(display: Seq<ModelDelta>, n: int, address: Seq<char>) -> Seq<Row>
    decreases n,
{
    if n <= 0 {
        Seq::empty()
    } else {
        put_delta(piece_rows(display, n - 1, address), address, display[n - 1])
    }
}

/// The tool calls of the first `n` pieces of a response.
pub open spec fn piece_calls(display: Seq<ModelDelta>, n: int) -> Seq<Call>
    decreases n,
{
    if n <= 0 {
        Seq::empty()
    } else {
        match display[n - 1] {
            ModelDelta::ToolCall(delta) => put_call(piece_calls(display, n - 1), delta),
            _ => piece_calls(display, n - 1),
        }
    }
}

/// The row of a tool call known by its name and raw arguments: its intent or
/// name, and its source where the arguments hold one.
pub open spec fn call_row(address: Seq<char>, name: Seq<char>, arguments: Seq<char>) -> Row {
    let label = match json_field(arguments, "intent"@) {
        Some(intent) => intent,
        None => if name.len() > 0 {
            name
        } else {
            "tool call"@
        },
    };
    Row {
        kind: HistoryKind::ToolCall,
        title: titled(address, label),
        body: match json_field(arguments, "source"@) {
            Some(source) => source,
            None => arguments,
        },
    }
}

/// The row of a historical tool call whose arguments hold the given intent
/// and source.
pub fn tool_call_row(
    address: &str,
    name: &str,
    arguments: &str,
    intent: Option<String>,
    source: Option<String>,
) -> (r: HistoryEntry)
    ensures
        r@.kind == HistoryKind::ToolCall,
        r@.title == titled(
            address@,
            match intent {
                Some(intent) => intent@,
                None => if name@.len() > 0 {
                    name@
                } else {
                    "tool call"@
                },
            },
        ),
        r@.body == (match source {
            Some(source) => source@,
            None => arguments@,
        }),
{
    let label = match intent {
        Some(intent) => intent,
        None => if name.is_empty() {
            "tool call".to_owned()
        } else {
            name.to_owned()
        },
    };
    HistoryEntry {
        kind: HistoryKind::ToolCall,
        title: text::concat3(address, " · ", label.as_str()),
        body: match source {
            Some(source) => source,
            None => arguments.to_owned(),
        },
    }
}

/// Renders a tool call from its raw arguments.
pub fn historical_tool_call(address: &str, name: &str, arguments: &str) -> (r: HistoryEntry)
    ensures
        r@ == call_row(address@, name@, arguments@),
{
    let intent = text_field(arguments, "intent");
    let source = text_field(arguments, "source");
    tool_call_row(address, name, arguments, intent, source)
}

/// The rows of the calls from `i` on.
pub open spec fn call_rows(calls: Seq<Call>, i: int, address: Seq<char>) -> Seq<Row>
    decreases calls.len() - i,
{
    if i < 0 || i >= calls.len() {
        Seq::empty()
    } else {
        seq![call_row(address, calls[i].name, calls[i].arguments)] + call_rows(
            calls,
            i + 1,
            address,
        )
    }
}

/// Whether a row is text of the agent.
pub open spec fn has_text(rows: Seq<Row>) -> bool {
    exists|i: int| 0 <= i < rows.len() && (#[trigger] rows[i]).kind == HistoryKind::Assistant
}

/// The rows of a model response. An eval shows its intent and source; the
/// first native call is that eval. An output is shown unless the response had
/// text. A rejected response shows its native calls.
pub open spec fn projection_rows(address: Seq<char>, p: Projection) -> Seq<Row> {
    let n = p.display@.len() as int;
    let pieces = piece_rows(p.display@, n, address);
    let calls = piece_calls(p.display@, n);
    match p.directive {
        Directive::Eval { intent, source } => pieces.push(
            Row {
                kind: HistoryKind::ToolCall,
                title: titled(address, intent@),
                body: source@,
            },
        ) + call_rows(calls, 1, address),
        Directive::Output(output) => if has_text(pieces) {
            pieces
        } else {
            pieces.push(
                Row {
                    kind: HistoryKind::Assistant,
                    title: address,
                    body: shown_json(output@),
                },
            )
        },
        Directive::Rejected => pieces + call_rows(calls, 0, address),
    }
}

fn append_calls(rows: &mut Vec<HistoryEntry>, calls: &Vec<ToolCall>, from: usize, address: &str)
    ensures
        history::rows_of(final(rows)@) == history::rows_of(old(rows)@) + call_rows(
            calls_of(calls@),
            from as int,
            address@,
        ),
{
    let ghost all = calls_of(calls@);
    let ghost start = history::rows_of(rows@);
    let mut i: usize = from;
    proof {
        assert(all.len() == calls@.len());
    }
    while i < calls.len()
        invariant
            from <= i,
            all == calls_of(calls@),
            all.len() == calls@.len(),
            history::rows_of(rows@) + call_rows(all, i as int, address@) == start + call_rows(
                all,
                from as int,
                address@,
            ),
        decreases calls@.len() - i,
    {
        let ghost before = history::rows_of(rows@);
        proof {
            assert(all[i as int] == calls@[i as int]@);
        }
        let row = historical_tool_call(
            address,
            calls[i].name.as_str(),
            calls[i].arguments.as_str(),
        );
        let ghost value = row@;
        push_row(rows, row);
        proof {
            let rest = call_rows(all, i + 1, address@);
            assert(before + (seq![value] + rest) =~= before.push(value) + rest);
        }
        i += 1;
    }
    proof {
        assert(history::rows_of(rows@) + Seq::<Row>::empty() =~= history::rows_of(rows@));
    }
}

fn any_text(rows: &Vec<HistoryEntry>) -> (r: bool)
    ensures
        r == has_text(history::rows_of(rows@)),
{
    let ghost all = history::rows_of(rows@);
    let mut i: usize = 0;
    proof {
        assert(all.len() == rows@.len());
    }
    while i < rows.len()
        invariant
            i <= rows@.len(),
            all == history::rows_of(rows@),
            all.len() == rows@.len(),
            forall|k: int| 0 <= k < i ==> (#[trigger] all[k]).kind != HistoryKind::Assistant,
        decreases rows@.len() - i,
    {
        proof {
            assert(all[i as int] == rows@[i as int]@);
        }
        if rows[i].kind == HistoryKind::Assistant {
            return true;
        }
        i += 1;
    }
    false
}

/// Renders a model response.
pub fn append_model_projection(address: &str, projection: &Projection) -> (r: Vec<HistoryEntry>)
    ensures
        history::rows_of(r@) == projection_rows(address@, *projection),
{
    let mut rows = no_rows();
    let mut calls: Vec<ToolCall> = Vec::new();
    let mut i: usize = 0;
    proof {
        assert(calls_of(calls@) =~= Seq::empty());
    }
    while i < projection.display.len()
        invariant
            i <= projection.display@.len(),
            history::rows_of(rows@) == piece_rows(projection.display@, i as int, address@),
            calls_of(calls@) == piece_calls(projection.display@, i as int),
        decreases projection.display@.len() - i,
    {
        match &projection.display[i] {
            ModelDelta::ToolCall(delta) => {
                note_call(&mut calls, delta);
            },
            _ => {
                append_model_delta(&mut rows, address, &projection.display[i]);
            },
        }
        i += 1;
    }
    match &projection.directive {
        Directive::Eval { intent, source } => {
            push_row(
                &mut rows,
                HistoryEntry {
                    kind: HistoryKind::ToolCall,
                    title: text::concat3(address, " · ", intent.as_str()),
                    body: source.clone(),
                },
            );
            append_calls(&mut rows, &calls, 1, address);
        },
        Directive::Output(output) => {
            if !any_text(&rows) {
                push_row(
                    &mut rows,
                    HistoryEntry {
                        kind: HistoryKind::Assistant,
                        title: address.to_owned(),
                        body: display_json(output.as_str()),
                    },
                );
            }
        },
        Directive::Rejected => {
            append_calls(&mut rows, &calls, 0, address);
        },
    }
    rows
}

/// The rows of a committed context entry.
pub open spec fn entry_rows(address: Seq<char>, entry: ContextEntry) -> Seq<Row> {
    match entry.transition {
        Transition::Messages { consumed } => message_rows(consumed@, consumed@.len() as int),
        Transition::Interrupted { run_id: _, consumed } => {
            message_rows(consumed@, consumed@.len() as int)
        },
        Transition::Model { run_id: _, complete: _, projection, total_tokens: _ } => match projection {
            Some(p) => projection_rows(address, p),
            None => seq![
                Row {
                    kind: HistoryKind::System,
                    title: "Historical model output"@,
                    body: shown_json(entry.payload@),
                },
            ],
        },
        Transition::Eval { run_id: _ } => seq![
            Row {
                kind: HistoryKind::ToolResult,
                title: titled(address, "eval result"@),
                body: shown_json(entry.payload@),
            },
        ],
        Transition::Compaction { summary } => seq![
            Row {
                kind: HistoryKind::System,
                title: "Compact"@,
                body: match summary {
                    Some(s) => s@,
                    None => shown_json(entry.payload@),
                },
            },
        ],
    }
}

fn single(row: HistoryEntry) -> (r: Vec<HistoryEntry>)
    ensures
        history::rows_of(r@) == seq![row@],
{
    let mut rows = no_rows();
    let ghost value = row@;
    push_row(&mut rows, row);
    proof {
        assert(history::rows_of(rows@) =~= seq![value]);
    }
    rows
}

/// Renders one committed context entry. Restored and live transcripts both
/// pass through here, so the two agree.
pub fn render_context_entry(address: &str, entry: &ContextEntry) -> (r: Vec<HistoryEntry>)
    ensures
        history::rows_of(r@) == entry_rows(address@, *entry),
{
    match &entry.transition {
        Transition::Messages { consumed } => render_messages(consumed),
        Transition::Interrupted { run_id: _, consumed } => render_messages(consumed),
        Transition::Model { run_id: _, complete: _, projection, total_tokens: _ } => match projection {
            Some(p) => append_model_projection(address, p),
            None => single(
                HistoryEntry {
                    kind: HistoryKind::System,
                    title: "Historical model output".to_owned(),
                    body: display_json(entry.payload.as_str()),
                },
            ),
        },
        Transition::Eval { run_id: _ } => single(
            HistoryEntry {
                kind: HistoryKind::ToolResult,
                title: text::concat3(address, " · ", "eval result"),
                body: display_json(entry.payload.as_str()),
            },
        ),
        Transition::Compaction { summary } => single(
            HistoryEntry {
                kind: HistoryKind::System,
                title: "Compact".to_owned(),
                body: match summary {
                    Some(s) => s.clone(),
                    None => display_json(entry.payload.as_str()),
                },
            },
        ),
    }
}

/// The run a committed row belongs to: that of a model turn or an eval.
pub open spec fn row_run(entry: ContextEntry) -> Option<Seq<char>> {
    match entry.transition {
        Transition::Model { run_id, .. } => Some(run_id@),
        Transition::Eval { run_id } => Some(run_id@),
        _ => None,
    }
}

/// The ids of the messages an entry consumed.
pub open spec fn consumed_ids(entry: ContextEntry) -> Seq<Seq<char>> {
    match entry.transition {
        Transition::Messages { consumed } => ids_of(consumed@),
        Transition::Interrupted { run_id: _, consumed } => ids_of(consumed@),
        _ => Seq::empty(),
    }
}

pub open spec fn ids_of(consumed: Seq<Consumed>) -> Seq<Seq<char>> {
    consumed.map_values(|c: Consumed| c.id@)
}

/// The rows with the run they belong to.
pub open spec fn of_run(rows: Seq<Row>, run: Option<Seq<char>>) -> Seq<RunRow> {
    Seq::new(rows.len(), |i: int| RunRow { row: rows[i], run })
}

/// A fold after one more committed entry.
pub open spec fn accumulated(fold: Fold, address: Seq<char>, entry: ContextEntry) -> Fold {
    Fold {
        rows: fold.rows + of_run(entry_rows(address, entry), row_run(entry)),
        context_tokens: match entry.transition {
            Transition::Model { run_id: _, complete: _, projection: _, total_tokens } => {
                if total_tokens is Some {
                    total_tokens
                } else {
                    fold.context_tokens
                }
            },
            _ => fold.context_tokens,
        },
        model_turns: match entry.transition {
            Transition::Model { run_id, .. } => fold.model_turns.push(run_id@),
            _ => fold.model_turns,
        },
        dead_runs: match entry.transition {
            Transition::Model { run_id, complete, projection: _, total_tokens: _ } => if complete {
                fold.dead_runs.push(run_id@)
            } else {
                fold.dead_runs
            },
            Transition::Interrupted { run_id, consumed: _ } => fold.dead_runs.push(run_id@),
            _ => fold.dead_runs,
        },
        consumed: fold.consumed + consumed_ids(entry),
        ..fold
    }
}

fn push_text(list: &mut Vec<String>, s: &str)
    ensures
        text::texts(final(list)@) == text::texts(old(list)@).push(s@),
{
    let ghost before = list@;
    list.push(s.to_owned());
    proof {
        assert(text::texts(list@) =~= text::texts(before).push(s@));
    }
}

fn push_ids(list: &mut Vec<String>, consumed: &Vec<Consumed>)
    ensures
        text::texts(final(list)@) == text::texts(old(list)@) + ids_of(consumed@),
{
    let ghost start = text::texts(list@);
    let ghost ids = ids_of(consumed@);
    let mut i: usize = 0;
    proof {
        assert(start =~= start + ids.take(0));
    }
    while i < consumed.len()
        invariant
            i <= consumed@.len(),
            ids == ids_of(consumed@),
            ids.len() == consumed@.len(),
            text::texts(list@) == start + ids.take(i as int),
        decreases consumed@.len() - i,
    {
        push_text(list, consumed[i].id.as_str());
        proof {
            assert(ids[i as int] == consumed@[i as int].id@);
            assert(start + ids.take(i + 1) =~= (start + ids.take(i as int)).push(ids[i as int]));
        }
        i += 1;
    }
    proof {
        assert(ids.take(ids.len() as int) =~= ids);
    }
}

fn push_rows(list: &mut Vec<CommittedRow>, rows: &Vec<HistoryEntry>, run: Option<&str>)
    ensures
        history::run_rows(final(list)@) == history::run_rows(old(list)@) + of_run(
            history::rows_of(rows@),
            match run {
                Some(run) => Some(run@),
                None => None,
            },
        ),
{
    let ghost owner = match run {
        Some(run) => Some(run@),
        None => None,
    };
    let ghost start = history::run_rows(list@);
    let ghost want = of_run(history::rows_of(rows@), owner);
    let mut i: usize = 0;
    proof {
        assert(start =~= start + want.take(0));
    }
    while i < rows.len()
        invariant
            i <= rows@.len(),
            owner == (match run {
                Some(run) => Some(run@),
                None => None,
            }),
            want == of_run(history::rows_of(rows@), owner),
            want.len() == rows@.len(),
            history::run_rows(list@) == start + want.take(i as int),
        decreases rows@.len() - i,
    {
        let ghost before = list@;
        let row = CommittedRow {
            entry: HistoryEntry {
                kind: rows[i].kind,
                title: rows[i].title.clone(),
                body: rows[i].body.clone(),
            },
            run_id: match run {
                Some(run) => Some(run.to_owned()),
                None => None,
            },
        };
        let ghost value = row@;
        list.push(row);
        proof {
            assert(history::rows_of(rows@)[i as int] == rows@[i as int]@);
            assert(value == want[i as int]);
            assert(history::run_rows(list@) =~= history::run_rows(before).push(value));
            assert(start + want.take(i + 1) =~= (start + want.take(i as int)).push(value));
        }
        i += 1;
    }
    proof {
        assert(want.take(want.len() as int) =~= want);
    }
}

/// Adds one committed entry to a fold.
pub fn accumulate_entry(outcome: &mut FoldOutcome, address: &str, entry: &ContextEntry)
    ensures
        final(outcome)@ == accumulated(old(outcome)@, address@, *entry),
{
    let ghost before = outcome@;
    let rows = render_context_entry(address, entry);
    match &entry.transition {
        Transition::Model { run_id, complete, projection: _, total_tokens } => {
            push_text(&mut outcome.model_turns, run_id.as_str());
            if *complete {
                push_text(&mut outcome.dead_runs, run_id.as_str());
            }
            if total_tokens.is_some() {
                outcome.context_tokens = *total_tokens;
            }
            push_rows(&mut outcome.rows, &rows, Some(run_id.as_str()));
        },
        Transition::Interrupted { run_id, consumed } => {
            push_text(&mut outcome.dead_runs, run_id.as_str());
            push_ids(&mut outcome.consumed_message_ids, consumed);
            push_rows(&mut outcome.rows, &rows, None);
        },
        Transition::Eval { run_id } => {
            push_rows(&mut outcome.rows, &rows, Some(run_id.as_str()));
        },
        Transition::Messages { consumed } => {
            push_ids(&mut outcome.consumed_message_ids, consumed);
            push_rows(&mut outcome.rows, &rows, None);
        },
        Transition::Compaction { summary: _ } => {
            push_rows(&mut outcome.rows, &rows, None);
        },
    }
    proof {
        assert(outcome@.consumed =~= accumulated(before, address@, *entry).consumed);
        assert(outcome@ =~= accumulated(before, address@, *entry));
    }
}

/// A fold after the first `n` entries.
pub open spec fn folded(fold: Fold, address: Seq<char>, entries: Seq<ContextEntry>, n: int) -> Fold
    decreases n,
{
    if n <= 0 {
        fold
    } else {
        accumulated(folded(fold, address, entries, n - 1), address, entries[n - 1])
    }
}

/// Adds a page of committed entries to a fold.
pub fn accumulate_entries(outcome: &mut FoldOutcome, address: &str, entries: &Vec<ContextEntry>)
    ensures
        final(outcome)@ == folded(
            old(outcome)@,
            address@,
            entries@,
            entries@.len() as int,
        ),
{
    let ghost start = outcome@;
    let mut i: usize = 0;
    while i < entries.len()
        invariant
            i <= entries@.len(),
            outcome@ == folded(start, address@, entries@, i as int),
        decreases entries@.len() - i,
    {
        accumulate_entry(outcome, address, &entries[i]);
        i += 1;
    }
}

proof fn lemma_folded_prefix(
    fold: Fold,
    address: Seq<char>,
    a: Seq<ContextEntry>,
    b: Seq<ContextEntry>,
    n: int,
)
    requires
        0 <= n <= a.len(),
        n <= b.len(),
        forall|i: int| 0 <= i < n ==> a[i] == b[i],
    ensures
        folded(fold, address, a, n) == folded(fold, address, b, n),
    decreases n,
{
    if n > 0 {
        lemma_folded_prefix(fold, address, a, b, n - 1);
    }
}

/// Folding a journal page by page gives what folding it at once gives: a
/// restored transcript and one that grew live agree.
pub proof fn folding_in_pages_is_folding_at_once(
    fold: Fold,
    address: Seq<char>,
    first: Seq<ContextEntry>,
    rest: Seq<ContextEntry>,
)
    ensures
        folded(fold, address, first + rest, (first + rest).len() as int) == folded(
            folded(fold, address, first, first.len() as int),
            address,
            rest,
            rest.len() as int,
        ),
    decreases rest.len(),
{
    let all = first + rest;
    if rest.len() == 0 {
        assert(all =~= first);
    } else {
        let shorter = rest.drop_last();
        folding_in_pages_is_folding_at_once(fold, address, first, shorter);
        let n = all.len() as int;
        lemma_folded_prefix(fold, address, all, first + shorter, n - 1);
        lemma_folded_prefix(
            folded(fold, address, first, first.len() as int),
            address,
            rest,
            shorter,
            rest.len() - 1,
        );
        assert(all[n - 1] == rest.last());
    }
}

proof fn lemma_folded_rows_grow(
    fold: Fold,
    address: Seq<char>,
    entries: Seq<ContextEntry>,
    n: int,
)
    requires
        n >= 0,
    ensures
        ({
            let after = folded(fold, address, entries, n).rows;
            after.len() >= fold.rows.len() && after.take(fold.rows.len() as int) == fold.rows
        }),
    decreases n,
{
    if n > 0 {
        lemma_folded_rows_grow(fold, address, entries, n - 1);
        let before = folded(fold, address, entries, n - 1).rows;
        let after = folded(fold, address, entries, n).rows;
        assert(after.take(fold.rows.len() as int) =~= before.take(fold.rows.len() as int));
    } else {
        assert(fold.rows.take(fold.rows.len() as int) =~= fold.rows);
    }
}

/// Folding only appends: rows that were committed stay, in their order.
pub proof fn committed_rows_stay(
    fold: Fold,
    address: Seq<char>,
    entries: Seq<ContextEntry>,
)
    ensures
        ({
            let after = folded(fold, address, entries, entries.len() as int).rows;
            after.len() >= fold.rows.len() && after.take(fold.rows.len() as int) == fold.rows
        }),
{
    lemma_folded_rows_grow(fold, address, entries, entries.len() as int);
}

/// The status of a restored agent.
pub open spec fn restored_status(active: bool, interrupted: bool, child: bool) -> Seq<char> {
    if active && child {
        "Interrupted"@
    } else if active {
        "Recovering…"@
    } else if interrupted && child {
        "Interrupted"@
    } else if child {
        "Stored"@
    } else {
        "Ready"@
    }
}

/// The address of an agent's parent: what precedes its last slash.
pub open spec fn parent_of(address: Seq<char>) -> Option<Seq<char>> {
    match text::last_index_of(address, address.len() as int, '/') {
        Some(i) => if i > 0 {
            Some(address.take(i))
        } else {
            None
        },
        None => None,
    }
}

/// An agent as a session opens with it.
pub fn agent_history(
    address: &str,
    active: bool,
    interrupted: bool,
    model: Option<String>,
    history: Vec<CommittedRow>,
    context_tokens: Option<u64>,
    restored_child: bool,
) -> (r: AgentHistory)
    ensures
        r.address@ == address@,
        text::opt_text(r.parent) == parent_of(address@),
        r.model == model,
        r.status@ == restored_status(active, interrupted, restored_child),
        r.run_completed == !active,
        r.context_tokens == context_tokens,
        r.history == history,
{
    let chars = text::chars_of(address);
    let parent = match text::rfind(&chars, '/') {
        Some(i) => if i > 0 {
            let head = text::text_of(&chars, 0, i);
            proof {
                assert(head@ =~= address@.take(i as int));
            }
            Some(head)
        } else {
            None
        },
        None => None,
    };
    let status = if active && restored_child {
        "Interrupted"
    } else if active {
        "Recovering…"
    } else if interrupted && restored_child {
        "Interrupted"
    } else if restored_child {
        "Stored"
    } else {
        "Ready"
    };
    AgentHistory {
        address: address.to_owned(),
        parent,
        model,
        status: status.to_owned(),
        run_completed: !active,
        context_tokens,
        history,
    }
}

/// Characters of a session preview.
pub const PREVIEW_MAX_CHARS: usize = 300;

/// The preview that a message gives: the start of what is shown of it.
pub open spec fn preview_of(payload: Seq<char>) -> Seq<char> {
    let shown = shown_json(payload);
    if shown.len() <= PREVIEW_MAX_CHARS {
        shown
    } else {
        shown.take(PREVIEW_MAX_CHARS as int)
    }
}

/// The preview that a message gives: the start of what is shown of it.
pub fn session_preview(payload: &str) -> (r: String)
    ensures
        r@ == preview_of(payload@),
{
    let shown = display_json(payload);
    text::first_chars(shown.as_str(), PREVIEW_MAX_CHARS)
}

/// The first message from `i` on that the user sent.
pub open spec fn first_user(messages: Seq<Message>, i: int) -> Option<int>
    decreases messages.len() - i,
{
    if i < 0 || i >= messages.len() {
        None
    } else if messages[i].source is User {
        Some(i)
    } else {
        first_user(messages, i + 1)
    }
}

/// The preview of a session, given messages of its journal: that of the first
/// message which the user sent.
pub fn first_user_message(messages: &Vec<Message>) -> (r: Option<String>)
    ensures
        text::opt_text(r) == (match first_user(messages@, 0) {
            Some(i) => Some(preview_of(messages@[i].payload@)),
            None => None,
        }),
{
    let mut i: usize = 0;
    while i < messages.len()
        invariant
            i <= messages@.len(),
            first_user(messages@, 0) == first_user(messages@, i as int),
        decreases messages@.len() - i,
    {
        if matches!(messages[i].source, MessageSource::User) {
            return Some(session_preview(messages[i].payload.as_str()));
        }
        i += 1;
    }
    None
}

/// Whether a snapshot at `revision` is newer than what is stored.
pub open spec fn is_newer(revision: u64, stored: Option<u64>) -> bool {
    revision > 0 && (stored matches Some(s) ==> s < revision)
}

/// Whether a snapshot at `revision` is worth writing: only one that is newer
/// than what is stored.
pub fn should_checkpoint(revision: u64, stored: Option<u64>) -> (r: bool)
    ensures
        r == is_newer(revision, stored),
{
    if revision == 0 {
        return false;
    }
    match stored {
        Some(s) => s < revision,
        None => true,
    }
}

} // verus!
