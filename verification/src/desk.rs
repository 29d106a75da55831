//! The state of the interface as a mathematical value, and the transitions
//! that keys, pointer and agent events make on it.

use crate::agents;
use crate::config::ModelChoice;
use crate::conversation;
use crate::conversation::{Conv, CallPiece, Entry, EntryKind};
use crate::events;
use crate::events::{AgentOutcome, AgentSystemEvent, KeyCode, KeyEvent, KeyEventKind, ModelDelta, MouseEvent, MouseEventKind, RunEvent, RuntimeEvent, StopReason};
use crate::history::{CommandResult, Fold, Request};
use crate::input::Draft;
use crate::selection;
use crate::selection::{CopyRow, Rect, TextSelection};
use crate::text;
use vstd::prelude::*;

verus! {

pub const MOUSE_SCROLL_LINES: usize = 2;

/// How long a toast stays, in milliseconds.
pub const TOAST_DURATION: u64 = 2000;

/// How long a first Escape keeps the interruption armed, in milliseconds.
pub const INTERRUPTION_ARM_WINDOW: u64 = 1500;

#[derive(Clone, Copy, Debug, PartialEq, Eq, Structural)]
pub enum Focus {
    Conversation,
    Input,
}

/// One entry's visible click target in terminal rows: the rows the mouse can
/// hit, the header row that toggles the entry when it is visible, and the
/// entry a click selects.
#[derive(Clone, Copy, Debug, PartialEq, Eq, Structural)]
pub struct Hitbox {
    pub top: u16,
    pub bottom: u16,
    pub header: Option<u16>,
    pub entry: usize,
}

/// Geometry of the last rendered frame.
#[derive(Debug)]
pub struct Pane {
    pub input_width: usize,
    /// First visible row of the input.
    pub input_scroll: usize,
    pub input_area: Option<Rect>,
    /// First and last layout line of each entry.
    pub conversation_ranges: Vec<(usize, usize)>,
    pub conversation_viewport_height: usize,
    pub conversation_total_lines: usize,
    /// Visible click targets, one per entry with a row in the viewport.
    pub hitboxes: Vec<Hitbox>,
    /// Visible text and padding of each viewport row.
    pub conversation_rows: Vec<CopyRow>,
    pub conversation_area: Option<Rect>,
}

/// A session of this directory.
pub struct SessionItem {
    pub id: u64,
    pub preview: Option<Seq<char>>,
}

/// A message that awaits delivery; its durable identity may not be known yet.
pub struct Steer {
    pub id: Option<Seq<char>>,
    pub text: Seq<char>,
}

/// Earlier messages being recalled into the input.
pub struct Recall {
    pub messages: Seq<Seq<char>>,
    pub position: int,
    pub draft: Draft,
}

/// One row of a palette.
pub struct Hint {
    pub label: Seq<char>,
    pub detail: Seq<char>,
    pub replacement: Seq<char>,
    pub provider: Option<Seq<char>>,
    pub running: bool,
}

/// The state of the interface.
pub struct Desk {
    pub cwd: Seq<char>,
    pub session_id: u64,
    pub sessions: Seq<SessionItem>,
    pub models: Seq<ModelChoice>,
    pub selected_model: int,
    pub efforts: Seq<usize>,
    pub focus: Focus,
    pub input: Draft,
    pub recall: Option<Recall>,
    pub pane: Pane,
    pub suggestion: int,
    pub busy: bool,
    pub should_exit: bool,
    pub selection: Option<TextSelection>,
    pub toast: Option<(Seq<char>, u64)>,
    pub current: Seq<char>,
    pub steers: Seq<Steer>,
    pub conv: Conv,
    pub agents: Map<Seq<char>, Conv>,
    pub root_active: bool,
    pub next_ord: u64,
    pub command: bool,
    pub deadline: Option<u64>,
    pub interrupting: bool,
    pub armed: Option<u64>,
    pub notice: Option<Seq<char>>,
}

/// The address of the session's first agent.
pub open spec fn root() -> Seq<char> {
    "/root"@
}

/// The address above `address` in the tree of agents.
pub open spec fn parent_of(address: Seq<char>) -> Option<Seq<char>> {
    match text::last_index_of(address, address.len() as int, '/') {
        Some(i) => if i > 0 {
            Some(address.take(i))
        } else {
            None
        },
        None => None,
    }
}

/// Whether `text` is the command `command`, alone or with arguments.
pub open spec fn invokes(text: Seq<char>, command: Seq<char>, spaced: Seq<char>) -> bool {
    text == command || text::starts_with(text, spaced)
}

/// How an agent is drawn in the tree.
pub open spec fn tree_label(address: Seq<char>, current: bool, running: bool) -> Seq<char> {
    let slashes = text::count_of(address, '/');
    let depth = if slashes == 0 {
        0
    } else {
        (slashes - 1) as nat
    };
    let name = text::after_last(address, '/');
    let shown = if current {
        "["@ + name + "]"@
    } else {
        name
    };
    let glyph = if running {
        "●"@
    } else {
        " "@
    };
    if depth == 0 {
        "◉"@ + glyph + shown
    } else {
        text::repeated(' ', 2 * depth) + "└─"@ + glyph + shown
    }
}

/// Index of the first model with the given id, from `i` on.
pub open spec fn model_index(models: Seq<ModelChoice>, i: int, id: Seq<char>) -> Option<int>
    decreases models.len() - i,
{
    if i < 0 || i >= models.len() {
        None
    } else if models[i].registry_id@ == id {
        Some(i)
    } else {
        model_index(models, i + 1, id)
    }
}

/// Index of the first string equal to `s`, from `i` on.
pub open spec fn string_index(list: Seq<Seq<char>>, i: int, s: Seq<char>) -> Option<int>
    decreases list.len() - i,
{
    if i < 0 || i >= list.len() {
        None
    } else if list[i] == s {
        Some(i)
    } else {
        string_index(list, i + 1, s)
    }
}

/// The palette rows for the first `n` models that match `query`.
pub open spec fn model_hints(models: Seq<ModelChoice>, query: Seq<char>, n: int) -> Seq<Hint>
    decreases n,
{
    if n <= 0 {
        Seq::empty()
    } else {
        let m = models[n - 1];
        let before = model_hints(models, query, n - 1);
        if query.len() == 0 || text::contains(text::lowercase(m.registry_id@), query)
            || text::contains(text::lowercase(m.display_name@), query) {
            before.push(
                Hint {
                    label: m.provider@ + " / "@ + m.display_name@,
                    detail: m.model@ + " · "@ + text::decimal((m.context_window / 1000) as nat)
                        + "k"@,
                    replacement: "/model "@ + m.registry_id@,
                    provider: Some(m.provider@),
                    running: false,
                },
            )
        } else {
            before
        }
    }
}

/// The palette rows for the first `n` efforts that match `query`.
pub open spec fn effort_hints(
    efforts: Seq<Seq<char>>,
    model: Seq<char>,
    query: Seq<char>,
    n: int,
) -> Seq<Hint>
    decreases n,
{
    if n <= 0 {
        Seq::empty()
    } else {
        let e = efforts[n - 1];
        let before = effort_hints(efforts, model, query, n - 1);
        if query.len() == 0 || text::contains(text::lowercase(e), query) {
            before.push(
                Hint {
                    label: e,
                    detail: model + " reasoning effort"@,
                    replacement: "/effort "@ + e,
                    provider: None,
                    running: false,
                },
            )
        } else {
            before
        }
    }
}

/// Whether the session palette shows a session for `query`.
pub open spec fn session_matches_query(s: SessionItem, query: Seq<char>) -> bool {
    query.len() == 0 || text::contains(text::decimal(s.id as nat), query) || (s.preview is Some
        && text::contains(text::lowercase(s.preview->0), query))
}

/// The first `n` sessions that match `query`.
pub open spec fn sessions_for(sessions: Seq<SessionItem>, query: Seq<char>, n: int) -> Seq<
    SessionItem,
>
    decreases n,
{
    if n <= 0 {
        Seq::empty()
    } else if session_matches_query(sessions[n - 1], query) {
        sessions_for(sessions, query, n - 1).push(sessions[n - 1])
    } else {
        sessions_for(sessions, query, n - 1)
    }
}

/// The palette row for a session.
pub open spec fn session_hint(s: SessionItem) -> Hint {
    Hint {
        label: "#"@ + text::decimal(s.id as nat),
        detail: match s.preview {
            Some(preview) => text::squash(preview),
            None => "No user message yet"@,
        },
        replacement: "/session "@ + text::decimal(s.id as nat),
        provider: None,
        running: false,
    }
}

/// A command the palette offers: its name, what it does, and what picking it
/// puts into the input.
pub open spec fn offered(i: int) -> (Seq<char>, Seq<char>, Seq<char>) {
    if i == 0 {
        ("compact"@, "Compact the current context"@, "/compact"@)
    } else if i == 1 {
        ("agents"@, "Switch to an agent conversation"@, "/agents "@)
    } else if i == 2 {
        ("effort"@, "Choose the reasoning effort"@, "/effort "@)
    } else if i == 3 {
        ("model"@, "Choose a provider and model"@, "/model "@)
    } else if i == 4 {
        ("new"@, "Start a new session in this directory"@, "/new"@)
    } else if i == 5 {
        ("session"@, "Load a session from this directory"@, "/session "@)
    } else if i == 6 {
        ("exit"@, "Close Lam"@, "/exit"@)
    } else {
        ("quit"@, "Close Lam"@, "/quit"@)
    }
}

/// The palette rows for the first `n` commands whose name starts with `query`.
pub open spec fn command_hints(query: Seq<char>, n: int) -> Seq<Hint>
    decreases n,
{
    if n <= 0 {
        Seq::empty()
    } else {
        let (name, detail, replacement) = offered(n - 1);
        let before = command_hints(query, n - 1);
        if text::starts_with(name, query) {
            before.push(
                Hint { label: "/"@ + name, detail, replacement, provider: None, running: false },
            )
        } else {
            before
        }
    }
}

/// The bodies of the user's messages among the first `n` entries.
pub open spec fn user_messages(entries: Seq<Entry>, n: int) -> Seq<Seq<char>>
    decreases n,
{
    if n <= 0 {
        Seq::empty()
    } else if entries[n - 1].kind == EntryKind::User {
        user_messages(entries, n - 1).push(entries[n - 1].body)
    } else {
        user_messages(entries, n - 1)
    }
}

/// The steers among the first `n` whose identity is not in `consumed`.
pub open spec fn undelivered(steers: Seq<Steer>, consumed: Seq<Seq<char>>, n: int) -> Seq<Steer>
    decreases n,
{
    if n <= 0 {
        Seq::empty()
    } else {
        let s = steers[n - 1];
        if s.id is Some && consumed.contains(s.id->0) {
            undelivered(steers, consumed, n - 1)
        } else {
            undelivered(steers, consumed, n - 1).push(s)
        }
    }
}

/// Index of the first steer, from `i` on, that awaits its receipt for `text`;
/// any text when none is given.
pub open spec fn awaiting(steers: Seq<Steer>, i: int, text: Option<Seq<char>>) -> Option<int>
    decreases steers.len() - i,
{
    if i < 0 || i >= steers.len() {
        None
    } else if steers[i].id is None && (text is None || steers[i].text == text->0) {
        Some(i)
    } else {
        awaiting(steers, i + 1, text)
    }
}

/// Index of the first click target that covers a terminal row, from `i` on.
pub open spec fn hit(boxes: Seq<Hitbox>, i: int, row: int) -> Option<int>
    decreases boxes.len() - i,
{
    if i < 0 || i >= boxes.len() {
        None
    } else if boxes[i].top <= row <= boxes[i].bottom {
        Some(i)
    } else {
        hit(boxes, i + 1, row)
    }
}

/// Whether the layout lines of entry `i` meet the lines `start..end`.
pub open spec fn meets(ranges: Seq<(usize, usize)>, i: int, start: int, end: int) -> bool {
    0 <= i < ranges.len() && ranges[i].1 >= start && ranges[i].0 < end
}

/// The first entry, from `i` on, whose lines meet `start..end`.
pub open spec fn first_meeting(ranges: Seq<(usize, usize)>, i: int, start: int, end: int) -> Option<
    int,
>
    decreases ranges.len() - i,
{
    if i < 0 || i >= ranges.len() {
        None
    } else if meets(ranges, i, start, end) {
        Some(i)
    } else {
        first_meeting(ranges, i + 1, start, end)
    }
}

/// The last entry before `n` whose lines meet `start..end`.
pub open spec fn last_meeting(ranges: Seq<(usize, usize)>, n: int, start: int, end: int) -> Option<
    int,
>
    decreases n,
{
    if n <= 0 {
        None
    } else if meets(ranges, n - 1, start, end) {
        Some(n - 1)
    } else {
        last_meeting(ranges, n - 1, start, end)
    }
}

pub open spec fn clamp_add(a: int, b: int) -> int {
    if a + b <= usize::MAX {
        a + b
    } else {
        usize::MAX as int
    }
}

pub open spec fn later(now: u64, by: u64) -> u64 {
    if now + by <= u64::MAX {
        (now + by) as u64
    } else {
        u64::MAX
    }
}

/// The addresses among the first `n` other than `current`.
pub open spec fn elsewhere(list: Seq<Seq<char>>, n: int, current: Seq<char>) -> Seq<Seq<char>>
    decreases n,
{
    if n <= 0 {
        Seq::empty()
    } else if list[n - 1] != current {
        elsewhere(list, n - 1, current).push(list[n - 1])
    } else {
        elsewhere(list, n - 1, current)
    }
}

/// Length of a text in UTF-8.
pub open spec fn bytes_of(s: Seq<char>) -> int {
    vstd::utf8::encode_utf8(s).len() as int
}

/// The text cut at its end until it takes fewer than `width` bytes.
pub open spec fn shortened(s: Seq<char>, width: int) -> Seq<char>
    decreases s.len(),
{
    if s.len() > 0 && bytes_of(s) >= width {
        shortened(s.drop_last(), width)
    } else {
        s
    }
}

/// The text ended by an ellipsis within `width` bytes.
pub open spec fn ellipsized(s: Seq<char>, width: int) -> Seq<char> {
    if text::ends_with(s, "…"@) {
        s
    } else {
        let cut = shortened(s, width);
        if text::ends_with(cut, "…"@) {
            cut
        } else {
            cut + "…"@
        }
    }
}

/// `line` with the short names of the agents from `i` on, as far as they fit
/// into `width`.
pub open spec fn named(list: Seq<Seq<char>>, i: int, line: Seq<char>, width: int) -> Seq<char>
    decreases list.len() - i,
{
    if i < 0 || i >= list.len() {
        line
    } else {
        let name = text::after_last(list[i], '/');
        let piece = if i == 0 {
            name
        } else {
            ", "@ + name
        };
        if bytes_of(line) + bytes_of(piece) > selection::monus(width, 1) {
            ellipsized(line, width)
        } else {
            named(list, i + 1, line + piece, width)
        }
    }
}

/// Whether the agents not viewed are well formed, the root agent is known, and
/// the root's run flag is the one its conversation carries.
#[verifier::opaque]
pub open spec fn agents_ok(
    agents: Map<Seq<char>, Conv>,
    current: Seq<char>,
    run_active: bool,
    root_active: bool,
) -> bool {
    &&& forall|k: Seq<char>| #[trigger] agents.dom().contains(k) ==> agents[k].wf()
    &&& current == root() || agents.dom().contains(root())
    &&& root_active == if current == root() {
        run_active
    } else {
        agents[root()].run_active
    }
}

/// Whether each model has an effort chosen among its own.
#[verifier::opaque]
pub open spec fn efforts_ok(models: Seq<ModelChoice>, efforts: Seq<usize>) -> bool {
    &&& efforts.len() == models.len()
    &&& forall|i: int|
        0 <= i < models.len() ==> #[trigger] efforts[i] < models[i].efforts@.len()
}

impl Desk {
    /// What every operation keeps: every conversation is well formed, the root
    /// agent exists and its run flag is known, `busy` says exactly when
    /// blocking commands have to wait, and every stored index is in range.
    /// The viewed agent may be among the stored ones too, where a session was
    /// restored with a second root: the viewed conversation is the one that
    /// counts.
    pub open spec fn wf(self) -> bool {
        &&& self.conv.wf()
        &&& agents_ok(self.agents, self.current, self.conv.run_active, self.root_active)
        &&& self.busy == (self.command || self.root_active || self.interrupting)
        &&& 0 <= self.selected_model < self.models.len()
        &&& efforts_ok(self.models, self.efforts)
        &&& self.input.wf()
        &&& self.recall matches Some(r) ==> 0 <= r.position < r.messages.len() && r.draft.wf()
    }

    /// All agents with their conversations.
    pub open spec fn all(self) -> Map<Seq<char>, Conv> {
        self.agents.insert(self.current, self.conv)
    }

    /// Whether new rows take the selection to the tail.
    pub open spec fn tail(self) -> bool {
        self.focus == Focus::Input
    }

    pub open spec fn with_status(self, status: Seq<char>) -> Desk {
        Desk { conv: Conv { status, ..self.conv }, ..self }
    }

    pub open spec fn with_busy(self) -> Desk {
        Desk { busy: self.command || self.root_active || self.interrupting, ..self }
    }

    pub open spec fn begin_command(self, status: Seq<char>) -> Desk {
        Desk { command: true, ..self }.with_status(status).with_busy()
    }

    pub open spec fn finish_command(self) -> Desk {
        Desk { command: false, ..self }.with_busy()
    }

    #[verifier::opaque]
    pub open spec fn push_entry(self, kind: EntryKind, title: Seq<char>, body: Seq<char>) -> Desk {
        Desk { conv: self.conv.push_entry(kind, title, body, self.tail()), ..self }
    }

    #[verifier::opaque]
    pub open spec fn push_error(self, title: Seq<char>, body: Seq<char>) -> Desk {
        Desk { conv: self.conv.push_error(title, body, self.tail()), ..self }
    }

    /// The viewed agent's run is live or not; the root's flag follows.
    #[verifier::opaque]
    pub open spec fn set_run_active(self, active: bool) -> Desk {
        let d = Desk { conv: Conv { run_active: active, ..self.conv }, ..self };
        if self.current == root() {
            Desk { root_active: active, ..d }.with_busy()
        } else {
            d
        }
    }

    /// Makes sure the agent is known.
    pub open spec fn ensure_agent(
        self,
        address: Seq<char>,
        parent: Option<Seq<char>>,
        status: Seq<char>,
    ) -> Desk {
        if address == self.current {
            if self.conv.parent is None {
                Desk { conv: Conv { parent, ..self.conv }, ..self }
            } else {
                self
            }
        } else if self.agents.dom().contains(address) {
            self
        } else {
            Desk {
                agents: self.agents.insert(address, Conv::blank(parent, status, self.next_ord)),
                next_ord: conversation::sat_succ(self.next_ord as int, u64::MAX as int) as u64,
                ..self
            }
        }
    }

    /// Whether an agent with this address is known.
    pub open spec fn knows(self, address: Seq<char>) -> bool {
        address == self.current || self.agents.dom().contains(address)
    }

    /// Views another agent.
    #[verifier::opaque]
    pub open spec fn switch(self, address: Seq<char>) -> Desk {
        if address == self.current || !self.agents.dom().contains(address) {
            self
        } else {
            let next = self.agents[address];
            let d = Desk {
                agents: self.agents.remove(address).insert(self.current, self.conv),
                current: address,
                conv: next,
                ..self
            };
            if address == root() {
                Desk { root_active: next.run_active, ..d }.with_busy()
            } else {
                d
            }
        }
    }

    /// Sets the root's status, whichever agent is viewed.
    #[verifier::opaque]
    pub open spec fn root_status(self, status: Seq<char>) -> Desk {
        self.switch(root()).with_status(status).switch(self.current)
    }

    pub open spec fn agents_open(self) -> bool {
        invokes(text::trim_start(self.input.text), "/agents"@, "/agents "@)
    }

    pub open spec fn session_open(self) -> bool {
        invokes(text::trim_start(self.input.text), "/session"@, "/session "@)
    }

    /// What the session palette searches for.
    pub open spec fn session_query(self) -> Seq<char> {
        let rest = match text::strip_prefix(text::trim_start(self.input.text), "/session"@) {
            Some(rest) => rest,
            None => Seq::empty(),
        };
        let t = text::trim(rest);
        text::lowercase(t.skip(text::skip_char(t, 0, '#')))
    }

    /// The sessions the palette offers.
    pub open spec fn session_matches(self) -> Seq<SessionItem> {
        sessions_for(self.sessions, self.session_query(), self.sessions.len() as int)
    }

    /// The agents as the drawer lists them.
    pub open spec fn addresses(self) -> Seq<Seq<char>> {
        agents::tree_order(self.all())
    }

    pub open spec fn is_running(self, address: Seq<char>) -> bool {
        if address == root() {
            self.root_active
        } else if address == self.current {
            self.conv.run_active
        } else {
            self.agents.dom().contains(address) && self.agents[address].run_active
        }
    }

    /// Whether `s` holds the agents with a live run, in dictionary order of
    /// their addresses.
    pub open spec fn lists_running(self, s: Seq<Seq<char>>) -> bool {
        &&& agents::in_order(s)
        &&& forall|k: Seq<char>| #[trigger]
            s.contains(k) <==> self.knows(k) && self.is_running(k)
    }

    /// The agents with a live run, in dictionary order of their addresses.
    pub open spec fn running_agents(self) -> Seq<Seq<char>> {
        choose|s: Seq<Seq<char>>| self.lists_running(s)
    }

    /// Agents with a live run other than the one viewed.
    pub open spec fn others_running(self) -> Seq<Seq<char>> {
        elsewhere(self.running_agents(), self.running_agents().len() as int, self.current)
    }

    /// One line about the agents that work elsewhere.
    pub open spec fn collapsed_summary(self, width: int) -> Seq<char> {
        let running = self.others_running();
        let prefix = text::decimal(running.len()) + " "@ + (if running.len() == 1 {
            "agent"@
        } else {
            "agents"@
        }) + " running"@;
        if width <= bytes_of(prefix) {
            crate::cells::elided_chars(prefix, width as nat)
        } else if running.len() == 0 {
            prefix
        } else {
            named(running, 0, prefix + " · "@, width)
        }
    }

    pub open spec fn collapsed_visible(self) -> bool {
        !self.agents_open() && self.others_running().len() > 0
    }

    pub open spec fn drawer_animates(self) -> bool {
        (self.collapsed_visible() || self.agents_open()) && self.running_agents().len() > 0
    }

    /// Status and model of an agent as the drawer shows them.
    pub open spec fn agent_detail(self, address: Seq<char>) -> Seq<char> {
        if !self.knows(address) {
            "unknown"@
        } else {
            let c = self.all()[address];
            let model = if address == root() {
                Some(self.models[self.selected_model].registry_id@)
            } else {
                c.model
            };
            match model {
                Some(model) => c.status + " · "@ + model,
                None => c.status,
            }
        }
    }

    /// The palette rows for the first `n` addresses that match `query`.
    pub open spec fn agent_hints(self, list: Seq<Seq<char>>, query: Seq<char>, n: int) -> Seq<Hint>
        decreases n,
    {
        if n <= 0 {
            Seq::empty()
        } else {
            let a = list[n - 1];
            let before = self.agent_hints(list, query, n - 1);
            if query.len() == 0 || text::contains(text::lowercase(a), query) {
                before.push(
                    Hint {
                        label: tree_label(a, a == self.current, self.is_running(a)),
                        detail: self.agent_detail(a),
                        replacement: "/agents "@ + a,
                        provider: None,
                        running: self.is_running(a),
                    },
                )
            } else {
                before
            }
        }
    }

    /// The rows of the open palette; none when no palette is open.
    #[verifier::opaque]
    pub open spec fn suggestions(self) -> Seq<Hint> {
        let input = text::trim_start(self.input.text);
        let model = self.models[self.selected_model];
        match text::strip_prefix(input, "/model "@) {
            Some(q) => model_hints(
                self.models,
                text::lowercase(text::trim(q)),
                self.models.len() as int,
            ),
            None => match text::strip_prefix(input, "/effort "@) {
                Some(q) => effort_hints(
                    text::texts(model.efforts@),
                    model.display_name@,
                    text::lowercase(text::trim(q)),
                    model.efforts@.len() as int,
                ),
                None => if self.agents_open() {
                    self.agent_hints(
                        self.addresses(),
                        text::lowercase(text::trim(text::strip_prefix(input, "/agents"@)->0)),
                        self.addresses().len() as int,
                    )
                } else if self.session_open() {
                    self.session_matches().map_values(|s: SessionItem| session_hint(s))
                } else if !text::starts_with(input, "/"@) || input.contains(' ') {
                    Seq::empty()
                } else {
                    command_hints(
                        text::lowercase(input.skip(text::skip_char(input, 0, '/'))),
                        8,
                    )
                },
            },
        }
    }

    /// An empty input, nothing recalled, the first palette row highlighted.
    pub open spec fn cleared(self) -> Desk {
        Desk { input: Draft::empty(), recall: None, suggestion: 0, ..self }
    }

    /// The input holds `s` with the cursor behind it.
    pub open spec fn typed(self, s: Seq<char>) -> Desk {
        Desk { input: Draft::ending(s), recall: None, suggestion: 0, ..self }
    }

    /// The input edited by the user.
    pub open spec fn edited(self, input: Draft) -> Desk {
        Desk { input, recall: None, suggestion: 0, ..self }
    }

    pub open spec fn open_drawer(self) -> Desk {
        Desk { focus: Focus::Input, ..self.typed("/agents "@) }
    }

    pub open spec fn open_models(self) -> Desk {
        Desk { focus: Focus::Input, ..self.typed("/model "@) }
    }

    pub open spec fn disarm_deletion(self) -> Desk {
        Desk { armed: None, notice: None, ..self }
    }

    /// The first session with this id and no preview gets `s` as its preview.
    pub open spec fn previewed(sessions: Seq<SessionItem>, i: int, id: u64, s: Seq<char>) -> Seq<
        SessionItem,
    >
        decreases sessions.len() - i,
    {
        if i < 0 || i >= sessions.len() {
            sessions
        } else if sessions[i].id == id && sessions[i].preview is None {
            sessions.update(i, SessionItem { preview: Some(s), ..sessions[i] })
        } else {
            Desk::previewed(sessions, i + 1, id, s)
        }
    }

    /// Sends a message: it is queued at once and delivered by the runtime.
    #[verifier::opaque]
    pub open spec fn send(self, message: Seq<char>) -> Desk {
        let d = Desk {
            sessions: Desk::previewed(self.sessions, 0, self.session_id, message),
            ..self.cleared()
        }.root_status("Sending…"@);
        Desk { steers: d.steers.push(Steer { id: None, text: message }), ..d }
    }

    /// `/session` with an argument.
    #[verifier::opaque]
    pub open spec fn load_session(self, input: Seq<char>) -> (Desk, Option<Request>) {
        let t = text::trim(text::strip_all(input, "/session "@));
        let id_text = t.skip(text::skip_char(t, 0, '#'));
        match text::parsed_u64(id_text) {
            None => (
                self.push_error(
                    "Unknown session"@,
                    "No session in this directory matches `"@ + id_text + "`."@,
                ),
                None,
            ),
            Some(id) => if !(exists|i: int|
                0 <= i < self.sessions.len() && (#[trigger] self.sessions[i]).id == id) {
                (
                    self.push_error(
                        "Unknown session"@,
                        "No session in this directory matches `#"@ + text::decimal(id as nat)
                            + "`."@,
                    ),
                    None,
                )
            } else if id == self.session_id {
                (self.with_status("Already using session #"@ + text::decimal(id as nat)), None)
            } else {
                (
                    self.begin_command(
                        "Loading session #"@ + text::decimal(id as nat) + "…"@,
                    ),
                    Some(Request::LoadSession(id)),
                )
            },
        }
    }

    /// `/effort` with an argument.
    #[verifier::opaque]
    pub open spec fn set_effort(self, input: Seq<char>) -> (Desk, Option<Request>) {
        let effort = text::trim(text::strip_all(input, "/effort "@));
        let model = self.models[self.selected_model];
        match string_index(text::texts(model.efforts@), 0, effort) {
            None => (
                self.push_error(
                    "Unknown effort"@,
                    "`"@ + effort + "` is not supported by "@ + model.display_name@ + "."@,
                ),
                None,
            ),
            Some(i) => if self.efforts[self.selected_model] == i {
                (self.with_status("Already using "@ + effort + " reasoning effort"@), None)
            } else {
                (
                    self.begin_command("Switching reasoning effort to "@ + effort + "…"@),
                    Some(Request::SetEffort(self.selected_model as usize, effort)),
                )
            },
        }
    }

    /// `/model` with an argument.
    #[verifier::opaque]
    pub open spec fn pick_model(self, input: Seq<char>) -> (Desk, Option<Request>) {
        let id = text::trim(text::strip_all(input, "/model "@));
        match model_index(self.models, 0, id) {
            None => (
                self.push_error(
                    "Unknown model"@,
                    "No configured model matches `"@ + id + "`."@,
                ),
                None,
            ),
            Some(i) => if i == self.selected_model {
                (self.with_status("Already using "@ + self.models[i].display_name@), None)
            } else {
                (
                    self.begin_command("Switching to "@ + self.models[i].display_name@ + "…"@),
                    Some(Request::SwitchModel(i as usize, self.models[i].registry_id@)),
                )
            },
        }
    }

    /// A slash command given while nothing blocks it.
    #[verifier::opaque]
    pub open spec fn run_slash(self, input: Seq<char>) -> (Desk, Option<Request>) {
        self.cleared().switch(root()).dispatch(input)
    }

    /// A slash command on the root agent.
    #[verifier::opaque]
    pub open spec fn dispatch(self, input: Seq<char>) -> (Desk, Option<Request>) {
        let d = self;
        if input == "/compact"@ {
            (d.begin_command("Compacting context…"@), Some(Request::Compact))
        } else if input == "/new"@ {
            (d.begin_command("Starting a new session…"@), Some(Request::New))
        } else if input == "/model"@ {
            (Desk { input: Draft::ending("/model "@), ..d }, None)
        } else if input == "/effort"@ {
            (Desk { input: Draft::ending("/effort "@), ..d }, None)
        } else if input == "/session"@ {
            (Desk { input: Draft::ending("/session "@), ..d }, Some(Request::RefreshSessions))
        } else if text::starts_with(input, "/session "@) {
            d.load_session(input)
        } else if text::starts_with(input, "/effort "@) {
            d.set_effort(input)
        } else if text::starts_with(input, "/model "@) {
            d.pick_model(input)
        } else {
            (d.push_error("Unknown command"@, "`"@ + input + "` is not a Lam command."@), None)
        }
    }

    /// `/agents` with an argument.
    #[verifier::opaque]
    pub open spec fn pick_agent(self, address: Seq<char>) -> Desk {
        let d = self.cleared();
        if d.knows(address) {
            d.switch(address)
        } else {
            d.push_error(
                "Unknown agent"@,
                "No agent conversation matches `"@ + address + "`."@,
            )
        }
    }

    /// Submits the input.
    #[verifier::opaque]
    pub open spec fn submit(self) -> (Desk, Option<Request>) {
        let input = text::trim(self.input.text);
        if input.len() == 0 {
            (self, None)
        } else if input == "/exit"@ || input == "/quit"@ {
            (Desk { should_exit: true, ..self }, None)
        } else if input == "/agents"@ {
            (self.open_drawer(), None)
        } else if text::starts_with(input, "/agents "@) {
            (self.pick_agent(text::trim(text::strip_prefix(input, "/agents "@)->0)), None)
        } else if !text::starts_with(input, "/"@) {
            if self.interrupting {
                (self.with_status("Wait for the interruption to finish"@), None)
            } else {
                (self.send(input), Some(Request::Message(input)))
            }
        } else if self.busy {
            (self.with_status("Wait for the current operation to finish"@), None)
        } else {
            self.run_slash(input)
        }
    }

    /// Puts the highlighted palette row into the input.
    pub open spec fn apply_suggestion(self, hints: Seq<Hint>) -> Desk {
        self.typed(hints[self.suggestion].replacement)
    }

    /// Recalls an older message.
    #[verifier::opaque]
    pub open spec fn recall_older(self) -> Desk {
        match self.recall {
            Some(r) => if r.position > 0 {
                Desk {
                    recall: Some(Recall { position: r.position - 1, ..r }),
                    input: Draft::ending(r.messages[r.position - 1]),
                    ..self
                }
            } else {
                self
            },
            None => {
                let messages = user_messages(self.conv.entries, self.conv.entries.len() as int);
                if messages.len() == 0 {
                    self
                } else {
                    Desk {
                        recall: Some(
                            Recall { messages, position: messages.len() - 1, draft: self.input },
                        ),
                        input: Draft::ending(messages.last()),
                        ..self
                    }
                }
            },
        }
    }

    /// Recalls a newer message, or the draft behind the newest.
    #[verifier::opaque]
    pub open spec fn recall_newer(self) -> Desk {
        match self.recall {
            Some(r) => if r.position + 1 < r.messages.len() {
                Desk {
                    recall: Some(Recall { position: r.position + 1, ..r }),
                    input: Draft::ending(r.messages[r.position + 1]),
                    ..self
                }
            } else {
                Desk { recall: None, input: r.draft, ..self }
            },
            None => self,
        }
    }

    /// Moves the focus to the conversation's last row.
    pub open spec fn to_conversation(self) -> Desk {
        Desk {
            focus: Focus::Conversation,
            conv: Conv {
                selected: conversation::last_index(self.conv.entries.len() as int),
                follow: true,
                drives: true,
                ..self.conv
            },
            ..self
        }
    }

    pub open spec fn with_cursor(self, cursor: int) -> Desk {
        Desk { input: self.input.moved(cursor), ..self }
    }

    /// Vertical movement in the input, or through earlier messages where the
    /// input has no further row.
    #[verifier::opaque]
    pub open spec fn vertical(self, direction: int) -> Desk {
        let width = self.pane.input_width as nat;
        if self.input.vertical_target(direction, width) is Some {
            Desk { input: self.input.move_vertical(direction, width), ..self }
        } else if direction < 0 {
            self.recall_older()
        } else {
            self.recall_newer()
        }
    }

    /// Enter while a palette is open.
    #[verifier::opaque]
    pub open spec fn enter_palette(self, hints: Seq<Hint>) -> (Desk, Option<Request>) {
        let chosen = hints[self.suggestion].replacement;
        if text::trim_end(self.input.text) != text::trim_end(chosen) || text::ends_with(
            chosen,
            " "@,
        ) {
            let d = self.apply_suggestion(hints);
            if self.agents_open() {
                d.submit()
            } else {
                (d, None)
            }
        } else {
            self.submit()
        }
    }

    /// A character key while the input has the focus.
    #[verifier::opaque]
    pub open spec fn character(self, c: char, key: KeyEvent) -> Desk {
        let ctrl = key.modifiers.control;
        if ctrl && c == 'j' {
            self.edited(self.input.insert('\n'))
        } else if ctrl && c == 'a' {
            self.with_cursor(self.input.line_start())
        } else if ctrl && c == 'e' {
            self.with_cursor(self.input.line_end())
        } else if ctrl && c == 'w' {
            self.edited(self.input.delete_word_backward())
        } else if key.modifiers.plain() {
            self.edited(self.input.insert(c))
        } else {
            self
        }
    }

    /// Up or Down while the input has the focus: moves the highlight of an open
    /// palette of `count` rows around, and the cursor otherwise.
    #[verifier::opaque]
    pub open spec fn up_or_down(self, direction: int, count: int) -> Desk {
        if count == 0 {
            self.vertical(direction)
        } else if direction < 0 {
            Desk {
                suggestion: if self.suggestion == 0 {
                    count - 1
                } else {
                    self.suggestion - 1
                },
                ..self
            }
        } else {
            Desk {
                suggestion: if self.suggestion + 1 == count {
                    0
                } else {
                    self.suggestion + 1
                },
                ..self
            }
        }
    }

    /// A cursor or deletion key while the input has the focus.
    #[verifier::opaque]
    pub open spec fn edit_key(self, code: KeyCode) -> Desk {
        match code {
            KeyCode::Left => self.with_cursor(
                if self.input.cursor == 0 {
                    0
                } else {
                    self.input.cursor - 1
                },
            ),
            KeyCode::Right => self.with_cursor(
                if self.input.cursor < self.input.text.len() {
                    self.input.cursor + 1
                } else {
                    self.input.text.len() as int
                },
            ),
            KeyCode::Home => self.with_cursor(0),
            KeyCode::End => self.with_cursor(self.input.text.len() as int),
            KeyCode::Backspace => self.edited(self.input.backspace()),
            KeyCode::Delete => self.edited(self.input.delete()),
            _ => self,
        }
    }

    /// A key while the input has the focus.
    #[verifier::opaque]
    pub open spec fn input_key(self, key: KeyEvent, hints: Seq<Hint>) -> (Desk, Option<Request>) {
        let palette = hints.len() > 0;
        match key.code {
            KeyCode::Tab => (
                if palette {
                    self.apply_suggestion(hints)
                } else {
                    self.to_conversation()
                },
                None,
            ),
            KeyCode::BackTab => (self.to_conversation(), None),
            KeyCode::Up => (self.up_or_down(-1, hints.len() as int), None),
            KeyCode::Down => (self.up_or_down(1, hints.len() as int), None),
            KeyCode::Enter => if palette {
                self.enter_palette(hints)
            } else {
                self.submit()
            },
            KeyCode::Char(c) => (self.character(c, key), None),
            _ => (self.edit_key(key.code), None),
        }
    }

    /// Moves the selection by `amount` rows.
    #[verifier::opaque]
    pub open spec fn move_selection(self, amount: int) -> Desk {
        let n = self.conv.entries.len() as int;
        if n == 0 {
            Desk { conv: Conv { drives: true, selected: None, ..self.conv }, ..self }
        } else {
            let current = match self.conv.selected {
                Some(s) => s,
                None => n - 1,
            };
            let moved = if current + amount < 0 {
                0
            } else if current + amount > n - 1 {
                n - 1
            } else {
                current + amount
            };
            Desk {
                conv: Conv {
                    drives: true,
                    selected: Some(moved),
                    follow: moved + 1 == n && amount > 0,
                    ..self.conv
                },
                ..self
            }
        }
    }

    /// Expands or collapses the selected row.
    pub open spec fn toggled(self) -> Conv {
        match self.conv.selected {
            Some(i) => if 0 <= i < self.conv.entries.len() {
                let e = self.conv.entries[i];
                Conv {
                    entries: self.conv.entries.update(i, Entry { expanded: !e.expanded, ..e }),
                    follow: false,
                    ..self.conv
                }
            } else {
                Conv { follow: false, ..self.conv }
            },
            None => Conv { follow: false, ..self.conv },
        }
    }

    /// Expands or collapses the selected row from the keyboard; an expanded
    /// row is revealed.
    #[verifier::opaque]
    pub open spec fn keyboard_toggle(self) -> Desk {
        let c = Conv { drives: false, ..self.toggled() };
        let expands = self.conv.selected matches Some(i) && 0 <= i < self.conv.entries.len()
            && !self.conv.entries[i].expanded;
        Desk {
            conv: if expands {
                Conv { reveal: self.conv.selected, ..c }
            } else {
                c
            },
            ..self
        }
    }

    /// A key while the conversation has the focus.
    #[verifier::opaque]
    pub open spec fn conversation_key(self, key: KeyEvent) -> Desk {
        let n = self.conv.entries.len() as int;
        match key.code {
            KeyCode::Tab => Desk { focus: Focus::Input, ..self },
            KeyCode::BackTab => Desk { focus: Focus::Input, ..self },
            KeyCode::Up => self.move_selection(-1),
            KeyCode::Down => self.move_selection(1),
            KeyCode::PageUp => self.move_selection(-8),
            KeyCode::PageDown => self.move_selection(8),
            KeyCode::Home => Desk {
                conv: Conv {
                    selected: if n > 0 {
                        Some(0)
                    } else {
                        None
                    },
                    follow: false,
                    drives: true,
                    ..self.conv
                },
                ..self
            },
            KeyCode::End => Desk {
                conv: Conv { selected: conversation::last_index(n), follow: true, drives: true, ..self.conv },
                ..self
            },
            KeyCode::Enter => self.keyboard_toggle(),
            KeyCode::Char(c) => if c == 'k' {
                self.move_selection(-1)
            } else if c == 'j' {
                self.move_selection(1)
            } else if c == ' ' {
                self.keyboard_toggle()
            } else {
                self
            },
            _ => self,
        }
    }

    /// Escape: closes the agents drawer, arms the interruption of a live root
    /// run, or, while it is armed, interrupts it.
    #[verifier::opaque]
    pub open spec fn escape(self, now: u64) -> (Desk, Option<Request>) {
        if self.agents_open() {
            (Desk { deadline: None, ..self.cleared() }, None)
        } else if !self.root_active || self.interrupting {
            (Desk { deadline: None, ..self }, None)
        } else if self.deadline is Some && now <= self.deadline->0 {
            (
                Desk { deadline: None, interrupting: true, ..self }.root_status(
                    "Stopping current run…"@,
                ),
                Some(Request::Interrupt),
            )
        } else {
            (Desk { deadline: Some(later(now, INTERRUPTION_ARM_WINDOW)), ..self }, None)
        }
    }

    /// Ctrl+D in the session palette: the first press arms the highlighted
    /// session, a second press on the same session deletes it.
    #[verifier::opaque]
    pub open spec fn delete_session(self) -> (Desk, Option<Request>) {
        if !self.session_open() || self.suggestion >= self.session_matches().len() {
            (self, None)
        } else {
            let id = self.session_matches()[self.suggestion].id;
            if self.armed == Some(id) {
                (
                    self.disarm_deletion(),
                    Some(
                        if id == self.session_id {
                            Request::ReplaceSession(id)
                        } else {
                            Request::DeleteSession(id)
                        },
                    ),
                )
            } else {
                (
                    Desk {
                        armed: Some(id),
                        notice: Some(
                            if id == self.session_id {
                                "Press ctrl+d again to delete the open session #"@ + text::decimal(
                                    id as nat,
                                ) + " and start a fresh one"@
                            } else {
                                "Press ctrl+d again to delete session #"@ + text::decimal(
                                    id as nat,
                                )
                            },
                        ),
                        ..self
                    },
                    None,
                )
            }
        }
    }

    /// The highlight kept within the open palette.
    pub open spec fn highlighted(self, count: int) -> Desk {
        Desk {
            suggestion: if count == 0 {
                0
            } else if self.suggestion > count - 1 {
                count - 1
            } else {
                self.suggestion
            },
            ..self
        }
    }

    /// A key that no global binding takes goes to what has the focus.
    #[verifier::opaque]
    pub open spec fn routed(self, key: KeyEvent) -> (Desk, Option<Request>) {
        let hints = self.suggestions();
        let d = self.highlighted(hints.len() as int);
        match d.focus {
            Focus::Input => d.input_key(key, hints),
            Focus::Conversation => (d.conversation_key(key), None),
        }
    }

    /// A key other than Escape.
    #[verifier::opaque]
    pub open spec fn other_key(self, key: KeyEvent) -> (Desk, Option<Request>) {
        let pressed = key.kind == KeyEventKind::Press;
        if deletes(key) {
            if pressed {
                self.delete_session()
            } else {
                (self, None)
            }
        } else if key.modifiers.control && key.code == KeyCode::Char('c') {
            if self.input.text.len() == 0 {
                (Desk { should_exit: true, ..self }, None)
            } else {
                (self.cleared(), None)
            }
        } else if pressed && key.modifiers.alt && (key.code == KeyCode::Char('a') || key.code
            == KeyCode::Char('A')) {
            (self.open_drawer(), None)
        } else if pressed && key.modifiers.alt && (key.code == KeyCode::Char('m') || key.code
            == KeyCode::Char('M')) {
            (self.open_models(), None)
        } else {
            self.routed(key)
        }
    }

    /// What a keystroke dismisses before anything else: a drag selection, and
    /// an armed deletion unless the key may confirm it.
    pub open spec fn dismissed(self, key: KeyEvent) -> Desk {
        let d = Desk { selection: None, ..self };
        if deletes(key) {
            d
        } else {
            d.disarm_deletion()
        }
    }

    /// One keystroke at time `now`.
    #[verifier::opaque]
    pub open spec fn key(self, key: KeyEvent, now: u64) -> (Desk, Option<Request>) {
        if key.kind == KeyEventKind::Release {
            (self, None)
        } else if key.code == KeyCode::Esc {
            if key.kind == KeyEventKind::Press {
                self.dismissed(key).escape(now)
            } else {
                (self.dismissed(key), None)
            }
        } else {
            Desk { deadline: None, ..self.dismissed(key) }.other_key(key)
        }
    }

    /// Scrolls the conversation up (`direction < 0`) or down.
    #[verifier::opaque]
    pub open spec fn scroll(self, direction: int) -> Desk {
        let viewport = if self.pane.conversation_viewport_height == 0 {
            1
        } else {
            self.pane.conversation_viewport_height as int
        };
        let maximum = selection::monus(self.pane.conversation_total_lines as int, viewport);
        let wanted = if direction < 0 {
            selection::monus(self.conv.offset as int, MOUSE_SCROLL_LINES as int)
        } else {
            clamp_add(self.conv.offset as int, MOUSE_SCROLL_LINES as int)
        };
        let offset = if direction >= 0 && wanted > maximum {
            maximum
        } else {
            wanted
        };
        let end = clamp_add(offset, viewport);
        let ranges = self.pane.conversation_ranges@;
        let selected = if self.conv.selected is Some && meets(
            ranges,
            self.conv.selected->0,
            offset,
            end,
        ) {
            self.conv.selected
        } else if direction < 0 {
            last_meeting(ranges, ranges.len() as int, offset, end)
        } else {
            first_meeting(ranges, 0, offset, end)
        };
        Desk {
            focus: Focus::Conversation,
            conv: Conv {
                drives: false,
                offset: offset as usize,
                follow: direction > 0 && offset == maximum,
                selected,
                ..self.conv
            },
            ..self
        }
    }

    /// Arms a drag selection at the pressed cell of the conversation pane.
    #[verifier::opaque]
    pub open spec fn begin_selection(self, row: u16, column: u16) -> Desk {
        match self.pane.conversation_area {
            Some(area) => if row < area.y || row >= clamp16(area.y + area.height) || column
                < area.x {
                self
            } else {
                let at = selection::cell_at(row as int, column as int, area);
                Desk {
                    focus: Focus::Conversation,
                    selection: Some(TextSelection { anchor: at, head: at }),
                    ..self
                }
            },
            None => self,
        }
    }

    /// Whether a click lands in the input box.
    pub open spec fn in_input(self, mouse: MouseEvent) -> bool {
        self.pane.input_area matches Some(area) && area.y <= mouse.row && mouse.row < clamp16(
            area.y + area.height,
        ) && area.x <= mouse.column
    }

    /// A click on an entry selects it; on its header it also toggles it.
    #[verifier::opaque]
    pub open spec fn on_entry(self, target: Hitbox, header: bool) -> Desk {
        let d = Desk {
            focus: Focus::Conversation,
            conv: Conv {
                selected: Some(target.entry as int),
                follow: false,
                drives: header,
                ..self.conv
            },
            ..self
        };
        if header {
            Desk { conv: d.toggled(), ..d }
        } else {
            d
        }
    }

    /// A left click.
    #[verifier::opaque]
    pub open spec fn click(self, mouse: MouseEvent) -> Desk {
        if self.in_input(mouse) {
            let area = self.pane.input_area->0;
            let row = clamp_add(mouse.row - area.y, self.pane.input_scroll as int);
            let column = selection::monus(mouse.column - area.x, 3);
            Desk {
                selection: None,
                focus: Focus::Input,
                suggestion: 0,
                input: self.input.moved(
                    self.input.cursor_at(self.pane.input_width as nat, row, column),
                ),
                ..self
            }
        } else {
            match hit(self.pane.hitboxes@, 0, mouse.row as int) {
                Some(i) => {
                    let target = self.pane.hitboxes@[i];
                    let header = target.header == Some(mouse.row);
                    if header {
                        self.on_entry(target, true)
                    } else {
                        self.on_entry(target, false).begin_selection(mouse.row, mouse.column)
                    }
                },
                None => self.begin_selection(mouse.row, mouse.column),
            }
        }
    }

    /// One mouse event; a finished drag yields the text to copy.
    #[verifier::opaque]
    pub open spec fn mouse(self, mouse: MouseEvent) -> (Desk, Option<Seq<char>>) {
        match mouse.kind {
            MouseEventKind::ScrollUp => (Desk { selection: None, ..self }.scroll(-1), None),
            MouseEventKind::ScrollDown => (Desk { selection: None, ..self }.scroll(1), None),
            MouseEventKind::Down => (self.click(mouse), None),
            MouseEventKind::Drag => (
                if self.selection is Some && self.pane.conversation_area is Some {
                    Desk {
                        selection: Some(
                            TextSelection {
                                head: selection::cell_at(
                                    mouse.row as int,
                                    mouse.column as int,
                                    self.pane.conversation_area->0,
                                ),
                                ..self.selection->0
                            },
                        ),
                        ..self
                    }
                } else {
                    self
                },
                None,
            ),
            MouseEventKind::Up => (
                Desk { selection: None, ..self },
                match self.selection {
                    Some(s) => if s.anchor != s.head {
                        Some(selection::copied_text(self.pane.conversation_rows@, s.anchor, s.head))
                    } else {
                        None
                    },
                    None => None,
                },
            ),
            MouseEventKind::Other => (self, None),
        }
    }

    /// Text pasted into the focused input.
    pub open spec fn paste(self, s: Seq<char>) -> Desk {
        if self.focus == Focus::Input {
            self.edited(self.input.insert_text(s))
        } else {
            self
        }
    }

    pub open spec fn disarmed_for(self, address: Seq<char>) -> Desk {
        if address == root() {
            Desk { deadline: None, ..self }
        } else {
            self
        }
    }

    /// A piece of a model response on the viewed agent.
    #[verifier::opaque]
    pub open spec fn model_delta(self, address: Seq<char>, run: Seq<char>, delta: ModelDelta) -> Desk {
        match delta {
            ModelDelta::Text(s) => if s@.len() == 0 {
                self
            } else {
                Desk {
                    conv: self.conv.append_delta(
                        EntryKind::Assistant,
                        address,
                        run,
                        s@,
                        self.tail(),
                    ),
                    ..self
                }.with_status(address + " is responding…"@)
            },
            ModelDelta::Reasoning(s) => if s@.len() == 0 {
                self
            } else {
                Desk {
                    conv: self.conv.append_delta(
                        EntryKind::Reasoning,
                        address,
                        run,
                        s@,
                        self.tail(),
                    ),
                    ..self
                }.with_status(address + " is reasoning…"@)
            },
            ModelDelta::ToolCall(d) => Desk {
                conv: self.conv.append_tool_delta(
                    address,
                    run,
                    CallPiece {
                        index: d.index,
                        name: text::opt_text(d.name),
                        arguments: d.arguments@,
                    },
                    self.tail(),
                ),
                ..self
            }.with_status(address + " is preparing a tool call…"@),
        }
    }

    /// The run of the agent at `address` has begun.
    #[verifier::opaque]
    pub open spec fn run_started(self, address: Seq<char>) -> Desk {
        self.with_status(address + " is working…"@).set_run_active(true).disarmed_for(address)
    }

    /// The run of the agent at `address` is complete.
    #[verifier::opaque]
    pub open spec fn run_completed(self, address: Seq<char>, run: Seq<char>) -> Desk {
        Desk { conv: self.conv.quiet(run), ..self }.with_status(
            if address == root() {
                "Ready"@
            } else {
                "Complete"@
            },
        ).set_run_active(false).disarmed_for(address)
    }

    /// The run of the agent at `address` has failed.
    #[verifier::opaque]
    pub open spec fn run_failed(self, address: Seq<char>, message: Seq<char>) -> Desk {
        self.push_error("Run failed"@, message).set_run_active(false).disarmed_for(address)
    }

    /// The next streamed turn of the viewed agent begins.
    #[verifier::opaque]
    pub open spec fn turn_started(self, address: Seq<char>) -> Desk {
        Desk {
            conv: Conv {
                turn: conversation::sat_succ(self.conv.turn as int, u64::MAX as int) as u64,
                ..self.conv
            },
            ..self
        }.with_status(address + " is thinking…"@)
    }

    /// A run event on the viewed agent that is not stale.
    #[verifier::opaque]
    pub open spec fn live_event(self, address: Seq<char>, event: RunEvent) -> Desk {
        match event {
            RunEvent::Started { run_id } => self.run_started(address),
            RunEvent::MessagesDelivered { run_id } => self.with_status(address + " is working…"@),
            RunEvent::ModelStarted { run_id } => self.turn_started(address),
            RunEvent::ModelDelta { run_id, delta } => self.model_delta(address, run_id@, delta),
            RunEvent::ModelCompleted { run_id, total_tokens } => Desk {
                conv: Conv { context_tokens: total_tokens, ..self.conv },
                ..self
            },
            RunEvent::EvalStarted { run_id } => self.with_status(
                address + " is evaluating TypeScript…"@,
            ),
            RunEvent::EvalCompleted { run_id } => self.with_status(address + " finished eval"@),
            RunEvent::CompactionStarted { run_id } => self.with_status(
                address + " is compacting context…"@,
            ),
            RunEvent::CompactionCompleted { run_id } => self.with_status(
                address + " compacted context"@,
            ),
            RunEvent::CompactionFailed { run_id, message } => self.push_error(
                "Compaction failed"@,
                message@,
            ),
            RunEvent::Completed { run_id } => self.run_completed(address, run_id@),
            RunEvent::Failed { message } => self.run_failed(address, message@),
        }
    }

    /// A run event on the viewed agent. Late streaming events of a run that is
    /// over change nothing.
    #[verifier::opaque]
    pub open spec fn run_event(self, address: Seq<char>, event: RunEvent) -> Desk {
        if events::streams(event) && events::event_run(event) is Some && self.conv.dead.contains(
            events::event_run(event)->0,
        ) {
            self
        } else {
            self.live_event(address, event)
        }
    }

    #[verifier::opaque]
    pub open spec fn runtime_event(self, address: Seq<char>, event: RuntimeEvent) -> Desk {
        match event {
            RuntimeEvent::RuntimeResumed => self.push_entry(
                EntryKind::System,
                "Runtime resumed"@,
                address + " resumed with a fresh TypeScript isolate."@,
            ),
            RuntimeEvent::CompactionFailed { message } => self.push_error(
                "Compaction failed"@,
                message@,
            ),
            RuntimeEvent::CompactionStarted => self,
            RuntimeEvent::CompactionCompleted => self,
        }
    }

    #[verifier::opaque]
    pub open spec fn outcome(self, outcome: AgentOutcome) -> Desk {
        match outcome {
            AgentOutcome::Completed { address } => self.with_status("Complete"@),
            AgentOutcome::Failed { address, error } => self.push_error(
                address@ + " failed"@,
                error@,
            ),
            AgentOutcome::Cancelled { address, reason } => if text::opt_text(reason) == Some(
                "the actor run was interrupted"@,
            ) {
                self.with_status("Interrupted"@)
            } else {
                self.push_error(
                    address@ + " cancelled"@,
                    match reason {
                        Some(reason) => reason@,
                        None => "No reason was reported."@,
                    },
                )
            },
        }
    }

    /// An agent event on the viewed agent.
    #[verifier::opaque]
    pub open spec fn on_event(self, event: AgentSystemEvent) -> Desk {
        match event {
            AgentSystemEvent::Hosted { address, parent } => self.with_status("Ready"@),
            AgentSystemEvent::Retired { address, reason } => {
                let d = self.set_run_active(false);
                match reason {
                    StopReason::Interrupted => d.with_status("Interrupted"@),
                    StopReason::Other(name) => d.push_entry(
                        EntryKind::System,
                        "Agent stopped"@,
                        address@ + ": "@ + name@,
                    ).with_status("Stopped"@),
                }
            },
            AgentSystemEvent::Outcome { outcome } => self.set_run_active(false).outcome(outcome),
            AgentSystemEvent::ActorRuntime { address, event } => self.runtime_event(
                address@,
                event,
            ),
            AgentSystemEvent::Run { address, event } => self.run_event(address@, event),
        }
    }

    /// Makes sure the agent of an event is known.
    #[verifier::opaque]
    pub open spec fn introduce(self, event: AgentSystemEvent) -> Desk {
        let address = events::event_address(event);
        match event {
            AgentSystemEvent::Hosted { address: a, parent } => self.ensure_agent(
                address,
                text::opt_text(parent),
                "Starting…"@,
            ),
            AgentSystemEvent::Retired { address: a, reason } => self.ensure_agent(
                address,
                parent_of(address),
                "Stopped"@,
            ),
            AgentSystemEvent::Outcome { outcome } => self.ensure_agent(
                address,
                parent_of(address),
                "Finishing…"@,
            ),
            _ => self.ensure_agent(address, parent_of(address), "Working…"@),
        }
    }

    /// Routes an agent event to its agent, whichever agent is viewed.
    #[verifier::opaque]
    pub open spec fn agent_event(self, event: AgentSystemEvent) -> Desk {
        self.introduce(event).switch(events::event_address(event)).on_event(event).switch(self.current)
    }

    /// Whether an agent event changes what is on screen.
    pub open spec fn event_shows(self, event: AgentSystemEvent) -> bool {
        let after = self.agent_event(event);
        self.agents_open() || events::event_address(event) == self.current || self.others_running()
            != after.others_running() || after.collapsed_visible()
    }

    /// One journal fold of the agent at `address`.
    #[verifier::opaque]
    pub open spec fn fold(self, address: Seq<char>, fold: Fold) -> Desk {
        let a = Desk {
            steers: if address == root() && fold.consumed.len() > 0 {
                undelivered(self.steers, fold.consumed, self.steers.len() as int)
            } else {
                self.steers
            },
            ..self
        }.ensure_agent(address, parent_of(address), "Working…"@);
        let b = a.switch(address).set_run_active(fold.active_run is Some);
        Desk { conv: b.conv.apply_fold(address, fold, b.tail()), ..b }.switch(self.current)
    }

    /// Whether a fold changes what is on screen.
    pub open spec fn fold_shows(self, address: Seq<char>, fold: Fold) -> bool {
        let after = self.fold(address, fold);
        (fold.rows.len() > 0 && address == self.current) || after.agents_open()
            || self.others_running() != after.others_running() || after.collapsed_visible()
    }

    /// The durable receipt for a sent message.
    #[verifier::opaque]
    pub open spec fn receipt(self, id: Seq<char>, message: Seq<char>, consumed: bool) -> Desk {
        let steers = match awaiting(self.steers, 0, Some(message)) {
            Some(i) => if consumed {
                self.steers.remove(i)
            } else {
                self.steers.update(i, Steer { id: Some(id), text: self.steers[i].text })
            },
            None => if consumed {
                self.steers
            } else {
                self.steers.push(Steer { id: Some(id), text: message })
            },
        };
        let d = Desk { steers, ..self };
        let e = d.switch(root());
        (if e.root_active {
            e.with_status("Message queued — delivered at the next boundary"@)
        } else {
            e
        }).switch(self.current)
    }

    /// A rejected send: the queued row goes and the draft comes back.
    #[verifier::opaque]
    pub open spec fn rejected(self, error: Seq<char>) -> Desk {
        (match awaiting(self.steers, 0, None) {
            Some(i) => Desk { steers: self.steers.remove(i), ..self.typed(self.steers[i].text) },
            None => self,
        }).push_error("Could not send message"@, error)
    }

    #[verifier::opaque]
    pub open spec fn interrupt_result(self, result: Result<bool, String>) -> Desk {
        let d = Desk { interrupting: false, deadline: None, ..self }.with_busy();
        match result {
            Ok(_) => {
                let e = d.switch(root());
                e.with_status(
                    if e.root_active {
                        "/root is working…"@
                    } else {
                        "Ready"@
                    },
                ).switch(self.current)
            },
            Err(error) => d.push_error("Could not stop run"@, error@),
        }
    }

    /// A finished command on the root agent: what it says, and then `Ready`.
    pub open spec fn done(self, title: Seq<char>, message: Seq<char>) -> Desk {
        self.push_entry(EntryKind::System, title, message).with_status("Ready"@)
    }

    /// A command result on the root agent.
    #[verifier::opaque]
    pub open spec fn on_result(self, result: CommandResult) -> Desk {
        match result {
            CommandResult::Message(Ok(sent)) => self.receipt(sent.message_id@, sent.text@, false),
            CommandResult::Message(Err(error)) => self.rejected(error@),
            CommandResult::Interrupt(result) => self.interrupt_result(result),
            CommandResult::Compact(Ok(message)) => self.finish_command().done(
                "Compact"@,
                message@,
            ),
            CommandResult::Compact(Err(error)) => self.finish_command().push_error(
                "Compaction failed"@,
                error@,
            ),
            CommandResult::SwitchModel { index, result: Ok(message) } => {
                let d = self.finish_command();
                Desk {
                    selected_model: index as int,
                    conv: Conv { model: Some(self.models[index as int].registry_id@), ..d.conv },
                    ..d
                }.done("Model"@, message@)
            },
            CommandResult::SwitchModel { index, result: Err(error) } => {
                self.finish_command().push_error("Model switch failed"@, error@)
            },
            CommandResult::SetEffort { index, effort, result: Ok(message) } => {
                let d = self.finish_command();
                let chosen = string_index(
                    text::texts(self.models[index as int].efforts@),
                    0,
                    effort@,
                )->0;
                Desk { efforts: d.efforts.update(index as int, chosen as usize), ..d }.done(
                    "Effort"@,
                    message@,
                )
            },
            CommandResult::SetEffort { index, effort, result: Err(error) } => {
                self.finish_command().push_error("Effort switch failed"@, error@)
            },
        }
    }

    /// Whether a result names a model, and an effort of it, that exist.
    pub open spec fn answers(self, result: CommandResult) -> bool {
        match result {
            CommandResult::SwitchModel { index, result: Ok(message) } => index < self.models.len(),
            CommandResult::SetEffort { index, effort, result: Ok(message) } => index
                < self.models.len() && string_index(
                text::texts(self.models[index as int].efforts@),
                0,
                effort@,
            ) is Some,
            _ => true,
        }
    }

    #[verifier::opaque]
    pub open spec fn command_result(self, result: CommandResult) -> Desk {
        self.switch(root()).on_result(result).switch(self.current)
    }
}

/// Whether the key is the one that deletes a session.
pub open spec fn deletes(key: KeyEvent) -> bool {
    key.modifiers.control && key.code == KeyCode::Char('d')
}

pub open spec fn clamp16(n: int) -> int {
    if n <= u16::MAX {
        n
    } else {
        u16::MAX as int
    }
}

} // verus!
