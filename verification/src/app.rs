//! The interface: input, palettes, conversations and commands.

use crate::agents;
use crate::agents::{agent_order, insert_in_order, AgentTable};
use crate::cells::elide_end_plain;
use crate::config::ModelChoice;
use crate::conversation;
use crate::conversation::{AgentConversation, Conv, EntryKind};
use crate::desk::{Desk, Focus, Hint, Pane, Recall, SessionItem, Steer};
use crate::desk;
use crate::history::{copy_opt, AgentHistory, RuntimePreferences};
use crate::input::InputBuffer;
use crate::selection::TextSelection;
use crate::text;
use vstd::prelude::*;
use vstd::string::*;

verus! {

/// A session of this directory.
#[derive(Clone, Debug, PartialEq, Eq)]
pub struct SessionChoice {
    pub id: u64,
    pub preview: Option<String>,
}

impl View for SessionChoice {
    type V = SessionItem;

    open spec fn view(&self) -> SessionItem {
        SessionItem { id: self.id, preview: text::opt_text(self.preview) }
    }
}

/// One user message admitted, or about to be admitted, as a steer.
#[derive(Debug)]
pub struct PendingSteer {
    /// Durable identity; `None` while the message awaits its receipt.
    pub message_id: Option<String>,
    pub text: String,
}

impl View for PendingSteer {
    type V = Steer;

    open spec fn view(&self) -> Steer {
        Steer { id: text::opt_text(self.message_id), text: self.text@ }
    }
}

/// Earlier messages being recalled into the input.
#[derive(Debug)]
pub struct InputHistory {
    pub messages: Vec<String>,
    pub position: usize,
    pub draft: InputBuffer,
}

impl View for InputHistory {
    type V = Recall;

    open spec fn view(&self) -> Recall {
        Recall {
            messages: text::texts(self.messages@),
            position: self.position as int,
            draft: self.draft@,
        }
    }
}

/// A transient status text shown until its deadline.
#[derive(Debug)]
pub struct Toast {
    pub text: String,
    pub deadline: u64,
}

/// One row of a palette.
#[derive(Debug)]
pub struct Suggestion {
    pub label: String,
    pub detail: String,
    pub replacement: String,
    pub provider: Option<String>,
    /// True when this row is an agent with a live run.
    pub running: bool,
}

impl View for Suggestion {
    type V = Hint;

    open spec fn view(&self) -> Hint {
        Hint {
            label: self.label@,
            detail: self.detail@,
            replacement: self.replacement@,
            provider: text::opt_text(self.provider),
            running: self.running,
        }
    }
}

/// What a session shows when it opens.
#[derive(Debug)]
pub struct SessionView {
    pub id: u64,
    pub journal_path: String,
    pub resumed: bool,
    pub agents: Vec<AgentHistory>,
    pub choices: Vec<SessionChoice>,
}

#[derive(Clone, Copy, Debug, PartialEq, Eq, Structural)]
pub enum NoticeKind {
    Warning,
    Hint,
}

/// The one advisory line under the palette.
#[derive(Debug)]
pub struct Notice {
    pub text: String,
    pub kind: NoticeKind,
}

/// The interface. Times are milliseconds of one monotonic clock.
#[derive(Debug)]
pub struct App {
    pub cwd: String,
    pub session_id: u64,
    pub sessions: Vec<SessionChoice>,
    pub models: Vec<ModelChoice>,
    pub selected_model: usize,
    pub selected_efforts: Vec<usize>,
    pub focus: Focus,
    pub input: InputBuffer,
    pub input_history: Option<InputHistory>,
    pub pane: Pane,
    pub suggestion_index: usize,
    pub busy: bool,
    pub should_exit: bool,
    pub text_selection: Option<TextSelection>,
    pub toast: Option<Toast>,
    pub current_agent: String,
    /// Messages not yet consumed into model-visible context.
    pub pending_steers: Vec<PendingSteer>,
    /// The conversation being viewed.
    pub view: AgentConversation,
    /// The other conversations.
    pub agents: AgentTable,
    pub root_run_active: bool,
    pub next_agent_ord: u64,
    /// A blocking command awaits its result.
    pub command_in_flight: bool,
    pub interruption_deadline: Option<u64>,
    pub interruption_in_progress: bool,
    /// Session armed for deletion by a first press.
    pub armed_session: Option<u64>,
    pub session_notice: Option<String>,
}

pub open spec fn sessions_of(v: Seq<SessionChoice>) -> Seq<SessionItem> {
    v.map_values(|s: SessionChoice| s@)
}

pub open spec fn steers_of(v: Seq<PendingSteer>) -> Seq<Steer> {
    v.map_values(|s: PendingSteer| s@)
}

pub open spec fn hints_of(v: Seq<Suggestion>) -> Seq<Hint> {
    v.map_values(|s: Suggestion| s@)
}

impl View for App {
    type V = Desk;

    open spec fn view(&self) -> Desk {
        Desk {
            cwd: self.cwd@,
            session_id: self.session_id,
            sessions: sessions_of(self.sessions@),
            models: self.models@,
            selected_model: self.selected_model as int,
            efforts: self.selected_efforts@,
            focus: self.focus,
            input: self.input@,
            recall: match self.input_history {
                Some(h) => Some(h@),
                None => None,
            },
            pane: self.pane,
            suggestion: self.suggestion_index as int,
            busy: self.busy,
            should_exit: self.should_exit,
            selection: self.text_selection,
            toast: match self.toast {
                Some(t) => Some((t.text@, t.deadline)),
                None => None,
            },
            current: self.current_agent@,
            steers: steers_of(self.pending_steers@),
            conv: self.view@,
            agents: self.agents@,
            root_active: self.root_run_active,
            next_ord: self.next_agent_ord,
            command: self.command_in_flight,
            deadline: self.interruption_deadline,
            interrupting: self.interruption_in_progress,
            armed: self.armed_session,
            notice: text::opt_text(self.session_notice),
        }
    }
}

/// The address above `address` in the tree of agents.
pub fn parent_address(address: &str) -> (r: Option<String>)
    ensures
        text::opt_text(r) == desk::parent_of(address@),
{
    let chars = text::chars_of(address);
    match text::rfind(&chars, '/') {
        Some(i) => if i > 0 {
            let r = text::text_of(&chars, 0, i);
            proof {
                assert(r@ =~= address@.take(i as int));
            }
            Some(r)
        } else {
            None
        },
        None => None,
    }
}

/// How an agent is drawn in the tree.
pub fn agent_tree_label(address: &str, current: bool, running: bool) -> (r: String)
    ensures
        r@ == desk::tree_label(address@, current, running),
{
    let slashes: usize = text::count_char(address, '/');
    let depth: usize = slashes.saturating_sub(1);
    let name = text::tail_after(address, '/');
    let shown = if current {
        text::concat3("[", name.as_str(), "]")
    } else {
        name
    };
    let glyph = if running {
        "●"
    } else {
        " "
    };
    if depth == 0 {
        return text::concat3("◉", glyph, shown.as_str());
    }
    let half = text::repeat(' ', depth);
    let mut r = text::concat(half.as_str(), half.as_str());
    proof {
        assert(r@ =~= text::repeated(' ', 2 * (depth as nat)));
    }
    r.append("└─");
    r.append(glyph);
    r.append(shown.as_str());
    r
}

/// All words of a text on one line.
pub fn one_line_preview(input: &str) -> (r: String)
    ensures
        r@ == text::squash(input@),
{
    text::squashed(input)
}

/// Index of the model with the given id.
pub fn find_model(models: &Vec<ModelChoice>, id: &str) -> (r: Option<usize>)
    ensures
        conversation::opt_int(r) == desk::model_index(models@, 0, id@),
        r matches Some(i) ==> i < models@.len(),
{
    let mut i: usize = 0;
    while i < models.len()
        invariant
            i <= models@.len(),
            desk::model_index(models@, 0, id@) == desk::model_index(models@, i as int, id@),
        decreases models@.len() - i,
    {
        if text::same(models[i].registry_id.as_str(), id) {
            return Some(i);
        }
        i += 1;
    }
    None
}

/// Index of the first string equal to `s`.
pub fn find_string(list: &Vec<String>, s: &str) -> (r: Option<usize>)
    ensures
        conversation::opt_int(r) == desk::string_index(text::texts(list@), 0, s@),
        r matches Some(i) ==> i < list@.len(),
{
    let mut i: usize = 0;
    while i < list.len()
        invariant
            i <= list@.len(),
            desk::string_index(text::texts(list@), 0, s@) == desk::string_index(
                text::texts(list@),
                i as int,
                s@,
            ),
        decreases list@.len() - i,
    {
        if text::same(list[i].as_str(), s) {
            return Some(i);
        }
        i += 1;
    }
    None
}

proof fn lemma_switch_wf(d: Desk, address: Seq<char>)
    requires
        d.wf(),
    ensures
        d.switch(address).wf(),
        d.knows(address) ==> d.switch(address).current == address,
        d.switch(address).knows(d.current),
        !d.knows(address) ==> d.switch(address) == d,
{
    reveal(desk::agents_ok);
    reveal(Desk::switch);
    if address != d.current && d.agents.dom().contains(address) {
        let e = d.switch(address);
        assert(e.agents.dom().contains(d.current));
        assert forall|k: Seq<char>| #[trigger] e.agents.dom().contains(k) implies e.agents[k].wf() by {
            if k != d.current {
                assert(d.agents.dom().contains(k));
            }
        }
    }
}

impl App {
    /// The stored tables are consistent and the state keeps its invariant.
    pub open spec fn wf(self) -> bool {
        self.agents.wf() && self@.wf()
    }

    /// Views another agent. Returns whether it is known.
    pub fn switch_agent(&mut self, address: &str) -> (r: bool)
        requires
            old(self).wf(),
        ensures
            final(self)@ == old(self)@.switch(address@),
            r == old(self)@.knows(address@),
            final(self).wf(),
    {
        proof {
            lemma_switch_wf(self@, address@);
            reveal(Desk::switch);
        }
        if text::same(self.current_agent.as_str(), address) {
            return true;
        }
        match self.agents.remove(address) {
            None => {
                proof {
                    assert(self@.agents =~= old(self)@.agents);
                }
                false
            },
            Some(next) => {
                let mut next = next;
                core::mem::swap(&mut self.view, &mut next);
                let mut name = address.to_owned();
                core::mem::swap(&mut self.current_agent, &mut name);
                let ghost left = self.agents@;
                self.agents.remove(name.as_str());
                self.agents.insert(name, next);
                proof {
                    assert(self.agents@ =~= left.insert(name@, next@));
                }
                if text::same(address, "/root") {
                    self.root_run_active = self.view.run_active;
                    self.recompute_busy();
                }
                true
            },
        }
    }

    /// `busy` gates blocking commands.
    pub(crate) fn recompute_busy(&mut self)
        ensures
            final(self)@ == old(self)@.with_busy(),
            final(self).agents == old(self).agents,
    {
        self.busy = self.command_in_flight || self.root_run_active || self.interruption_in_progress;
    }

    pub(crate) fn set_status(&mut self, status: &str)
        ensures
            final(self)@ == old(self)@.with_status(status@),
            old(self).wf() ==> final(self).wf(),
    {
        self.view.status = status.to_owned();
        proof {
            lemma_conv_only(old(self)@, self@);
        }
    }

    pub(crate) fn begin_command(&mut self, status: &str)
        ensures
            final(self)@ == old(self)@.begin_command(status@),
            old(self).wf() ==> final(self).wf(),
    {
        self.command_in_flight = true;
        self.view.status = status.to_owned();
        self.recompute_busy();
    }

    pub(crate) fn finish_command(&mut self)
        ensures
            final(self)@ == old(self)@.finish_command(),
            old(self).wf() ==> final(self).wf(),
    {
        self.command_in_flight = false;
        self.recompute_busy();
    }

    fn input_focused(&self) -> (r: bool)
        ensures
            r == self@.tail(),
    {
        self.focus == Focus::Input
    }

    /// Pins a locally produced row in the viewed conversation.
    pub fn push_entry(&mut self, kind: EntryKind, title: &str, body: &str)
        requires
            old(self).wf(),
        ensures
            final(self)@ == old(self)@.push_entry(kind, title@, body@),
            final(self).wf(),
    {
        proof {
            reveal(Desk::push_entry);
            reveal(Conv::pin);
        }
        let tail = self.input_focused();
        self.view.push_entry(kind, title, body, tail);
        proof {
            lemma_conv_only(old(self)@, self@);
        }
    }

    /// Pins an error row in the viewed conversation and says so in its status.
    pub(crate) fn push_error(&mut self, title: &str, body: &str)
        requires
            old(self).wf(),
        ensures
            final(self)@ == old(self)@.push_error(title@, body@),
            final(self).wf(),
    {
        proof {
            reveal(Desk::push_error);
            reveal(Conv::pin);
        }
        let tail = self.input_focused();
        self.view.push_error(title, body, tail);
        proof {
            lemma_conv_only(old(self)@, self@);
        }
    }

    /// Records whether the viewed agent has a live run.
    pub(crate) fn set_current_run_active(&mut self, active: bool)
        requires
            old(self).wf(),
        ensures
            final(self)@ == old(self)@.set_run_active(active),
            final(self).wf(),
    {
        proof {
            reveal(desk::agents_ok);
            reveal(Desk::set_run_active);
        }
        self.view.run_active = active;
        if text::same(self.current_agent.as_str(), "/root") {
            self.root_run_active = active;
            self.recompute_busy();
        }
    }

    /// Makes sure the agent is known.
    pub fn ensure_agent(&mut self, address: &str, parent: Option<String>, status: &str)
        requires
            old(self).wf(),
        ensures
            final(self)@ == old(self)@.ensure_agent(address@, text::opt_text(parent), status@),
            final(self).wf(),
            final(self)@.knows(address@),
            final(self)@.current == old(self)@.current,
    {
        if text::same(self.current_agent.as_str(), address) {
            if self.view.parent.is_none() {
                self.view.parent = parent;
                proof {
                    lemma_conv_only(old(self)@, self@);
                }
            }
            return;
        }
        if self.agents.find(address).is_some() {
            return;
        }
        proof {
            reveal(desk::agents_ok);
        }
        let ord: u64 = self.next_agent_ord;
        self.next_agent_ord = self.next_agent_ord.saturating_add(1);
        self.agents.insert(address.to_owned(), AgentConversation::empty(parent, status, ord));
        proof {
            let before = old(self)@;
            assert(self@.agents =~= before.agents.insert(
                address@,
                Conv::blank(text::opt_text(parent), status@, ord),
            ));
            assert forall|k: Seq<char>| #[trigger] self@.agents.dom().contains(
                k,
            ) implies self@.agents[k].wf() by {
                if k != address@ {
                    assert(before.agents.dom().contains(k));
                }
            }
        }
    }

    /// Whether the input is driving the agents drawer.
    pub fn agents_palette_open(&self) -> (r: bool)
        ensures
            r == self@.agents_open(),
    {
        let input = text::trimmed_start(self.input.text.as_str());
        text::same(input.as_str(), "/agents") || text::has_prefix(input.as_str(), "/agents ")
    }

    /// Whether the input is driving the session palette.
    pub fn session_palette_open(&self) -> (r: bool)
        ensures
            r == self@.session_open(),
    {
        let input = text::trimmed_start(self.input.text.as_str());
        text::same(input.as_str(), "/session") || text::has_prefix(input.as_str(), "/session ")
    }

    /// The agents as a tree in depth-first order, siblings newest first.
    pub fn agent_addresses(&self) -> (r: Vec<String>)
        requires
            self.wf(),
        ensures
            text::texts(r@) == self@.addresses(),
    {
        agent_order(&self.agents, self.current_agent.as_str(), &self.view)
    }

    /// Whether an agent has a live run.
    pub fn agent_is_running(&self, address: &str) -> (r: bool)
        requires
            self.wf(),
        ensures
            r == self@.is_running(address@),
    {
        if text::same(address, "/root") {
            return self.root_run_active;
        }
        if text::same(address, self.current_agent.as_str()) {
            return self.view.run_active;
        }
        match self.agents.find(address) {
            Some(i) => self.agents.slots[i].conversation.run_active,
            None => false,
        }
    }

    /// Agents with a live run, in lexical address order.
    pub fn running_agent_addresses(&self) -> (r: Vec<String>)
        requires
            self.wf(),
        ensures
            text::texts(r@) == self@.running_agents(),
            self@.lists_running(text::texts(r@)),
    {
        let mut r: Vec<String> = Vec::new();
        let mut i: usize = 0;
        let ghost slots = self.agents.slots@;
        proof {
            reveal(desk::agents_ok);
            agents::lemma_table(slots);
            assert(text::texts(r@) =~= Seq::empty());
        }
        if self.agent_is_running(self.current_agent.as_str()) {
            insert_in_order(&mut r, self.current_agent.as_str());
        }
        while i < self.agents.slots.len()
            invariant
                self.wf(),
                slots == self.agents.slots@,
                i <= slots.len(),
                agents::in_order(text::texts(r@)),
                forall|k: Seq<char>| #[trigger]
                    text::texts(r@).contains(k) <==> self@.is_running(k) && (k == self@.current || (
                    exists|j: int| 0 <= j < i && (#[trigger] slots[j]).address@ == k)),
            decreases slots.len() - i,
        {
            let ghost before = text::texts(r@);
            let ghost here = slots[i as int].address@;
            proof {
                agents::lemma_lookup(slots, i as int);
            }
            if !text::same(
                self.agents.slots[i].address.as_str(),
                self.current_agent.as_str(),
            ) && self.agent_is_running(self.agents.slots[i].address.as_str()) {
                insert_in_order(&mut r, self.agents.slots[i].address.as_str());
            }
            i += 1;
            proof {
                let after = text::texts(r@);
                assert(slots[i - 1].address@ == here);
                assert forall|k: Seq<char>| #[trigger]
                    after.contains(k) <==> self@.is_running(k) && (k == self@.current || (
                    exists|j: int| 0 <= j < i && (#[trigger] slots[j]).address@ == k)) by {
                    assert(before.contains(k) <==> self@.is_running(k) && (k == self@.current || (
                    exists|j: int| 0 <= j < i - 1 && (#[trigger] slots[j]).address@ == k)));
                    if exists|j: int| 0 <= j < i && (#[trigger] slots[j]).address@ == k {
                        let j = choose|j: int| 0 <= j < i && (#[trigger] slots[j]).address@ == k;
                        if j == i - 1 {
                            assert(k == here);
                        } else {
                            assert(slots[j].address@ == k);
                        }
                    }
                }
            }
        }
        proof {
            agents::lemma_table(slots);
            let s = text::texts(r@);
            assert(self@.lists_running(s));
            agents::lemma_in_order_unique(s, self@.running_agents());
        }
        r
    }

    /// Live runs other than the agent being viewed.
    pub fn other_running_agents(&self) -> (r: Vec<String>)
        requires
            self.wf(),
        ensures
            text::texts(r@) == self@.others_running(),
    {
        let list = self.running_agent_addresses();
        let mut r: Vec<String> = Vec::new();
        let mut i: usize = 0;
        proof {
            assert(text::texts(r@) =~= Seq::empty());
        }
        while i < list.len()
            invariant
                i <= list@.len(),
                text::texts(list@) == self@.running_agents(),
                text::texts(r@) == desk::elsewhere(self@.running_agents(), i as int, self@.current),
            decreases list@.len() - i,
        {
            proof {
                assert(text::texts(list@)[i as int] == list@[i as int]@);
            }
            if !text::same(list[i].as_str(), self.current_agent.as_str()) {
                let ghost before = text::texts(r@);
                r.push(list[i].clone());
                proof {
                    assert(text::texts(r@) =~= before.push(list@[i as int]@));
                }
            }
            i += 1;
        }
        r
    }

    /// Whether the collapsed agents strip is shown.
    pub fn agents_collapsed_visible(&self) -> (r: bool)
        requires
            self.wf(),
        ensures
            r == self@.collapsed_visible(),
    {
        let others = self.other_running_agents();
        proof {
            assert(text::texts(others@).len() == others@.len());
        }
        !self.agents_palette_open() && others.len() > 0
    }

    /// Whether any agents surface is painted above the message shelf.
    pub fn agents_drawer_visible(&self) -> (r: bool)
        requires
            self.wf(),
        ensures
            r == (self@.collapsed_visible() || self@.agents_open()),
    {
        self.agents_collapsed_visible() || self.agents_palette_open()
    }

    /// Whether a visible agents surface needs a spinner.
    pub fn agents_drawer_animates(&self) -> (r: bool)
        requires
            self.wf(),
        ensures
            r == self@.drawer_animates(),
    {
        let running = self.running_agent_addresses();
        proof {
            assert(text::texts(running@).len() == running@.len());
        }
        self.agents_drawer_visible() && running.len() > 0
    }

    /// One line about the agents that work elsewhere.
    pub fn agents_collapsed_summary(&self, width: usize) -> (r: String)
        requires
            self.wf(),
        ensures
            r@ == self@.collapsed_summary(width as int),
    {
        let running = self.other_running_agents();
        proof {
            assert(text::texts(running@).len() == running@.len());
        }
        let noun = if running.len() == 1 {
            "agent"
        } else {
            "agents"
        };
        let mut line = text::decimal_text(running.len() as u64);
        line.append(" ");
        line.append(noun);
        line.append(" running");
        if width <= line.as_str().as_bytes().len() {
            return elide_end_plain(line.as_str(), width);
        }
        if running.len() == 0 {
            return line;
        }
        line.append(" · ");
        let mut i: usize = 0;
        while i < running.len()
            invariant
                i <= running@.len(),
                width > 0,
                self@.collapsed_summary(width as int) == desk::named(
                    text::texts(running@),
                    i as int,
                    line@,
                    width as int,
                ),
                text::texts(running@).len() == running@.len(),
            decreases running@.len() - i,
        {
            let name = text::tail_after(running[i].as_str(), '/');
            let piece = if i == 0 {
                name
            } else {
                text::concat(", ", name.as_str())
            };
            let used: usize = line.as_str().as_bytes().len();
            let more: usize = piece.as_str().as_bytes().len();
            if used > width - 1 || more > width - 1 - used {
                return ellipsize(line, width);
            }
            line.append(piece.as_str());
            i += 1;
        }
        line
    }

    /// Status and model of an agent as the drawer shows them.
    pub fn agent_detail(&self, address: &str) -> (r: String)
        requires
            self.wf(),
        ensures
            r@ == self@.agent_detail(address@),
    {
        let known: Option<&AgentConversation> = if text::same(
            address,
            self.current_agent.as_str(),
        ) {
            Some(&self.view)
        } else {
            match self.agents.find(address) {
                Some(i) => Some(&self.agents.slots[i].conversation),
                None => None,
            }
        };
        match known {
            None => "unknown".to_owned(),
            Some(c) => {
                let model: Option<String> = if text::same(address, "/root") {
                    Some(self.models[self.selected_model].registry_id.clone())
                } else {
                    copy_opt(&c.model)
                };
                match model {
                    Some(model) => text::concat3(c.status.as_str(), " · ", model.as_str()),
                    None => c.status.clone(),
                }
            },
        }
    }

    /// The status of an agent.
    pub fn agent_status(&self, address: &str) -> (r: String)
        requires
            self.wf(),
        ensures
            r@ == if self@.knows(address@) {
                self@.all()[address@].status
            } else {
                "Unknown"@
            },
    {
        if text::same(address, self.current_agent.as_str()) {
            return self.view.status.clone();
        }
        match self.agents.find(address) {
            Some(i) => self.agents.slots[i].conversation.status.clone(),
            None => "Unknown".to_owned(),
        }
    }

    /// The model the user picked for the root agent.
    pub fn selected_model(&self) -> (r: &ModelChoice)
        requires
            self.wf(),
        ensures
            *r == self@.models[self@.selected_model],
    {
        &self.models[self.selected_model]
    }

    /// The id of the model that drives the viewed agent.
    pub fn current_agent_model(&self) -> (r: Option<String>)
        requires
            self.wf(),
        ensures
            text::opt_text(r) == (if self@.current == desk::root() {
                Some(self@.models[self@.selected_model].registry_id@)
            } else {
                self@.conv.model
            }),
    {
        if text::same(self.current_agent.as_str(), "/root") {
            Some(self.models[self.selected_model].registry_id.clone())
        } else {
            copy_opt(&self.view.model)
        }
    }

    /// The effort the viewed agent's model runs with, when it is a configured
    /// model.
    pub fn current_agent_effort(&self) -> (r: Option<String>)
        requires
            self.wf(),
        ensures
            text::opt_text(r) == ({
                let index = if self@.current == desk::root() {
                    Some(self@.selected_model)
                } else if self@.conv.model is Some {
                    desk::model_index(self@.models, 0, self@.conv.model->0)
                } else {
                    None
                };
                match index {
                    Some(i) => Some(self@.models[i].efforts@[self@.efforts[i] as int]@),
                    None => None,
                }
            }),
    {
        let index: Option<usize> = if text::same(self.current_agent.as_str(), "/root") {
            Some(self.selected_model)
        } else {
            match &self.view.model {
                Some(model) => find_model(&self.models, model.as_str()),
                None => None,
            }
        };
        match index {
            Some(i) => {
                proof {
                    reveal(desk::efforts_ok);
                    assert(self@.efforts[i as int] < self@.models[i as int].efforts@.len());
                }
                Some(self.models[i].efforts[self.selected_efforts[i]].clone())
            },
            None => None,
        }
    }

    /// Context window of the model driving the viewed agent, when known.
    pub fn context_window_tokens(&self) -> (r: Option<u64>)
        requires
            self.wf(),
        ensures
            r == ({
                let id = if self@.current == desk::root() {
                    Some(self@.models[self@.selected_model].registry_id@)
                } else {
                    self@.conv.model
                };
                let found = match id {
                    Some(id) => desk::model_index(self@.models, 0, id),
                    None => None,
                };
                let window = match found {
                    Some(i) => self@.models[i].context_window,
                    None => self@.models[self@.selected_model].context_window,
                };
                if window > 0 {
                    Some(window)
                } else {
                    None
                }
            }),
    {
        let found: Option<usize> = match self.current_agent_model() {
            Some(id) => find_model(&self.models, id.as_str()),
            None => None,
        };
        let window: u64 = match found {
            Some(i) => self.models[i].context_window,
            None => self.models[self.selected_model].context_window,
        };
        if window > 0 {
            Some(window)
        } else {
            None
        }
    }

    /// The model and effort a fresh session starts with.
    pub fn runtime_preferences(&self) -> (r: RuntimePreferences)
        requires
            self.wf(),
        ensures
            r.model_id@ == self@.models[self@.selected_model].registry_id@,
            r.effort@ == self@.models[self@.selected_model].efforts@[
                self@.efforts[self@.selected_model] as int
            ]@,
    {
        proof {
            reveal(desk::efforts_ok);
            assert(self@.efforts[self@.selected_model]
                < self@.models[self@.selected_model].efforts@.len());
        }
        RuntimePreferences {
            model_id: self.models[self.selected_model].registry_id.clone(),
            effort: self.models[self.selected_model].efforts[
                self.selected_efforts[self.selected_model]
            ].clone(),
        }
    }

    /// An empty input, nothing recalled, the first palette row highlighted.
    pub(crate) fn clear_input(&mut self)
        ensures
            final(self)@ == old(self)@.cleared(),
            old(self).wf() ==> final(self).wf(),
    {
        self.input = InputBuffer::empty();
        self.input_history = None;
        self.suggestion_index = 0;
    }

    /// Puts `s` into the input with the cursor behind it.
    pub(crate) fn type_text(&mut self, s: String)
        ensures
            final(self)@ == old(self)@.typed(s@),
            old(self).wf() ==> final(self).wf(),
    {
        self.input = InputBuffer::at_end(s);
        self.input_history = None;
        self.suggestion_index = 0;
    }

    /// Focuses the input and opens the agents drawer.
    pub fn open_agents_drawer(&mut self)
        ensures
            final(self)@ == old(self)@.open_drawer(),
            old(self).wf() ==> final(self).wf(),
    {
        self.focus = Focus::Input;
        self.type_text("/agents ".to_owned());
    }

    /// Focuses the input and opens the palette of models.
    pub fn open_model_picker(&mut self)
        ensures
            final(self)@ == old(self)@.open_models(),
            old(self).wf() ==> final(self).wf(),
    {
        self.focus = Focus::Input;
        self.type_text("/model ".to_owned());
    }
}

/// The text ended by an ellipsis within `width` bytes.
fn ellipsize(line: String, width: usize) -> (r: String)
    requires
        width > 0,
    ensures
        r@ == desk::ellipsized(line@, width as int),
{
    if text::has_suffix(line.as_str(), "…") {
        return line;
    }
    let mut chars = text::chars_of(line.as_str());
    let mut cut = line;
    while chars.len() > 0 && cut.as_str().as_bytes().len() >= width
        invariant
            chars@ == cut@,
            desk::shortened(line@, width as int) == desk::shortened(cut@, width as int),
        decreases chars@.len(),
    {
        chars.pop();
        cut = text::text_of(&chars, 0, chars.len());
        proof {
            assert(chars@.subrange(0, chars@.len() as int) =~= chars@);
        }
    }
    if text::has_suffix(cut.as_str(), "…") {
        return cut;
    }
    cut.append("…");
    cut
}

/// Changing only well-formed parts of the viewed conversation other than its
/// run flag keeps the invariant.
pub(crate) proof fn lemma_conv_only(a: Desk, b: Desk)
    requires
        b == (Desk { conv: b.conv, ..a }),
        a.conv.wf() ==> b.conv.wf(),
        b.conv.run_active == a.conv.run_active,
    ensures
        a.wf() ==> b.wf(),
{
}

} // verus!
