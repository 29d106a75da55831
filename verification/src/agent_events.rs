//! Agent events, journal folds and command results.

use crate::app;
use crate::app::{find_string, parent_address, App, PendingSteer};
use crate::conversation;
use crate::conversation::{Conv, EntryKind};
use crate::desk;
use crate::desk::{Desk, Focus, Steer};
use crate::events;
use crate::events::{is_streaming_event, outcome_address, run_event_id, AgentOutcome, AgentSystemEvent, ModelDelta, RunEvent, RuntimeEvent, StopReason};
use crate::history::{copy_opt, opt_is, CommandResult, FoldOutcome, SentMessage};
use crate::text;
use vstd::prelude::*;
use vstd::string::*;

verus! {

/// Whether two lists hold the same strings.
fn same_lists(a: &Vec<String>, b: &Vec<String>) -> (r: bool)
    ensures
        r == (text::texts(a@) == text::texts(b@)),
{
    proof {
        assert(text::texts(a@).len() == a@.len());
        assert(text::texts(b@).len() == b@.len());
    }
    if a.len() != b.len() {
        return false;
    }
    let mut i: usize = 0;
    while i < a.len()
        invariant
            a@.len() == b@.len(),
            i <= a@.len(),
            forall|k: int| 0 <= k < i ==> #[trigger] text::texts(a@)[k] == text::texts(b@)[k],
        decreases a@.len() - i,
    {
        if !text::same(a[i].as_str(), b[i].as_str()) {
            proof {
                assert(text::texts(a@)[i as int] != text::texts(b@)[i as int]);
            }
            return false;
        }
        i += 1;
    }
    proof {
        assert(text::texts(a@) =~= text::texts(b@));
    }
    true
}

/// Index of the first steer that awaits its receipt for `message`; any message
/// when none is given.
fn find_awaiting(steers: &Vec<PendingSteer>, message: Option<&str>) -> (r: Option<usize>)
    ensures
        conversation::opt_int(r) == desk::awaiting(
            app::steers_of(steers@),
            0,
            match message {
                Some(m) => Some(m@),
                None => None,
            },
        ),
        r matches Some(i) ==> i < steers@.len(),
{
    let ghost wanted = match message {
        Some(m) => Some(m@),
        None => None,
    };
    let mut i: usize = 0;
    while i < steers.len()
        invariant
            i <= steers@.len(),
            wanted == (match message {
                Some(m) => Some(m@),
                None => None,
            }),
            desk::awaiting(app::steers_of(steers@), 0, wanted) == desk::awaiting(
                app::steers_of(steers@),
                i as int,
                wanted,
            ),
        decreases steers@.len() - i,
    {
        proof {
            assert(app::steers_of(steers@)[i as int] == steers@[i as int]@);
        }
        if steers[i].message_id.is_none() && match message {
            Some(m) => text::same(steers[i].text.as_str(), m),
            None => true,
        } {
            return Some(i);
        }
        i += 1;
    }
    None
}

/// The steers whose identity is not among the consumed ones.
fn drop_consumed(steers: &Vec<PendingSteer>, consumed: &Vec<String>) -> (r: Vec<PendingSteer>)
    ensures
        app::steers_of(r@) == desk::undelivered(
            app::steers_of(steers@),
            text::texts(consumed@),
            steers@.len() as int,
        ),
{
    let mut r: Vec<PendingSteer> = Vec::new();
    let mut i: usize = 0;
    proof {
        assert(app::steers_of(r@) =~= Seq::empty());
    }
    while i < steers.len()
        invariant
            i <= steers@.len(),
            app::steers_of(r@) == desk::undelivered(
                app::steers_of(steers@),
                text::texts(consumed@),
                i as int,
            ),
        decreases steers@.len() - i,
    {
        proof {
            assert(app::steers_of(steers@)[i as int] == steers@[i as int]@);
        }
        let delivered = match &steers[i].message_id {
            Some(id) => conversation::holds(consumed, id.as_str()),
            None => false,
        };
        if !delivered {
            let ghost before = app::steers_of(r@);
            let steer = PendingSteer {
                message_id: copy_opt(&steers[i].message_id),
                text: steers[i].text.clone(),
            };
            let ghost value = steer@;
            r.push(steer);
            proof {
                assert(app::steers_of(r@) =~= before.push(value));
            }
        }
        i += 1;
    }
    r
}

impl App {
    /// A piece of a model response on the viewed agent.
    fn apply_model_delta(&mut self, address: &str, run: &str, delta: &ModelDelta)
        requires
            old(self).wf(),
        ensures
            final(self)@ == old(self)@.model_delta(address@, run@, *delta),
            final(self).wf(),
    {
        proof {
            reveal(Desk::model_delta);
        }
        let tail = self.focus == Focus::Input;
        match delta {
            ModelDelta::Text(s) => {
                if s.as_str().is_empty() {
                    return;
                }
                self.stream_text(EntryKind::Assistant, address, run, s.as_str());
                let status = text::concat(address, " is responding…");
                self.set_status(status.as_str());
            },
            ModelDelta::Reasoning(s) => {
                if s.as_str().is_empty() {
                    return;
                }
                self.stream_text(EntryKind::Reasoning, address, run, s.as_str());
                let status = text::concat(address, " is reasoning…");
                self.set_status(status.as_str());
            },
            ModelDelta::ToolCall(d) => {
                self.view.append_tool_delta(
                    address,
                    run,
                    d.index,
                    &d.name,
                    d.arguments.as_str(),
                    tail,
                );
                proof {
                    lemma_stream_keeps_run(old(self)@.conv, address@, run@);
                    app::lemma_conv_only(old(self)@, self@);
                }
                let status = text::concat(address, " is preparing a tool call…");
                self.set_status(status.as_str());
            },
        }
    }

    fn stream_text(&mut self, kind: EntryKind, address: &str, run: &str, s: &str)
        requires
            old(self).wf(),
        ensures
            final(self)@ == (Desk {
                conv: old(self)@.conv.append_delta(kind, address@, run@, s@, old(self)@.tail()),
                ..old(self)@
            }),
            final(self).wf(),
    {
        let tail = self.focus == Focus::Input;
        self.view.append_delta(kind, address, run, s, tail);
        proof {
            lemma_stream_keeps_run(old(self)@.conv, address@, run@);
            app::lemma_conv_only(old(self)@, self@);
        }
    }

    fn disarm_for(&mut self, address: &str)
        requires
            old(self).wf(),
        ensures
            final(self)@ == old(self)@.disarmed_for(address@),
            final(self).wf(),
    {
        if text::same(address, "/root") {
            self.interruption_deadline = None;
        }
    }

    fn set_agent_status(&mut self, address: &str, suffix: &str)
        requires
            old(self).wf(),
        ensures
            final(self)@ == old(self)@.with_status(address@ + suffix@),
            final(self).wf(),
    {
        let status = text::concat(address, suffix);
        self.set_status(status.as_str());
    }

    fn run_started(&mut self, address: &str)
        requires
            old(self).wf(),
        ensures
            final(self)@ == old(self)@.run_started(address@),
            final(self).wf(),
    {
        proof {
            reveal(Desk::run_started);
        }
        self.set_agent_status(address, " is working…");
        self.set_current_run_active(true);
        self.disarm_for(address);
    }

    fn run_completed(&mut self, address: &str, run: &str)
        requires
            old(self).wf(),
        ensures
            final(self)@ == old(self)@.run_completed(address@, run@),
            final(self).wf(),
    {
        proof {
            reveal(Desk::run_completed);
        }
        self.view.clear_streaming_run(run);
        proof {
            reveal(Conv::quiet);
            app::lemma_conv_only(old(self)@, self@);
        }
        self.set_status(
            if text::same(address, "/root") {
                "Ready"
            } else {
                "Complete"
            },
        );
        self.set_current_run_active(false);
        self.disarm_for(address);
    }

    fn run_failed(&mut self, address: &str, message: &str)
        requires
            old(self).wf(),
        ensures
            final(self)@ == old(self)@.run_failed(address@, message@),
            final(self).wf(),
    {
        proof {
            reveal(Desk::run_failed);
        }
        self.push_error("Run failed", message);
        self.set_current_run_active(false);
        self.disarm_for(address);
    }

    fn turn_started(&mut self, address: &str)
        requires
            old(self).wf(),
        ensures
            final(self)@ == old(self)@.turn_started(address@),
            final(self).wf(),
    {
        proof {
            reveal(Desk::turn_started);
        }
        self.view.overlay_turn = self.view.overlay_turn.saturating_add(1);
        proof {
            app::lemma_conv_only(old(self)@, self@);
        }
        self.set_agent_status(address, " is thinking…");
    }

    /// A run event on the viewed agent. Late streaming events of a run that is
    /// over change nothing.
    fn apply_run_event(&mut self, address: &str, event: &RunEvent)
        requires
            old(self).wf(),
        ensures
            final(self)@ == old(self)@.run_event(address@, *event),
            final(self).wf(),
    {
        proof {
            reveal(Desk::run_event);
        }
        if is_streaming_event(event) {
            if let Some(run) = run_event_id(event) {
                proof {
                    lemma_contains(text::texts(self.view.dead_runs@), run@);
                }
                if conversation::holds(&self.view.dead_runs, run.as_str()) {
                    return;
                }
            }
        }
        self.apply_live_event(address, event);
    }

    fn apply_live_event(&mut self, address: &str, event: &RunEvent)
        requires
            old(self).wf(),
        ensures
            final(self)@ == old(self)@.live_event(address@, *event),
            final(self).wf(),
    {
        proof {
            reveal(Desk::live_event);
        }
        match event {
            RunEvent::Started { .. } => self.run_started(address),
            RunEvent::MessagesDelivered { .. } => self.set_agent_status(address, " is working…"),
            RunEvent::ModelStarted { .. } => self.turn_started(address),
            RunEvent::ModelDelta { run_id, delta } => self.apply_model_delta(
                address,
                run_id.as_str(),
                delta,
            ),
            RunEvent::ModelCompleted { total_tokens, .. } => {
                self.view.context_tokens = *total_tokens;
                proof {
                    app::lemma_conv_only(old(self)@, self@);
                }
            },
            RunEvent::EvalStarted { .. } => self.set_agent_status(
                address,
                " is evaluating TypeScript…",
            ),
            RunEvent::EvalCompleted { .. } => self.set_agent_status(address, " finished eval"),
            RunEvent::CompactionStarted { .. } => self.set_agent_status(
                address,
                " is compacting context…",
            ),
            RunEvent::CompactionCompleted { .. } => self.set_agent_status(
                address,
                " compacted context",
            ),
            RunEvent::CompactionFailed { message, .. } => self.push_error(
                "Compaction failed",
                message.as_str(),
            ),
            RunEvent::Completed { run_id } => self.run_completed(address, run_id.as_str()),
            RunEvent::Failed { message } => self.run_failed(address, message.as_str()),
        }
    }

    fn apply_runtime_event(&mut self, address: &str, event: &RuntimeEvent)
        requires
            old(self).wf(),
        ensures
            final(self)@ == old(self)@.runtime_event(address@, *event),
            final(self).wf(),
    {
        proof {
            reveal(Desk::runtime_event);
        }
        match event {
            RuntimeEvent::RuntimeResumed => {
                let body = text::concat(address, " resumed with a fresh TypeScript isolate.");
                self.push_entry(EntryKind::System, "Runtime resumed", body.as_str());
            },
            RuntimeEvent::CompactionFailed { message } => {
                self.push_error("Compaction failed", message.as_str());
            },
            RuntimeEvent::CompactionStarted => {},
            RuntimeEvent::CompactionCompleted => {},
        }
    }

    fn apply_outcome(&mut self, outcome: &AgentOutcome)
        requires
            old(self).wf(),
        ensures
            final(self)@ == old(self)@.outcome(*outcome),
            final(self).wf(),
    {
        proof {
            reveal(Desk::outcome);
        }
        match outcome {
            AgentOutcome::Completed { .. } => {
                self.set_status("Complete");
            },
            AgentOutcome::Failed { address, error } => {
                let title = text::concat(address.as_str(), " failed");
                self.push_error(title.as_str(), error.as_str());
            },
            AgentOutcome::Cancelled { address, reason } => {
                if opt_is(reason, "the actor run was interrupted") {
                    self.set_status("Interrupted");
                } else {
                    let title = text::concat(address.as_str(), " cancelled");
                    match reason {
                        Some(reason) => {
                            self.push_error(title.as_str(), reason.as_str());
                        },
                        None => {
                            self.push_error(title.as_str(), "No reason was reported.");
                        },
                    }
                }
            },
        }
    }

    /// An agent event on the viewed agent.
    fn on_event(&mut self, event: &AgentSystemEvent)
        requires
            old(self).wf(),
        ensures
            final(self)@ == old(self)@.on_event(*event),
            final(self).wf(),
    {
        proof {
            reveal(Desk::on_event);
        }
        match event {
            AgentSystemEvent::Hosted { .. } => {
                self.set_status("Ready");
            },
            AgentSystemEvent::Retired { address, reason } => {
                self.set_current_run_active(false);
                match reason {
                    StopReason::Interrupted => {
                        self.set_status("Interrupted");
                    },
                    StopReason::Other(name) => {
                        let body = text::concat3(address.as_str(), ": ", name.as_str());
                        self.push_entry(EntryKind::System, "Agent stopped", body.as_str());
                        self.set_status("Stopped");
                    },
                }
            },
            AgentSystemEvent::Outcome { outcome } => {
                self.set_current_run_active(false);
                self.apply_outcome(outcome);
            },
            AgentSystemEvent::ActorRuntime { address, event } => {
                self.apply_runtime_event(address.as_str(), event);
            },
            AgentSystemEvent::Run { address, event } => {
                self.apply_run_event(address.as_str(), event);
            },
        }
    }

    /// Makes sure the agent of an event is known.
    fn introduce(&mut self, address: &str, event: &AgentSystemEvent)
        requires
            old(self).wf(),
            address@ == events::event_address(*event),
        ensures
            final(self)@ == old(self)@.introduce(*event),
            final(self).wf(),
    {
        proof {
            reveal(Desk::introduce);
        }
        match event {
            AgentSystemEvent::Hosted { parent, .. } => {
                self.ensure_agent(address, copy_opt(parent), "Starting…");
            },
            AgentSystemEvent::Retired { .. } => {
                self.ensure_agent(address, parent_address(address), "Stopped");
            },
            AgentSystemEvent::Outcome { .. } => {
                self.ensure_agent(address, parent_address(address), "Finishing…");
            },
            AgentSystemEvent::ActorRuntime { .. } => {
                self.ensure_agent(address, parent_address(address), "Working…");
            },
            AgentSystemEvent::Run { .. } => {
                self.ensure_agent(address, parent_address(address), "Working…");
            },
        }
    }

    /// Routes an agent event to its agent, whichever agent is viewed. Returns
    /// whether it changes what is on screen.
    pub fn apply_agent_event(&mut self, event: AgentSystemEvent) -> (r: bool)
        requires
            old(self).wf(),
        ensures
            final(self)@ == old(self)@.agent_event(event),
            r == old(self)@.event_shows(event),
            final(self).wf(),
    {
        let picker_open = self.agents_palette_open();
        let before = self.other_running_agents();
        let address: String = match &event {
            AgentSystemEvent::Hosted { address, .. } => address.clone(),
            AgentSystemEvent::Retired { address, .. } => address.clone(),
            AgentSystemEvent::Outcome { outcome } => outcome_address(outcome).clone(),
            AgentSystemEvent::ActorRuntime { address, .. } => address.clone(),
            AgentSystemEvent::Run { address, .. } => address.clone(),
        };
        let viewed = text::same(address.as_str(), self.current_agent.as_str());
        self.route_event(address.as_str(), &event);
        let after = self.other_running_agents();
        picker_open || viewed || !same_lists(&before, &after) || self.agents_collapsed_visible()
    }

    /// Routes an event to its agent, whichever agent is viewed.
    fn route_event(&mut self, address: &str, event: &AgentSystemEvent)
        requires
            old(self).wf(),
            address@ == events::event_address(*event),
        ensures
            final(self)@ == old(self)@.agent_event(*event),
            final(self).wf(),
    {
        proof {
            reveal(Desk::agent_event);
        }
        let viewed = self.current_agent.clone();
        self.introduce(address, event);
        self.switch_agent(address);
        self.on_event(event);
        self.switch_agent(viewed.as_str());
    }

    /// Applies one incremental journal fold to the owning agent's view.
    /// Returns whether it changes what is on screen.
    pub fn apply_fold(&mut self, address: &str, outcome: FoldOutcome) -> (r: bool)
        requires
            old(self).wf(),
        ensures
            final(self)@ == old(self)@.fold(address@, outcome@),
            r == old(self)@.fold_shows(address@, outcome@),
            final(self).wf(),
    {
        proof {
            assert(crate::history::run_rows(outcome.rows@).len() == outcome.rows@.len());
        }
        let before = self.other_running_agents();
        let affected = outcome.rows.len() > 0 && text::same(
            address,
            self.current_agent.as_str(),
        );
        self.route_fold(address, &outcome);
        let after = self.other_running_agents();
        affected || self.agents_palette_open() || !same_lists(&before, &after)
            || self.agents_collapsed_visible()
    }

    /// Routes a fold to the owning agent, whichever agent is viewed.
    fn route_fold(&mut self, address: &str, outcome: &FoldOutcome)
        requires
            old(self).wf(),
        ensures
            final(self)@ == old(self)@.fold(address@, outcome@),
            final(self).wf(),
    {
        proof {
            reveal(Desk::fold);
        }
        let viewed = self.current_agent.clone();
        self.settle_steers(address, outcome);
        self.ensure_agent(address, parent_address(address), "Working…");
        self.switch_agent(address);
        self.set_current_run_active(outcome.active_run.is_some());
        self.fold_view(address, outcome);
        self.switch_agent(viewed.as_str());
    }

    /// Drops the steers a fold of the root reports as consumed.
    fn settle_steers(&mut self, address: &str, outcome: &FoldOutcome)
        requires
            old(self).wf(),
        ensures
            final(self)@ == (Desk {
                steers: if address@ == desk::root() && outcome@.consumed.len() > 0 {
                    desk::undelivered(
                        old(self)@.steers,
                        outcome@.consumed,
                        old(self)@.steers.len() as int,
                    )
                } else {
                    old(self)@.steers
                },
                ..old(self)@
            }),
            final(self).wf(),
    {
        proof {
            assert(text::texts(outcome.consumed_message_ids@).len()
                == outcome.consumed_message_ids@.len());
        }
        if text::same(address, "/root") && outcome.consumed_message_ids.len() > 0 {
            self.pending_steers = drop_consumed(
                &self.pending_steers,
                &outcome.consumed_message_ids,
            );
        }
    }

    fn fold_view(&mut self, address: &str, outcome: &FoldOutcome)
        requires
            old(self).wf(),
        ensures
            final(self)@ == (Desk {
                conv: old(self)@.conv.apply_fold(address@, outcome@, old(self)@.tail()),
                ..old(self)@
            }),
            final(self).wf(),
    {
        let tail = self.focus == Focus::Input;
        self.view.apply_fold(address, outcome, tail);
        proof {
            lemma_fold_keeps_run(old(self)@.conv, address@, outcome@, tail);
            app::lemma_conv_only(old(self)@, self@);
        }
    }

    /// Reports a failed transcript fold.
    pub fn fold_failed(&mut self, address: &str, error: &str)
        requires
            old(self).wf(),
        ensures
            final(self)@ == old(self)@.push_error(
                "Transcript sync failed for "@ + address@,
                error@,
            ),
            final(self).wf(),
    {
        let title = text::concat("Transcript sync failed for ", address);
        self.push_error(title.as_str(), error);
    }

    /// Registers the durable receipt for a sent message. `consumed` tells
    /// whether the message is already part of the context, so that nothing is
    /// pending.
    pub fn apply_message_receipt(&mut self, sent: SentMessage, consumed: bool)
        requires
            old(self).wf(),
        ensures
            final(self)@ == old(self)@.receipt(sent.message_id@, sent.text@, consumed),
            final(self).wf(),
    {
        proof {
            reveal(Desk::receipt);
        }
        let ghost before = app::steers_of(self.pending_steers@);
        match find_awaiting(&self.pending_steers, Some(sent.text.as_str())) {
            Some(i) => {
                if consumed {
                    self.pending_steers.remove(i);
                    proof {
                        assert(app::steers_of(self.pending_steers@) =~= before.remove(i as int));
                    }
                } else {
                    self.pending_steers[i].message_id = Some(sent.message_id.clone());
                    proof {
                        assert(app::steers_of(self.pending_steers@) =~= before.update(
                            i as int,
                            Steer {
                                id: Some(sent.message_id@),
                                text: before[i as int].text,
                            },
                        ));
                    }
                }
            },
            None => {
                if !consumed {
                    self.pending_steers.push(
                        PendingSteer {
                            message_id: Some(sent.message_id.clone()),
                            text: sent.text.clone(),
                        },
                    );
                    proof {
                        assert(app::steers_of(self.pending_steers@) =~= before.push(
                            Steer { id: Some(sent.message_id@), text: sent.text@ },
                        ));
                    }
                }
            },
        }
        let viewed = self.current_agent.clone();
        self.switch_agent("/root");
        if self.root_run_active {
            self.set_status("Message queued — delivered at the next boundary");
        }
        self.switch_agent(viewed.as_str());
    }

    /// A rejected send removes the queued row and restores the draft so the
    /// user's text is never lost.
    pub fn apply_message_error(&mut self, error: &str)
        requires
            old(self).wf(),
        ensures
            final(self)@ == old(self)@.rejected(error@),
            final(self).wf(),
    {
        proof {
            reveal(Desk::rejected);
        }
        let ghost before = app::steers_of(self.pending_steers@);
        if let Some(i) = find_awaiting(&self.pending_steers, None) {
            proof {
                assert(before[i as int] == self.pending_steers@[i as int]@);
            }
            let steer = self.pending_steers.remove(i);
            proof {
                assert(app::steers_of(self.pending_steers@) =~= before.remove(i as int));
            }
            self.type_text(steer.text);
        }
        self.push_error("Could not send message", error);
    }

    /// The answer to an interruption.
    pub fn apply_interrupt_result(&mut self, result: &Result<bool, String>)
        requires
            old(self).wf(),
        ensures
            final(self)@ == old(self)@.interrupt_result(*result),
            final(self).wf(),
    {
        proof {
            reveal(Desk::interrupt_result);
        }
        self.interruption_in_progress = false;
        self.interruption_deadline = None;
        self.recompute_busy();
        match result {
            Ok(_) => {
                let viewed = self.current_agent.clone();
                self.switch_agent("/root");
                self.set_status(
                    if self.root_run_active {
                        "/root is working…"
                    } else {
                        "Ready"
                    },
                );
                self.switch_agent(viewed.as_str());
            },
            Err(error) => {
                self.push_error("Could not stop run", error.as_str());
            },
        }
    }

    fn command_done(&mut self, title: &str, message: &str)
        requires
            old(self).wf(),
        ensures
            final(self)@ == old(self)@.done(title@, message@),
            final(self).wf(),
    {
        self.push_entry(EntryKind::System, title, message);
        self.set_status("Ready");
    }

    fn command_failed(&mut self, title: &str, error: &str)
        requires
            old(self).wf(),
        ensures
            final(self)@ == old(self)@.finish_command().push_error(title@, error@),
            final(self).wf(),
    {
        self.finish_command();
        self.push_error(title, error);
    }

    fn model_switched(&mut self, index: usize, message: &str)
        requires
            old(self).wf(),
            index < old(self)@.models.len(),
        ensures
            final(self)@ == ({
                let d = old(self)@.finish_command();
                Desk {
                    selected_model: index as int,
                    conv: Conv {
                        model: Some(old(self)@.models[index as int].registry_id@),
                        ..d.conv
                    },
                    ..d
                }.done("Model"@, message@)
            }),
            final(self).wf(),
    {
        self.finish_command();
        self.selected_model = index;
        self.view.model = Some(self.models[index].registry_id.clone());
        self.command_done("Model", message);
    }

    fn effort_set(&mut self, index: usize, effort: &str, message: &str)
        requires
            old(self).wf(),
            index < old(self)@.models.len(),
            desk::string_index(
                text::texts(old(self)@.models[index as int].efforts@),
                0,
                effort@,
            ) is Some,
        ensures
            final(self)@ == ({
                let d = old(self)@.finish_command();
                let chosen = desk::string_index(
                    text::texts(old(self)@.models[index as int].efforts@),
                    0,
                    effort@,
                )->0;
                Desk { efforts: d.efforts.update(index as int, chosen as usize), ..d }.done(
                    "Effort"@,
                    message@,
                )
            }),
            final(self).wf(),
    {
        self.finish_command();
        proof {
            reveal(desk::efforts_ok);
        }
        if let Some(chosen) = find_string(&self.models[index].efforts, effort) {
            self.selected_efforts[index] = chosen;
            proof {
                assert(self@.efforts =~= old(self)@.efforts.update(index as int, chosen));
            }
        }
        self.command_done("Effort", message);
    }

    /// A command result on the root agent.
    #[verifier::rlimit(40)]
    fn on_result(&mut self, result: CommandResult)
        requires
            old(self).wf(),
            old(self)@.answers(result),
        ensures
            final(self)@ == old(self)@.on_result(result),
            final(self).wf(),
    {
        proof {
            reveal(Desk::on_result);
        }
        match result {
            CommandResult::Message(Ok(sent)) => {
                self.apply_message_receipt(sent, false);
            },
            CommandResult::Message(Err(error)) => {
                self.apply_message_error(error.as_str());
            },
            CommandResult::Interrupt(result) => {
                self.apply_interrupt_result(&result);
            },
            CommandResult::Compact(Ok(message)) => {
                self.finish_command();
                self.command_done("Compact", message.as_str());
            },
            CommandResult::Compact(Err(error)) => {
                self.command_failed("Compaction failed", error.as_str());
            },
            CommandResult::SwitchModel { index, result: Ok(message) } => {
                self.model_switched(index, message.as_str());
            },
            CommandResult::SwitchModel { index: _, result: Err(error) } => {
                self.command_failed("Model switch failed", error.as_str());
            },
            CommandResult::SetEffort { index, effort, result: Ok(message) } => {
                self.effort_set(index, effort.as_str(), message.as_str());
            },
            CommandResult::SetEffort { index: _, effort: _, result: Err(error) } => {
                self.command_failed("Effort switch failed", error.as_str());
            },
        }
    }

    /// Applies the result of a command, whichever agent is viewed.
    pub fn apply_command_result(&mut self, result: CommandResult)
        requires
            old(self).wf(),
            old(self)@.answers(result),
        ensures
            final(self)@ == old(self)@.command_result(result),
            final(self).wf(),
    {
        proof {
            reveal(Desk::command_result);
            reveal(Desk::switch);
        }
        let viewed = self.current_agent.clone();
        self.switch_agent("/root");
        self.on_result(result);
        self.switch_agent(viewed.as_str());
    }

    /// A session change that failed.
    pub fn session_change_failed(&mut self, error: &str)
        requires
            old(self).wf(),
        ensures
            final(self)@ == old(self)@.finish_command().push_error(
                "Session change failed"@,
                error@,
            ),
            final(self).wf(),
    {
        self.command_failed("Session change failed", error);
    }

    /// Confirms a session dropped from the catalog while another stays open.
    pub fn session_deleted(&mut self, id: u64)
        requires
            old(self).wf(),
        ensures
            final(self)@ == old(self)@.with_status(
                "Deleted session #"@ + text::decimal(id as nat),
            ),
            final(self).wf(),
    {
        let number = text::decimal_text(id);
        let status = text::concat("Deleted session #", number.as_str());
        self.set_status(status.as_str());
    }

    /// Confirms a replaced session: the status names both halves of the
    /// exchange.
    pub fn session_replaced(&mut self, deleted: u64)
        requires
            old(self).wf(),
        ensures
            final(self)@ == old(self)@.with_status(
                "Deleted session #"@ + text::decimal(deleted as nat) + "; started #"@
                    + text::decimal(old(self)@.session_id as nat),
            ),
            final(self).wf(),
    {
        let old_number = text::decimal_text(deleted);
        let new_number = text::decimal_text(self.session_id);
        let mut status = text::concat3("Deleted session #", old_number.as_str(), "; started #");
        status.append(new_number.as_str());
        self.set_status(status.as_str());
    }
}

proof fn lemma_contains(list: Seq<Seq<char>>, s: Seq<char>)
    ensures
        list.contains(s) == list.to_set().contains(s),
{
}

/// Streaming changes neither a run flag nor the pinned rows.
proof fn lemma_stream_keeps_run(c: Conv, address: Seq<char>, run: Seq<char>)
    ensures
        forall|kind: EntryKind, s: Seq<char>, tail: bool| #[trigger]
            c.append_delta(kind, address, run, s, tail).run_active == c.run_active,
        forall|piece: conversation::CallPiece, tail: bool| #[trigger]
            c.append_tool_delta(address, run, piece, tail).run_active == c.run_active,
{
    reveal(Conv::append_delta);
    reveal(Conv::append_tool_delta);
    reveal(Conv::quiet);
}

/// A fold does not change the run flag.
pub proof fn lemma_fold_keeps_run(
    c: Conv,
    owner: Seq<char>,
    fold: crate::history::Fold,
    tail: bool,
)
    ensures
        c.apply_fold(owner, fold, tail).run_active == c.run_active,
{
    reveal(Conv::apply_fold);
    reveal(Conv::follow_active);
    reveal(Conv::quiet);
    let known = Conv {
        context_tokens: if fold.context_tokens is Some {
            fold.context_tokens
        } else {
            c.context_tokens
        },
        model: if fold.selected_model is Some {
            fold.selected_model
        } else {
            c.model
        },
        ..c
    };
    lemma_rows_keep_run(known, owner, fold.rows, fold.rows.len() as int, tail);
    let a = known.commit_rows(owner, fold.rows, fold.rows.len() as int, tail);
    lemma_pops_keep_run(a, fold.model_turns, fold.model_turns.len() as int);
    let b = a.pop_turns(fold.model_turns, fold.model_turns.len() as int);
    lemma_burials_keep_run(b, fold.dead_runs, fold.dead_runs.len() as int);
}

proof fn lemma_rows_keep_run(
    c: Conv,
    owner: Seq<char>,
    rows: Seq<crate::history::RunRow>,
    n: int,
    tail: bool,
)
    ensures
        c.commit_rows(owner, rows, n, tail).run_active == c.run_active,
    decreases n,
{
    if n > 0 {
        lemma_rows_keep_run(c, owner, rows, n - 1, tail);
        reveal(Conv::pin);
    }
}

proof fn lemma_retire_keeps_run(c: Conv, i: int, run: Seq<char>, turn: Option<u64>)
    ensures
        c.retire_from(i, run, turn).run_active == c.run_active,
    decreases c.entries.len() - i,
{
    if 0 <= i < c.entries.len() {
        if conversation::retires(c.entries[i], run, turn) {
            lemma_retire_keeps_run(c.remove(i), i, run, turn);
        } else {
            lemma_retire_keeps_run(c, i + 1, run, turn);
        }
    }
}

proof fn lemma_pops_keep_run(c: Conv, runs: Seq<Seq<char>>, n: int)
    ensures
        c.pop_turns(runs, n).run_active == c.run_active,
    decreases n,
{
    if n > 0 {
        lemma_pops_keep_run(c, runs, n - 1);
        let b = c.pop_turns(runs, n - 1);
        match conversation::oldest_turn(b.entries, b.committed, runs[n - 1]) {
            Some(turn) => lemma_retire_keeps_run(b, b.committed, runs[n - 1], Some(turn)),
            None => {},
        }
    }
}

proof fn lemma_burials_keep_run(c: Conv, runs: Seq<Seq<char>>, n: int)
    ensures
        c.bury_all(runs, n).run_active == c.run_active,
    decreases n,
{
    if n > 0 {
        lemma_burials_keep_run(c, runs, n - 1);
        reveal(Conv::quiet);
        let b = c.bury_all(runs, n - 1);
        lemma_retire_keeps_run(b, b.committed, runs[n - 1], None);
    }
}

} // verus!
