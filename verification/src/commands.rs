//! Submitting the input: messages and slash commands.

use crate::app;
use crate::app::{find_model, find_string, App, PendingSteer, SessionChoice};
use crate::desk::{Desk, SessionItem, Steer};
use crate::desk;
use crate::history;
use crate::history::{Command, Request};
use crate::input::InputBuffer;
use crate::text;
use vstd::prelude::*;
use vstd::string::*;

verus! {

/// Gives the first session with this id and no preview `s` as its preview.
fn record_preview(sessions: &mut Vec<SessionChoice>, id: u64, s: &str)
    ensures
        app::sessions_of(final(sessions)@) == Desk::previewed(app::sessions_of(old(sessions)@), 0, id, s@),
{
    let mut i: usize = 0;
    while i < sessions.len()
        invariant
            i <= sessions@.len(),
            *sessions == *old(sessions),
            Desk::previewed(app::sessions_of(old(sessions)@), 0, id, s@) == Desk::previewed(
                app::sessions_of(sessions@),
                i as int,
                id,
                s@,
            ),
        decreases sessions@.len() - i,
    {
        proof {
            assert(app::sessions_of(sessions@)[i as int] == sessions@[i as int]@);
        }
        if sessions[i].id == id && sessions[i].preview.is_none() {
            let ghost before = app::sessions_of(sessions@);
            sessions[i].preview = Some(s.to_owned());
            proof {
                assert(app::sessions_of(sessions@) =~= before.update(
                    i as int,
                    SessionItem { preview: Some(s@), ..before[i as int] },
                ));
            }
            return;
        }
        i += 1;
    }
}

impl App {
    /// Sets the root's status, whichever agent is viewed.
    pub(crate) fn set_root_status(&mut self, status: &str)
        requires
            old(self).wf(),
        ensures
            final(self)@ == old(self)@.root_status(status@),
            final(self).wf(),
    {
        proof {
            reveal(Desk::root_status);
        }
        let viewed = self.current_agent.clone();
        self.switch_agent("/root");
        self.set_status(status);
        self.switch_agent(viewed.as_str());
    }

    /// Queues a message and returns the command that sends it.
    fn send_message(&mut self, message: String) -> (r: Option<Command>)
        requires
            old(self).wf(),
        ensures
            final(self)@ == old(self)@.send(message@),
            history::request(r) == Some(Request::Message(message@)),
            final(self).wf(),
    {
        proof {
            reveal(Desk::send);
        }
        self.clear_input();
        let id: u64 = self.session_id;
        record_preview(&mut self.sessions, id, message.as_str());
        self.set_root_status("Sending…");
        let ghost before = app::steers_of(self.pending_steers@);
        self.pending_steers.push(PendingSteer { message_id: None, text: message.clone() });
        proof {
            assert(app::steers_of(self.pending_steers@) =~= before.push(
                Steer { id: None, text: message@ },
            ));
        }
        Some(Command::Message(message))
    }

    fn has_session(&self, id: u64) -> (r: bool)
        ensures
            r == exists|i: int|
                0 <= i < self@.sessions.len() && (#[trigger] self@.sessions[i]).id == id,
    {
        let mut i: usize = 0;
        while i < self.sessions.len()
            invariant
                i <= self.sessions@.len(),
                forall|k: int| 0 <= k < i ==> (#[trigger] self@.sessions[k]).id != id,
            decreases self.sessions@.len() - i,
        {
            proof {
                assert(self@.sessions[i as int] == self.sessions@[i as int]@);
            }
            if self.sessions[i].id == id {
                return true;
            }
            i += 1;
        }
        false
    }

    /// `/session` with an argument.
    fn load_session(&mut self, input: &str) -> (r: Option<Command>)
        requires
            old(self).wf(),
        ensures
            (final(self)@, history::request(r)) == old(self)@.load_session(input@),
            final(self).wf(),
    {
        proof {
            reveal(Desk::load_session);
        }
        let rest = text::without_all(input, "/session ");
        let trimmed = text::trimmed(rest.as_str());
        let id_text = text::without_leading(trimmed.as_str(), '#');
        match text::parse_u64(id_text.as_str()) {
            None => {
                let body = text::concat3(
                    "No session in this directory matches `",
                    id_text.as_str(),
                    "`.",
                );
                self.push_error("Unknown session", body.as_str());
                None
            },
            Some(id) => {
                let number = text::decimal_text(id);
                if !self.has_session(id) {
                    let body = text::concat3(
                        "No session in this directory matches `#",
                        number.as_str(),
                        "`.",
                    );
                    self.push_error("Unknown session", body.as_str());
                    return None;
                }
                if id == self.session_id {
                    let status = text::concat("Already using session #", number.as_str());
                    self.set_status(status.as_str());
                    return None;
                }
                let status = text::concat3("Loading session #", number.as_str(), "…");
                self.begin_command(status.as_str());
                Some(Command::LoadSession(id))
            },
        }
    }

    /// `/effort` with an argument.
    fn choose_effort(&mut self, input: &str) -> (r: Option<Command>)
        requires
            old(self).wf(),
        ensures
            (final(self)@, history::request(r)) == old(self)@.set_effort(input@),
            final(self).wf(),
    {
        proof {
            reveal(Desk::set_effort);
        }
        let rest = text::without_all(input, "/effort ");
        let effort = text::trimmed(rest.as_str());
        let index: usize = self.selected_model;
        proof {
            reveal(desk::efforts_ok);
        }
        match find_string(&self.models[index].efforts, effort.as_str()) {
            None => {
                let mut body = text::concat3("`", effort.as_str(), "` is not supported by ");
                body.append(self.models[index].display_name.as_str());
                body.append(".");
                self.push_error("Unknown effort", body.as_str());
                None
            },
            Some(chosen) => {
                if self.selected_efforts[index] == chosen {
                    let status = text::concat3(
                        "Already using ",
                        effort.as_str(),
                        " reasoning effort",
                    );
                    self.set_status(status.as_str());
                    return None;
                }
                let status = text::concat3(
                    "Switching reasoning effort to ",
                    effort.as_str(),
                    "…",
                );
                self.begin_command(status.as_str());
                Some(Command::SetEffort { index, effort })
            },
        }
    }

    /// `/model` with an argument.
    fn choose_model(&mut self, input: &str) -> (r: Option<Command>)
        requires
            old(self).wf(),
        ensures
            (final(self)@, history::request(r)) == old(self)@.pick_model(input@),
            final(self).wf(),
    {
        proof {
            reveal(Desk::pick_model);
        }
        let rest = text::without_all(input, "/model ");
        let id = text::trimmed(rest.as_str());
        match find_model(&self.models, id.as_str()) {
            None => {
                let body = text::concat3("No configured model matches `", id.as_str(), "`.");
                self.push_error("Unknown model", body.as_str());
                None
            },
            Some(index) => {
                let name = self.models[index].display_name.clone();
                if index == self.selected_model {
                    let status = text::concat("Already using ", name.as_str());
                    self.set_status(status.as_str());
                    return None;
                }
                let status = text::concat3("Switching to ", name.as_str(), "…");
                self.begin_command(status.as_str());
                let registry_id = self.models[index].registry_id.clone();
                Some(Command::SwitchModel { index, registry_id })
            },
        }
    }

    /// A slash command given while nothing blocks it.
    fn run_slash(&mut self, input: &str) -> (r: Option<Command>)
        requires
            old(self).wf(),
        ensures
            (final(self)@, history::request(r)) == old(self)@.run_slash(input@),
            final(self).wf(),
    {
        proof {
            reveal(Desk::run_slash);
        }
        self.clear_input();
        self.switch_agent("/root");
        self.dispatch(input)
    }

    /// A slash command on the root agent.
    #[verifier::rlimit(40)]
    fn dispatch(&mut self, input: &str) -> (r: Option<Command>)
        requires
            old(self).wf(),
        ensures
            (final(self)@, history::request(r)) == old(self)@.dispatch(input@),
            final(self).wf(),
    {
        proof {
            reveal(Desk::dispatch);
        }
        if text::same(input, "/compact") {
            self.begin_command("Compacting context…");
            Some(Command::Compact)
        } else if text::same(input, "/new") {
            self.begin_command("Starting a new session…");
            Some(Command::New)
        } else if text::same(input, "/model") {
            self.input = InputBuffer::at_end("/model ".to_owned());
            None
        } else if text::same(input, "/effort") {
            self.input = InputBuffer::at_end("/effort ".to_owned());
            None
        } else if text::same(input, "/session") {
            self.input = InputBuffer::at_end("/session ".to_owned());
            Some(Command::RefreshSessions)
        } else if text::has_prefix(input, "/session ") {
            self.load_session(input)
        } else if text::has_prefix(input, "/effort ") {
            self.choose_effort(input)
        } else if text::has_prefix(input, "/model ") {
            self.choose_model(input)
        } else {
            let body = text::concat3("`", input, "` is not a Lam command.");
            self.push_error("Unknown command", body.as_str());
            None
        }
    }

    /// `/agents` with an argument.
    fn pick_agent(&mut self, address: &str)
        requires
            old(self).wf(),
        ensures
            final(self)@ == old(self)@.pick_agent(address@),
            final(self).wf(),
    {
        proof {
            reveal(Desk::pick_agent);
            reveal(Desk::switch);
        }
        self.clear_input();
        if !self.switch_agent(address) {
            let body = text::concat3("No agent conversation matches `", address, "`.");
            self.push_error("Unknown agent", body.as_str());
        }
    }

    /// Submits the input. A plain message is never blocking: it is durably
    /// admitted as a steer and delivered at the next model boundary. A slash
    /// command waits for the current operation.
    pub fn submit(&mut self) -> (r: Option<Command>)
        requires
            old(self).wf(),
        ensures
            (final(self)@, history::request(r)) == old(self)@.submit(),
            final(self).wf(),
    {
        proof {
            reveal(Desk::submit);
        }
        let input = text::trimmed(self.input.text.as_str());
        if input.as_str().is_empty() {
            return None;
        }
        if text::same(input.as_str(), "/exit") || text::same(input.as_str(), "/quit") {
            self.should_exit = true;
            return None;
        }
        if text::same(input.as_str(), "/agents") {
            self.open_agents_drawer();
            return None;
        }
        if let Some(rest) = text::without_prefix(input.as_str(), "/agents ") {
            let address = text::trimmed(rest.as_str());
            self.pick_agent(address.as_str());
            return None;
        }
        if !text::has_prefix(input.as_str(), "/") {
            if self.interruption_in_progress {
                self.set_status("Wait for the interruption to finish");
                return None;
            }
            return self.send_message(input);
        }
        if self.busy {
            self.set_status("Wait for the current operation to finish");
            return None;
        }
        self.run_slash(input.as_str())
    }
}

} // verus!
