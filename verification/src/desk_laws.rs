//! What holds of the interface as a whole.

use crate::agent_events;
use crate::desk;
use crate::desk::{Desk, Recall, Steer};
use crate::events;
use crate::events::{
    AgentSystemEvent, KeyCode, KeyEvent, KeyEventKind, MouseEvent, MouseEventKind, RunEvent,
};
use crate::history::{Fold, Request};
use crate::text;
use vstd::prelude::*;

verus! {

/// Viewing another agent loses nothing: every agent keeps its conversation.
pub proof fn switching_loses_nothing(d: Desk, address: Seq<char>)
    ensures
        d.switch(address).all() == d.all(),
        !d.agents.dom().contains(d.current) ==> !d.switch(address).agents.dom().contains(
            d.switch(address).current,
        ),
        d.knows(address) ==> d.switch(address).current == address,
{
    reveal(Desk::switch);
    assert(d.switch(address).all() =~= d.all());
}

/// Viewing another agent and coming back restores the view, and every agent
/// keeps its conversation.
pub proof fn switching_back_restores_the_view(d: Desk, address: Seq<char>)
    requires
        d.wf(),
    ensures
        ({
            let back = d.switch(address).switch(d.current);
            &&& back == (Desk { agents: back.agents, ..d })
            &&& back.all() == d.all()
            &&& !d.agents.dom().contains(d.current) ==> back == d
        }),
{
    reveal(Desk::switch);
    reveal(desk::agents_ok);
    let back = d.switch(address).switch(d.current);
    assert(back.all() =~= d.all());
    if !d.agents.dom().contains(d.current) {
        assert(back.agents =~= d.agents);
    }
}

/// Whether two views have the same agents apart from the viewed one, and view
/// the same agent.
pub open spec fn same_others(a: Desk, b: Desk) -> bool {
    a.agents == b.agents && a.current == b.current
}

proof fn lemma_run_event_others(d: Desk, address: Seq<char>, event: RunEvent)
    ensures
        same_others(d.run_event(address, event), d),
{
    reveal(Desk::run_event);
    reveal(Desk::live_event);
    reveal(Desk::run_started);
    reveal(Desk::run_completed);
    reveal(Desk::run_failed);
    reveal(Desk::turn_started);
    reveal(Desk::model_delta);
    reveal(Desk::push_error);
    reveal(Desk::set_run_active);
}

proof fn lemma_on_event_others(d: Desk, event: AgentSystemEvent)
    ensures
        same_others(d.on_event(event), d),
{
    reveal(Desk::on_event);
    reveal(Desk::set_run_active);
    reveal(Desk::push_entry);
    reveal(Desk::push_error);
    reveal(Desk::outcome);
    reveal(Desk::runtime_event);
    if let AgentSystemEvent::Run { address, event } = event {
        lemma_run_event_others(d, address@, event);
    }
}

proof fn lemma_ensure(d: Desk, address: Seq<char>, parent: Option<Seq<char>>, status: Seq<char>)
    ensures
        ({
            let e = d.ensure_agent(address, parent, status);
            &&& e.current == d.current
            &&& e.knows(address)
            &&& forall|k: Seq<char>|
                k != address && d.knows(k) ==> e.knows(k) && e.all()[k] == #[trigger] d.all()[k]
        }),
{
}

/// Stepping to an agent, changing nothing but its conversation, and stepping
/// back leaves all other agents and the view as they were.
proof fn lemma_routed(d: Desk, at: Desk, address: Seq<char>, k: Seq<char>)
    requires
        d.knows(address),
        same_others(at, d.switch(address)),
        k != address,
        d.knows(k),
    ensures
        at.switch(d.current).current == d.current,
        at.switch(d.current).knows(k),
        at.switch(d.current).all()[k] == d.all()[k],
{
    reveal(Desk::switch);
}

/// An agent's event changes only that agent: the viewed agent stays viewed and
/// every other agent keeps its conversation.
pub proof fn events_stay_with_their_agent(d: Desk, event: AgentSystemEvent, k: Seq<char>)
    requires
        d.wf(),
        d.knows(k),
        k != events::event_address(event),
    ensures
        d.agent_event(event).current == d.current,
        d.agent_event(event).knows(k),
        d.agent_event(event).all()[k] == d.all()[k],
{
    reveal(Desk::agent_event);
    reveal(Desk::introduce);
    let address = events::event_address(event);
    let e = d.introduce(event);
    match event {
        AgentSystemEvent::Hosted { address: a, parent } => {
            lemma_ensure(d, address, text::opt_text(parent), "Starting…"@);
        },
        AgentSystemEvent::Retired { address: a, reason } => {
            lemma_ensure(d, address, desk::parent_of(address), "Stopped"@);
        },
        AgentSystemEvent::Outcome { outcome } => {
            lemma_ensure(d, address, desk::parent_of(address), "Finishing…"@);
        },
        _ => {
            lemma_ensure(d, address, desk::parent_of(address), "Working…"@);
        },
    }
    assert(e.all()[k] == d.all()[k]);
    let at = e.switch(address).on_event(event);
    lemma_on_event_others(e.switch(address), event);
    lemma_routed(e, at, address, k);
}

/// A fold changes only the agent whose journal it reads.
pub proof fn folds_stay_with_their_agent(d: Desk, address: Seq<char>, fold: Fold, k: Seq<char>)
    requires
        d.wf(),
        d.knows(k),
        k != address,
    ensures
        d.fold(address, fold).current == d.current,
        d.fold(address, fold).knows(k),
        d.fold(address, fold).all()[k] == d.all()[k],
{
    reveal(Desk::fold);
    reveal(Desk::set_run_active);
    let steers = if address == desk::root() && fold.consumed.len() > 0 {
        desk::undelivered(d.steers, fold.consumed, d.steers.len() as int)
    } else {
        d.steers
    };
    let kept = Desk { steers, ..d };
    let e = kept.ensure_agent(address, desk::parent_of(address), "Working…"@);
    lemma_ensure(kept, address, desk::parent_of(address), "Working…"@);
    assert(kept.all() == d.all());
    assert(e.all()[k] == d.all()[k]);
    let b = e.switch(address).set_run_active(fold.active_run is Some);
    let at = Desk { conv: b.conv.apply_fold(address, fold, b.tail()), ..b };
    lemma_routed(e, at, address, k);
}

/// A fold says whether an agent is running, whatever was thought before: an
/// event that was dropped leaves the flag wrong until the next fold at most.
pub proof fn folds_correct_the_run_state(d: Desk, address: Seq<char>, fold: Fold)
    requires
        d.wf(),
    ensures
        d.fold(address, fold).all()[address].run_active == (fold.active_run is Some),
        address == desk::root() ==> d.fold(address, fold).root_active == (fold.active_run is Some),
{
    reveal(Desk::fold);
    reveal(Desk::switch);
    reveal(Desk::set_run_active);
    reveal(desk::agents_ok);
    let steers = if address == desk::root() && fold.consumed.len() > 0 {
        desk::undelivered(d.steers, fold.consumed, d.steers.len() as int)
    } else {
        d.steers
    };
    let kept = Desk { steers, ..d };
    let e = kept.ensure_agent(address, desk::parent_of(address), "Working…"@);
    let b = e.switch(address).set_run_active(fold.active_run is Some);
    agent_events::lemma_fold_keeps_run(b.conv, address, fold, b.tail());
    assert(b.current == address);
}

/// A click on the body of a row selects it and moves nothing: the scroll
/// position stays and no longer follows the tail or the selection.
pub proof fn body_clicks_keep_the_scroll_position(d: Desk, mouse: MouseEvent, i: int)
    requires
        mouse.kind == MouseEventKind::Down,
        !d.in_input(mouse),
        desk::hit(d.pane.hitboxes@, 0, mouse.row as int) == Some(i),
        d.pane.hitboxes@[i].header != Some(mouse.row),
    ensures
        ({
            let after = d.mouse(mouse).0.conv;
            &&& after.offset == d.conv.offset
            &&& after.entries == d.conv.entries
            &&& after.reveal == d.conv.reveal
            &&& after.selected == Some(d.pane.hitboxes@[i].entry as int)
            &&& !after.follow
            &&& !after.drives
        }),
{
    reveal(Desk::mouse);
    reveal(Desk::click);
    reveal(Desk::on_entry);
    reveal(Desk::begin_selection);
}

/// Late streaming events of a run that is over change nothing.
pub proof fn stale_events_change_nothing(d: Desk, address: Seq<char>, event: RunEvent)
    requires
        events::streams(event),
        events::event_run(event) is Some,
        d.conv.dead.contains(events::event_run(event)->0),
    ensures
        d.run_event(address, event) == d,
{
    reveal(Desk::run_event);
}

/// Releasing a key does nothing.
pub proof fn releases_do_nothing(d: Desk, key: KeyEvent, now: u64)
    requires
        key.kind == KeyEventKind::Release,
    ensures
        d.key(key, now) == (d, None::<Request>),
{
    reveal(Desk::key);
}

/// Whether a request stops a run or drops a session.
pub open spec fn is_destructive(request: Option<Request>) -> bool {
    request matches Some(r) && (r is Interrupt || r is DeleteSession || r is ReplaceSession)
}

/// What the deletion and interruption guards of a view are.
pub open spec fn same_guards(a: Desk, b: Desk) -> bool {
    a.armed == b.armed && a.deadline == b.deadline
}

proof fn lemma_switch_guards(d: Desk, address: Seq<char>)
    ensures
        same_guards(d.switch(address), d),
{
    reveal(Desk::switch);
}

proof fn lemma_root_status_guards(d: Desk, status: Seq<char>)
    ensures
        same_guards(d.root_status(status), d),
{
    reveal(Desk::root_status);
    lemma_switch_guards(d, desk::root());
    lemma_switch_guards(d.switch(desk::root()).with_status(status), d.current);
}

proof fn lemma_dispatch_harmless(d: Desk, input: Seq<char>)
    ensures
        !is_destructive(d.dispatch(input).1),
        same_guards(d.dispatch(input).0, d),
{
    reveal(Desk::dispatch);
    reveal(Desk::load_session);
    reveal(Desk::set_effort);
    reveal(Desk::pick_model);
    reveal(Desk::push_error);
}

proof fn lemma_submit_harmless(d: Desk)
    ensures
        !is_destructive(d.submit().1),
        same_guards(d.submit().0, d),
{
    reveal(Desk::submit);
    reveal(Desk::send);
    reveal(Desk::run_slash);
    reveal(Desk::pick_agent);
    reveal(Desk::push_error);
    let input = text::trim(d.input.text);
    lemma_switch_guards(d.cleared(), desk::root());
    lemma_dispatch_harmless(d.cleared().switch(desk::root()), input);
    lemma_switch_guards(
        d.cleared(),
        text::trim(text::strip_prefix(input, "/agents "@)->0),
    );
    lemma_root_status_guards(
        Desk {
            sessions: Desk::previewed(d.sessions, 0, d.session_id, input),
            ..d.cleared()
        },
        "Sending…"@,
    );
}

proof fn lemma_routed_harmless(d: Desk, key: KeyEvent)
    ensures
        !is_destructive(d.routed(key).1),
        same_guards(d.routed(key).0, d),
{
    reveal(Desk::routed);
    reveal(Desk::input_key);
    reveal(Desk::up_or_down);
    reveal(Desk::vertical);
    reveal(Desk::recall_older);
    reveal(Desk::recall_newer);
    reveal(Desk::enter_palette);
    reveal(Desk::character);
    reveal(Desk::edit_key);
    reveal(Desk::conversation_key);
    reveal(Desk::move_selection);
    reveal(Desk::keyboard_toggle);
    let hints = d.suggestions();
    let e = d.highlighted(hints.len() as int);
    lemma_submit_harmless(e);
    lemma_submit_harmless(e.apply_suggestion(hints));
}

/// Stopping a run takes two presses of Escape within the window: only an armed
/// view asks for it, and no key but a press of Escape arms it.
pub proof fn stopping_takes_two_presses(d: Desk, key: KeyEvent, now: u64)
    ensures
        d.key(key, now).1 == Some(Request::Interrupt) ==> key.code == KeyCode::Esc && key.kind
            == KeyEventKind::Press && d.deadline is Some && now <= d.deadline->0 && d.root_active
            && !d.interrupting,
        d.key(key, now).0.deadline is Some && key.kind != KeyEventKind::Release ==> key.code
            == KeyCode::Esc && (key.kind == KeyEventKind::Press || d.deadline is Some),
        d.deadline is None ==> d.key(key, now).1 != Some(Request::Interrupt),
{
    lemma_key_guards(d, key, now);
}

/// Dropping a session takes two presses of its key on the same row: only an
/// armed session is dropped, no key but a press of that one arms a session,
/// and any other key disarms it.
pub proof fn dropping_takes_two_presses(d: Desk, key: KeyEvent, now: u64, id: u64)
    ensures
        d.key(key, now).1 == Some(Request::DeleteSession(id)) || d.key(key, now).1 == Some(
            Request::ReplaceSession(id),
        ) ==> desk::deletes(key) && key.kind == KeyEventKind::Press && d.armed == Some(id),
        d.key(key, now).1 == Some(Request::ReplaceSession(id)) ==> id == d.session_id,
        d.key(key, now).1 == Some(Request::DeleteSession(id)) ==> id != d.session_id,
        d.key(key, now).0.armed == Some(id) && d.armed != Some(id) ==> desk::deletes(key)
            && key.kind == KeyEventKind::Press,
        !desk::deletes(key) && key.kind != KeyEventKind::Release ==> d.key(key, now).0.armed
            is None,
{
    lemma_key_guards(d, key, now);
}

proof fn lemma_key_guards(d: Desk, key: KeyEvent, now: u64)
    ensures
        is_destructive(d.key(key, now).1) ==> key.kind == KeyEventKind::Press && if key.code
            == KeyCode::Esc {
            &&& d.key(key, now).1 == Some(Request::Interrupt)
            &&& d.deadline is Some
            &&& now <= d.deadline->0
            &&& d.root_active
            &&& !d.interrupting
        } else {
            &&& desk::deletes(key)
            &&& d.armed is Some
            &&& d.key(key, now).1 == Some(
                if d.armed->0 == d.session_id {
                    Request::ReplaceSession(d.armed->0)
                } else {
                    Request::DeleteSession(d.armed->0)
                },
            )
        },
        d.key(key, now).0.deadline is Some && key.kind != KeyEventKind::Release ==> key.code
            == KeyCode::Esc && (key.kind == KeyEventKind::Press || d.deadline is Some),
        d.key(key, now).0.armed is Some ==> d.key(key, now).0.armed == d.armed || (desk::deletes(
            key,
        ) && key.kind == KeyEventKind::Press),
        !desk::deletes(key) && key.kind != KeyEventKind::Release ==> d.key(key, now).0.armed
            is None,
{
    reveal(Desk::key);
    reveal(Desk::escape);
    reveal(Desk::other_key);
    reveal(Desk::delete_session);
    if key.kind != KeyEventKind::Release {
        if key.code == KeyCode::Esc {
            let e = d.dismissed(key);
            lemma_root_status_guards(
                Desk { deadline: None, interrupting: true, ..e },
                "Stopping current run…"@,
            );
        } else {
            lemma_routed_harmless(Desk { deadline: None, ..d.dismissed(key) }, key);
        }
    }
}

/// A message is never blocked by a running command or run, only while an
/// interruption is in progress.
pub proof fn messages_are_never_blocked(d: Desk)
    requires
        d.wf(),
        text::trim(d.input.text).len() > 0,
        !text::starts_with(text::trim(d.input.text), "/"@),
    ensures
        d.submit().1 == (if d.interrupting {
            None
        } else {
            Some(Request::Message(text::trim(d.input.text)))
        }),
        !d.interrupting ==> d.submit().0.steers == d.steers.push(
            Steer { id: None, text: text::trim(d.input.text) },
        ) && d.submit().0.input.text.len() == 0,
{
    reveal(Desk::submit);
    let input = text::trim(d.input.text);
    assert(text::starts_with(input, "/agents "@) ==> text::starts_with(input, "/"@)) by {
        reveal_strlit("/agents ");
        reveal_strlit("/");
        if text::starts_with(input, "/agents "@) {
            assert(input[0] == input.take(8)[0]);
            lemma_slash(input);
        }
    }
    assert(input != "/exit"@ && input != "/quit"@ && input != "/agents"@) by {
        reveal_strlit("/exit");
        reveal_strlit("/quit");
        reveal_strlit("/agents");
        reveal_strlit("/");
        lemma_slash("/exit"@);
        lemma_slash("/quit"@);
        lemma_slash("/agents"@);
    }
    if !d.interrupting {
        lemma_send(d, input);
    }
}

/// While a command, a run of the root or an interruption is in progress, a
/// slash command that is neither the exit nor the agents picker only says so.
pub proof fn commands_wait_while_busy(d: Desk)
    requires
        d.wf(),
        d.command || d.root_active || d.interrupting,
        text::starts_with(text::trim(d.input.text), "/"@),
        text::trim(d.input.text) != "/exit"@,
        text::trim(d.input.text) != "/quit"@,
        text::trim(d.input.text) != "/agents"@,
        !text::starts_with(text::trim(d.input.text), "/agents "@),
    ensures
        d.submit() == (
            d.with_status("Wait for the current operation to finish"@),
            None::<Request>,
        ),
{
    reveal(Desk::submit);
    reveal_strlit("/");
}

proof fn lemma_slash(s: Seq<char>)
    requires
        s.len() > 0,
        s[0] == '/',
    ensures
        text::starts_with(s, "/"@),
{
    reveal_strlit("/");
    assert(s.take(1) =~= "/"@);
}

/// Sending a message queues it and clears the input; nothing else of the queue
/// changes.
proof fn lemma_send(d: Desk, message: Seq<char>)
    ensures
        d.send(message).steers == d.steers.push(Steer { id: None, text: message }),
        d.send(message).input.text.len() == 0,
{
    reveal(Desk::send);
    reveal(Desk::root_status);
    reveal(Desk::switch);
}

/// Whether every queued message has its receipt.
pub open spec fn all_acknowledged(steers: Seq<Steer>) -> bool {
    forall|i: int| 0 <= i < steers.len() ==> (#[trigger] steers[i]).id is Some
}

proof fn lemma_awaiting(steers: Seq<Steer>, i: int, last: Steer, wanted: Option<Seq<char>>)
    requires
        0 <= i <= steers.len(),
        all_acknowledged(steers),
        last.id is None,
        wanted is Some ==> wanted->0 == last.text,
    ensures
        desk::awaiting(steers.push(last), i, wanted) == Some(steers.len() as int),
    decreases steers.len() - i,
{
    let all = steers.push(last);
    if i < steers.len() {
        assert(all[i] == steers[i]);
        lemma_awaiting(steers, i + 1, last, wanted);
    } else {
        assert(all[i] == last);
    }
}

/// A rejected message is not lost: when no other message awaits its receipt,
/// the queue is what it was before the message was sent, and the message is
/// back in the input.
pub proof fn rejected_messages_come_back(d: Desk, message: Seq<char>, error: Seq<char>)
    requires
        all_acknowledged(d.steers),
    ensures
        d.send(message).rejected(error).steers == d.steers,
        d.send(message).rejected(error).input.text == message,
{
    reveal(Desk::rejected);
    reveal(Desk::push_error);
    lemma_send(d, message);
    let sent = d.send(message);
    let last = Steer { id: None, text: message };
    lemma_awaiting(d.steers, 0, last, None);
    assert(d.steers.push(last).remove(d.steers.len() as int) =~= d.steers);
}

/// A receipt names the message that was sent, and removes it from the queue
/// when it has been delivered already.
pub proof fn receipts_find_their_message(
    d: Desk,
    message: Seq<char>,
    id: Seq<char>,
    consumed: bool,
)
    requires
        all_acknowledged(d.steers),
    ensures
        d.send(message).receipt(id, message, consumed).steers == (if consumed {
            d.steers
        } else {
            d.steers.push(Steer { id: Some(id), text: message })
        }),
{
    reveal(Desk::receipt);
    reveal(Desk::switch);
    lemma_send(d, message);
    let last = Steer { id: None, text: message };
    lemma_awaiting(d.steers, 0, last, Some(message));
    assert(d.steers.push(last).remove(d.steers.len() as int) =~= d.steers);
    assert(d.steers.push(last).update(
        d.steers.len() as int,
        Steer { id: Some(id), text: message },
    ) =~= d.steers.push(Steer { id: Some(id), text: message }));
}

proof fn lemma_undelivered(steers: Seq<Steer>, consumed: Seq<Seq<char>>, n: int, k: int)
    requires
        0 <= n <= steers.len(),
        0 <= k < desk::undelivered(steers, consumed, n).len(),
    ensures
        ({
            let s = desk::undelivered(steers, consumed, n)[k];
            s.id is Some ==> !consumed.contains(s.id->0)
        }),
    decreases n,
{
    if n > 0 {
        let before = desk::undelivered(steers, consumed, n - 1);
        if k < before.len() {
            lemma_undelivered(steers, consumed, n - 1, k);
        }
    }
}

/// A message that a fold of the root's journal reports consumed is no longer
/// queued.
pub proof fn consumed_messages_leave_the_queue(d: Desk, fold: Fold, k: int)
    requires
        fold.consumed.len() > 0,
        0 <= k < d.fold(desk::root(), fold).steers.len(),
    ensures
        ({
            let s = d.fold(desk::root(), fold).steers[k];
            s.id is Some ==> !fold.consumed.contains(s.id->0)
        }),
{
    reveal(Desk::fold);
    reveal(Desk::switch);
    reveal(Desk::set_run_active);
    lemma_undelivered(d.steers, fold.consumed, d.steers.len() as int, k);
}

/// Recalling an earlier message and going back restores the draft, cursor
/// included.
pub proof fn recalling_restores_the_draft(d: Desk)
    requires
        d.recall is None,
    ensures
        d.recall_older().recall_newer() == d,
{
    reveal(Desk::recall_older);
    reveal(Desk::recall_newer);
}

/// Among recalled messages, going back one and forward one shows the message
/// that was shown.
pub proof fn recalling_steps_are_inverse(d: Desk, r: Recall)
    requires
        d.recall == Some(r),
        0 < r.position < r.messages.len(),
    ensures
        d.recall_older().recall_newer().recall == d.recall,
        d.recall_older().recall_newer().input.text == r.messages[r.position],
{
    reveal(Desk::recall_older);
    reveal(Desk::recall_newer);
}

} // verus!
