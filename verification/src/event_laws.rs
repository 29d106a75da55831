//! What agent events and command results do to the view of their agent.

use crate::conversation;
use crate::conversation::{CallPiece, Conv, Entry, EntryKind};
use crate::desk;
use crate::desk::Desk;
use crate::events;
use crate::events::{AgentOutcome, AgentSystemEvent, ModelDelta, RunEvent, RuntimeEvent, StopReason};
use crate::history::CommandResult;
use crate::text;
use crate::text_laws;
use vstd::prelude::*;

verus! {

/// Whether two rows differ at most in whether they stream.
pub open spec fn same_but_streaming(a: Entry, b: Entry) -> bool {
    a == (Entry { streaming: a.streaming, ..b })
}

/// Streamed text is never lost: it ends the last row, which is of its kind and
/// its run, and either goes on from what that row said or opens a row. All
/// other rows keep what they say.
pub proof fn streamed_text_ends_the_last_row(
    c: Conv,
    kind: EntryKind,
    address: Seq<char>,
    run: Seq<char>,
    delta: Seq<char>,
    tail: bool,
)
    requires
        kind == EntryKind::Assistant || kind == EntryKind::Reasoning,
    ensures
        ({
            let before = c.entries;
            let after = c.append_delta(kind, address, run, delta, tail).entries;
            let row = after.last();
            let goes_on = after.len() == before.len();
            &&& after.len() == before.len() || after.len() == before.len() + 1
            &&& row.kind == kind
            &&& row.model_run == Some(run)
            &&& row.model_owner == Some(address)
            &&& row.overlay_turn == Some(c.turn)
            &&& row.streaming
            &&& kind == EntryKind::Assistant ==> row.expanded && row.title == address
            &&& kind == EntryKind::Reasoning ==> row.title == address + " · reasoning"@
            &&& goes_on ==> before.len() > 0 && row.body == before.last().body + delta
                && before.last().model_run == Some(run) && before.last().kind == kind
            &&& !goes_on ==> row.body == delta
            &&& goes_on <==> before.len() > 0 && before.last().kind == kind && before.last().title
                == row.title && before.last().model_owner == Some(address)
                && before.last().model_run == Some(run) && before.last().overlay_turn == Some(
                c.turn,
            )
            &&& forall|k: int|
                0 <= k < before.len() - (if goes_on {
                    1int
                } else {
                    0
                }) ==> same_but_streaming(#[trigger] after[k], before[k])
        }),
{
    reveal(Conv::append_delta);
    reveal(Conv::quiet);
}

proof fn lemma_last_call(
    entries: Seq<Entry>,
    from: int,
    n: int,
    address: Seq<char>,
    run: Seq<char>,
    index: usize,
    turn: u64,
)
    requires
        0 <= from,
        n <= entries.len(),
    ensures
        conversation::last_call(entries, from, n, address, run, index, turn) matches Some(i)
            ==> from <= i < n && conversation::continues(entries[i], address, run, index, turn),
        conversation::last_call(entries, from, n, address, run, index, turn) is None ==> forall|i:
            int|
            from <= i < n ==> !conversation::continues(
                #[trigger] entries[i],
                address,
                run,
                index,
                turn,
            ),
    decreases n,
{
    if n > from && n > 0 && !conversation::continues(
        entries[n - 1],
        address,
        run,
        index,
        turn,
    ) {
        lemma_last_call(entries, from, n - 1, address, run, index, turn);
    }
}

/// Whether a row is the streamed call with this index of a run's turn.
pub open spec fn is_streamed_call(e: Entry, run: Seq<char>, piece: CallPiece, turn: u64) -> bool {
    &&& e.kind == EntryKind::ToolCall
    &&& e.pending_tool
    &&& e.tool_run == Some(run)
    &&& e.tool_index == Some(piece.index)
    &&& e.overlay_turn == Some(turn)
}

/// A piece of a streamed call is never lost: its arguments end those of its
/// call, or open a row for it, and its name ends the name. All other rows keep
/// what they say.
pub proof fn streamed_calls_grow_by_their_pieces(
    c: Conv,
    address: Seq<char>,
    run: Seq<char>,
    piece: CallPiece,
    tail: bool,
) -> (i: int)
    requires
        c.bounded(),
    ensures
        ({
            let before = c.entries;
            let after = c.append_tool_delta(address, run, piece, tail).entries;
            let name = match piece.name {
                Some(name) => name,
                None => Seq::empty(),
            };
            &&& 0 <= i < after.len()
            &&& i <= before.len()
            &&& is_streamed_call(after[i], run, piece, c.turn)
            &&& after[i].tool_owner == Some(address)
            &&& after[i].streaming
            &&& i < before.len() ==> after.len() == before.len() && is_streamed_call(
                before[i],
                run,
                piece,
                c.turn,
            ) && after[i].body == before[i].body + piece.arguments && after[i].tool_name
                == before[i].tool_name + name
            &&& i == before.len() ==> after.len() == before.len() + 1 && after[i].body
                == piece.arguments && after[i].tool_name == name
            &&& forall|k: int|
                0 <= k < before.len() && k != i ==> same_but_streaming(
                    #[trigger] after[k],
                    before[k],
                )
        }),
{
    reveal(Conv::append_tool_delta);
    reveal(Conv::quiet);
    let n = c.entries.len() as int;
    lemma_last_call(c.entries, c.committed, n, address, run, piece.index, c.turn);
    match conversation::last_call(
        c.entries,
        c.committed,
        n,
        address,
        run,
        piece.index,
        c.turn,
    ) {
        Some(i) => {
            assert(c.entries[i].tool_name + Seq::<char>::empty() =~= c.entries[i].tool_name);
            i
        },
        None => n,
    }
}

/// A committed row is shown with its words and under its kind; the user's and
/// the agent's own messages are expanded, and a call awaits its result.
pub proof fn committed_rows_are_shown_as_they_are(row: crate::history::RunRow, owner: Seq<char>)
    ensures
        ({
            let e = conversation::owned(conversation::committed(row), owner);
            &&& e.title == row.row.title
            &&& e.body == row.row.body
            &&& (e.kind == EntryKind::User) == (row.row.kind == crate::history::HistoryKind::User)
            &&& (e.kind == EntryKind::Assistant) == (row.row.kind
                == crate::history::HistoryKind::Assistant)
            &&& (e.kind == EntryKind::Reasoning) == (row.row.kind
                == crate::history::HistoryKind::Reasoning)
            &&& (e.kind == EntryKind::ToolCall) == (row.row.kind
                == crate::history::HistoryKind::ToolCall)
            &&& (e.kind == EntryKind::ToolResult) == (row.row.kind
                == crate::history::HistoryKind::ToolResult)
            &&& (e.kind == EntryKind::System) == (row.row.kind
                == crate::history::HistoryKind::System)
            &&& e.expanded == (e.kind == EntryKind::User || e.kind == EntryKind::Assistant)
            &&& e.pending_tool == (e.kind == EntryKind::ToolCall)
            &&& !e.streaming
            &&& e.kind == EntryKind::Assistant || e.kind == EntryKind::Reasoning ==> e.model_run
                == row.run && e.model_owner == Some(owner)
            &&& e.kind == EntryKind::ToolCall || e.kind == EntryKind::ToolResult ==> e.tool_run
                == row.run && e.tool_owner == Some(owner)
        }),
{
}

/// A restored conversation has one row for each committed one, in order and in
/// its words, with the last one selected; it says whether a run was left open.
pub proof fn restored_conversations_show_their_rows(
    h: crate::history::AgentHistory,
    created_ord: u64,
    k: int,
)
    requires
        0 <= k < h.history@.len(),
    ensures
        ({
            let c = Conv::from_history(h, created_ord);
            &&& c.entries.len() == h.history@.len()
            &&& c.entries[k].title == h.history@[k].entry.title@
            &&& c.entries[k].body == h.history@[k].entry.body@
            &&& c.selected == Some(c.entries.len() - 1)
            &&& c.committed == c.entries.len()
            &&& c.run_active == !h.run_completed
            &&& c.status == h.status@
            &&& c.context_tokens == h.context_tokens
            &&& c.model == text::opt_text(h.model)
            &&& c.parent == text::opt_text(h.parent)
            &&& c.follow
        }),
{
    let rows = crate::history::run_rows(h.history@);
    lemma_restored(rows, k);
    assert(rows[k] == h.history@[k]@);
}

proof fn lemma_restored(rows: Seq<crate::history::RunRow>, k: int)
    requires
        0 <= k < rows.len(),
    ensures
        conversation::restored(rows).len() == rows.len(),
        conversation::restored(rows)[k].title == rows[k].row.title,
        conversation::restored(rows)[k].body == rows[k].row.body,
    decreases rows.len(),
{
    let before = conversation::restored(rows.drop_last());
    let e = conversation::committed(rows.last());
    if rows.len() > 1 {
        lemma_restored(rows.drop_last(), if k < rows.len() - 1 {
            k
        } else {
            0
        });
    }
    lemma_settled_words(before, before.len() as int, e);
}

proof fn lemma_settled_words(entries: Seq<Entry>, n: int, e: Entry)
    requires
        0 <= n <= entries.len(),
    ensures
        conversation::settled(entries, n, e).len() == entries.len(),
        forall|k: int|
            0 <= k < entries.len() ==> (#[trigger] conversation::settled(entries, n, e)[k]).title
                == entries[k].title && conversation::settled(entries, n, e)[k].body
                == entries[k].body,
{
    if e.kind == EntryKind::ToolResult && e.tool_run is Some {
        lemma_pending_range(entries, 0, n, e.tool_run->0);
    }
}

proof fn lemma_pending_range(entries: Seq<Entry>, i: int, n: int, run: Seq<char>)
    requires
        0 <= i <= n <= entries.len(),
    ensures
        conversation::first_pending(entries, i, n, run) matches Some(k) ==> i <= k < n,
    decreases n - i,
{
    if i < n && !conversation::is_pending_call(entries[i], run) {
        lemma_pending_range(entries, i + 1, n, run);
    }
}

/// Whether a run event of the viewed agent is one that counts: not a late one
/// of a run that is over.
pub open spec fn counts(d: Desk, address: Seq<char>, event: RunEvent) -> bool {
    &&& d.current == address
    &&& !(events::event_run(event) matches Some(run) && d.conv.dead.contains(run))
}

/// What a run event leaves alone, apart from the viewed conversation: which
/// agent is viewed, the others, the input, the queue and the sessions.
pub open spec fn only_view_differs(after: Desk, before: Desk) -> bool {
    after == (Desk {
        conv: after.conv,
        root_active: after.root_active,
        busy: after.busy,
        deadline: after.deadline,
        ..before
    })
}

/// A run begins with `Started` and ends with `Completed` or `Failed`: between
/// them its agent counts as running, and the root's run keeps commands
/// waiting. A failure is reported in the conversation.
pub proof fn runs_begin_and_end(d: Desk, address: Seq<char>, event: RunEvent)
    requires
        d.wf(),
        counts(d, address, event),
        event is Started || event is Completed || event is Failed,
    ensures
        ({
            let after = d.run_event(address, event);
            &&& only_view_differs(after, d)
            &&& after.conv.run_active == (event is Started)
            &&& address == desk::root() ==> after.root_active == (event is Started)
                && after.deadline is None
            &&& address != desk::root() ==> after.root_active == d.root_active
            &&& event is Started ==> after.conv.status == address + " is working…"@
                && after.conv.entries == d.conv.entries
            &&& event is Completed ==> after.conv.status == (if address == desk::root() {
                "Ready"@
            } else {
                "Complete"@
            })
            &&& event matches RunEvent::Completed { run_id } ==> forall|k: int|
                0 <= k < after.conv.entries.len() && (#[trigger] after.conv.entries[k]).touches(
                    run_id@,
                ) ==> !after.conv.entries[k].streaming
            &&& event matches RunEvent::Failed { message } ==> {
                let row = after.conv.entries[d.conv.committed];
                &&& after.conv.status == "Error"@
                &&& after.conv.entries.len() == d.conv.entries.len() + 1
                &&& row.kind == EntryKind::Error
                &&& row.title == "Run failed"@
                &&& row.body == message@
            }
        }),
{
    reveal(Desk::run_event);
    reveal(Desk::live_event);
    reveal(Desk::run_started);
    reveal(Desk::run_completed);
    reveal(Desk::run_failed);
    reveal(Desk::set_run_active);
    reveal(Desk::push_error);
    reveal(Conv::pin);
    reveal(Conv::quiet);
}

/// A streamed piece goes into the viewed conversation: text as the agent's
/// words, reasoning as reasoning, calls as calls. An empty piece of text
/// changes nothing.
pub proof fn streamed_pieces_are_shown(
    d: Desk,
    address: Seq<char>,
    run: String,
    delta: ModelDelta,
)
    requires
        d.wf(),
        d.current == address,
        !d.conv.dead.contains(run@),
    ensures
        ({
            let after = d.run_event(address, RunEvent::ModelDelta { run_id: run, delta });
            &&& only_view_differs(after, d)
            &&& after.conv.run_active == d.conv.run_active
            &&& delta matches ModelDelta::Text(s) ==> if s@.len() == 0 {
                after == d
            } else {
                let row = after.conv.entries.last();
                &&& row.kind == EntryKind::Assistant
                &&& row.model_run == Some(run@)
                &&& row.streaming
                &&& text::ends_with(row.body, s@)
            }
            &&& delta matches ModelDelta::Reasoning(s) ==> if s@.len() == 0 {
                after == d
            } else {
                let row = after.conv.entries.last();
                &&& row.kind == EntryKind::Reasoning
                &&& row.model_run == Some(run@)
                &&& row.streaming
                &&& text::ends_with(row.body, s@)
            }
            &&& delta matches ModelDelta::ToolCall(p) ==> exists|i: int|
                0 <= i < after.conv.entries.len() && {
                    let row = #[trigger] after.conv.entries[i];
                    &&& row.kind == EntryKind::ToolCall
                    &&& row.tool_run == Some(run@)
                    &&& row.tool_index == Some(p.index)
                    &&& row.streaming
                    &&& text::ends_with(row.body, p.arguments@)
                }
        }),
{
    reveal(Desk::run_event);
    reveal(Desk::live_event);
    reveal(Desk::model_delta);
    match delta {
        ModelDelta::Text(s) => {
            lemma_text_ends(d.conv, EntryKind::Assistant, address, run@, s@, d.tail());
        },
        ModelDelta::Reasoning(s) => {
            lemma_text_ends(d.conv, EntryKind::Reasoning, address, run@, s@, d.tail());
        },
        ModelDelta::ToolCall(p) => {
            let piece = CallPiece {
                index: p.index,
                name: text::opt_text(p.name),
                arguments: p.arguments@,
            };
            let i = streamed_calls_grow_by_their_pieces(d.conv, address, run@, piece, d.tail());
            let after = d.conv.append_tool_delta(address, run@, piece, d.tail());
            if i < d.conv.entries.len() {
                lemma_ends_with(d.conv.entries[i].body, p.arguments@);
            } else {
                lemma_ends_with(Seq::empty(), p.arguments@);
                assert(Seq::<char>::empty() + p.arguments@ =~= p.arguments@);
            }
            assert(text::ends_with(after.entries[i].body, p.arguments@));
            reveal(Conv::append_tool_delta);
            reveal(Conv::quiet);
        },
    }
}

proof fn lemma_ends_with(a: Seq<char>, b: Seq<char>)
    ensures
        text::ends_with(a + b, b),
{
    assert((a + b).skip(a.len() as int) =~= b);
}

proof fn lemma_text_ends(
    c: Conv,
    kind: EntryKind,
    address: Seq<char>,
    run: Seq<char>,
    s: Seq<char>,
    tail: bool,
)
    requires
        kind == EntryKind::Assistant || kind == EntryKind::Reasoning,
    ensures
        ({
            let after = c.append_delta(kind, address, run, s, tail);
            &&& text::ends_with(after.entries.last().body, s)
            &&& after.entries.last().kind == kind
            &&& after.entries.last().model_run == Some(run)
            &&& after.entries.last().streaming
            &&& after.run_active == c.run_active
        }),
{
    streamed_text_ends_the_last_row(c, kind, address, run, s, tail);
    let after = c.append_delta(kind, address, run, s, tail);
    if after.entries.len() == c.entries.len() {
        lemma_ends_with(c.entries.last().body, s);
    } else {
        lemma_ends_with(Seq::empty(), s);
        assert(Seq::<char>::empty() + s =~= s);
    }
    reveal(Conv::append_delta);
    reveal(Conv::quiet);
}

/// The steps of a run are told by the status of its agent, and change no row;
/// a finished response tells the tokens of the context, and a new turn begins
/// with each response.
pub proof fn steps_of_a_run_are_told(d: Desk, address: Seq<char>, event: RunEvent)
    requires
        d.wf(),
        counts(d, address, event),
        !(event is Started || event is Completed || event is Failed || event is ModelDelta
            || event is CompactionFailed),
    ensures
        ({
            let after = d.run_event(address, event);
            &&& only_view_differs(after, d)
            &&& after.conv.entries == d.conv.entries
            &&& after.conv.run_active == d.conv.run_active
            &&& event is MessagesDelivered ==> after.conv.status == address + " is working…"@
            &&& event is ModelStarted ==> after.conv.status == address + " is thinking…"@
            &&& event is EvalStarted ==> after.conv.status == address
                + " is evaluating TypeScript…"@
            &&& event is EvalCompleted ==> after.conv.status == address + " finished eval"@
            &&& event is CompactionStarted ==> after.conv.status == address
                + " is compacting context…"@
            &&& event is CompactionCompleted ==> after.conv.status == address
                + " compacted context"@
            &&& event matches RunEvent::ModelCompleted { run_id, total_tokens }
                ==> after.conv.context_tokens == total_tokens && after.conv.status
                == d.conv.status
            &&& event is ModelStarted && d.conv.turn < u64::MAX ==> after.conv.turn == d.conv.turn
                + 1
            &&& !(event is ModelStarted) ==> after.conv.turn == d.conv.turn
            &&& !(event is ModelCompleted) ==> after.conv.context_tokens == d.conv.context_tokens
        }),
{
    reveal(Desk::run_event);
    reveal(Desk::live_event);
    reveal(Desk::turn_started);
}

/// A compaction that failed is reported in the conversation of its agent.
pub proof fn failed_compactions_are_reported(
    d: Desk,
    address: Seq<char>,
    run: String,
    message: String,
)
    requires
        d.wf(),
        d.current == address,
        !d.conv.dead.contains(run@),
    ensures
        ({
            let after = d.run_event(address, RunEvent::CompactionFailed { run_id: run, message });
            let row = after.conv.entries[d.conv.committed];
            &&& only_view_differs(after, d)
            &&& after.conv.entries.len() == d.conv.entries.len() + 1
            &&& row.kind == EntryKind::Error
            &&& row.body == message@
        }),
{
    reveal(Desk::run_event);
    reveal(Desk::live_event);
    reveal(Desk::push_error);
    reveal(Conv::pin);
}

/// An agent that is retired or whose work is over runs no more; a failure and
/// a cancellation are reported in its conversation, an interruption only in
/// its status.
pub proof fn ended_agents_stop_running(d: Desk, event: AgentSystemEvent)
    requires
        d.wf(),
        event is Retired || event is Outcome,
    ensures
        ({
            let after = d.on_event(event);
            let row = after.conv.entries[d.conv.committed];
            &&& !after.conv.run_active
            &&& d.current == desk::root() ==> !after.root_active
            &&& only_view_differs(after, d)
            &&& event matches AgentSystemEvent::Retired { address, reason: StopReason::Interrupted }
                ==> after.conv.status == "Interrupted"@ && after.conv.entries == d.conv.entries
            &&& event matches AgentSystemEvent::Retired { address, reason: StopReason::Other(name) }
                ==> after.conv.status == "Stopped"@ && after.conv.entries.len()
                == d.conv.entries.len() + 1 && row.kind == EntryKind::System && row.body
                == address@ + ": "@ + name@
            &&& event matches AgentSystemEvent::Outcome { outcome: AgentOutcome::Completed { .. } }
                ==> after.conv.status == "Complete"@ && after.conv.entries == d.conv.entries
            &&& event matches AgentSystemEvent::Outcome {
                outcome: AgentOutcome::Failed { address, error },
            } ==> after.conv.entries.len() == d.conv.entries.len() + 1 && row.kind
                == EntryKind::Error && row.title == address@ + " failed"@ && row.body == error@
            &&& event matches AgentSystemEvent::Outcome {
                outcome: AgentOutcome::Cancelled { address, reason: Some(reason) },
            } ==> if reason@ == "the actor run was interrupted"@ {
                after.conv.status == "Interrupted"@ && after.conv.entries == d.conv.entries
            } else {
                after.conv.entries.len() == d.conv.entries.len() + 1 && row.kind
                    == EntryKind::Error && row.title == address@ + " cancelled"@ && row.body
                    == reason@
            }
        }),
{
    reveal(Desk::on_event);
    reveal(Desk::outcome);
    reveal(Desk::set_run_active);
    reveal(Desk::push_entry);
    reveal(Desk::push_error);
    reveal(Conv::pin);
}

/// An agent that is hosted is known from then on, under its parent, and ready.
pub proof fn hosted_agents_become_known(d: Desk, address: String, parent: Option<String>)
    requires
        d.wf(),
        !d.knows(address@),
    ensures
        ({
            let after = d.agent_event(AgentSystemEvent::Hosted { address, parent });
            &&& after.current == d.current
            &&& after.conv == d.conv
            &&& after.knows(address@)
            &&& after.all()[address@].parent == text::opt_text(parent)
            &&& after.all()[address@].status == "Ready"@
            &&& after.all()[address@].entries.len() == 0
            &&& !after.all()[address@].run_active
            &&& forall|k: Seq<char>|
                d.knows(k) ==> after.knows(k) && after.all()[k] == #[trigger] d.all()[k]
        }),
{
    reveal(Desk::agent_event);
    reveal(Desk::introduce);
    reveal(Desk::switch);
    reveal(Desk::on_event);
    let event = AgentSystemEvent::Hosted { address, parent };
    let after = d.agent_event(event);
    let there = d.introduce(event).switch(address@).on_event(event);
    assert(d.introduce(event).agents.dom().contains(address@));
    assert(there.agents.dom().contains(d.current));
    assert forall|k: Seq<char>| d.knows(k) implies after.knows(k) && after.all()[k]
        == #[trigger] d.all()[k] by {
        assert(k != address@);
    }
}

/// A resumed runtime is told in the conversation of its agent.
pub proof fn resumed_runtimes_are_told(d: Desk, address: String)
    requires
        d.wf(),
        d.current == address@,
    ensures
        ({
            let after = d.on_event(
                AgentSystemEvent::ActorRuntime { address, event: RuntimeEvent::RuntimeResumed },
            );
            let row = after.conv.entries[d.conv.committed];
            &&& after.conv.entries.len() == d.conv.entries.len() + 1
            &&& row.kind == EntryKind::System
            &&& text::starts_with(row.body, address@)
        }),
{
    reveal(Desk::on_event);
    reveal(Desk::runtime_event);
    reveal(Desk::push_entry);
    reveal(Conv::pin);
    text_laws::prefixes_come_off(address@, " resumed with a fresh TypeScript isolate."@);
}

/// A command that is done lets the next one begin, whether it worked or not,
/// and says what came of it in the conversation of the root.
pub proof fn finished_commands_unblock(d: Desk, result: CommandResult)
    requires
        d.wf(),
        d.current == desk::root(),
        d.answers(result),
        result is Compact || result is SwitchModel || result is SetEffort,
    ensures
        ({
            let after = d.command_result(result);
            let row = after.conv.entries[d.conv.committed];
            let said = match result {
                CommandResult::Compact(said) => said,
                CommandResult::SwitchModel { index, result: said } => said,
                CommandResult::SetEffort { index, effort, result: said } => said,
                _ => Ok(arbitrary()),
            };
            &&& !after.command
            &&& after.busy == (d.root_active || d.interrupting)
            &&& after.conv.entries.len() == d.conv.entries.len() + 1
            &&& after.input == d.input
            &&& after.steers == d.steers
            &&& said matches Ok(message) ==> row.kind == EntryKind::System && row.body == message@
                && after.conv.status == "Ready"@
            &&& said matches Err(error) ==> row.kind == EntryKind::Error && row.body == error@
                && after.conv.status == "Error"@
        }),
{
    reveal(Desk::command_result);
    reveal(Desk::on_result);
    reveal(Desk::switch);
    reveal(Desk::push_entry);
    reveal(Desk::push_error);
    reveal(Conv::pin);
}

/// A model that was switched to is the one in use from then on, and the root
/// says so; one that was not switched to changes nothing. Only an effort that
/// was set changes, and only for its model.
pub proof fn switches_take_effect(d: Desk, result: CommandResult)
    requires
        d.wf(),
        d.current == desk::root(),
        d.answers(result),
    ensures
        ({
            let after = d.command_result(result);
            &&& result matches CommandResult::SwitchModel { index, result: Ok(_) }
                ==> after.selected_model == index && after.conv.model == Some(
                d.models[index as int].registry_id@,
            )
            &&& !(result matches CommandResult::SwitchModel { index, result: Ok(_) })
                ==> after.selected_model == d.selected_model && after.conv.model == d.conv.model
            &&& after.models == d.models
            &&& after.efforts.len() == d.efforts.len()
            &&& result matches CommandResult::SetEffort { index, effort, result: Ok(_) } ==> {
                let chosen = after.efforts[index as int] as int;
                &&& chosen < d.models[index as int].efforts@.len()
                &&& d.models[index as int].efforts@[chosen]@ == effort@
                &&& forall|k: int|
                    0 <= k < d.efforts.len() && k != index ==> after.efforts[k]
                        == #[trigger] d.efforts[k]
            }
            &&& !(result matches CommandResult::SetEffort { index, effort, result: Ok(_) })
                ==> after.efforts == d.efforts
        }),
{
    reveal(Desk::command_result);
    reveal(Desk::on_result);
    reveal(Desk::switch);
    reveal(Desk::push_entry);
    reveal(Desk::push_error);
    reveal(Desk::receipt);
    reveal(Desk::rejected);
    reveal(Desk::interrupt_result);
    reveal(Conv::pin);
    reveal(desk::efforts_ok);
    if let CommandResult::SetEffort { index, effort, result: Ok(message) } = result {
        let efforts = d.models[index as int].efforts@;
        let list = text::texts(efforts);
        lemma_string_index(list, 0, effort@);
        let chosen = desk::string_index(list, 0, effort@)->0;
        assert(list[chosen] == efforts[chosen]@);
        assert(d.models[index as int].efforts.len() == efforts.len());
        assert(index < d.efforts.len());
    }
}

proof fn lemma_string_index(list: Seq<Seq<char>>, i: int, s: Seq<char>)
    requires
        0 <= i <= list.len(),
    ensures
        desk::string_index(list, i, s) matches Some(k) ==> i <= k < list.len() && list[k] == s,
    decreases list.len() - i,
{
    if i < list.len() && list[i] != s {
        lemma_string_index(list, i + 1, s);
    }
}

/// An interruption is over when its result arrives: commands wait no longer
/// for it, and a failure to stop the run is reported.
pub proof fn interruptions_end(d: Desk, result: Result<bool, String>)
    requires
        d.wf(),
        d.current == desk::root(),
    ensures
        ({
            let after = d.command_result(CommandResult::Interrupt(result));
            &&& !after.interrupting
            &&& after.busy == (d.command || d.root_active)
            &&& after.root_active == d.root_active
            &&& result is Ok ==> after.conv.entries == d.conv.entries && after.conv.status == (
            if d.root_active {
                "/root is working…"@
            } else {
                "Ready"@
            })
            &&& result matches Err(error) ==> after.conv.entries.len() == d.conv.entries.len() + 1
                && after.conv.entries[d.conv.committed].kind == EntryKind::Error
                && after.conv.entries[d.conv.committed].body == error@
        }),
{
    reveal(Desk::command_result);
    reveal(Desk::on_result);
    reveal(Desk::switch);
    reveal(Desk::interrupt_result);
    reveal(Desk::push_error);
    reveal(Conv::pin);
}

/// An event tells the journal of its own agent to be read first, unless it is
/// a streamed piece, which commits nothing.
pub proof fn events_have_their_journal_read(event: AgentSystemEvent)
    ensures
        events::folds(event) is None <==> (event matches AgentSystemEvent::Run {
            address,
            event: RunEvent::ModelDelta { .. },
        }),
        events::folds(event) matches Some(address) ==> address == events::event_address(event),
        event matches AgentSystemEvent::Hosted { address, .. } ==> events::event_address(event)
            == address@,
        event matches AgentSystemEvent::Retired { address, .. } ==> events::event_address(event)
            == address@,
        event matches AgentSystemEvent::Run { address, .. } ==> events::event_address(event)
            == address@,
        event matches AgentSystemEvent::ActorRuntime { address, .. } ==> events::event_address(
            event,
        ) == address@,
{
}

} // verus!
