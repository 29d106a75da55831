//! The interface of a session that has just been opened.

use crate::agents::AgentTable;
use crate::app;
use crate::app::{find_string, App, SessionView};
use crate::config::ModelChoice;
use crate::conversation;
use crate::conversation::{AgentConversation, Conv, ConversationEntry, Entry, EntryKind};
use crate::desk;
use crate::desk::{Desk, Focus, Pane};
use crate::history::AgentHistory;
use crate::input::{Draft, InputBuffer};
use crate::text;
use vstd::prelude::*;
use vstd::string::*;

verus! {

/// Index of the first agent at `/root`, from `i` on.
pub open spec fn root_at(agents: Seq<AgentHistory>, i: int) -> Option<int>
    decreases agents.len() - i,
{
    if i < 0 || i >= agents.len() {
        None
    } else if agents[i].address@ == desk::root() {
        Some(i)
    } else {
        root_at(agents, i + 1)
    }
}

/// The root's conversation before any notice: an idle one without rows when
/// the history has no root.
pub open spec fn root_conv(agents: Seq<AgentHistory>) -> Conv {
    match root_at(agents, 0) {
        Some(i) => Conv::from_history(agents[i], 0),
        None => Conv {
            selected: None,
            ..Conv::blank(None, "Ready"@, 0)
        },
    }
}

/// The conversations of the first `n` agents other than the one restored as
/// the root, created in the order of the list; a later one at the same address
/// wins.
pub open spec fn others(agents: Seq<AgentHistory>, n: int) -> (Map<Seq<char>, Conv>, int)
    decreases n,
{
    if n <= 0 {
        (Map::empty(), 1)
    } else {
        let (before, ord) = others(agents, n - 1);
        let a = agents[n - 1];
        if root_at(agents, 0) == Some(n - 1) {
            (before, ord)
        } else {
            (
                before.insert(a.address@, Conv::from_history(a, ord as u64)),
                conversation::sat_succ(ord, u64::MAX as int),
            )
        }
    }
}

/// The notice that a session is ready.
pub open spec fn ready_message(
    session: SessionView,
    model: ModelChoice,
    config_path: Seq<char>,
) -> Seq<char> {
    (if session.resumed {
        "Resumed"@
    } else {
        "Started"@
    }) + " durable session #"@ + text::decimal(session.id as nat)
        + ". Coding and multi-agent capabilities are active. Using "@ + model.display_name@
        + " ("@ + text::decimal(model.context_window as nat) + " token context). Journal: "@
        + session.journal_path@ + ". Configuration: "@ + config_path + "."@
}

/// The conversation with the first `n` warnings pinned behind it.
pub open spec fn warned(entries: Seq<Entry>, warnings: Seq<Seq<char>>, n: int) -> Seq<Entry>
    decreases n,
{
    if n <= 0 {
        entries
    } else {
        warned(entries, warnings, n - 1).push(
            conversation::plain(EntryKind::System, "Provider unavailable"@, warnings[n - 1]),
        )
    }
}

/// The effort a model starts with: the last of its list, or the requested one
/// for the model that starts selected.
pub open spec fn initial_efforts(
    models: Seq<ModelChoice>,
    selected: int,
    effort: Seq<char>,
) -> Seq<usize> {
    Seq::new(
        models.len(),
        |i: int|
            {
                let list = text::texts(models[i].efforts@);
                match desk::string_index(list, 0, effort) {
                    Some(k) => if i == selected {
                        k as usize
                    } else {
                        (list.len() - 1) as usize
                    },
                    None => (list.len() - 1) as usize,
                }
            },
    )
}

/// The state a session opens with.
pub open spec fn opening(
    cwd: Seq<char>,
    config_path: Seq<char>,
    session: SessionView,
    models: Seq<ModelChoice>,
    selected_model: int,
    effort: Seq<char>,
    warnings: Seq<Seq<char>>,
    pane: Pane,
) -> Desk {
    let agents = session.agents@;
    let base = root_conv(agents);
    let entries = warned(
        base.entries.push(
            conversation::plain(
                EntryKind::System,
                "Ready"@,
                ready_message(session, models[selected_model], config_path),
            ),
        ),
        warnings,
        warnings.len() as int,
    );
    Desk {
        cwd,
        session_id: session.id,
        sessions: app::sessions_of(session.choices@),
        models,
        selected_model,
        efforts: initial_efforts(models, selected_model, effort),
        focus: Focus::Input,
        input: Draft::empty(),
        recall: None,
        pane,
        suggestion: 0,
        busy: base.run_active,
        should_exit: false,
        selection: None,
        toast: None,
        current: desk::root(),
        steers: Seq::empty(),
        conv: Conv {
            entries,
            committed: entries.len() as int,
            selected: Some(entries.len() - 1),
            ..base
        },
        agents: others(agents, agents.len() as int).0,
        root_active: base.run_active,
        next_ord: others(agents, agents.len() as int).1 as u64,
        command: false,
        deadline: None,
        interrupting: false,
        armed: None,
        notice: None,
    }
}

/// Whether nothing has been rendered yet.
pub open spec fn unrendered(pane: Pane) -> bool {
    &&& pane.input_width == 80
    &&& pane.input_scroll == 0
    &&& pane.input_area is None
    &&& pane.conversation_ranges@.len() == 0
    &&& pane.conversation_viewport_height == 1
    &&& pane.conversation_total_lines == 0
    &&& pane.hitboxes@.len() == 0
    &&& pane.conversation_rows@.len() == 0
    &&& pane.conversation_area is None
}

proof fn lemma_root_at(agents: Seq<AgentHistory>, i: int)
    requires
        0 <= i <= agents.len(),
    ensures
        root_at(agents, i) matches Some(k) ==> i <= k < agents.len() && agents[k].address@
            == desk::root(),
    decreases agents.len() - i,
{
    if i < agents.len() && agents[i].address@ != desk::root() {
        lemma_root_at(agents, i + 1);
    }
}

proof fn lemma_others(agents: Seq<AgentHistory>, n: int)
    requires
        0 <= n <= agents.len(),
    ensures
        1 <= others(agents, n).1 <= u64::MAX,
        forall|k: Seq<char>| #[trigger]
            others(agents, n).0.dom().contains(k) ==> others(agents, n).0[k].wf(),
    decreases n,
{
    if n > 0 {
        lemma_others(agents, n - 1);
        let a = agents[n - 1];
        assert forall|k: Seq<char>| #[trigger]
            others(agents, n).0.dom().contains(k) implies others(agents, n).0[k].wf() by {
            conversation::lemma_from_history(a, others(agents, n - 1).1 as u64);
            if k != a.address@ {
                assert(others(agents, n - 1).0.dom().contains(k));
            }
        }
    }
}

/// The conversations of all agents other than the one restored as the root,
/// and the next free create order.
fn restore_others(agents: &Vec<AgentHistory>) -> (r: (AgentTable, u64))
    ensures
        r.0@ == others(agents@, agents@.len() as int).0,
        r.1 == others(agents@, agents@.len() as int).1,
        r.0.wf(),
{
    let mut table = AgentTable::new();
    let mut ord: u64 = 1;
    let mut rooted = false;
    let mut i: usize = 0;
    while i < agents.len()
        invariant
            i <= agents@.len(),
            table.wf(),
            !rooted ==> root_at(agents@, 0) == root_at(agents@, i as int),
            rooted ==> (root_at(agents@, 0) matches Some(k) && k < i),
            table@ == others(agents@, i as int).0,
            ord == others(agents@, i as int).1,
        decreases agents@.len() - i,
    {
        let agent = &agents[i];
        proof {
            lemma_root_at(agents@, i + 1);
        }
        if !rooted && text::same(agent.address.as_str(), "/root") {
            rooted = true;
        } else {
            let ghost before = table@;
            table.remove(agent.address.as_str());
            table.insert(agent.address.clone(), AgentConversation::from_history(agent, ord));
            proof {
                let c = Conv::from_history(*agent, ord);
                assert(table@ =~= before.insert(agent.address@, c));
            }
            ord = ord.saturating_add(1);
        }
        i += 1;
    }
    (table, ord)
}

/// The root's conversation before any notice.
fn restore_root(agents: &Vec<AgentHistory>) -> (r: AgentConversation)
    ensures
        r@ == root_conv(agents@),
        r@.wf(),
{
    let mut i: usize = 0;
    while i < agents.len()
        invariant
            i <= agents@.len(),
            root_at(agents@, 0) == root_at(agents@, i as int),
        decreases agents@.len() - i,
    {
        if text::same(agents[i].address.as_str(), "/root") {
            return AgentConversation::from_history(&agents[i], 0);
        }
        i += 1;
    }
    AgentConversation::empty(None, "Ready", 0)
}

/// The efforts the models start with.
fn starting_efforts(models: &Vec<ModelChoice>, selected: usize, effort: &str) -> (r: Vec<usize>)
    requires
        forall|i: int| 0 <= i < models@.len() ==> (#[trigger] models@[i]).efforts@.len() > 0,
    ensures
        r@ == initial_efforts(models@, selected as int, effort@),
        desk::efforts_ok(models@, r@),
{
    let mut r: Vec<usize> = Vec::new();
    let mut i: usize = 0;
    let ghost all = initial_efforts(models@, selected as int, effort@);
    while i < models.len()
        invariant
            i <= models@.len(),
            all == initial_efforts(models@, selected as int, effort@),
            forall|k: int| 0 <= k < models@.len() ==> (#[trigger] models@[k]).efforts@.len() > 0,
            r@ == all.take(i as int),
            forall|k: int| 0 <= k < i ==> #[trigger] r@[k] < models@[k].efforts@.len(),
        decreases models@.len() - i,
    {
        let last: usize = models[i].efforts.len() - 1;
        let chosen: usize = match find_string(&models[i].efforts, effort) {
            Some(k) => if i == selected {
                k
            } else {
                last
            },
            None => last,
        };
        proof {
            assert(text::texts(models@[i as int].efforts@).len()
                == models@[i as int].efforts@.len());
            assert(all[i as int] == chosen);
            assert(all.take(i + 1) =~= all.take(i as int).push(chosen));
        }
        r.push(chosen);
        i += 1;
    }
    proof {
        reveal(desk::efforts_ok);
        assert(all.take(all.len() as int) =~= all);
    }
    r
}

fn ready_text(session: &SessionView, model: &ModelChoice, config_path: &str) -> (r: String)
    ensures
        r@ == ready_message(*session, *model, config_path@),
{
    let mut m = if session.resumed {
        "Resumed".to_owned()
    } else {
        "Started".to_owned()
    };
    m.append(" durable session #");
    m.append(text::decimal_text(session.id).as_str());
    m.append(". Coding and multi-agent capabilities are active. Using ");
    m.append(model.display_name.as_str());
    m.append(" (");
    m.append(text::decimal_text(model.context_window).as_str());
    m.append(" token context). Journal: ");
    m.append(session.journal_path.as_str());
    m.append(". Configuration: ");
    m.append(config_path);
    m.append(".");
    m
}

/// Appends the notices a session opens with to the root's rows.
fn announce(view: &mut AgentConversation, ready: String, warnings: &Vec<String>)
    requires
        old(view)@.wf(),
    ensures
        ({
            let entries = warned(
                old(view)@.entries.push(
                    conversation::plain(EntryKind::System, "Ready"@, ready@),
                ),
                text::texts(warnings@),
                warnings@.len() as int,
            );
            final(view)@ == (Conv {
                entries,
                committed: entries.len() as int,
                selected: Some(entries.len() - 1),
                ..old(view)@
            })
        }),
        final(view)@.wf(),
{
    let ghost base = view@.entries;
    view.entries.push(
        ConversationEntry::plain(EntryKind::System, "Ready".to_owned(), ready),
    );
    let ghost first = base.push(conversation::plain(EntryKind::System, "Ready"@, ready@));
    proof {
        assert(view@.entries =~= first);
        conversation::lemma_cursor_insert(
            base,
            0,
            conversation::plain(EntryKind::System, "Ready"@, ready@),
        );
    }
    let mut i: usize = 0;
    while i < warnings.len()
        invariant
            i <= warnings@.len(),
            view@ == (Conv {
                entries: warned(first, text::texts(warnings@), i as int),
                ..old(view)@
            }),
            view@.entries.len() > 0,
            conversation::one_cursor(view@.entries),
        decreases warnings@.len() - i,
    {
        let ghost before = view@.entries;
        view.entries.push(
            ConversationEntry::plain(
                EntryKind::System,
                "Provider unavailable".to_owned(),
                warnings[i].clone(),
            ),
        );
        proof {
            assert(text::texts(warnings@)[i as int] == warnings@[i as int]@);
            let notice = conversation::plain(
                EntryKind::System,
                "Provider unavailable"@,
                warnings@[i as int]@,
            );
            assert(view@.entries =~= before.push(notice));
            conversation::lemma_cursor_insert(before, 0, notice);
        }
        i += 1;
    }
    let count: usize = view.entries.len();
    view.committed_len = count;
    view.selected_entry = Some(count - 1);
}

impl App {
    /// The interface of a session that has just been opened. The root agent is
    /// viewed; the other agents keep the order of the list.
    pub fn new(
        cwd: String,
        config_path: String,
        session: SessionView,
        models: Vec<ModelChoice>,
        selected_model: usize,
        selected_effort: &str,
        startup_warnings: Vec<String>,
    ) -> (r: Self)
        requires
            selected_model < models@.len(),
            forall|i: int| 0 <= i < models@.len() ==> (#[trigger] models@[i]).efforts@.len() > 0,
        ensures
            unrendered(r.pane),
            r@ == opening(
                cwd@,
                config_path@,
                session,
                models@,
                selected_model as int,
                selected_effort@,
                text::texts(startup_warnings@),
                r.pane,
            ),
            r.wf(),
    {
        let ready = ready_text(&session, &models[selected_model], config_path.as_str());
        let mut view = restore_root(&session.agents);
        let run_active = view.run_active;
        let ghost base = view@;
        announce(&mut view, ready, &startup_warnings);
        proof {
            assert(text::texts(startup_warnings@).len() == startup_warnings@.len());
            lemma_others(session.agents@, session.agents@.len() as int);
        }
        let (agents, next_agent_ord) = restore_others(&session.agents);
        let selected_efforts = starting_efforts(&models, selected_model, selected_effort);
        let session_id: u64 = session.id;
        let pane = Pane {
            input_width: 80,
            input_scroll: 0,
            input_area: None,
            conversation_ranges: Vec::new(),
            conversation_viewport_height: 1,
            conversation_total_lines: 0,
            hitboxes: Vec::new(),
            conversation_rows: Vec::new(),
            conversation_area: None,
        };
        let r = App {
            cwd,
            session_id,
            sessions: session.choices,
            models,
            selected_model,
            selected_efforts,
            focus: Focus::Input,
            input: InputBuffer::empty(),
            input_history: None,
            pane,
            suggestion_index: 0,
            busy: run_active,
            should_exit: false,
            text_selection: None,
            toast: None,
            current_agent: "/root".to_owned(),
            pending_steers: Vec::new(),
            view,
            agents,
            root_run_active: run_active,
            next_agent_ord,
            command_in_flight: false,
            interruption_deadline: None,
            interruption_in_progress: false,
            armed_session: None,
            session_notice: None,
        };
        proof {
            reveal(desk::agents_ok);
            assert(app::steers_of(r.pending_steers@) =~= Seq::empty());
        }
        r
    }
}

} // verus!
