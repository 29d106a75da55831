//! What a session opens with: restored conversations, notices, efforts, the
//! listing of its agents and the search services of its configuration.

use crate::agent_config;
use crate::agent_config::{ExaFunctions, ParallelFunctions, ProviderSection, Skip};
use crate::agents;
use crate::app::SessionView;
use crate::config::ModelChoice;
use crate::conversation;
use crate::conversation::{Conv, EntryKind};
use crate::desk;
use crate::desk::{Focus, Pane};
use crate::history::AgentHistory;
use crate::intent;
use crate::startup;
use crate::text;
use crate::text_laws;
use vstd::prelude::*;

verus! {

proof fn lemma_warned(entries: Seq<conversation::Entry>, warnings: Seq<Seq<char>>, n: int)
    requires
        0 <= n <= warnings.len(),
    ensures
        ({
            let all = startup::warned(entries, warnings, n);
            &&& all.len() == entries.len() + n
            &&& all.take(entries.len() as int) == entries
            &&& forall|k: int|
                0 <= k < n ==> {
                    let e = #[trigger] all[entries.len() + k];
                    e.kind == EntryKind::System && e.body == warnings[k]
                }
        }),
    decreases n,
{
    let all = startup::warned(entries, warnings, n);
    if n > 0 {
        lemma_warned(entries, warnings, n - 1);
        let before = startup::warned(entries, warnings, n - 1);
        assert(all.take(entries.len() as int) =~= before.take(entries.len() as int));
        assert forall|k: int| 0 <= k < n implies {
            let e = #[trigger] all[entries.len() + k];
            e.kind == EntryKind::System && e.body == warnings[k]
        } by {
            if k < n - 1 {
                assert(all[entries.len() + k] == before[entries.len() + k]);
            }
        }
    } else {
        assert(all.take(entries.len() as int) =~= entries);
    }
}

proof fn lemma_root_at(agents: Seq<AgentHistory>, i: int, k: int)
    requires
        0 <= k <= i < agents.len(),
        agents[i].address@ == desk::root(),
        forall|j: int| k <= j < i ==> (#[trigger] agents[j]).address@ != desk::root(),
    ensures
        startup::root_at(agents, k) == Some(i),
    decreases i - k,
{
    if k < i {
        assert(agents[k].address@ != desk::root());
        lemma_root_at(agents, i, k + 1);
    }
}

proof fn lemma_no_root(agents: Seq<AgentHistory>, k: int)
    requires
        0 <= k <= agents.len(),
        forall|j: int| k <= j < agents.len() ==> (#[trigger] agents[j]).address@ != desk::root(),
    ensures
        startup::root_at(agents, k) is None,
    decreases agents.len() - k,
{
    if k < agents.len() {
        assert(agents[k].address@ != desk::root());
        lemma_no_root(agents, k + 1);
    }
}

/// A session opens with the rows of its root, if it has one, then a row that
/// says it is ready, then a row for each warning; the last row is selected
/// and the input has the focus.
pub proof fn sessions_open_with_their_rows(
    cwd: Seq<char>,
    path: Seq<char>,
    session: SessionView,
    models: Seq<ModelChoice>,
    selected: int,
    effort: Seq<char>,
    warnings: Seq<Seq<char>>,
    pane: Pane,
    i: int,
    k: int,
)
    requires
        -1 <= i < session.agents@.len(),
        i >= 0 ==> session.agents@[i].address@ == desk::root(),
        forall|j: int|
            0 <= j < (if i >= 0 {
                i
            } else {
                session.agents@.len() as int
            }) ==> (#[trigger] session.agents@[j]).address@ != desk::root(),
    ensures
        ({
            let d = startup::opening(
                cwd,
                path,
                session,
                models,
                selected,
                effort,
                warnings,
                pane,
            );
            let old = if i >= 0 {
                Conv::from_history(session.agents@[i], 0).entries
            } else {
                Seq::empty()
            };
            let rows = d.conv.entries;
            &&& rows.len() == old.len() + 1 + warnings.len()
            &&& rows.take(old.len() as int) == old
            &&& rows[old.len() as int].kind == EntryKind::System
            &&& rows[old.len() as int].body == startup::ready_message(
                session,
                models[selected],
                path,
            )
            &&& 0 <= k < warnings.len() ==> {
                &&& rows[old.len() + 1 + k].kind == EntryKind::System
                &&& rows[old.len() + 1 + k].body == warnings[k]
            }
            &&& d.conv.selected == Some(rows.len() - 1)
            &&& d.focus == Focus::Input && d.input.text.len() == 0 && d.current == desk::root()
            &&& d.session_id == session.id && d.cwd == cwd && d.models == models
                && d.selected_model == selected
            &&& d.busy == (i >= 0 && !session.agents@[i].run_completed)
            &&& !d.should_exit && !d.command && d.steers.len() == 0
        }),
{
    let agents = session.agents@;
    if i >= 0 {
        lemma_root_at(agents, i, 0);
    } else {
        lemma_no_root(agents, 0);
    }
    let base = startup::root_conv(agents);
    let first = base.entries.push(
        conversation::plain(
            EntryKind::System,
            "Ready"@,
            startup::ready_message(session, models[selected], path),
        ),
    );
    lemma_warned(first, warnings, warnings.len() as int);
    let rows = startup::warned(first, warnings, warnings.len() as int);
    if i < 0 {
        assert(base.entries =~= Seq::empty());
    }
    assert(rows.take(base.entries.len() as int) =~= rows.take(first.len() as int).take(
        base.entries.len() as int,
    ));
    assert(first.take(base.entries.len() as int) =~= base.entries);
    assert(rows[base.entries.len() as int] == rows.take(
        first.len() as int,
    )[base.entries.len() as int]);
    if 0 <= k < warnings.len() {
        assert(rows[first.len() + k].body == warnings[k]);
    }
}

/// The row that says a session is ready tells whether it was resumed, its
/// number, its model and where its journal and configuration are.
pub proof fn ready_rows_tell_the_session(session: SessionView, model: ModelChoice, path: Seq<char>)
    ensures
        ({
            let s = startup::ready_message(session, model, path);
            &&& text::starts_with(
                s,
                if session.resumed {
                    "Resumed"@
                } else {
                    "Started"@
                },
            )
            &&& text::contains(s, "#"@ + text::decimal(session.id as nat) + "."@)
            &&& text::contains(s, model.display_name@)
            &&& text::contains(s, text::decimal(model.context_window as nat))
            &&& text::contains(s, session.journal_path@)
            &&& text::contains(s, path)
        }),
{
    let s = startup::ready_message(session, model, path);
    let first = if session.resumed {
        "Resumed"@
    } else {
        "Started"@
    };
    let a = " durable session #"@;
    let id = text::decimal(session.id as nat);
    let b = ". Coding and multi-agent capabilities are active. Using "@;
    let name = model.display_name@;
    let window = text::decimal(model.context_window as nat);
    let c = " token context). Journal: "@;
    let journal = session.journal_path@;
    let e = ". Configuration: "@;
    assert(s.take(first.len() as int) =~= first);
    reveal_strlit(" durable session #");
    reveal_strlit(". Coding and multi-agent capabilities are active. Using ");
    reveal_strlit("#");
    reveal_strlit(".");
    let a0 = a.take(a.len() - 1);
    let b0 = b.skip(1);
    assert(a =~= a0 + "#"@);
    assert(b =~= "."@ + b0);
    let after = name + " ("@ + window + c + journal + e + path + "."@;
    text_laws::containing_is_having_inside(first + a0, "#"@ + id + "."@, b0 + after);
    assert(s =~= first + a0 + ("#"@ + id + "."@) + (b0 + after));
    let upto = first + a + id + b;
    let tail = " ("@ + window + c + journal + e + path + "."@;
    text_laws::containing_is_having_inside(upto, name, tail);
    assert(s =~= upto + name + tail);
    let tail2 = c + journal + e + path + "."@;
    text_laws::containing_is_having_inside(upto + name + " ("@, window, tail2);
    assert(s =~= upto + name + " ("@ + window + tail2);
    let upto3 = upto + name + " ("@ + window + c;
    text_laws::containing_is_having_inside(upto3, journal, e + path + "."@);
    assert(s =~= upto3 + journal + (e + path + "."@));
    text_laws::containing_is_having_inside(upto3 + journal + e, path, "."@);
    assert(s =~= upto3 + journal + e + path + "."@);
}

proof fn lemma_others(agents: Seq<AgentHistory>, n: int, i: int)
    requires
        0 <= i < n <= agents.len() < u64::MAX,
        startup::root_at(agents, 0) != Some(i),
        forall|j: int| i < j < n ==> (#[trigger] agents[j]).address@ != agents[i].address@,
    ensures
        startup::others(agents, n).0.dom().contains(agents[i].address@),
        startup::others(agents, n).0[agents[i].address@] == Conv::from_history(
            agents[i],
            startup::others(agents, i).1 as u64,
        ),
    decreases n,
{
    if i < n - 1 {
        assert(agents[n - 1].address@ != agents[i].address@);
        lemma_others(agents, n - 1, i);
    }
}

proof fn lemma_ords(agents: Seq<AgentHistory>, i: int, n: int)
    requires
        0 <= i <= n <= agents.len() < u64::MAX,
    ensures
        1 <= startup::others(agents, i).1 <= startup::others(agents, n).1 <= n + 1,
        i < n && startup::root_at(agents, 0) != Some(i) ==> startup::others(agents, i).1
            < startup::others(agents, n).1,
    decreases n,
{
    if n > 0 {
        if i < n {
            lemma_ords(agents, i, n - 1);
        } else {
            lemma_ords(agents, n - 1, n - 1);
        }
    }
}

proof fn lemma_only_agents(agents: Seq<AgentHistory>, n: int, address: Seq<char>) -> (i: int)
    requires
        0 <= n <= agents.len(),
        startup::others(agents, n).0.dom().contains(address),
    ensures
        0 <= i < n,
        agents[i].address@ == address,
        startup::root_at(agents, 0) != Some(i),
    decreases n,
{
    if n <= 0 {
        assert(false);
        0
    } else if startup::root_at(agents, 0) != Some(n - 1) && agents[n - 1].address@ == address {
        n - 1
    } else {
        lemma_only_agents(agents, n - 1, address)
    }
}

/// Every other agent of the session is restored from its history, and those
/// that come later in the list count as created later.
pub proof fn agents_are_restored(agents: Seq<AgentHistory>, i: int, j: int)
    requires
        0 <= i < j < agents.len() < u64::MAX,
        agents[i].address@ != desk::root(),
        agents[j].address@ != desk::root(),
        forall|a: int, b: int|
            0 <= a < b < agents.len() ==> (#[trigger] agents[a]).address@ != (
            #[trigger] agents[b]).address@,
    ensures
        ({
            let all = startup::others(agents, agents.len() as int).0;
            let first = all[agents[i].address@];
            let second = all[agents[j].address@];
            &&& all.dom().contains(agents[i].address@) && all.dom().contains(agents[j].address@)
            &&& first == Conv::from_history(agents[i], first.created_ord)
            &&& second == Conv::from_history(agents[j], second.created_ord)
            &&& first.created_ord < second.created_ord
        }),
{
    let n = agents.len() as int;
    lemma_root_is_root(agents, 0);
    lemma_others(agents, n, i);
    lemma_others(agents, n, j);
    lemma_ords(agents, i, j);
    lemma_ords(agents, j, n);
}

proof fn lemma_root_is_root(agents: Seq<AgentHistory>, k: int)
    requires
        0 <= k,
    ensures
        startup::root_at(agents, k) matches Some(i) ==> k <= i < agents.len()
            && agents[i].address@ == desk::root(),
    decreases agents.len() - k,
{
    if k < agents.len() {
        lemma_root_is_root(agents, k + 1);
    }
}

/// No agent is made up: each that is restored besides the root is in the
/// list.
pub proof fn restored_agents_are_listed(agents: Seq<AgentHistory>, address: Seq<char>) -> (i: int)
    requires
        startup::others(agents, agents.len() as int).0.dom().contains(address),
    ensures
        0 <= i < agents.len(),
        agents[i].address@ == address,
{
    lemma_only_agents(agents, agents.len() as int, address)
}

proof fn lemma_string_at(list: Seq<Seq<char>>, i: int, s: Seq<char>)
    requires
        0 <= i,
    ensures
        desk::string_index(list, i, s) matches Some(k) ==> i <= k < list.len() && list[k] == s,
        desk::string_index(list, i, s) is None ==> forall|j: int|
            i <= j < list.len() ==> list[j] != s,
    decreases list.len() - i,
{
    if i < list.len() {
        lemma_string_at(list, i + 1, s);
    }
}

/// The selected model starts with the effort that was asked for, if it has
/// it; every other model with the last of its own.
pub proof fn models_start_with_an_effort(
    models: Seq<ModelChoice>,
    selected: int,
    effort: Seq<char>,
    i: int,
    k: int,
)
    requires
        0 <= i < models.len(),
        0 <= k < models[i].efforts@.len(),
        models[i].efforts@.len() <= usize::MAX,
    ensures
        ({
            let at = startup::initial_efforts(models, selected, effort)[i] as int;
            let efforts = models[i].efforts@;
            &&& 0 <= at < efforts.len()
            &&& i == selected && efforts[k]@ == effort ==> efforts[at]@ == effort
            &&& i != selected ==> at == efforts.len() - 1
            &&& (forall|j: int| 0 <= j < efforts.len() ==> (#[trigger] efforts[j])@ != effort)
                ==> at == efforts.len() - 1
        }),
{
    let efforts = models[i].efforts@;
    let list = text::texts(efforts);
    lemma_string_at(list, 0, effort);
    assert(list[k] == efforts[k]@);
    if desk::string_index(list, 0, effort) is Some {
        let at = desk::string_index(list, 0, effort)->0;
        assert(list[at] == efforts[at]@);
    }
}

/// Dictionary order: a text stands before its continuations, and otherwise
/// the first character that differs decides.
pub proof fn dictionary_order_goes_by_the_first_difference(
    p: Seq<char>,
    a: char,
    b: char,
    x: Seq<char>,
    y: Seq<char>,
)
    ensures
        agents::lex_lt(p, p + seq![a] + x),
        !agents::lex_lt(p + seq![a] + x, p),
        !agents::lex_lt(p, p),
        a != b ==> (agents::lex_lt(p + seq![a] + x, p + seq![b] + y) <==> a < b),
    decreases p.len(),
{
    let left = p + seq![a] + x;
    let right = p + seq![b] + y;
    if p.len() > 0 {
        dictionary_order_goes_by_the_first_difference(p.skip(1), a, b, x, y);
        assert(left.skip(1) =~= p.skip(1) + seq![a] + x);
        assert(right.skip(1) =~= p.skip(1) + seq![b] + y);
        assert(left[0] == p[0] && right[0] == p[0]);
    } else {
        assert(left[0] == a && right[0] == b);
    }
}

proof fn lemma_tops_keep(
    all: Map<Seq<char>, Conv>,
    listing: Seq<Seq<char>>,
    i: nat,
    done: Seq<Seq<char>>,
    a: Seq<char>,
)
    requires
        i <= listing.len(),
        done.contains(a) || (agents::is_top(all, a) && exists|k: int|
            i <= k < listing.len() && listing[k] == a),
        listing.len() > 0,
    ensures
        agents::visit_tops(all, listing, i, done).contains(a),
    decreases listing.len() - i,
{
    if i < listing.len() {
        let at = listing[i as int];
        if agents::is_top(all, at) && !done.contains(at) {
            let more = agents::visit(all, listing, at, listing.len());
            let next = done + more;
            if done.contains(a) {
                let k = choose|k: int| 0 <= k < done.len() && done[k] == a;
                assert(next[k] == a);
            } else if at == a {
                assert(more[0] == a);
                assert(next[done.len() as int] == a);
            }
            lemma_tops_keep(all, listing, i + 1, next, a);
        } else {
            lemma_tops_keep(all, listing, i + 1, done, a);
        }
    }
}

/// Every agent without a known parent is listed.
pub proof fn top_agents_are_listed(all: Map<Seq<char>, Conv>, a: Seq<char>)
    requires
        all.dom().finite(),
        all.dom().contains(a),
        agents::is_top(all, a) || a == "/root"@,
    ensures
        agents::tree_order(all).contains(a),
{
    agents::lemma_order_exists(all);
    let listing = agents::order(all);
    assert(listing.contains(a));
    let k = choose|k: int| 0 <= k < listing.len() && listing[k] == a;
    let first = if all.dom().contains("/root"@) {
        agents::visit(all, listing, "/root"@, listing.len())
    } else {
        Seq::empty()
    };
    if a == "/root"@ {
        assert(first[0] == a);
    }
    lemma_tops_keep(all, listing, 0, first, a);
}

proof fn lemma_child(
    all: Map<Seq<char>, Conv>,
    listing: Seq<Seq<char>>,
    parent: Seq<char>,
    i: nat,
    depth: nat,
    k: int,
)
    requires
        i <= k < listing.len(),
        all[listing[k]].parent == Some(parent),
        depth > 0,
    ensures
        agents::visit_children(all, listing, parent, i, depth).contains(listing[k]),
    decreases listing.len() - i,
{
    let rest = agents::visit_children(all, listing, parent, i + 1, depth);
    let here = agents::visit(all, listing, listing[i as int], depth);
    let both = agents::visit_children(all, listing, parent, i, depth);
    if i == k {
        assert(here[0] == listing[k]);
        assert(both[0] == listing[k]);
    } else {
        lemma_child(all, listing, parent, i + 1, depth, k);
        let j = choose|j: int| 0 <= j < rest.len() && rest[j] == listing[k];
        if all[listing[i as int]].parent == Some(parent) {
            assert(both[here.len() + j] == listing[k]);
        }
    }
}

proof fn lemma_tops_grow(
    all: Map<Seq<char>, Conv>,
    listing: Seq<Seq<char>>,
    i: nat,
    done: Seq<Seq<char>>,
    k: int,
)
    requires
        0 <= k < done.len(),
    ensures
        agents::visit_tops(all, listing, i, done).contains(done[k]),
    decreases listing.len() - i,
{
    if i < listing.len() {
        let at = listing[i as int];
        if agents::is_top(all, at) && !done.contains(at) {
            let next = done + agents::visit(all, listing, at, listing.len());
            assert(next[k] == done[k]);
            lemma_tops_grow(all, listing, i + 1, next, k);
        } else {
            lemma_tops_grow(all, listing, i + 1, done, k);
        }
    }
}

/// The agents that the root started are listed.
pub proof fn children_of_the_root_are_listed(all: Map<Seq<char>, Conv>, a: Seq<char>)
    requires
        all.dom().finite(),
        all.dom().contains(a),
        all.dom().contains("/root"@),
        a != "/root"@,
        all[a].parent == Some("/root"@),
    ensures
        agents::tree_order(all).contains(a),
{
    agents::lemma_order_exists(all);
    let listing = agents::order(all);
    assert(listing.contains(a));
    assert(listing.contains("/root"@));
    let k = choose|k: int| 0 <= k < listing.len() && listing[k] == a;
    let r = choose|r: int| 0 <= r < listing.len() && listing[r] == "/root"@;
    assert(listing.len() >= 2);
    let depth = (listing.len() - 1) as nat;
    let below = agents::visit_children(all, listing, "/root"@, 0, depth);
    lemma_child(all, listing, "/root"@, 0, depth, k);
    let j = choose|j: int| 0 <= j < below.len() && below[j] == a;
    let first = agents::visit(all, listing, "/root"@, listing.len());
    assert(first[1 + j] == a);
    lemma_tops_grow(all, listing, 0, first, 1 + j);
}

/// A search service is installed exactly if it is switched on, has a key and
/// lists only functions that exist; it gets that key.
pub proof fn services_are_installed_with_their_key<T>(
    s: ProviderSection,
    key: Result<Option<Seq<char>>, Seq<char>>,
    functions: Result<T, Seq<char>>,
    what: Seq<char>,
    hint: Seq<char>,
)
    ensures
        ({
            let r = agent_config::installs(s, key, functions);
            &&& r is Ok <==> s.enabled && key is Ok && key->Ok_0 is Some && functions is Ok
            &&& r is Ok ==> key == Ok::<Option<Seq<char>>, Seq<char>>(Some(r->Ok_0))
            &&& !s.enabled ==> r is Err && agent_config::skip_warning(r->Err_0, what, hint)
                is None
            &&& s.enabled && key is Ok && key->Ok_0 is None ==> r is Err
                && agent_config::skip_warning(r->Err_0, what, hint) == Some(
                what + " search not configured "@ + hint,
            )
            &&& s.enabled && key is Err ==> r is Err && agent_config::skip_warning(
                r->Err_0,
                what,
                hint,
            ) == Some(what + " search skipped: invalid agent configuration: "@ + key->Err_0)
            &&& s.enabled && key is Ok && key->Ok_0 is Some && functions is Err ==> r is Err
                && agent_config::skip_warning(r->Err_0, what, hint) == Some(
                what + " search skipped: invalid agent configuration: "@ + functions->Err_0,
            )
        }),
{
}

/// The key of a service is the one its section holds, or else the one in the
/// environment; blank keys do not count, and a section may not name both.
pub proof fn service_keys_come_from_one_place(
    name: Seq<char>,
    s: ProviderSection,
    environment: Option<&str>,
)
    ensures
        ({
            let r = agent_config::section_key(name, s, environment);
            let held = text::opt_text(s.api_key);
            let variable = text::opt_text(s.api_key_env);
            &&& held is Some && variable is Some ==> r is Err
            &&& held is Some && variable is None ==> if text::is_blank(held->0) {
                r is Err
            } else {
                r == Ok::<Option<Seq<char>>, Seq<char>>(held)
            }
            &&& held is None && variable is Some && text::is_blank(variable->0) ==> r is Err
            &&& held is None && !(variable is Some && text::is_blank(variable->0)) ==> {
                &&& r is Ok
                &&& r->Ok_0 is Some <==> environment is Some && !text::is_blank(environment->0@)
                &&& r->Ok_0 is Some ==> r->Ok_0->0 == environment->0@
            }
        }),
{
}

/// Whether a list names a function.
pub open spec fn names_one(names: Seq<String>, from: int, name: Seq<char>) -> bool {
    exists|i: int| from <= i < names.len() && (#[trigger] names[i])@ == name
}

proof fn lemma_names(names: Seq<String>, from: int, name: Seq<char>)
    requires
        0 <= from < names.len(),
    ensures
        names_one(names, from, name) <==> names[from]@ == name || names_one(
            names,
            from + 1,
            name,
        ),
{
    if names_one(names, from, name) && names[from]@ != name {
        let i = choose|i: int| from <= i < names.len() && (#[trigger] names[i])@ == name;
        assert(from + 1 <= i);
    }
}

proof fn lemma_exa_names()
    ensures
        "search"@ != "contents"@,
        "search"@ != "context"@,
        "search"@ != "answer"@,
        "search"@ != "findSimilar"@,
        "contents"@ != "context"@,
        "contents"@ != "answer"@,
        "contents"@ != "findSimilar"@,
        "context"@ != "answer"@,
        "context"@ != "findSimilar"@,
        "answer"@ != "findSimilar"@,
        "search"@ != "extract"@,
{
    reveal_strlit("search");
    reveal_strlit("contents");
    reveal_strlit("context");
    reveal_strlit("answer");
    reveal_strlit("findSimilar");
    reveal_strlit("extract");
    assert("search"@.len() == 6 && "contents"@.len() == 8 && "context"@.len() == 7);
    assert("answer"@.len() == 6 && "findSimilar"@.len() == 11 && "extract"@.len() == 7);
    assert("search"@[0] == 's' && "answer"@[0] == 'a');
}

proof fn lemma_exa(names: Seq<String>, i: int, f: ExaFunctions)
    requires
        0 <= i <= names.len(),
    ensures
        ({
            let r = agent_config::exa_from(names, i, f);
            &&& r is Ok <==> forall|k: int|
                i <= k < names.len() ==> is_exa((#[trigger] names[k])@)
            &&& r is Ok ==> {
                let g = r->Ok_0;
                &&& g.search <==> f.search || names_one(names, i, "search"@)
                &&& g.contents <==> f.contents || names_one(names, i, "contents"@)
                &&& g.context <==> f.context || names_one(names, i, "context"@)
                &&& g.answer <==> f.answer || names_one(names, i, "answer"@)
                &&& g.find_similar <==> f.find_similar || names_one(names, i, "findSimilar"@)
            }
        }),
    decreases names.len() - i,
{
    if i < names.len() {
        lemma_exa_names();
        lemma_names(names, i, "search"@);
        lemma_names(names, i, "contents"@);
        lemma_names(names, i, "context"@);
        lemma_names(names, i, "answer"@);
        lemma_names(names, i, "findSimilar"@);
        match agent_config::with_exa(f, names[i]@) {
            Some(next) => {
                lemma_exa(names, i + 1, next);
                assert(is_exa(names[i]@));
            },
            None => {
                assert(!is_exa(names[i]@));
            },
        }
    }
}

/// The functions that Exa offers.
pub open spec fn is_exa(name: Seq<char>) -> bool {
    name == "search"@ || name == "contents"@ || name == "context"@ || name == "answer"@ || name
        == "findSimilar"@
}

/// Of Exa, exactly the functions that the section lists are switched on, and
/// one that does not exist is refused.
pub proof fn exa_offers_what_is_listed(names: Seq<String>)
    ensures
        ({
            let r = agent_config::exa_from(names, 0, agent_config::no_exa());
            &&& r is Ok <==> forall|k: int|
                0 <= k < names.len() ==> is_exa((#[trigger] names[k])@)
            &&& r is Ok ==> {
                &&& r->Ok_0.search <==> names_one(names, 0, "search"@)
                &&& r->Ok_0.contents <==> names_one(names, 0, "contents"@)
                &&& r->Ok_0.context <==> names_one(names, 0, "context"@)
                &&& r->Ok_0.answer <==> names_one(names, 0, "answer"@)
                &&& r->Ok_0.find_similar <==> names_one(names, 0, "findSimilar"@)
            }
        }),
{
    lemma_exa(names, 0, agent_config::no_exa());
}

proof fn lemma_parallel(names: Seq<String>, i: int, f: ParallelFunctions)
    requires
        0 <= i <= names.len(),
    ensures
        ({
            let r = agent_config::parallel_from(names, i, f);
            &&& r is Ok <==> forall|k: int|
                i <= k < names.len() ==> is_parallel((#[trigger] names[k])@)
            &&& r is Ok ==> {
                &&& r->Ok_0.search <==> f.search || names_one(names, i, "search"@)
                &&& r->Ok_0.extract <==> f.extract || names_one(names, i, "extract"@)
            }
        }),
    decreases names.len() - i,
{
    if i < names.len() {
        lemma_exa_names();
        lemma_names(names, i, "search"@);
        lemma_names(names, i, "extract"@);
        if names[i]@ == "search"@ {
            lemma_parallel(names, i + 1, ParallelFunctions { search: true, ..f });
            assert(is_parallel(names[i]@));
        } else if names[i]@ == "extract"@ {
            lemma_parallel(names, i + 1, ParallelFunctions { extract: true, ..f });
            assert(is_parallel(names[i]@));
        } else {
            assert(!is_parallel(names[i]@));
        }
    }
}

/// The functions that Parallel offers.
pub open spec fn is_parallel(name: Seq<char>) -> bool {
    name == "search"@ || name == "extract"@
}

/// Of Parallel, exactly the functions that the section lists are switched on,
/// and one that does not exist is refused.
pub proof fn parallel_offers_what_is_listed(names: Seq<String>)
    ensures
        ({
            let none = ParallelFunctions { search: false, extract: false };
            let r = agent_config::parallel_from(names, 0, none);
            &&& r is Ok <==> forall|k: int|
                0 <= k < names.len() ==> is_parallel((#[trigger] names[k])@)
            &&& r is Ok ==> {
                &&& r->Ok_0.search <==> names_one(names, 0, "search"@)
                &&& r->Ok_0.extract <==> names_one(names, 0, "extract"@)
            }
        }),
{
    lemma_parallel(names, 0, ParallelFunctions { search: false, extract: false });
}

/// Each service that could not be installed is reported once, Exa first.
pub proof fn warnings_report_each_service(exa: Option<Seq<char>>, parallel: Option<Seq<char>>)
    ensures
        ({
            let all = agent_config::warnings_of(exa, parallel);
            &&& all.len() == (if exa is Some {
                1int
            } else {
                0
            }) + (if parallel is Some {
                1int
            } else {
                0
            })
            &&& exa is Some ==> all[0] == exa->0
            &&& parallel is Some ==> all[all.len() - 1] == parallel->0
        }),
{
}

/// Whether a byte is a printable ASCII character that needs no escape.
pub open spec fn is_plain(b: u8) -> bool {
    0x20 <= b < 0x7f && b != 34 && b != 92
}

/// The bytes of an object up to the value of its first field, `intent`.
pub open spec fn opening_field() -> Seq<u8> {
    seq![123u8, 34, 105, 110, 116, 101, 110, 116, 34, 58]
}

proof fn lemma_plain_string(bytes: Seq<u8>, start: int, i: int, end: int, ends: Seq<usize>)
    requires
        0 < start <= i <= end <= bytes.len() <= usize::MAX,
        forall|k: int| start <= k < end ==> is_plain(#[trigger] bytes[k]),
        end < bytes.len() ==> bytes[end] == 34,
        ends.len() > 0 && ends.last() == i,
    ensures
        end < bytes.len() ==> intent::string_from(bytes, start, i, ends)
            == (match intent::json_string(bytes.subrange(start - 1, end + 1)) {
            Some(s) => Some((s, true)),
            None => None,
        }),
        end == bytes.len() && intent::json_string(intent::quoted(bytes, start, end)) is Some
            ==> intent::string_from(bytes, start, i, ends) == Some(
            (intent::json_string(intent::quoted(bytes, start, end))->0, false),
        ),
    decreases end - i,
{
    if i < end {
        assert(is_plain(bytes[i]));
        assert(intent::element(bytes, i) == intent::Element::Whole(i + 1));
        lemma_plain_string(bytes, start, i + 1, end, ends.push((i + 1) as usize));
    } else if end < bytes.len() {
        assert(intent::element(bytes, i) == intent::Element::Close);
    } else {
        assert(intent::element(bytes, i) == intent::Element::Cut);
        let n = ends.len() as int;
        assert(ends[n - 1] == end);
        if intent::json_string(intent::quoted(bytes, start, end)) is Some {
            assert(intent::longest_prefix(bytes, start, ends, n) == Some(
                (intent::json_string(intent::quoted(bytes, start, end))->0, false),
            ));
        }
    }
}

proof fn lemma_key(bytes: Seq<u8>)
    requires
        bytes.len() > 10,
        bytes.take(10) == opening_field(),
        bytes[10] == 34,
        intent::json_string(opening_field().subrange(1, 9)) == Some("intent"@),
    ensures
        intent::intent_from(bytes, 1) == intent::partial_string(bytes, 10),
{
    let head = bytes.take(10);
    assert(forall|k: int| 0 <= k < 10 ==> bytes[k] == head[k]);
    assert(bytes[1] == 34 && bytes[2] == 105 && bytes[3] == 110 && bytes[4] == 116);
    assert(bytes[5] == 101 && bytes[6] == 110 && bytes[7] == 116 && bytes[8] == 34);
    assert(bytes[9] == 58);
    reveal_with_fuel(intent::closing_quote, 8);
    assert(intent::past_space(bytes, 1) == 1);
    assert(intent::closing_quote(bytes, 2, false) == Some(8int));
    assert(bytes.subrange(1, 9) =~= opening_field().subrange(1, 9));
    assert(intent::past_space(bytes, 9) == 9);
    assert(intent::past_space(bytes, 10) == 10);
}

/// An intent that leads the arguments of a call is known as soon as it is
/// there: whole once its closing quote has arrived, and as far as it has
/// come before. The reading of quoted bytes is that of the JSON parser.
pub proof fn leading_intents_are_known(content: Seq<u8>, rest: Seq<u8>)
    requires
        forall|k: int| 0 <= k < content.len() ==> is_plain(#[trigger] content[k]),
        content.len() + rest.len() + 12 <= 16384,
        intent::json_string(opening_field().subrange(1, 9)) == Some("intent"@),
        intent::json_string(seq![34u8] + content + seq![34u8]) is Some,
    ensures
        ({
            let known = intent::json_string(seq![34u8] + content + seq![34u8])->0;
            &&& intent::known_intent(opening_field() + seq![34u8] + content + seq![34u8] + rest)
                == Some((known, true))
            &&& intent::known_intent(opening_field() + seq![34u8] + content) == Some(
                (known, false),
            )
        }),
{
    let whole = opening_field() + seq![34u8] + content + seq![34u8] + rest;
    let part = opening_field() + seq![34u8] + content;
    let end = 11 + content.len() as int;
    assert(whole.take(10) =~= opening_field());
    assert(part.take(10) =~= opening_field());
    lemma_key(whole);
    lemma_key(part);
    assert(whole[0] == opening_field()[0]);
    assert(part[0] == opening_field()[0]);
    assert(intent::past_space(whole, 0) == 0);
    assert(intent::past_space(part, 0) == 0);
    assert forall|k: int| 11 <= k < end implies is_plain(#[trigger] whole[k]) by {
        assert(whole[k] == content[k - 11]);
    }
    assert forall|k: int| 11 <= k < end implies is_plain(#[trigger] part[k]) by {
        assert(part[k] == content[k - 11]);
    }
    assert(whole[end] == 34);
    lemma_plain_string(whole, 11, 11, end, seq![11usize]);
    lemma_plain_string(part, 11, 11, end, seq![11usize]);
    assert(whole.subrange(10, end + 1) =~= seq![34u8] + content + seq![34u8]);
    assert(intent::quoted(part, 11, end) =~= seq![34u8] + content + seq![34u8]);
}

/// The title of a call is its agent and its intent, of which no more than the
/// longest length is shown; other tools and calls without intent have none.
pub proof fn calls_are_titled_by_their_intent(
    tool: Seq<char>,
    arguments: Seq<char>,
    address: Seq<char>,
    words: Seq<char>,
    complete: bool,
)
    ensures
        ({
            let known = intent::known_intent(vstd::utf8::encode_utf8(arguments));
            let title = intent::intent_title(tool, arguments, address);
            &&& tool != "eval"@ || known is None ==> title is None
            &&& tool == "eval"@ && known == Some((words, complete)) && words.len() > 0
                && !text::is_space(words[0]) && !text::is_space(words.last()) && 0 < text::squash(
                words,
            ).len() <= 120 ==> title == Some(address + " · "@ + text::squash(words))
            &&& title is Some ==> text::starts_with(title->0, address + " · "@)
                && title->0.len() <= address.len() + 3 + 120
        }),
{
    reveal_strlit(" · ");
    let title = intent::intent_title(tool, arguments, address);
    if title is Some {
        let lead = address + " · "@;
        assert(title->0.take(lead.len() as int) =~= lead);
    }
    if words.len() > 0 && !text::is_space(words[0]) && !text::is_space(words.last()) {
        text_laws::trimmed_texts_stay(words);
    }
}

/// A service that the file does not mention is switched on, with all of its
/// functions, by its key in the environment alone.
pub proof fn services_work_without_a_section(
    s: ProviderSection,
    name: Seq<char>,
    variable: Seq<char>,
    environment: Option<&str>,
)
    requires
        agent_config::stands_for(s, None, variable),
        !text::is_blank(variable),
    ensures
        s.base_url is None,
        agent_config::exa_functions(s) == Ok::<Option<ExaFunctions>, Seq<char>>(None),
        agent_config::parallel_functions(s) == Ok::<Option<ParallelFunctions>, Seq<char>>(None),
        environment matches Some(key) ==> !text::is_blank(key@) ==> agent_config::installs(
            s,
            agent_config::section_key(name, s, environment),
            agent_config::exa_functions(s),
        ) == Ok::<Seq<char>, Skip>(key@),
        environment is None ==> agent_config::installs(
            s,
            agent_config::section_key(name, s, environment),
            agent_config::exa_functions(s),
        ) == Err::<Seq<char>, Skip>(Skip::NoKey),
{
}

/// A section of the file stands for itself.
pub proof fn sections_stand_for_themselves(s: ProviderSection, r: ProviderSection, variable: Seq<char>)
    requires
        agent_config::stands_for(r, Some(s), variable),
    ensures
        r == s,
{
}

} // verus!
