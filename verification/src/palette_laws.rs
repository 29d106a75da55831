//! What the palettes offer: exactly what matches, in its order.

use crate::desk;
use crate::desk::{Desk, SessionItem};
use crate::text;
use crate::text_laws;
use vstd::prelude::*;

verus! {

/// Whether `picks` lists, in ascending order, exactly the numbers below `n`
/// that `keep` keeps.
pub open spec fn is_selection(picks: Seq<int>, n: int, keep: spec_fn(int) -> bool) -> bool {
    &&& forall|k: int| 0 <= k < picks.len() ==> 0 <= #[trigger] picks[k] < n && keep(picks[k])
    &&& forall|j: int, k: int| 0 <= j < k < picks.len() ==> #[trigger] picks[j] < #[trigger] picks[k]
    &&& forall|i: int| 0 <= i < n && #[trigger] keep(i) ==> picks.contains(i)
}

proof fn lemma_selection_step(picks: Seq<int>, n: int, keep: spec_fn(int) -> bool)
    requires
        0 <= n,
        is_selection(picks, n, keep),
    ensures
        keep(n) ==> is_selection(picks.push(n), n + 1, keep),
        !keep(n) ==> is_selection(picks, n + 1, keep),
{
    if keep(n) {
        let more = picks.push(n);
        assert forall|i: int| 0 <= i < n + 1 && #[trigger] keep(i) implies more.contains(i) by {
            if i < n {
                let k = picks.index_of(i);
                assert(more[k] == i);
            } else {
                assert(more[picks.len() as int] == i);
            }
        }
    }
}

/// Whether a model is offered for a query: its id or its name holds it, in
/// lower case.
pub open spec fn model_fits(d: Desk, i: int, query: Seq<char>) -> bool {
    query.len() == 0 || text::contains(text::lowercase(d.models[i].registry_id@), query)
        || text::contains(text::lowercase(d.models[i].display_name@), query)
}

proof fn lemma_model_picks(d: Desk, query: Seq<char>, n: int) -> (picks: Seq<int>)
    requires
        0 <= n <= d.models.len(),
    ensures
        is_selection(picks, n, |i: int| model_fits(d, i, query)),
        desk::model_hints(d.models, query, n).len() == picks.len(),
        forall|k: int|
            0 <= k < picks.len() ==> {
                let hint = #[trigger] desk::model_hints(d.models, query, n)[k];
                let m = d.models[picks[k]];
                &&& hint.replacement == "/model "@ + m.registry_id@
                &&& hint.label == m.provider@ + " / "@ + m.display_name@
                &&& hint.provider == Some(m.provider@)
                &&& text::starts_with(hint.detail, m.model@)
                &&& !hint.running
            },
    decreases n,
{
    if n == 0 {
        Seq::empty()
    } else {
        let before = lemma_model_picks(d, query, n - 1);
        lemma_selection_step(before, n - 1, |i: int| model_fits(d, i, query));
        if model_fits(d, n - 1, query) {
            let m = d.models[n - 1];
            let window = text::decimal((m.context_window / 1000) as nat);
            assert(m.model@ + " · "@ + window + "k"@ =~= m.model@ + (" · "@ + window + "k"@));
            text_laws::prefixes_come_off(m.model@, " · "@ + window + "k"@);
            before.push(n - 1)
        } else {
            before
        }
    }
}

/// `/model` followed by a query offers exactly the configured models whose id
/// or name holds the query in lower case, in their order. A row shows the
/// provider and the name, and picking it asks for that model.
pub proof fn model_palettes_offer_what_matches(d: Desk, rest: Seq<char>) -> (picks: Seq<int>)
    requires
        text::trim_start(d.input.text) == "/model "@ + rest,
    ensures
        is_selection(
            picks,
            d.models.len() as int,
            |i: int| model_fits(d, i, text::lowercase(text::trim(rest))),
        ),
        d.suggestions().len() == picks.len(),
        forall|k: int|
            0 <= k < picks.len() ==> {
                let hint = #[trigger] d.suggestions()[k];
                let m = d.models[picks[k]];
                &&& hint.replacement == "/model "@ + m.registry_id@
                &&& hint.label == m.provider@ + " / "@ + m.display_name@
                &&& hint.provider == Some(m.provider@)
                &&& text::starts_with(hint.detail, m.model@)
                &&& !hint.running
            },
{
    reveal(Desk::suggestions);
    text_laws::prefixes_come_off("/model "@, rest);
    lemma_model_picks(d, text::lowercase(text::trim(rest)), d.models.len() as int)
}

proof fn lemma_effort_picks(
    efforts: Seq<Seq<char>>,
    model: Seq<char>,
    query: Seq<char>,
    n: int,
) -> (picks: Seq<int>)
    requires
        0 <= n <= efforts.len(),
    ensures
        is_selection(
            picks,
            n,
            |i: int| query.len() == 0 || text::contains(text::lowercase(efforts[i]), query),
        ),
        desk::effort_hints(efforts, model, query, n).len() == picks.len(),
        forall|k: int|
            0 <= k < picks.len() ==> {
                let hint = #[trigger] desk::effort_hints(efforts, model, query, n)[k];
                &&& hint.replacement == "/effort "@ + efforts[picks[k]]
                &&& hint.label == efforts[picks[k]]
                &&& text::starts_with(hint.detail, model)
            },
    decreases n,
{
    if n == 0 {
        Seq::empty()
    } else {
        let keep = |i: int| query.len() == 0 || text::contains(text::lowercase(efforts[i]), query);
        let before = lemma_effort_picks(efforts, model, query, n - 1);
        lemma_selection_step(before, n - 1, keep);
        if keep(n - 1) {
            text_laws::prefixes_come_off(model, " reasoning effort"@);
            before.push(n - 1)
        } else {
            before
        }
    }
}

/// `/effort` followed by a query offers exactly the efforts of the model in
/// use that hold the query in lower case, in their order; picking one asks for
/// it.
pub proof fn effort_palettes_offer_what_matches(d: Desk, rest: Seq<char>) -> (picks: Seq<int>)
    requires
        text::trim_start(d.input.text) == "/effort "@ + rest,
    ensures
        ({
            let model = d.models[d.selected_model];
            let efforts = text::texts(model.efforts@);
            let query = text::lowercase(text::trim(rest));
            &&& is_selection(
                picks,
                efforts.len() as int,
                |i: int| query.len() == 0 || text::contains(text::lowercase(efforts[i]), query),
            )
            &&& d.suggestions().len() == picks.len()
            &&& forall|k: int|
                0 <= k < picks.len() ==> {
                    let hint = #[trigger] d.suggestions()[k];
                    &&& hint.replacement == "/effort "@ + model.efforts@[picks[k]]@
                    &&& hint.label == model.efforts@[picks[k]]@
                    &&& text::starts_with(hint.detail, model.display_name@)
                }
        }),
{
    reveal(Desk::suggestions);
    reveal_strlit("/effort ");
    reveal_strlit("/model ");
    text_laws::prefixes_come_off("/effort "@, rest);
    let input = text::trim_start(d.input.text);
    assert(input[1] == 'e');
    if text::starts_with(input, "/model "@) {
        assert(input.take(7)[1] == "/model "@[1]);
    }
    let model = d.models[d.selected_model];
    let efforts = text::texts(model.efforts@);
    let picks = lemma_effort_picks(
        efforts,
        model.display_name@,
        text::lowercase(text::trim(rest)),
        efforts.len() as int,
    );
    assert forall|k: int| 0 <= k < picks.len() implies efforts[#[trigger] picks[k]]
        == model.efforts@[picks[k]]@ by {}
    picks
}

/// Whether a session is offered for a query: its number or its preview, in
/// lower case, holds it.
pub open spec fn session_fits(d: Desk, i: int, query: Seq<char>) -> bool {
    query.len() == 0 || text::contains(text::decimal(d.sessions[i].id as nat), query) || (
    d.sessions[i].preview matches Some(preview) && text::contains(text::lowercase(preview), query))
}

proof fn lemma_session_picks(d: Desk, query: Seq<char>, n: int) -> (picks: Seq<int>)
    requires
        0 <= n <= d.sessions.len(),
    ensures
        is_selection(picks, n, |i: int| session_fits(d, i, query)),
        desk::sessions_for(d.sessions, query, n).len() == picks.len(),
        forall|k: int|
            0 <= k < picks.len() ==> #[trigger] desk::sessions_for(d.sessions, query, n)[k]
                == d.sessions[picks[k]],
    decreases n,
{
    if n == 0 {
        Seq::empty()
    } else {
        let before = lemma_session_picks(d, query, n - 1);
        lemma_selection_step(before, n - 1, |i: int| session_fits(d, i, query));
        if session_fits(d, n - 1, query) {
            before.push(n - 1)
        } else {
            before
        }
    }
}

/// What a session palette searches for when `rest` follows the command: the
/// text in lower case, without whitespace around it and leading `#`.
pub open spec fn is_session_query(rest: Seq<char>, query: Seq<char>) -> bool {
    exists|n: int| is_unmarked(text::trim(rest), n) && query == text::lowercase(
        text::trim(rest).skip(n),
    )
}

/// Whether the first `n` characters of a text are all its leading `#`.
pub open spec fn is_unmarked(s: Seq<char>, n: int) -> bool {
    &&& 0 <= n <= s.len()
    &&& forall|k: int| 0 <= k < n ==> s[k] == '#'
    &&& n < s.len() ==> s[n] != '#'
}

proof fn lemma_unmarked(s: Seq<char>, i: int)
    requires
        0 <= i <= s.len(),
        forall|k: int| 0 <= k < i ==> s[k] == '#',
    ensures
        is_unmarked(s, text::skip_char(s, i, '#')),
    decreases s.len() - i,
{
    if i < s.len() && s[i] == '#' {
        lemma_unmarked(s, i + 1);
    }
}

/// `/session`, alone or followed by a query, offers exactly the sessions whose
/// number or preview holds the query, in their order. A row shows the number,
/// and picking it asks for that session.
pub proof fn session_palettes_offer_what_matches(d: Desk, rest: Seq<char>) -> (r: (
    Seq<char>,
    Seq<int>,
))
    requires
        text::trim_start(d.input.text) == "/session"@ + rest,
        rest.len() == 0 || rest[0] == ' ',
    ensures
        ({
            let (query, picks) = r;
            &&& is_session_query(rest, query)
            &&& is_selection(picks, d.sessions.len() as int, |i: int| session_fits(d, i, query))
            &&& d.suggestions().len() == picks.len()
            &&& d.session_matches().len() == picks.len()
            &&& forall|k: int|
                0 <= k < picks.len() ==> {
                    let hint = #[trigger] d.suggestions()[k];
                    let s = d.sessions[picks[k]];
                    &&& hint.replacement == "/session "@ + text::decimal(s.id as nat)
                    &&& hint.label == "#"@ + text::decimal(s.id as nat)
                    &&& s.preview matches Some(preview) ==> text::words(hint.detail) == text::words(
                        preview,
                    )
                }
            &&& forall|k: int|
                0 <= k < picks.len() ==> #[trigger] d.session_matches()[k] == d.sessions[picks[k]]
        }),
{
    reveal(Desk::suggestions);
    reveal_strlit("/session");
    reveal_strlit("/session ");
    reveal_strlit("/model ");
    reveal_strlit("/effort ");
    reveal_strlit("/agents");
    reveal_strlit("/agents ");
    let input = text::trim_start(d.input.text);
    text_laws::prefixes_come_off("/session"@, rest);
    assert(input[1] == 's');
    if text::starts_with(input, "/model "@) {
        assert(input.take(7)[1] == "/model "@[1]);
    }
    if text::starts_with(input, "/effort "@) {
        assert(input.take(8)[1] == "/effort "@[1]);
    }
    if text::starts_with(input, "/agents "@) {
        assert(input.take(8)[1] == "/agents "@[1]);
    }
    if rest.len() == 0 {
        assert(input =~= "/session"@);
    } else {
        assert(input.take(9) =~= "/session "@);
    }
    assert(d.session_open());
    let t = text::trim(rest);
    let query = d.session_query();
    lemma_unmarked(t, 0);
    assert(is_unmarked(t, text::skip_char(t, 0, '#')));
    let picks = lemma_session_picks(d, query, d.sessions.len() as int);
    assert forall|k: int| 0 <= k < picks.len() implies {
        let hint = #[trigger] d.suggestions()[k];
        let s = d.sessions[picks[k]];
        s.preview matches Some(preview) ==> text::words(hint.detail) == text::words(preview)
    } by {
        let s = d.sessions[picks[k]];
        assert(d.session_matches()[k] == s);
        if let Some(preview) = s.preview {
            text::squashing_keeps_the_words(preview);
        }
    }
    (query, picks)
}

proof fn lemma_detail_tells_status(d: Desk, a: Seq<char>)
    ensures
        d.knows(a) ==> text::starts_with(d.agent_detail(a), d.all()[a].status),
{
    if d.knows(a) {
        let status = d.all()[a].status;
        let model = if a == desk::root() {
            Some(d.models[d.selected_model].registry_id@)
        } else {
            d.all()[a].model
        };
        if let Some(model) = model {
            assert(status + " · "@ + model =~= status + (" · "@ + model));
            text_laws::prefixes_come_off(status, " · "@ + model);
        } else {
            assert(status + Seq::<char>::empty() =~= status);
            text_laws::prefixes_come_off(status, Seq::<char>::empty());
        }
    }
}

#[verifier::rlimit(50)]
proof fn lemma_agent_picks(d: Desk, list: Seq<Seq<char>>, query: Seq<char>, n: int) -> (picks: Seq<
    int,
>)
    requires
        0 <= n <= list.len(),
    ensures
        is_selection(
            picks,
            n,
            |i: int| query.len() == 0 || text::contains(text::lowercase(list[i]), query),
        ),
        d.agent_hints(list, query, n).len() == picks.len(),
        forall|k: int|
            0 <= k < picks.len() ==> {
                let hint = #[trigger] d.agent_hints(list, query, n)[k];
                let a = list[picks[k]];
                &&& hint.replacement == "/agents "@ + a
                &&& hint.running == d.is_running(a)
                &&& d.knows(a) ==> text::starts_with(hint.detail, d.all()[a].status)
                &&& text::contains(hint.label, text::after_last(a, '/'))
            },
    decreases n,
{
    if n == 0 {
        Seq::empty()
    } else {
        let keep = |i: int| query.len() == 0 || text::contains(text::lowercase(list[i]), query);
        let before = lemma_agent_picks(d, list, query, n - 1);
        lemma_selection_step(before, n - 1, keep);
        if keep(n - 1) {
            let a = list[n - 1];
            lemma_label_names(a, a == d.current, d.is_running(a));
            lemma_detail_tells_status(d, a);
            before.push(n - 1)
        } else {
            before
        }
    }
}

proof fn lemma_label_names(address: Seq<char>, current: bool, running: bool)
    ensures
        text::contains(
            desk::tree_label(address, current, running),
            text::after_last(address, '/'),
        ),
{
    let name = text::after_last(address, '/');
    let slashes = text::count_of(address, '/');
    let depth = if slashes == 0 {
        0
    } else {
        (slashes - 1) as nat
    };
    let glyph = if running {
        "●"@
    } else {
        " "@
    };
    let lead = if depth == 0 {
        "◉"@ + glyph
    } else {
        text::repeated(' ', 2 * depth) + "└─"@ + glyph
    };
    if current {
        text_laws::containing_is_having_inside(lead + "["@, name, "]"@);
        assert(lead + ("["@ + name + "]"@) =~= lead + "["@ + name + "]"@);
    } else {
        text_laws::containing_is_having_inside(lead, name, Seq::<char>::empty());
        assert(lead + name + Seq::<char>::empty() =~= lead + name);
    }
}

/// `/agents`, alone or followed by a query, offers exactly the listed agents
/// whose address holds the query in lower case, in the order of the tree. A
/// row names its agent, says what it is doing and whether it is running, and
/// picking it asks for that agent.
pub proof fn agent_palettes_offer_what_matches(d: Desk, rest: Seq<char>) -> (picks: Seq<int>)
    requires
        text::trim_start(d.input.text) == "/agents"@ + rest,
        rest.len() == 0 || rest[0] == ' ',
    ensures
        ({
            let list = d.addresses();
            let query = text::lowercase(text::trim(rest));
            &&& is_selection(
                picks,
                list.len() as int,
                |i: int| query.len() == 0 || text::contains(text::lowercase(list[i]), query),
            )
            &&& d.suggestions().len() == picks.len()
            &&& forall|k: int|
                0 <= k < picks.len() ==> {
                    let hint = #[trigger] d.suggestions()[k];
                    let a = list[picks[k]];
                    &&& hint.replacement == "/agents "@ + a
                    &&& hint.running == d.is_running(a)
                    &&& d.knows(a) ==> text::starts_with(hint.detail, d.all()[a].status)
                    &&& text::contains(hint.label, text::after_last(a, '/'))
                }
        }),
{
    reveal(Desk::suggestions);
    reveal_strlit("/model ");
    reveal_strlit("/effort ");
    reveal_strlit("/agents");
    reveal_strlit("/agents ");
    let input = text::trim_start(d.input.text);
    text_laws::prefixes_come_off("/agents"@, rest);
    assert(input[1] == 'a');
    if text::starts_with(input, "/model "@) {
        assert(input.take(7)[1] == "/model "@[1]);
    }
    if text::starts_with(input, "/effort "@) {
        assert(input.take(8)[1] == "/effort "@[1]);
    }
    if rest.len() == 0 {
        assert(input =~= "/agents"@);
    } else {
        assert(input.take(8) =~= "/agents "@);
    }
    lemma_agent_picks(
        d,
        d.addresses(),
        text::lowercase(text::trim(rest)),
        d.addresses().len() as int,
    )
}

/// The commands by name, as the palette lists them.
pub open spec fn command_names() -> Seq<Seq<char>> {
    seq![
        "compact"@,
        "agents"@,
        "effort"@,
        "model"@,
        "new"@,
        "session"@,
        "exit"@,
        "quit"@,
    ]
}

/// Whether a command takes an argument.
pub open spec fn takes_argument(i: int) -> bool {
    i == 1 || i == 2 || i == 3 || i == 5
}

proof fn lemma_command_picks(query: Seq<char>, n: int) -> (picks: Seq<int>)
    requires
        0 <= n <= 8,
    ensures
        is_selection(picks, n, |i: int| text::starts_with(command_names()[i], query)),
        desk::command_hints(query, n).len() == picks.len(),
        forall|k: int|
            0 <= k < picks.len() ==> {
                let hint = #[trigger] desk::command_hints(query, n)[k];
                let name = command_names()[picks[k]];
                &&& hint.label == "/"@ + name
                &&& hint.replacement == "/"@ + name + if takes_argument(picks[k]) {
                    " "@
                } else {
                    ""@
                }
            },
    decreases n,
{
    if n == 0 {
        Seq::empty()
    } else {
        let before = lemma_command_picks(query, n - 1);
        lemma_selection_step(
            before,
            n - 1,
            |i: int| text::starts_with(command_names()[i], query),
        );
        lemma_offered(n - 1);
        if text::starts_with(command_names()[n - 1], query) {
            before.push(n - 1)
        } else {
            before
        }
    }
}

proof fn lemma_offered(i: int)
    requires
        0 <= i < 8,
    ensures
        desk::offered(i).0 == command_names()[i],
        desk::offered(i).2 == "/"@ + command_names()[i] + if takes_argument(i) {
            " "@
        } else {
            ""@
        },
{
    reveal_strlit("/");
    reveal_strlit(" ");
    reveal_strlit("");
    reveal_strlit("compact");
    reveal_strlit("agents");
    reveal_strlit("effort");
    reveal_strlit("model");
    reveal_strlit("new");
    reveal_strlit("session");
    reveal_strlit("exit");
    reveal_strlit("quit");
    reveal_strlit("/compact");
    reveal_strlit("/agents ");
    reveal_strlit("/effort ");
    reveal_strlit("/model ");
    reveal_strlit("/new");
    reveal_strlit("/session ");
    reveal_strlit("/exit");
    reveal_strlit("/quit");
    assert("/"@ + "compact"@ + ""@ =~= "/compact"@);
    assert("/"@ + "agents"@ + " "@ =~= "/agents "@);
    assert("/"@ + "effort"@ + " "@ =~= "/effort "@);
    assert("/"@ + "model"@ + " "@ =~= "/model "@);
    assert("/"@ + "new"@ + ""@ =~= "/new"@);
    assert("/"@ + "session"@ + " "@ =~= "/session "@);
    assert("/"@ + "exit"@ + ""@ =~= "/exit"@);
    assert("/"@ + "quit"@ + ""@ =~= "/quit"@);
}

/// A slash and the beginning of a command offer exactly the commands that
/// begin so; picking one puts it into the input, with a space where it takes
/// an argument.
pub proof fn command_palettes_offer_what_begins_so(d: Desk, rest: Seq<char>) -> (picks: Seq<int>)
    requires
        text::trim_start(d.input.text) == "/"@ + rest,
        rest.len() > 0 ==> rest[0] != '/',
        !rest.contains(' '),
        "/"@ + rest != "/agents"@,
        "/"@ + rest != "/session"@,
    ensures
        is_selection(
            picks,
            8,
            |i: int| text::starts_with(command_names()[i], text::lowercase(rest)),
        ),
        d.suggestions().len() == picks.len(),
        forall|k: int|
            0 <= k < picks.len() ==> {
                let hint = #[trigger] d.suggestions()[k];
                let name = command_names()[picks[k]];
                &&& hint.label == "/"@ + name
                &&& hint.replacement == "/"@ + name + if takes_argument(picks[k]) {
                    " "@
                } else {
                    ""@
                }
            },
{
    reveal(Desk::suggestions);
    reveal_strlit("/");
    reveal_strlit("/model ");
    reveal_strlit("/effort ");
    reveal_strlit("/agents ");
    reveal_strlit("/session ");
    let input = text::trim_start(d.input.text);
    text_laws::prefixes_come_off("/"@, rest);
    assert forall|k: int| 0 <= k < input.len() implies #[trigger] input[k] != ' ' by {
        if k > 0 {
            assert(input[k] == rest[k - 1]);
            if rest[k - 1] == ' ' {
                assert(rest.contains(' '));
            }
        }
    }
    if text::starts_with(input, "/model "@) {
        assert(input.take(7)[6] == "/model "@[6]);
    }
    if text::starts_with(input, "/effort "@) {
        assert(input.take(8)[7] == "/effort "@[7]);
    }
    if text::starts_with(input, "/agents "@) {
        assert(input.take(8)[7] == "/agents "@[7]);
    }
    if text::starts_with(input, "/session "@) {
        assert(input.take(9)[8] == "/session "@[8]);
    }
    assert(text::skip_char(input, 1, '/') == 1) by {
        if rest.len() > 0 {
            assert(input[1] == rest[0]);
        }
    }
    assert(text::skip_char(input, 0, '/') == 1);
    assert(input.skip(1) =~= rest);
    lemma_command_picks(text::lowercase(rest), 8)
}

/// A text that does not begin with a slash opens no palette.
pub proof fn messages_open_no_palette(d: Desk)
    requires
        ({
            let input = text::trim_start(d.input.text);
            input.len() == 0 || input[0] != '/'
        }),
    ensures
        d.suggestions().len() == 0,
{
    reveal(Desk::suggestions);
    reveal_strlit("/");
    reveal_strlit("/model ");
    reveal_strlit("/effort ");
    reveal_strlit("/agents");
    reveal_strlit("/agents ");
    reveal_strlit("/session");
    reveal_strlit("/session ");
    let input = text::trim_start(d.input.text);
    if text::starts_with(input, "/model "@) {
        assert(input.take(7)[0] == "/model "@[0]);
    }
    if text::starts_with(input, "/effort "@) {
        assert(input.take(8)[0] == "/effort "@[0]);
    }
    if text::starts_with(input, "/agents "@) {
        assert(input.take(8)[0] == "/agents "@[0]);
    }
    if text::starts_with(input, "/session "@) {
        assert(input.take(9)[0] == "/session "@[0]);
    }
    if text::starts_with(input, "/"@) {
        assert(input.take(1)[0] == "/"@[0]);
    }
}

/// An agent is shown as running exactly while its conversation has a live run.
pub proof fn running_agents_have_a_live_run(d: Desk, address: Seq<char>)
    requires
        d.wf(),
        d.knows(address),
    ensures
        d.is_running(address) == d.all()[address].run_active,
{
    reveal(desk::agents_ok);
}

/// A row of the session palette shows its preview on one line, or that the
/// session has none.
pub proof fn session_rows_show_one_line(s: SessionItem)
    ensures
        s.preview matches Some(preview) ==> desk::session_hint(s).detail == text::squash(preview),
        s.preview is None ==> desk::session_hint(s).detail == "No user message yet"@,
{
}

/// The label of an agent tells how deep it stands below the root, whether it
/// runs, its name, and whether it is the one in view.
pub proof fn agent_labels_tell_their_place(address: Seq<char>, current: bool, running: bool)
    ensures
        ({
            let label = desk::tree_label(address, current, running);
            let slashes = text::count_of(address, '/') as int;
            let name = text::after_last(address, '/');
            let shown = if current {
                seq!['['] + name + seq![']']
            } else {
                name
            };
            let dot = if running {
                '●'
            } else {
                ' '
            };
            &&& slashes <= 1 ==> label == seq!['◉', dot] + shown
            &&& slashes > 1 ==> label == Seq::new((2 * (slashes - 1)) as nat, |i: int| ' ') + seq![
                '└',
                '─',
                dot,
            ] + shown
        }),
{
    let label = desk::tree_label(address, current, running);
    let slashes = text::count_of(address, '/') as int;
    let name = text::after_last(address, '/');
    let shown = if current {
        seq!['['] + name + seq![']']
    } else {
        name
    };
    let dot = if running {
        '●'
    } else {
        ' '
    };
    reveal_strlit("[");
    reveal_strlit("]");
    reveal_strlit("●");
    reveal_strlit(" ");
    reveal_strlit("◉");
    reveal_strlit("└─");
    if slashes <= 1 {
        assert(label =~= seq!['◉', dot] + shown);
    } else {
        assert(label =~= Seq::new((2 * (slashes - 1)) as nat, |i: int| ' ') + seq![
            '└',
            '─',
            dot,
        ] + shown);
    }
}

/// Beside an agent stand its status and the model it works with: at the root
/// the selected one.
pub proof fn agent_rows_show_status_and_model(d: Desk, address: Seq<char>)
    requires
        d.knows(address),
    ensures
        ({
            let c = d.all()[address];
            let detail = d.agent_detail(address);
            &&& address == desk::root() ==> detail == c.status + " · "@
                + d.models[d.selected_model].registry_id@
            &&& address != desk::root() && c.model is Some ==> detail == c.status + " · "@
                + c.model->0
            &&& address != desk::root() && c.model is None ==> detail == c.status
        }),
{
}

proof fn lemma_elsewhere(list: Seq<Seq<char>>, n: int, current: Seq<char>, a: Seq<char>)
    requires
        0 <= n <= list.len(),
    ensures
        desk::elsewhere(list, n, current).contains(a) <==> a != current && list.take(n).contains(
            a,
        ),
    decreases n,
{
    let all = desk::elsewhere(list, n, current);
    if n > 0 {
        lemma_elsewhere(list, n - 1, current, a);
        let before = desk::elsewhere(list, n - 1, current);
        let last = list[n - 1];
        let fewer = list.take(n - 1);
        assert(list.take(n) =~= fewer.push(last));
        if fewer.contains(a) {
            let k = choose|k: int| 0 <= k < fewer.len() && fewer[k] == a;
            assert(list.take(n)[k] == a);
        }
        if last == a {
            assert(list.take(n)[n - 1] == a);
        }
        if before.contains(a) {
            let k = choose|k: int| 0 <= k < before.len() && before[k] == a;
            assert(all[k] == a);
        }
        if last != current {
            assert(all[before.len() as int] == last);
        }
        if all.contains(a) && last != a {
            let k = choose|k: int| 0 <= k < all.len() && all[k] == a;
            assert(before[k] == a);
        }
        if list.take(n).contains(a) && last != a {
            let k = choose|k: int| 0 <= k < list.take(n).len() && list.take(n)[k] == a;
            assert(fewer[k] == a);
        }
    }
}

/// The agents that run elsewhere are those that run but the one in view.
pub proof fn agents_elsewhere_are_not_in_view(d: Desk, a: Seq<char>)
    ensures
        d.others_running().contains(a) <==> d.running_agents().contains(a) && a != d.current,
        !d.others_running().contains(d.current),
{
    let list = d.running_agents();
    lemma_elsewhere(list, list.len() as int, d.current, a);
    lemma_elsewhere(list, list.len() as int, d.current, d.current);
    assert(list.take(list.len() as int) =~= list);
}

/// An agent that is met for the first time joins the others as they are; one
/// that is known stays as it is.
pub proof fn agents_are_met_once(
    d: Desk,
    address: Seq<char>,
    parent: Option<Seq<char>>,
    status: Seq<char>,
    k: Seq<char>,
)
    ensures
        ({
            let after = d.ensure_agent(address, parent, status);
            &&& d.agents.dom().contains(address) && address != d.current ==> after == d
            &&& !d.agents.dom().contains(address) && address != d.current ==> {
                let c = after.agents[address];
                &&& after.agents.dom().contains(address)
                &&& c.parent == parent && c.status == status && c.entries.len() == 0
                &&& c.created_ord == d.next_ord && !c.run_active
                &&& d.next_ord < u64::MAX ==> after.next_ord == d.next_ord + 1
            }
            &&& k != address && d.agents.dom().contains(k) ==> after.agents.dom().contains(k)
                && after.agents[k] == d.agents[k]
            &&& after.current == d.current && after.conv.entries == d.conv.entries
        }),
{
}

} // verus!
