//! What submitting the input asks for, by what the input says.

use crate::conversation::EntryKind;
use crate::desk;
use crate::desk::{Desk, Focus, SessionItem};
use crate::events::{KeyCode, KeyEvent, KeyEventKind};
use crate::history::{Command, Request};
use crate::text;
use crate::text_laws;
use vstd::prelude::*;

verus! {

/// Whether nothing keeps a slash command waiting.
pub open spec fn is_idle(d: Desk) -> bool {
    !d.command && !d.root_active && !d.interrupting
}

/// What the user submits: the input without whitespace around it.
pub open spec fn submitted(d: Desk) -> Seq<char> {
    text::trim(d.input.text)
}

proof fn lemma_prefix_char(s: Seq<char>, prefix: Seq<char>, k: int)
    requires
        text::starts_with(s, prefix),
        0 <= k < prefix.len(),
    ensures
        s[k] == prefix[k],
{
    assert(s.take(prefix.len() as int)[k] == prefix[k]);
}

/// The first characters and the lengths of the commands.
proof fn lemma_commands()
    ensures
        "/"@.len() == 1 && "/"@[0] == '/',
        "/exit"@.len() == 5 && "/exit"@[0] == '/' && "/exit"@[1] == 'e' && "/exit"@[2] == 'x',
        "/quit"@.len() == 5 && "/quit"@[0] == '/' && "/quit"@[1] == 'q',
        "/agents"@.len() == 7 && "/agents"@[0] == '/' && "/agents"@[1] == 'a',
        "/agents "@.len() == 8 && "/agents "@[0] == '/' && "/agents "@[1] == 'a' && "/agents "@[7]
            == ' ',
        "/compact"@.len() == 8 && "/compact"@[0] == '/' && "/compact"@[1] == 'c' && "/compact"@[7]
            == 't',
        "/new"@.len() == 4 && "/new"@[0] == '/' && "/new"@[1] == 'n' && "/new"@[3] == 'w',
        "/model"@.len() == 6 && "/model"@[0] == '/' && "/model"@[1] == 'm' && "/model"@[5] == 'l',
        "/model "@.len() == 7 && "/model "@[0] == '/' && "/model "@[1] == 'm' && "/model "@[6]
            == ' ',
        "/effort"@.len() == 7 && "/effort"@[0] == '/' && "/effort"@[1] == 'e' && "/effort"@[2]
            == 'f' && "/effort"@[6] == 't',
        "/effort "@.len() == 8 && "/effort "@[0] == '/' && "/effort "@[1] == 'e' && "/effort "@[2]
            == 'f' && "/effort "@[7] == ' ',
        "/session"@.len() == 8 && "/session"@[0] == '/' && "/session"@[1] == 's' && "/session"@[7]
            == 'n',
        "/session "@.len() == 9 && "/session "@[0] == '/' && "/session "@[1] == 's'
            && "/session "@[8] == ' ',
{
    reveal_strlit("/");
    reveal_strlit("/exit");
    reveal_strlit("/quit");
    reveal_strlit("/agents");
    reveal_strlit("/agents ");
    reveal_strlit("/compact");
    reveal_strlit("/new");
    reveal_strlit("/model");
    reveal_strlit("/model ");
    reveal_strlit("/effort");
    reveal_strlit("/effort ");
    reveal_strlit("/session");
    reveal_strlit("/session ");
}

/// Which commands a text can be, by its characters.
proof fn lemma_tells_apart(s: Seq<char>)
    ensures
        text::starts_with(s, "/"@) <==> s.len() > 0 && s[0] == '/',
        text::starts_with(s, "/agents "@) ==> s.len() >= 8 && s[0] == '/' && s[1] == 'a' && s[7]
            == ' ',
        text::starts_with(s, "/model "@) ==> s.len() >= 7 && s[0] == '/' && s[1] == 'm' && s[6]
            == ' ',
        text::starts_with(s, "/effort "@) ==> s.len() >= 8 && s[0] == '/' && s[1] == 'e' && s[2]
            == 'f' && s[7] == ' ',
        text::starts_with(s, "/session "@) ==> s.len() >= 9 && s[0] == '/' && s[1] == 's' && s[8]
            == ' ',
{
    lemma_commands();
    if text::starts_with(s, "/"@) {
        lemma_prefix_char(s, "/"@, 0);
    }
    if s.len() > 0 && s[0] == '/' {
        assert(s.take(1) =~= "/"@);
    }
    if text::starts_with(s, "/agents "@) {
        lemma_prefix_char(s, "/agents "@, 0);
        lemma_prefix_char(s, "/agents "@, 1);
        lemma_prefix_char(s, "/agents "@, 7);
    }
    if text::starts_with(s, "/model "@) {
        lemma_prefix_char(s, "/model "@, 0);
        lemma_prefix_char(s, "/model "@, 1);
        lemma_prefix_char(s, "/model "@, 6);
    }
    if text::starts_with(s, "/effort "@) {
        lemma_prefix_char(s, "/effort "@, 0);
        lemma_prefix_char(s, "/effort "@, 1);
        lemma_prefix_char(s, "/effort "@, 2);
        lemma_prefix_char(s, "/effort "@, 7);
    }
    if text::starts_with(s, "/session "@) {
        lemma_prefix_char(s, "/session "@, 0);
        lemma_prefix_char(s, "/session "@, 1);
        lemma_prefix_char(s, "/session "@, 8);
    }
}

/// Each request is made for its own command and for no other: an idle view
/// asks for a compaction exactly on `/compact`, for a new session exactly on
/// `/new`, for the list of sessions exactly on `/session`; a message is sent
/// exactly for a text that is no command, and holds that text.
pub proof fn requests_say_what_was_submitted(d: Desk)
    requires
        d.wf(),
    ensures
        ({
            let input = submitted(d);
            let request = d.submit().1;
            &&& request == Some(Request::Compact) <==> is_idle(d) && input == "/compact"@
            &&& request == Some(Request::New) <==> is_idle(d) && input == "/new"@
            &&& request == Some(Request::RefreshSessions) <==> is_idle(d) && input == "/session"@
            &&& request matches Some(Request::Message(message)) ==> message == input
            &&& (request matches Some(Request::Message(_))) <==> input.len() > 0 && input[0] != '/'
                && !d.interrupting
            &&& request matches Some(Request::LoadSession(_)) ==> is_idle(d) && text::starts_with(
                input,
                "/session "@,
            )
            &&& request matches Some(Request::SetEffort(_, _)) ==> is_idle(d) && text::starts_with(
                input,
                "/effort "@,
            )
            &&& request matches Some(Request::SwitchModel(_, _)) ==> is_idle(d)
                && text::starts_with(input, "/model "@)
            &&& !(request matches Some(Request::Interrupt))
            &&& !(request matches Some(Request::DeleteSession(_)))
            &&& !(request matches Some(Request::ReplaceSession(_)))
        }),
{
    reveal(Desk::submit);
    reveal(Desk::run_slash);
    reveal(Desk::dispatch);
    reveal(Desk::load_session);
    reveal(Desk::set_effort);
    reveal(Desk::pick_model);
    lemma_commands();
    lemma_tells_apart(submitted(d));
}

/// A command that the runtime carries out blocks further commands until it is
/// done, and clears the input.
pub proof fn runtime_commands_block_further_ones(d: Desk)
    requires
        d.wf(),
        d.submit().1 matches Some(r) && (r is Compact || r is New || r is LoadSession
            || r is SetEffort || r is SwitchModel),
    ensures
        d.submit().0.command,
        d.submit().0.busy,
        d.submit().0.input.text.len() == 0,
{
    reveal(Desk::submit);
    reveal(Desk::run_slash);
    reveal(Desk::dispatch);
    reveal(Desk::load_session);
    reveal(Desk::set_effort);
    reveal(Desk::pick_model);
    reveal(Desk::switch);
}

/// `/exit` and `/quit` leave the program, whatever is in progress, and nothing
/// else that is submitted does.
pub proof fn exit_and_quit_leave(d: Desk)
    requires
        d.wf(),
    ensures
        d.submit().0.should_exit == (d.should_exit || submitted(d) == "/exit"@ || submitted(d)
            == "/quit"@),
        submitted(d) == "/exit"@ || submitted(d) == "/quit"@ ==> d.submit().1 is None,
{
    reveal(Desk::submit);
    reveal(Desk::run_slash);
    reveal(Desk::dispatch);
    reveal(Desk::load_session);
    reveal(Desk::set_effort);
    reveal(Desk::pick_model);
    reveal(Desk::pick_agent);
    reveal(Desk::push_error);
    reveal(Desk::switch);
    reveal(Desk::send);
    reveal(Desk::root_status);
    lemma_commands();
    lemma_tells_apart(submitted(d));
}

/// Submitting nothing does nothing.
pub proof fn blank_input_is_not_submitted(d: Desk)
    requires
        forall|k: int| 0 <= k < d.input.text.len() ==> text::is_space(#[trigger] d.input.text[k]),
    ensures
        d.submit() == (d, None::<Request>),
{
    reveal(Desk::submit);
    let (i, j) = text_laws::trimming_removes_outer_whitespace(d.input.text);
}

/// A command without its argument waits for it in the input, with the cursor
/// behind the space.
pub proof fn bare_commands_open_their_palette(d: Desk, command: Seq<char>)
    requires
        d.wf(),
        is_idle(d),
        submitted(d) == command,
        command == "/model"@ || command == "/effort"@ || command == "/session"@,
    ensures
        d.submit().0.input.text == command + " "@,
        d.submit().0.input.cursor == command.len() + 1,
        d.submit().0.current == desk::root(),
        !(d.submit().1 matches Some(r) && !(r is RefreshSessions)),
{
    reveal(Desk::submit);
    reveal(Desk::run_slash);
    reveal(Desk::dispatch);
    lemma_commands();
    lemma_tells_apart(submitted(d));
    reveal_strlit(" ");
    reveal_strlit("/model");
    reveal_strlit("/effort");
    reveal_strlit("/session");
    reveal_strlit("/model ");
    reveal_strlit("/effort ");
    reveal_strlit("/session ");
    assert("/model"@ + " "@ =~= "/model "@);
    assert("/effort"@ + " "@ =~= "/effort "@);
    assert("/session"@ + " "@ =~= "/session "@);
    lemma_root_is_viewed(d.cleared());
}

proof fn lemma_root_is_viewed(d: Desk)
    requires
        d.wf(),
    ensures
        d.switch(desk::root()).current == desk::root(),
{
    reveal(Desk::switch);
    reveal(desk::agents_ok);
}

proof fn lemma_model_index(models: Seq<crate::config::ModelChoice>, i: int, id: Seq<char>)
    requires
        0 <= i <= models.len(),
    ensures
        desk::model_index(models, i, id) matches Some(k) ==> i <= k < models.len()
            && models[k].registry_id@ == id && forall|j: int|
            i <= j < k ==> (#[trigger] models[j]).registry_id@ != id,
        desk::model_index(models, i, id) is None ==> forall|j: int|
            i <= j < models.len() ==> (#[trigger] models[j]).registry_id@ != id,
    decreases models.len() - i,
{
    if i < models.len() && models[i].registry_id@ != id {
        lemma_model_index(models, i + 1, id);
    }
}

proof fn lemma_string_index(list: Seq<Seq<char>>, i: int, s: Seq<char>)
    requires
        0 <= i <= list.len(),
    ensures
        desk::string_index(list, i, s) matches Some(k) ==> i <= k < list.len() && list[k] == s
            && forall|j: int| i <= j < k ==> #[trigger] list[j] != s,
        desk::string_index(list, i, s) is None ==> forall|j: int|
            i <= j < list.len() ==> #[trigger] list[j] != s,
    decreases list.len() - i,
{
    if i < list.len() && list[i] != s {
        lemma_string_index(list, i + 1, s);
    }
}

/// A model is only ever switched to by its own id, and never to the one that
/// is in use.
pub proof fn switches_name_a_configured_model(d: Desk, i: usize, id: Seq<char>)
    requires
        d.wf(),
        d.submit().1 == Some(Request::SwitchModel(i, id)),
        d.models.len() <= usize::MAX,
    ensures
        i < d.models.len(),
        d.models[i as int].registry_id@ == id,
        i != d.selected_model,
        text::contains(submitted(d), id),
{
    requests_say_what_was_submitted(d);
    reveal(Desk::submit);
    reveal(Desk::run_slash);
    reveal(Desk::dispatch);
    reveal(Desk::load_session);
    reveal(Desk::set_effort);
    reveal(Desk::pick_model);
    reveal(Desk::switch);
    lemma_commands();
    lemma_tells_apart(submitted(d));
    let rest = text::strip_all(submitted(d), "/model "@);
    lemma_model_index(d.models, 0, text::trim(rest));
    lemma_trimmed_rest(submitted(d), "/model "@);
}

proof fn lemma_strip_all(s: Seq<char>, prefix: Seq<char>) -> (n: int)
    ensures
        0 <= n <= s.len(),
        text::strip_all(s, prefix) == s.skip(n),
    decreases s.len(),
{
    if prefix.len() > 0 && text::starts_with(s, prefix) {
        let p = prefix.len() as int;
        let n = lemma_strip_all(s.skip(p), prefix);
        assert(s.skip(p).skip(n) =~= s.skip(p + n));
        p + n
    } else {
        assert(s.skip(0) =~= s);
        0
    }
}

proof fn lemma_trimmed_rest(s: Seq<char>, prefix: Seq<char>)
    ensures
        text::contains(s, text::trim(text::strip_all(s, prefix))),
{
    let n = lemma_strip_all(s, prefix);
    let rest = s.skip(n);
    let (i, j) = text_laws::trimming_removes_outer_whitespace(rest);
    assert(s.subrange(n + i, n + j) =~= rest.subrange(i, j));
    assert(text::occurs_at(s, rest.subrange(i, j), n + i));
}

/// What a command is given: a text that needs no trimming and does not repeat
/// the command.
pub open spec fn is_argument(prefix: Seq<char>, argument: Seq<char>) -> bool {
    &&& argument.len() > 0
    &&& !text::is_space(argument[0])
    &&& !text::is_space(argument.last())
    &&& !text::starts_with(argument, prefix)
}

proof fn lemma_argument(prefix: Seq<char>, argument: Seq<char>)
    requires
        prefix.len() > 0,
        is_argument(prefix, argument),
    ensures
        text::strip_all(prefix + argument, prefix) == argument,
        text::trim(argument) == argument,
        text::starts_with(prefix + argument, prefix),
{
    text_laws::prefixes_come_off(prefix, argument);
    assert((prefix + argument).skip(prefix.len() as int) =~= argument);
    text_laws::trimmed_texts_stay(argument);
    assert(text::strip_all(argument, prefix) == argument);
}

/// `/model` with the id of a configured model switches to the first model of
/// that id, unless it is in use already; an id that no model has is reported.
pub proof fn models_are_switched_by_id(d: Desk, id: Seq<char>, i: int)
    requires
        d.wf(),
        is_idle(d),
        d.models.len() <= usize::MAX,
        is_argument("/model "@, id),
        submitted(d) == "/model "@ + id,
    ensures
        0 <= i < d.models.len() && d.models[i].registry_id@ == id && i != d.selected_model && (
        forall|j: int| 0 <= j < i ==> (#[trigger] d.models[j]).registry_id@ != id)
            ==> d.submit().1 == Some(Request::SwitchModel(i as usize, id)),
        (forall|j: int| 0 <= j < d.models.len() ==> (#[trigger] d.models[j]).registry_id@ != id)
            ==> d.submit().1 is None && d.submit().0.conv.status == "Error"@,
{
    reveal(Desk::submit);
    reveal(Desk::run_slash);
    reveal(Desk::dispatch);
    reveal(Desk::pick_model);
    reveal(Desk::switch);
    reveal(Desk::push_error);
    lemma_commands();
    lemma_tells_apart(submitted(d));
    lemma_argument("/model "@, id);
    lemma_tells_apart(submitted(d));
    lemma_model_index(d.models, 0, id);
}

/// An effort is only ever set for the model in use, to one that it offers and
/// that is not set already.
pub proof fn efforts_are_those_of_the_model(d: Desk, i: usize, effort: Seq<char>)
    requires
        d.wf(),
        d.submit().1 == Some(Request::SetEffort(i, effort)),
        d.models.len() <= usize::MAX,
    ensures
        i == d.selected_model,
        text::texts(d.models[i as int].efforts@).contains(effort),
        text::contains(submitted(d), effort),
        ({
            let used = d.efforts[i as int] as int;
            0 <= used < d.models[i as int].efforts@.len() && (forall|j: int|
                0 <= j < used ==> (#[trigger] d.models[i as int].efforts@[j])@ != effort)
                ==> d.models[i as int].efforts@[used]@ != effort
        }),
{
    requests_say_what_was_submitted(d);
    reveal(Desk::submit);
    reveal(Desk::run_slash);
    reveal(Desk::dispatch);
    reveal(Desk::load_session);
    reveal(Desk::set_effort);
    reveal(Desk::pick_model);
    reveal(Desk::switch);
    lemma_commands();
    lemma_tells_apart(submitted(d));
    let rest = text::strip_all(submitted(d), "/effort "@);
    let list = text::texts(d.models[d.selected_model].efforts@);
    lemma_string_index(list, 0, text::trim(rest));
    lemma_trimmed_rest(submitted(d), "/effort "@);
    let used = d.efforts[i as int] as int;
    if 0 <= used < d.models[i as int].efforts@.len() && (forall|j: int|
        0 <= j < used ==> (#[trigger] d.models[i as int].efforts@[j])@ != effort) {
        let k = desk::string_index(list, 0, effort)->0;
        assert(list[k] == d.models[i as int].efforts@[k]@);
        if d.models[i as int].efforts@[used]@ == effort {
            assert(list[used] == effort);
        }
    }
}

/// `/effort` with an effort of the model in use sets it, unless it is set
/// already; any other effort is reported.
pub proof fn efforts_are_set_by_name(d: Desk, effort: Seq<char>, k: int)
    requires
        d.wf(),
        is_idle(d),
        d.models.len() <= usize::MAX,
        is_argument("/effort "@, effort),
        submitted(d) == "/effort "@ + effort,
    ensures
        0 <= k < d.models[d.selected_model].efforts@.len() && d.models[d.selected_model].efforts@[k]@
            == effort && (forall|j: int|
            0 <= j < k ==> (#[trigger] d.models[d.selected_model].efforts@[j])@ != effort)
            && d.efforts[d.selected_model] != k ==> d.submit().1 == Some(
            Request::SetEffort(d.selected_model as usize, effort),
        ),
        (forall|j: int|
            0 <= j < d.models[d.selected_model].efforts@.len() ==> (
            #[trigger] d.models[d.selected_model].efforts@[j])@ != effort) ==> d.submit().1 is None
            && d.submit().0.conv.status == "Error"@,
{
    reveal(Desk::submit);
    reveal(Desk::run_slash);
    reveal(Desk::dispatch);
    reveal(Desk::set_effort);
    reveal(Desk::switch);
    reveal(Desk::push_error);
    lemma_commands();
    lemma_argument("/effort "@, effort);
    lemma_tells_apart(submitted(d));
    let efforts = d.models[d.selected_model].efforts@;
    let list = text::texts(efforts);
    lemma_string_index(list, 0, effort);
    if 0 <= k < efforts.len() && efforts[k]@ == effort {
        assert(list[k] == effort);
    }
    assert forall|j: int| 0 <= j < list.len() implies #[trigger] list[j] == efforts[j]@ by {}
}

/// A session is only ever loaded when it is listed and not open already.
pub proof fn loads_name_a_listed_session(d: Desk, id: u64)
    requires
        d.wf(),
        d.submit().1 == Some(Request::LoadSession(id)),
    ensures
        id != d.session_id,
        exists|i: int| 0 <= i < d.sessions.len() && (#[trigger] d.sessions[i]).id == id,
{
    reveal(Desk::submit);
    reveal(Desk::run_slash);
    reveal(Desk::dispatch);
    reveal(Desk::load_session);
    reveal(Desk::set_effort);
    reveal(Desk::pick_model);
    reveal(Desk::switch);
}

proof fn lemma_number_argument(id: u64, hash: bool)
    ensures
        ({
            let d = text::decimal(id as nat);
            let written = if hash {
                "#"@ + d
            } else {
                d
            };
            &&& is_argument("/session "@, written)
            &&& written.skip(text::skip_char(written, 0, '#')) == d
        }),
{
    let d = text::decimal(id as nat);
    text_laws::decimals_read_back(id);
    let written = if hash {
        "#"@ + d
    } else {
        d
    };
    reveal_strlit("#");
    lemma_commands();
    assert(text::is_digit(d[0]) && text::is_digit(d.last()));
    if hash {
        assert(written[0] == '#' && written[1] == d[0]);
        assert(text::skip_char(written, 1, '#') == 1);
        assert(written.skip(1) =~= d);
    } else {
        assert(written.skip(0) =~= d);
    }
    assert(written.last() == d.last());
    lemma_tells_apart(written);
}

/// `/session` with the number of a listed session loads it, with or without
/// `#`, unless it is open already; a number that is not listed is reported.
pub proof fn sessions_are_loaded_by_number(d: Desk, id: u64, hash: bool)
    requires
        d.wf(),
        is_idle(d),
        submitted(d) == "/session "@ + (if hash {
            "#"@ + text::decimal(id as nat)
        } else {
            text::decimal(id as nat)
        }),
    ensures
        ({
            let listed = exists|i: int|
                0 <= i < d.sessions.len() && (#[trigger] d.sessions[i]).id == id;
            &&& listed && id != d.session_id ==> d.submit().1 == Some(Request::LoadSession(id))
            &&& listed && id == d.session_id ==> d.submit().1 is None
            &&& !listed ==> d.submit().1 is None && d.submit().0.conv.status == "Error"@
        }),
{
    reveal(Desk::submit);
    reveal(Desk::run_slash);
    reveal(Desk::dispatch);
    reveal(Desk::load_session);
    reveal(Desk::switch);
    reveal(Desk::push_error);
    lemma_commands();
    let written = if hash {
        "#"@ + text::decimal(id as nat)
    } else {
        text::decimal(id as nat)
    };
    lemma_number_argument(id, hash);
    lemma_argument("/session "@, written);
    lemma_tells_apart(submitted(d));
    text_laws::decimals_read_back(id);
}

/// `/agents` with the address of a known agent views it; no conversation
/// changes. An address that is not known is reported in the viewed
/// conversation.
pub proof fn agents_are_viewed_by_address(d: Desk, address: Seq<char>)
    requires
        d.wf(),
        is_argument("/agents "@, address),
        submitted(d) == "/agents "@ + address,
    ensures
        d.submit().1 is None,
        d.submit().0.input.text.len() == 0,
        d.knows(address) ==> d.submit().0.current == address && d.submit().0.all() == d.all(),
        !d.knows(address) ==> d.submit().0.current == d.current && d.submit().0.conv.status
            == "Error"@ && d.submit().0.conv.entries.len() == d.conv.entries.len() + 1,
{
    reveal(Desk::submit);
    reveal(Desk::pick_agent);
    reveal(Desk::push_error);
    reveal(crate::conversation::Conv::pin);
    lemma_commands();
    lemma_argument("/agents "@, address);
    text_laws::prefixes_come_off("/agents "@, address);
    lemma_tells_apart(submitted(d));
    crate::desk_laws::switching_loses_nothing(d.cleared(), address);
    reveal(Desk::switch);
}

/// Any other slash command is reported and asks for nothing.
pub proof fn unknown_commands_are_reported(d: Desk)
    requires
        d.wf(),
        is_idle(d),
        ({
            let input = submitted(d);
            &&& input.len() > 0 && input[0] == '/'
            &&& input != "/exit"@ && input != "/quit"@ && input != "/agents"@ && input
                != "/compact"@ && input != "/new"@ && input != "/model"@ && input != "/effort"@
                && input != "/session"@
            &&& !text::starts_with(input, "/agents "@) && !text::starts_with(input, "/model "@)
                && !text::starts_with(input, "/effort "@) && !text::starts_with(
                input,
                "/session "@,
            )
        }),
    ensures
        ({
            let (after, request) = d.submit();
            let at = d.cleared().switch(desk::root()).conv.committed;
            let row = after.conv.entries[at];
            &&& request is None
            &&& after.conv.status == "Error"@
            &&& row.kind == EntryKind::Error
            &&& text::contains(row.body, submitted(d))
        }),
{
    reveal(Desk::submit);
    reveal(Desk::run_slash);
    reveal(Desk::dispatch);
    reveal(Desk::push_error);
    reveal(crate::conversation::Conv::pin);
    lemma_commands();
    lemma_tells_apart(submitted(d));
    text_laws::containing_is_having_inside("`"@, submitted(d), "` is not a Lam command."@);
    reveal(Desk::switch);
    reveal(desk::agents_ok);
}

proof fn lemma_previewed(sessions: Seq<SessionItem>, i: int, id: u64, s: Seq<char>)
    requires
        0 <= i <= sessions.len(),
    ensures
        ({
            let after = Desk::previewed(sessions, i, id, s);
            &&& after.len() == sessions.len()
            &&& forall|k: int|
                0 <= k < sessions.len() ==> (#[trigger] after[k]).id == sessions[k].id
            &&& forall|k: int|
                0 <= k < sessions.len() && (sessions[k].id != id || sessions[k].preview is Some)
                    ==> #[trigger] after[k] == sessions[k]
            &&& forall|k: int|
                0 <= k < sessions.len() && after[k] != #[trigger] sessions[k] ==> after[k].preview
                    == Some(s)
            &&& forall|k: int|
                i <= k < sessions.len() && sessions[k].id == id && sessions[k].preview is None && (
                forall|j: int|
                    i <= j < k ==> !((#[trigger] sessions[j]).id == id && sessions[j].preview
                        is None)) ==> (#[trigger] after[k]).preview == Some(s)
        }),
    decreases sessions.len() - i,
{
    if i < sessions.len() && !(sessions[i].id == id && sessions[i].preview is None) {
        lemma_previewed(sessions, i + 1, id, s);
        let after = Desk::previewed(sessions, i, id, s);
        assert forall|k: int|
            i <= k < sessions.len() && sessions[k].id == id && sessions[k].preview is None && (
            forall|j: int|
                i <= j < k ==> !((#[trigger] sessions[j]).id == id && sessions[j].preview is None))
            implies (#[trigger] after[k]).preview == Some(s) by {
            assert(k != i);
        }
    }
}

/// The first message of a session becomes its preview; no preview is ever
/// replaced, and no other session gets one.
pub proof fn first_messages_become_the_preview(d: Desk, k: int)
    requires
        d.wf(),
        submitted(d).len() > 0,
        submitted(d)[0] != '/',
        !d.interrupting,
        0 <= k < d.sessions.len(),
    ensures
        d.submit().0.sessions.len() == d.sessions.len(),
        d.sessions[k].id != d.session_id || d.sessions[k].preview is Some
            ==> d.submit().0.sessions[k] == d.sessions[k],
        d.sessions[k].id == d.session_id && d.sessions[k].preview is None && (forall|j: int|
            0 <= j < k ==> (#[trigger] d.sessions[j]).id != d.session_id)
            ==> d.submit().0.sessions[k].preview == Some(submitted(d)),
{
    reveal(Desk::submit);
    reveal(Desk::send);
    reveal(Desk::root_status);
    reveal(Desk::switch);
    lemma_commands();
    lemma_tells_apart(submitted(d));
    lemma_previewed(d.sessions, 0, d.session_id, submitted(d));
}

/// Whether Enter submits the input as it stands: no palette is open, or its
/// highlighted row says what the input says.
pub open spec fn enter_submits(d: Desk) -> bool {
    let hints = d.suggestions();
    hints.len() == 0 || (0 <= d.suggestion < hints.len() && {
        let chosen = hints[d.suggestion].replacement;
        text::trim_end(d.input.text) == text::trim_end(chosen) && !text::ends_with(chosen, " "@)
    })
}

/// Enter asks for what the input says, as submitting it does.
pub proof fn enter_asks_for_what_the_input_says(d: Desk, key: KeyEvent, now: u64)
    requires
        d.wf(),
        d.focus == Focus::Input,
        key.kind != KeyEventKind::Release,
        key.code == KeyCode::Enter,
        enter_submits(d),
    ensures
        ({
            let input = submitted(d);
            let (after, request) = d.key(key, now);
            &&& request == Some(Request::Compact) <==> is_idle(d) && input == "/compact"@
            &&& request == Some(Request::New) <==> is_idle(d) && input == "/new"@
            &&& request == Some(Request::RefreshSessions) <==> is_idle(d) && input == "/session"@
            &&& request == Some(Request::Message(input)) <==> input.len() > 0 && input[0] != '/'
                && !d.interrupting
            &&& input == "/exit"@ || input == "/quit"@ ==> after.should_exit
        }),
{
    let at = lemma_enter(d, key, now);
    requests_say_what_was_submitted(at);
    exit_and_quit_leave(at);
}

/// Where Enter submits, it submits the view without what a keystroke
/// dismisses.
proof fn lemma_enter(d: Desk, key: KeyEvent, now: u64) -> (at: Desk)
    requires
        d.wf(),
        d.focus == Focus::Input,
        key.kind != KeyEventKind::Release,
        key.code == KeyCode::Enter,
        enter_submits(d),
    ensures
        at.wf(),
        at.input == d.input,
        is_idle(at) == is_idle(d),
        at.interrupting == d.interrupting,
        d.key(key, now) == at.submit(),
{
    reveal(Desk::key);
    reveal(Desk::other_key);
    reveal(Desk::routed);
    reveal(Desk::input_key);
    reveal(Desk::enter_palette);
    crate::key_laws::lemma_suggestions_ignore_guards(d, key);
    let e = Desk { deadline: None, ..d.dismissed(key) };
    e.highlighted(d.suggestions().len() as int)
}

/// No key but Enter in the input asks for a compaction, a new session, a
/// model, an effort, a session or a message, and only for what the input says.
pub proof fn only_enter_submits(d: Desk, key: KeyEvent, now: u64)
    requires
        d.wf(),
        d.suggestion >= 0,
        d.key(key, now).1 matches Some(r) && !(r is Interrupt || r is DeleteSession
            || r is ReplaceSession),
    ensures
        key.code == KeyCode::Enter,
        key.kind != KeyEventKind::Release,
        d.focus == Focus::Input,
        d.key(key, now).1 == Some(Request::Compact) ==> submitted(d) == "/compact"@,
        d.key(key, now).1 == Some(Request::New) ==> submitted(d) == "/new"@,
        d.key(key, now).1 == Some(Request::RefreshSessions) ==> submitted(d) == "/session"@,
        d.key(key, now).1 matches Some(Request::Message(m)) ==> m == submitted(d),
{
    reveal(Desk::key);
    reveal(Desk::other_key);
    reveal(Desk::escape);
    reveal(Desk::delete_session);
    reveal(Desk::routed);
    reveal(Desk::input_key);
    reveal(Desk::enter_palette);
    let e = Desk { deadline: None, ..d.dismissed(key) };
    let hints = e.suggestions();
    let at = e.highlighted(hints.len() as int);
    requests_say_what_was_submitted(at);
    if key.code == KeyCode::Enter && at.agents_open() && hints.len() > 0 {
        lemma_agent_choice_asks_nothing(e, at, hints);
    }
}

/// Picking a row of the agents palette asks the runtime for nothing.
proof fn lemma_agent_choice_asks_nothing(e: Desk, at: Desk, hints: Seq<desk::Hint>)
    requires
        at == (Desk { suggestion: at.suggestion, ..e }),
        at.agents_open(),
        hints == e.suggestions(),
        0 <= at.suggestion < hints.len(),
    ensures
        at.apply_suggestion(hints).submit().1 is None,
{
    reveal(Desk::suggestions);
    reveal(Desk::submit);
    let input = text::trim_start(at.input.text);
    lemma_commands();
    lemma_tells_apart(input);
    let list = e.addresses();
    let query = text::lowercase(text::trim(text::strip_prefix(input, "/agents"@)->0));
    lemma_agent_replacement(e, list, query, list.len() as int, at.suggestion);
    let chosen = hints[at.suggestion].replacement;
    let d = at.apply_suggestion(hints);
    lemma_starts_agents(chosen);
}

proof fn lemma_agent_replacement(
    at: Desk,
    list: Seq<Seq<char>>,
    query: Seq<char>,
    n: int,
    k: int,
)
    requires
        0 <= n <= list.len(),
        0 <= k < at.agent_hints(list, query, n).len(),
    ensures
        text::starts_with(at.agent_hints(list, query, n)[k].replacement, "/agents "@),
    decreases n,
{
    if n > 0 {
        let before = at.agent_hints(list, query, n - 1);
        if k < before.len() {
            lemma_agent_replacement(at, list, query, n - 1, k);
        } else {
            text_laws::prefixes_come_off("/agents "@, list[n - 1]);
        }
    }
}

/// A text that starts with the agents command still does, or is the bare
/// command, without the whitespace around it.
proof fn lemma_starts_agents(s: Seq<char>)
    requires
        text::starts_with(s, "/agents "@),
    ensures
        text::trim(s) == "/agents"@ || text::starts_with(text::trim(s), "/agents "@),
        text::trim(s).len() > 0,
        text::trim(s) != "/exit"@,
        text::trim(s) != "/quit"@,
{
    lemma_commands();
    lemma_tells_apart(s);
    reveal_strlit("/agents");
    reveal_strlit("/agents ");
    let (i, j) = text_laws::trimming_removes_outer_whitespace(s);
    let head = s.take(8);
    assert(head == "/agents "@);
    assert forall|k: int| 0 <= k < 8 implies s[k] == "/agents "@[k] by {
        lemma_prefix_char(s, "/agents "@, k);
    }
    assert(s[0] == '/' && s[6] == 's');
    assert(!text::is_space(s[0]) && !text::is_space(s[6]));
    assert(i == 0 && j >= 7);
    let t = text::trim(s);
    if j == 7 {
        assert(t =~= "/agents"@);
    } else {
        assert(t.take(8) =~= "/agents "@);
    }
}

/// The commands that are handed to the runtime are what was asked for.
pub proof fn commands_are_their_requests(c: Command)
    ensures
        c is Compact <==> c@ is Compact,
        c is New <==> c@ is New,
        c is Interrupt <==> c@ is Interrupt,
        c is RefreshSessions <==> c@ is RefreshSessions,
        c is Message <==> c@ is Message,
        c is SwitchModel <==> c@ is SwitchModel,
        c is SetEffort <==> c@ is SetEffort,
        c is LoadSession <==> c@ is LoadSession,
        c is DeleteSession <==> c@ is DeleteSession,
        c is ReplaceSession <==> c@ is ReplaceSession,
        c matches Command::Message(m) ==> c@ == Request::Message(m@),
        c matches Command::LoadSession(id) ==> c@ == Request::LoadSession(id),
        c matches Command::DeleteSession(id) ==> c@ == Request::DeleteSession(id),
        c matches Command::ReplaceSession { delete } ==> c@ == Request::ReplaceSession(delete),
        c matches Command::SwitchModel { index, registry_id } ==> c@ == Request::SwitchModel(
            index,
            registry_id@,
        ),
        c matches Command::SetEffort { index, effort } ==> c@ == Request::SetEffort(index, effort@),
{
}

} // verus!
