//! What the program around the interface is told to do, and with which models.

use crate::cli;
use crate::cli::{Args, CliCommand, LoginProvider};
use crate::config::{ModelChoice, ProviderConfig, ProviderProtocol};
use crate::desk;
use crate::desk::{Desk, SessionItem};
use crate::events;
use crate::events::AgentSystemEvent;
use crate::history::{Command, CommandResult, Fold, Request};
use crate::projection;
use crate::runtime;
use crate::runtime::{Credential, EffortControl, HostReply};
use crate::steps;
use crate::steps::{Deed, Journals, Listing, Tick};
use crate::text;
use crate::text_laws;
use vstd::prelude::*;

verus! {

/// Whether an argument is one of the flags that stand alone.
pub open spec fn is_flag(a: Option<Seq<char>>) -> bool {
    a == Some("--debug-log"@) || a == Some("--help"@) || a == Some("-h"@) || a == Some(
        "--version"@,
    ) || a == Some("-V"@)
}

proof fn lemma_words()
    ensures
        "--config"@.len() == 8 && "--config"@[2] == 'c',
        "--debug-log"@.len() == 11 && "--debug-log"@[2] == 'd',
        "--help"@.len() == 6 && "--help"@[0] == '-' && "--help"@[2] == 'h',
        "-h"@.len() == 2 && "-h"@[1] == 'h',
        "--version"@.len() == 9 && "--version"@[2] == 'v',
        "-V"@.len() == 2 && "-V"@[1] == 'V',
        "login"@.len() == 5,
        "logout"@.len() == 6 && "logout"@[0] == 'l',
        "--no-browser"@.len() == 12,
        "--force"@.len() == 7,
{
    reveal_strlit("--config");
    reveal_strlit("--debug-log");
    reveal_strlit("--help");
    reveal_strlit("-h");
    reveal_strlit("--version");
    reveal_strlit("-V");
    reveal_strlit("login");
    reveal_strlit("logout");
    reveal_strlit("--no-browser");
    reveal_strlit("--force");
}

/// Whether one of the arguments from `i` on is `a`.
pub open spec fn is_among(args: Seq<Option<Seq<char>>>, i: int, a: Seq<char>) -> bool {
    exists|k: int| i <= k < args.len() && #[trigger] args[k] == Some(a)
}

proof fn lemma_among_step(args: Seq<Option<Seq<char>>>, i: int, a: Seq<char>)
    requires
        0 <= i < args.len(),
    ensures
        is_among(args, i, a) == (args[i] == Some(a) || is_among(args, i + 1, a)),
{
}

/// Flags are read in any order and number, each for what it says.
pub proof fn flags_say_what_they_ask_for(args: Seq<Option<Seq<char>>>, i: int, so_far: Args)
    requires
        0 <= i <= args.len(),
        forall|k: int| i <= k < args.len() ==> is_flag(#[trigger] args[k]),
    ensures
        cli::parsed(args, i, so_far) == Ok::<Args, Seq<char>>(
            Args {
                debug_log: so_far.debug_log || is_among(args, i, "--debug-log"@),
                help: so_far.help || is_among(args, i, "--help"@) || is_among(args, i, "-h"@),
                version: so_far.version || is_among(args, i, "--version"@) || is_among(
                    args,
                    i,
                    "-V"@,
                ),
                ..so_far
            },
        ),
    decreases args.len() - i,
{
    lemma_words();
    if i < args.len() {
        assert(is_flag(args[i]));
        lemma_among_step(args, i, "--debug-log"@);
        lemma_among_step(args, i, "--help"@);
        lemma_among_step(args, i, "-h"@);
        lemma_among_step(args, i, "--version"@);
        lemma_among_step(args, i, "-V"@);
        let a = args[i]->0;
        let next = if a == "--debug-log"@ {
            Args { debug_log: true, ..so_far }
        } else if a == "--help"@ || a == "-h"@ {
            Args { help: true, ..so_far }
        } else {
            Args { version: true, ..so_far }
        };
        flags_say_what_they_ask_for(args, i + 1, next);
    }
}

/// `--config` takes the argument behind it as the path, and the flags behind
/// that are read as ever; without one it is refused.
pub proof fn config_takes_the_next_argument(args: Seq<Option<Seq<char>>>, i: int, so_far: Args)
    requires
        0 <= i < args.len() <= usize::MAX,
        args[i] == Some("--config"@),
        forall|k: int| i + 2 <= k < args.len() ==> is_flag(#[trigger] args[k]),
    ensures
        i + 1 < args.len() ==> (cli::parsed(args, i, so_far) matches Ok(r) && r.config == Some(
            (i + 1) as usize,
        ) && r.command == so_far.command),
        i + 1 == args.len() ==> cli::parsed(args, i, so_far) is Err,
{
    if i + 1 < args.len() {
        flags_say_what_they_ask_for(
            args,
            i + 2,
            Args { config: Some((i + 1) as usize), ..so_far },
        );
    }
}

/// The accounts that can be signed in to, by any of their names.
pub proof fn providers_go_by_their_names(name: Seq<char>)
    ensures
        name == "openai"@ || name == "codex"@ || name == "chatgpt"@ ==> cli::login_provider(name)
            == Ok::<LoginProvider, Seq<char>>(LoginProvider::OpenAi),
        name == "xai"@ || name == "supergrok"@ || name == "grok"@ ==> cli::login_provider(name)
            == Ok::<LoginProvider, Seq<char>>(LoginProvider::Xai),
        cli::login_provider(name) is Ok ==> name == "openai"@ || name == "codex"@ || name
            == "chatgpt"@ || name == "xai"@ || name == "supergrok"@ || name == "grok"@,
        cli::login_provider(name) matches Err(e) ==> text::contains(e, name),
{
    reveal_strlit("openai");
    reveal_strlit("codex");
    reveal_strlit("chatgpt");
    reveal_strlit("xai");
    reveal_strlit("supergrok");
    reveal_strlit("grok");
    assert("openai"@.len() == 6 && "codex"@.len() == 5 && "chatgpt"@.len() == 7);
    assert("xai"@.len() == 3 && "supergrok"@.len() == 9 && "grok"@.len() == 4);
    text_laws::containing_is_having_inside(
        "unknown auth provider `"@,
        name,
        "`; supported: openai, xai"@,
    );
}

proof fn lemma_login_flags(
    args: Seq<Option<Seq<char>>>,
    i: int,
    no_browser: bool,
    force: bool,
)
    requires
        0 <= i <= args.len(),
    ensures
        (forall|k: int|
            i <= k < args.len() ==> #[trigger] args[k] == Some("--no-browser"@) || args[k] == Some(
                "--force"@,
            )) ==> cli::login_flags(args, i, no_browser, force) == Ok::<(bool, bool), Seq<char>>(
            (
                no_browser || is_among(args, i, "--no-browser"@),
                force || is_among(args, i, "--force"@),
            ),
        ),
        cli::login_flags(args, i, no_browser, force) is Ok ==> (forall|k: int|
            i <= k < args.len() ==> #[trigger] args[k] == Some("--no-browser"@) || args[k] == Some(
                "--force"@,
            )),
    decreases args.len() - i,
{
    lemma_words();
    if i < args.len() {
        lemma_among_step(args, i, "--no-browser"@);
        lemma_among_step(args, i, "--force"@);
        lemma_login_flags(args, i + 1, true, force);
        lemma_login_flags(args, i + 1, no_browser, true);
    }
}

/// `login` signs in to the account named behind it, without a browser or anew
/// where a flag says so; anything else behind it is refused.
pub proof fn logins_go_to_the_named_account(args: Seq<Option<Seq<char>>>, i: int, so_far: Args)
    requires
        0 <= i < args.len(),
        args[i] == Some("login"@),
    ensures
        ({
            let r = cli::parsed(args, i, so_far);
            let good = i + 1 < args.len() && args[i + 1] is Some && cli::login_provider(
                args[i + 1]->0,
            ) is Ok && (forall|k: int|
                i + 2 <= k < args.len() ==> #[trigger] args[k] == Some("--no-browser"@) || args[k]
                    == Some("--force"@));
            &&& r is Ok <==> good
            &&& good ==> r == Ok::<Args, Seq<char>>(
                Args {
                    command: Some(
                        CliCommand::Login {
                            provider: cli::login_provider(args[i + 1]->0)->Ok_0,
                            no_browser: is_among(args, i + 2, "--no-browser"@),
                            force: is_among(args, i + 2, "--force"@),
                        },
                    ),
                    ..so_far
                },
            )
        }),
{
    lemma_words();
    if i + 1 < args.len() {
        lemma_login_flags(args, i + 2, false, false);
    }
}

/// `logout` signs out of the account named behind it.
pub proof fn logouts_go_to_the_named_account(args: Seq<Option<Seq<char>>>, i: int, so_far: Args)
    requires
        0 <= i < args.len(),
        args[i] == Some("logout"@),
        forall|k: int| i + 2 <= k < args.len() ==> is_flag(#[trigger] args[k]),
    ensures
        ({
            let r = cli::parsed(args, i, so_far);
            let good = i + 1 < args.len() && args[i + 1] is Some && cli::login_provider(
                args[i + 1]->0,
            ) is Ok;
            &&& r is Ok <==> good
            &&& good ==> r->Ok_0.command == Some(
                CliCommand::Logout { provider: cli::login_provider(args[i + 1]->0)->Ok_0 },
            )
        }),
{
    lemma_words();
    if i + 1 < args.len() && args[i + 1] is Some && cli::login_provider(args[i + 1]->0) is Ok {
        flags_say_what_they_ask_for(
            args,
            i + 2,
            Args {
                command: Some(
                    CliCommand::Logout { provider: cli::login_provider(args[i + 1]->0)->Ok_0 },
                ),
                ..so_far
            },
        );
    }
}

/// An argument that is none of these is refused by name, and one that is not
/// Unicode is refused.
pub proof fn other_arguments_are_refused(args: Seq<Option<Seq<char>>>, i: int, so_far: Args)
    requires
        0 <= i < args.len(),
        !is_flag(args[i]),
        args[i] != Some("--config"@),
        args[i] != Some("login"@),
        args[i] != Some("logout"@),
    ensures
        cli::parsed(args, i, so_far) is Err,
        args[i] matches Some(a) ==> text::contains(cli::parsed(args, i, so_far)->Err_0, a),
{
    if let Some(a) = args[i] {
        text_laws::containing_is_having_inside("unknown argument `"@, a, "`; try --help"@);
    }
}

/// Whatever a keystroke asks for is handed to the host as it was asked: a
/// fresh session takes along the model and the effort in use, and a session to
/// load or to delete is the one that was meant.
pub proof fn requests_reach_the_host(d: Desk, tick: Tick, now: u64)
    ensures
        ({
            let deed = steps::asked(d, tick, now);
            &&& tick matches Tick::Key(key) ==> {
                let (after, request) = d.key(key, now);
                let model = after.models[after.selected_model];
                let effort = model.efforts@[after.efforts[after.selected_model] as int]@;
                &&& request is None ==> deed == Deed::Nothing
                &&& request == Some(Request::New) ==> deed == Deed::NewSession(
                    model.registry_id@,
                    effort,
                )
                &&& request matches Some(Request::LoadSession(id)) ==> deed == Deed::LoadSession(id)
                &&& request == Some(Request::RefreshSessions) ==> deed == Deed::RefreshSessions
                &&& request matches Some(Request::DeleteSession(id)) ==> deed
                    == Deed::DeleteSession(id)
                &&& request matches Some(Request::ReplaceSession(id)) ==> deed
                    == Deed::ReplaceSession(id, model.registry_id@, effort)
                &&& request matches Some(Request::Message(m)) ==> deed == Deed::Execute(
                    Request::Message(m),
                )
                &&& request == Some(Request::Compact) ==> deed == Deed::Execute(Request::Compact)
                &&& request == Some(Request::Interrupt) ==> deed == Deed::Execute(
                    Request::Interrupt,
                )
                &&& request matches Some(Request::SwitchModel(i, id)) ==> deed == Deed::Execute(
                    Request::SwitchModel(i, id),
                )
                &&& request matches Some(Request::SetEffort(i, e)) ==> deed == Deed::Execute(
                    Request::SetEffort(i, e),
                )
            }
            &&& tick matches Tick::Mouse(mouse) ==> deed == match d.mouse(mouse).1 {
                Some(s) => Deed::Copy(s),
                None => Deed::Nothing,
            }
            &&& !(tick is Key || tick is Mouse) ==> deed == Deed::Nothing
        }),
{
}

/// Each event reaches the view in its own way: keys, clicks and pastes as
/// such, agent events at their agent, and results where they belong. A window
/// that has passed disarms the interruption, and only then.
pub proof fn events_reach_the_view(d: Desk, tick: Tick, now: u64, consumed: bool)
    ensures
        ({
            let after = steps::ticked(d, tick, now, consumed);
            &&& tick matches Tick::Key(key) ==> after == d.key(key, now).0
            &&& tick matches Tick::Mouse(mouse) ==> after == d.mouse(mouse).0
            &&& tick matches Tick::Paste(s) ==> after == d.paste(s@)
            &&& tick matches Tick::Agent(event) ==> after == d.agent_event(event)
            &&& tick is Terminal || tick is Frame || tick is Idle ==> after == d
            &&& tick is Toast ==> after == (Desk { toast: None, ..d })
            &&& tick is Deadline ==> after == (Desk {
                deadline: if d.deadline matches Some(at) && at <= now {
                    None
                } else {
                    d.deadline
                },
                ..d
            })
            &&& tick matches Tick::Command(CommandResult::Message(Err(e))) ==> after == d.rejected(
                e@,
            )
            &&& tick matches Tick::Command(CommandResult::Message(Ok(sent))) ==> after == d.receipt(
                sent.message_id@,
                sent.text@,
                consumed,
            )
        }),
{
}

/// Nothing that is on screen changes without a new frame: whatever is not
/// painted anew leaves the view as it was, or, for an agent event, the
/// conversation that is viewed.
pub proof fn changes_are_painted(d: Desk, tick: Tick, now: u64, consumed: bool)
    requires
        !steps::repaints(d, tick, now),
    ensures
        !(tick is Agent) ==> steps::ticked(d, tick, now, consumed) == d,
        tick matches Tick::Agent(event) ==> events::event_address(event) != d.current
            && !d.agents_open(),
{
}

/// Before an event is applied, the journal of the agent it is about is read;
/// that of the root before a receipt, and all of them before the end of an
/// interruption.
pub proof fn journals_are_read_before_events(tick: Tick)
    ensures
        tick matches Tick::Agent(event) ==> steps::journals(tick) == match events::folds(event) {
            Some(address) => Journals::One(address),
            None => Journals::Nothing,
        },
        (tick matches Tick::Command(CommandResult::Message(Ok(_)))) ==> steps::journals(tick)
            == Journals::One(desk::root()),
        (tick matches Tick::Command(CommandResult::Interrupt(_))) ==> steps::journals(tick)
            == Journals::All,
        tick is Key || tick is Mouse || tick is Paste || tick is Frame || tick is Idle
            ==> steps::journals(tick) == Journals::Nothing,
{
}

proof fn lemma_cached_at(cached: Seq<SessionItem>, n: int, id: u64)
    requires
        0 <= n <= cached.len(),
    ensures
        steps::cached_at(cached, n, id) matches Some(k) ==> 0 <= k < n && cached[k].id == id,
        steps::cached_at(cached, n, id) is None ==> forall|k: int|
            0 <= k < n ==> (#[trigger] cached[k]).id != id,
    decreases n,
{
    if n > 0 && cached[n - 1].id != id {
        lemma_cached_at(cached, n - 1, id);
    }
}

/// The palette shows each session under its own number. The preview of the
/// catalog is shown as it is, a fresh session has none, a cached one is kept
/// unless it only says that there is none, and any other journal is read.
pub proof fn sessions_are_planned_by_what_is_known(
    listings: Seq<Listing>,
    i: int,
    cached: Seq<SessionItem>,
    fresh: Option<u64>,
)
    requires
        0 <= i < listings.len(),
    ensures
        ({
            let plan = steps::plan_of(listings, i, cached, fresh);
            let listing = listings[i];
            &&& plan.item.id == listing.id
            &&& fresh == Some(listing.id) ==> plan.item.preview is None && !plan.scan
            &&& fresh != Some(listing.id) && listing.preview is Some ==> plan.item.preview
                == text::opt_text(listing.preview) && !plan.scan
            &&& fresh != Some(listing.id) && listing.preview is None && (forall|k: int|
                0 <= k < cached.len() ==> (#[trigger] cached[k]).id != listing.id)
                ==> plan.item.preview is None && plan.scan
            &&& plan.scan ==> plan.item.preview is None
            &&& plan.item.preview matches Some(p) ==> listing.preview is None
                ==> !text::starts_with(p, "Preview unavailable:"@) && exists|k: int|
                0 <= k < cached.len() && #[trigger] cached[k] == plan.item
        }),
{
    lemma_cached_at(cached, cached.len() as int, listings[i].id);
}

/// A provider's models are left out exactly when there is no way to it: the
/// host has none, or its key is to come from a variable without a value.
pub proof fn providers_without_a_way_are_skipped(p: ProviderConfig, value: Option<Seq<char>>)
    ensures
        runtime::skip_reason(p, Credential::Refused(p.name@)) == Some(p.name@),
        (p.protocol == ProviderProtocol::OpenaiResponses || p.protocol
            == ProviderProtocol::OpenaiChatCompletions) && p.api_key is None && (
        p.api_key_env matches Some(variable) && !text::is_blank(variable@)) ==> (
        runtime::skip_reason(p, Credential::Key(value)) is Some <==> (value is None
            || text::is_blank(value->0))),
        p.api_key_env is None ==> runtime::skip_reason(p, Credential::Key(value)) is None,
        runtime::skip_reason(p, Credential::Key(value)) matches Some(why) ==> text::contains(
            why,
            p.name@,
        ) && text::contains(why, p.api_key_env->0@),
{
    if let Some(why) = runtime::skip_reason(p, Credential::Key(value)) {
        let variable = p.api_key_env->0@;
        let a = "provider `"@;
        let b = "` expects API key environment variable `"@;
        assert(why == a + p.name@ + b + variable + "`"@);
        assert(why =~= a + p.name@ + (b + variable + "`"@));
        text_laws::containing_is_having_inside(a, p.name@, b + variable + "`"@);
        text_laws::containing_is_having_inside(a + p.name@ + b, variable, "`"@);
    }
}

/// A key stands in the configuration or in the variable that it names.
pub proof fn keys_come_from_where_they_are_set(p: ProviderConfig, environment: Option<&str>)
    ensures
        p.api_key matches Some(key) ==> runtime::configured_key(p, environment) == Some(key@),
        p.api_key is None && p.api_key_env is None ==> runtime::configured_key(p, environment)
            is None,
        p.api_key is None && p.api_key_env is Some ==> {
            &&& environment is None ==> runtime::configured_key(p, environment) is None
            &&& environment matches Some(value) ==> runtime::configured_key(p, environment)
                == if text::is_blank(value@) {
                None
            } else {
                Some(value@)
            }
        },
{
}

/// The instruction tells where the agent works and names every model by its
/// provider, its id and its efforts.
pub proof fn instructions_name_every_model(
    cwd: Seq<char>,
    models: Seq<ModelChoice>,
    default: int,
    i: int,
)
    requires
        0 <= i < models.len(),
    ensures
        text::contains(runtime::instruction(cwd, models, default), cwd),
        text::contains(
            runtime::instruction(cwd, models, default),
            runtime::model_line(models[i], i == default),
        ),
        text::contains(runtime::model_line(models[i], i == default), models[i].provider@),
        text::contains(runtime::model_line(models[i], i == default), models[i].model@),
        text::contains(runtime::model_line(models[i], i == default), models[i].registry_id@),
        i == default ==> text::contains(
            runtime::model_line(models[i], i == default),
            " (default)"@,
        ),
{
    let lines = runtime::model_lines(models, default);
    let all = text::join(lines, "\n"@);
    let a = "You are a coding agent operating in `"@;
    let b = "`. Work within this directory unless the user explicitly directs you otherwise. Use the installed coding and multi-agent namespaces when they help complete the task.\n\nConfigured inference providers and models:\n"@;
    let c = "\n\nFor `lam.agents.spawn` and `lam.agents.call`, pass the exact raw values shown above as `model: { provider: \"<provider>\", model: \"<model>\" }`. The selector is for model selection elsewhere; do not pass the selector in the `model` field. Omit `model` to use the configured default."@;
    let whole = runtime::instruction(cwd, models, default);
    assert(whole == a + cwd + b + all + c);
    assert(whole =~= a + cwd + (b + all + c));
    text_laws::containing_is_having_inside(a, cwd, b + all + c);
    lemma_join_holds(lines, "\n"@, i);
    let (x, y) = text_laws::contained_texts_have_surroundings(all, lines[i]);
    assert(whole =~= (a + cwd + b + x) + lines[i] + (y + c));
    text_laws::containing_is_having_inside(a + cwd + b + x, lines[i], y + c);
    lemma_model_line(models[i], i == default);
}

proof fn lemma_model_line(model: ModelChoice, default: bool)
    ensures
        text::contains(runtime::model_line(model, default), model.provider@),
        text::contains(runtime::model_line(model, default), model.model@),
        text::contains(runtime::model_line(model, default), model.registry_id@),
        default ==> text::contains(runtime::model_line(model, default), " (default)"@),
{
    let p1 = "- provider: `"@;
    let p2 = "`; model: `"@;
    let p3 = "`; selector: `"@;
    let p4 = "`"@;
    let mark = if default {
        " (default)"@
    } else {
        ""@
    };
    let p5 = "; efforts: ["@;
    let efforts = text::join(text::texts(model.efforts@), ", "@);
    let p6 = "]"@;
    let line = runtime::model_line(model, default);
    let h1 = p1;
    let h2 = p1 + model.provider@ + p2;
    let h3 = h2 + model.model@ + p3;
    let h4 = h3 + model.registry_id@ + p4;
    let t4 = p5 + efforts + p6;
    assert(line == h4 + mark + p5 + efforts + p6);
    assert(line =~= h4 + mark + t4);
    text_laws::containing_is_having_inside(h4, mark, t4);
    let t3 = p4 + mark + t4;
    assert(line =~= h3 + model.registry_id@ + t3);
    text_laws::containing_is_having_inside(h3, model.registry_id@, t3);
    let t2 = p3 + model.registry_id@ + t3;
    assert(line =~= h2 + model.model@ + t2);
    text_laws::containing_is_having_inside(h2, model.model@, t2);
    let t1 = p2 + model.model@ + t2;
    assert(line =~= h1 + model.provider@ + t1);
    text_laws::containing_is_having_inside(h1, model.provider@, t1);
}

proof fn lemma_join_holds(parts: Seq<Seq<char>>, sep: Seq<char>, i: int)
    requires
        0 <= i < parts.len(),
    ensures
        text::contains(text::join(parts, sep), parts[i]),
    decreases parts.len(),
{
    let e = Seq::<char>::empty();
    if parts.len() == 1 {
        text_laws::containing_is_having_inside(e, parts[0], e);
        assert(e + parts[0] + e =~= parts[0]);
    } else if i == parts.len() - 1 {
        let a = text::join(parts.drop_last(), sep) + sep;
        text_laws::containing_is_having_inside(a, parts[i], e);
        assert(a + parts[i] + e =~= a + parts.last());
    } else {
        lemma_join_holds(parts.drop_last(), sep, i);
        let head = text::join(parts.drop_last(), sep);
        let (x, y) = text_laws::contained_texts_have_surroundings(head, parts[i]);
        text_laws::containing_is_having_inside(x, parts[i], y + sep + parts.last());
        assert(x + parts[i] + (y + sep + parts.last()) =~= head + sep + parts.last());
    }
}

/// A command is answered in its own kind: a message with what was sent, a
/// switch for the model that was asked for, an effort for the model and the
/// effort that were asked for.
pub proof fn results_answer_their_command(
    result: CommandResult,
    command: Command,
    reply: HostReply,
    controls: Seq<EffortControl>,
)
    requires
        runtime::reports(result, command, reply, controls),
    ensures
        command is Message <==> result is Message,
        command is Interrupt <==> result is Interrupt,
        command is Compact <==> result is Compact,
        command is SwitchModel <==> result is SwitchModel,
        command is SetEffort <==> result is SetEffort,
        (result matches CommandResult::Message(Ok(sent))) ==> command->Message_0@
            == result->Message_0->Ok_0.text@,
        command matches Command::SwitchModel { index, .. } ==> (
        result matches CommandResult::SwitchModel { index: at, .. } && at == index),
        command matches Command::SetEffort { index, effort } ==> (
        result matches CommandResult::SetEffort { index: at, effort: chosen, result: said } && at
            == index && chosen@ == effort@ && (said is Ok <==> index < controls.len()
            && controls[index as int].allowed_view().contains(effort@))),
{
}

/// A snapshot is written once for each revision: the same or an older one is
/// not written again, a newer one is, and that of an empty journal never.
pub proof fn snapshots_are_written_once(revision: u64, other: u64)
    ensures
        !projection::is_newer(0, Some(other)),
        !projection::is_newer(0, None),
        revision > 0 ==> projection::is_newer(revision, None),
        !projection::is_newer(revision, Some(revision)),
        revision != other ==> projection::is_newer(revision, Some(other)) != projection::is_newer(
            other,
            Some(revision),
        ),
        revision > other ==> projection::is_newer(revision, Some(other)),
{
}

/// Compacting pays off the more the more can be given back, never for less
/// than 64 MiB, and never for less than a quarter of the file.
pub proof fn compacting_has_to_pay_off(bytes: u64, more: u64, size: u64)
    ensures
        steps::is_worth(bytes, size) ==> bytes >= 64 * 1024 * 1024 && bytes * 4 >= size,
        bytes >= 64 * 1024 * 1024 && bytes >= size / 4 + 1 ==> steps::is_worth(bytes, size),
        bytes >= 64 * 1024 * 1024 ==> steps::is_worth(bytes, bytes),
        steps::is_worth(bytes, size) && bytes <= more ==> steps::is_worth(more, size),
{
}

/// The agent system takes as many threads as there are, but one to four.
pub proof fn threads_are_as_many_as_there_are(n: usize)
    ensures
        1 <= n <= 4 ==> runtime::worker_threads(Some(n)) == n,
        1 <= runtime::worker_threads(Some(n)) <= 4,
        n > 4 ==> runtime::worker_threads(Some(n)) == 4,
        runtime::worker_threads(None) == 2,
{
}

/// Setting an effort succeeds exactly for an effort of a configured model, and
/// the answer names it.
pub proof fn effort_answers_name_the_effort(
    controls: Seq<EffortControl>,
    index: int,
    effort: Seq<char>,
)
    requires
        0 <= index,
    ensures
        ({
            let r = runtime::effort_text(controls, index, effort);
            &&& r is Ok <==> index < controls.len() && controls[index].allowed_view().contains(
                effort,
            )
            &&& r is Ok ==> text::contains(r->Ok_0, effort)
            &&& r is Err && index < controls.len() ==> text::contains(r->Err_0, effort)
        }),
{
    text_laws::containing_is_having_inside("Set reasoning effort to "@, effort, "."@);
    text_laws::containing_is_having_inside("reasoning effort `"@, effort, "` is not supported"@);
}

/// A compaction that went through tells how far, one that had nothing to do
/// says so, and a failure is passed on.
pub proof fn compaction_answers_tell_how_far(through: u64, e: String)
    ensures
        runtime::compact_text(Err(e)) == Err::<Seq<char>, Seq<char>>(e@),
        runtime::compact_text(Ok(Some(through))) is Ok,
        text::contains(
            runtime::compact_text(Ok(Some(through)))->Ok_0,
            text::decimal(through as nat),
        ),
        runtime::compact_text(Ok(None)) == Ok::<Seq<char>, Seq<char>>(
            "Context is already compact."@,
        ),
{
    text_laws::containing_is_having_inside(
        "Compacted context through sequence "@,
        text::decimal(through as nat),
        "."@,
    );
}

/// A fallback names the model that was wanted and then the one that is used.
pub proof fn fallbacks_name_both_models(wanted: Seq<char>, used: Seq<char>)
    ensures
        text::starts_with(
            runtime::fallback_warning(wanted, used),
            "default model `"@ + wanted + "`"@,
        ),
        text::ends_with(runtime::fallback_warning(wanted, used), "using `"@ + used + "`"@),
{
    let s = runtime::fallback_warning(wanted, used);
    reveal_strlit("default model `");
    reveal_strlit("`");
    reveal_strlit("` is unavailable; using `");
    reveal_strlit("using `");
    let mid = "` is unavailable; using `"@;
    let lead = "default model `"@ + wanted + "`"@;
    let tail = "using `"@ + used + "`"@;
    assert(s.take(lead.len() as int) =~= lead);
    assert(mid.skip(mid.len() - 7) =~= "using `"@);
    assert(s.skip(s.len() - tail.len()) =~= tail);
}

/// What an agent does is painted where it shows: in its own conversation, in
/// the open drawer, and in the summary of those that run elsewhere.
pub proof fn events_are_painted_where_they_show(d: Desk, event: AgentSystemEvent)
    ensures
        ({
            let after = d.agent_event(event);
            &&& events::event_address(event) == d.current ==> d.event_shows(event)
            &&& d.agents_open() ==> d.event_shows(event)
            &&& d.others_running() != after.others_running() ==> d.event_shows(event)
            &&& after.collapsed_visible() ==> d.event_shows(event)
            &&& d.event_shows(event) ==> events::event_address(event) == d.current
                || d.agents_open() || d.others_running() != after.others_running()
                || after.collapsed_visible()
        }),
{
}

/// What a journal brings is painted where it shows.
pub proof fn folds_are_painted_where_they_show(d: Desk, address: Seq<char>, fold: Fold)
    ensures
        ({
            let after = d.fold(address, fold);
            &&& fold.rows.len() > 0 && address == d.current ==> d.fold_shows(address, fold)
            &&& after.agents_open() ==> d.fold_shows(address, fold)
            &&& d.others_running() != after.others_running() ==> d.fold_shows(address, fold)
            &&& after.collapsed_visible() ==> d.fold_shows(address, fold)
            &&& d.fold_shows(address, fold) ==> (fold.rows.len() > 0 && address == d.current)
                || after.agents_open() || d.others_running() != after.others_running()
                || after.collapsed_visible()
        }),
{
}

} // verus!
