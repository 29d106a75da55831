use lam_tui::cli::{Args, CliCommand, LoginProvider};
use lam_tui::config::{Field, ModelChoice, ProviderConfig, ProviderProtocol, Setting};
use lam_tui::events::{ModelDelta, ToolCallDelta};
use lam_tui::history::{Command, CommandResult, FoldOutcome, HistoryKind, RuntimePreferences};
use lam_tui::projection::{
    accumulate_entries, append_model_projection, display_json, first_user_message, runtime_notice,
    session_preview, should_checkpoint, Consumed, ContextEntry, Directive, EvalOutcome,
    IsolateState, Message, MessageSource, Projection, SystemNotice, Transition,
};
use lam_tui::runtime::{
    available_models, codec_owner, coding_instruction, default_worker_threads, execute,
    initial_model, insert_json_path, restore_effort, with_effort, Access, Codec, EffortControl,
    HostReply, RuntimeError,
};
use lam_tui::steps::{reconcile_session_choices, scanned_preview, worth_compacting, Listing};

fn consumed(id: &str, text: &str) -> Transition {
    Transition::Messages {
        consumed: vec![Consumed {
            id: id.to_owned(),
            message: Some(Message {
                source: MessageSource::User,
                notice: None,
                payload: format!("\"{text}\""),
            }),
        }],
    }
}

fn context_entry(transition: Transition) -> ContextEntry {
    ContextEntry { transition, payload: "\"payload\"".to_owned() }
}

fn model(complete: bool, total_tokens: Option<u64>) -> Transition {
    Transition::Model { run_id: "run-1".to_owned(), complete, projection: None, total_tokens }
}

#[test]
fn projector_folds_incrementally_and_renders_journal_order() {
    let mut outcome = FoldOutcome::empty();
    accumulate_entries(
        &mut outcome,
        "/root",
        &vec![
            context_entry(consumed("m-1", "start the task")),
            context_entry(model(false, None)),
            context_entry(Transition::Eval { run_id: "run-1".to_owned() }),
        ],
    );
    let kinds = outcome.rows.iter().map(|row| row.entry.kind).collect::<Vec<_>>();
    assert_eq!(kinds, [HistoryKind::User, HistoryKind::System, HistoryKind::ToolResult]);
    assert_eq!(outcome.rows[0].entry.body, "start the task");
    assert_eq!(outcome.rows[2].run_id.as_deref(), Some("run-1"));
    assert_eq!(outcome.consumed_message_ids, ["m-1"]);
    assert_eq!(outcome.model_turns, ["run-1"]);
    assert!(outcome.dead_runs.is_empty());
    assert!(!outcome.interrupted);

    let mut outcome = FoldOutcome::empty();
    accumulate_entries(
        &mut outcome,
        "/root",
        &vec![
            context_entry(consumed("m-2", "also do this")),
            context_entry(model(true, None)),
        ],
    );
    let kinds = outcome.rows.iter().map(|row| row.entry.kind).collect::<Vec<_>>();
    assert_eq!(kinds, [HistoryKind::User, HistoryKind::System]);
    assert_eq!(outcome.rows[0].entry.body, "also do this");
    assert_eq!(outcome.consumed_message_ids, ["m-2"]);
    assert_eq!(outcome.active_run, None);
    assert_eq!(outcome.dead_runs, ["run-1"]);

    let mut outcome = FoldOutcome::empty();
    accumulate_entries(&mut outcome, "/root", &Vec::new());
    assert!(outcome.rows.is_empty());
    assert!(outcome.consumed_message_ids.is_empty());
}

#[test]
fn fold_records_provider_usage_from_model_entries() {
    let mut outcome = FoldOutcome::empty();
    accumulate_entries(
        &mut outcome,
        "/root",
        &vec![
            context_entry(consumed("m-1", "start the task")),
            context_entry(model(false, Some(12_345))),
            context_entry(model(true, Some(20_000))),
        ],
    );
    assert_eq!(outcome.context_tokens, Some(20_000));
    assert!(!outcome.rows.is_empty());
}

#[test]
fn teardown_checkpoint_snapshots_the_head_then_skips_an_unchanged_projector() {
    assert!(should_checkpoint(3, None));
    assert!(!should_checkpoint(3, Some(3)));
}

#[test]
fn teardown_checkpoint_folds_a_stale_projector_to_the_head() {
    assert!(should_checkpoint(2, None));
    assert!(should_checkpoint(4, Some(2)));
}

#[test]
fn session_preview_reads_the_first_user_message() {
    assert_eq!(
        session_preview("\"First question\\nwith detail\""),
        "First question\nwith detail"
    );
    let message = |source, payload: &str| Message {
        source,
        notice: None,
        payload: payload.to_owned(),
    };
    let journal = vec![
        message(MessageSource::Host("runtime".to_owned()), "\"resumed\""),
        message(MessageSource::User, "\"First question\\nwith detail\""),
        message(MessageSource::User, "\"Second question\""),
    ];
    assert_eq!(first_user_message(&journal).as_deref(), Some("First question\nwith detail"));
    let unsolicited = vec![message(MessageSource::Actor("/root/worker".to_owned()), "\"done\"")];
    assert_eq!(first_user_message(&unsolicited), None);
    let long = format!("\"{}\"", "é".repeat(301));
    assert_eq!(session_preview(&long), "é".repeat(300));
}

#[test]
fn interruption_notice_has_a_stable_human_readable_history_row() {
    let row = runtime_notice(&SystemNotice::RunInterrupted {
        run_id: "run-1".to_owned(),
        isolate: IsolateState::Reset,
        eval: Some(EvalOutcome::FailureRecorded),
    });
    assert_eq!(row.title, "Run interrupted");
    assert!(row.body.contains("stopped at the user's request"));
    assert!(row.body.contains("external effects may already have completed"));
    assert!(row.body.contains("failure result was recorded"));
}

#[test]
fn historical_model_projection_restores_reasoning_before_terminal_text() {
    let history = append_model_projection(
        "/root",
        &Projection {
            display: vec![
                ModelDelta::Reasoning("Inspect ".to_owned()),
                ModelDelta::Reasoning("the workspace".to_owned()),
                ModelDelta::Text("All clear".to_owned()),
            ],
            directive: Directive::Output("\"All clear\"".to_owned()),
        },
    );
    assert_eq!(history.len(), 2);
    assert_eq!(history[0].kind, HistoryKind::Reasoning);
    assert_eq!(history[0].title, "/root · reasoning");
    assert_eq!(history[0].body, "Inspect the workspace");
    assert_eq!(history[1].kind, HistoryKind::Assistant);
    assert_eq!(history[1].body, "All clear");
}

fn eval_call(index: usize, intent: &str, source: &str) -> ModelDelta {
    ModelDelta::ToolCall(ToolCallDelta {
        index,
        name: Some("eval".to_owned()),
        arguments: format!(
            "{{\"intent\":\"{intent}\",\"source\":\"{source}\",\"timeoutMs\":null}}"
        ),
    })
}

#[test]
fn historical_model_projection_keeps_rejected_sibling_tool_calls() {
    let history = append_model_projection(
        "/root",
        &Projection {
            display: vec![
                eval_call(0, "Commit the change", "await commit()"),
                eval_call(1, "Inspect the styling", "await inspect()"),
            ],
            directive: Directive::Eval {
                intent: "Commit the change".to_owned(),
                source: "await commit()".to_owned(),
            },
        },
    );
    assert_eq!(history.len(), 2);
    assert_eq!(history[0].title, "/root · Commit the change");
    assert_eq!(history[0].body, "await commit()");
    assert_eq!(history[1].title, "/root · Inspect the styling");
    assert_eq!(history[1].body, "await inspect()");
}

#[test]
fn historical_model_projection_renders_rejected_calls_from_raw_fragments() {
    let history = append_model_projection(
        "/root",
        &Projection {
            display: vec![ModelDelta::ToolCall(ToolCallDelta {
                index: 0,
                name: Some("eval".to_owned()),
                arguments: "{\"intent\":\"Sum the numbers\",\"source\":\"1 + 1\",\"timeout\":5}"
                    .to_owned(),
            })],
            directive: Directive::Rejected,
        },
    );
    assert_eq!(history.len(), 1);
    assert_eq!(history[0].kind, HistoryKind::ToolCall);
    assert_eq!(history[0].title, "/root · Sum the numbers");
    assert_eq!(history[0].body, "1 + 1");
}

fn models() -> Vec<ModelChoice> {
    vec![
        ModelChoice {
            registry_id: "openai/gpt-5.6-luna".to_owned(),
            provider: "openai".to_owned(),
            model: "gpt-5.6-luna".to_owned(),
            display_name: "GPT-5.6 Luna".to_owned(),
            context_window: 400_000,
            efforts: vec!["none".to_owned(), "high".to_owned(), "max".to_owned()],
        },
        ModelChoice {
            registry_id: "fireworks/accounts/fireworks/models/deepseek-v4-flash-0731".to_owned(),
            provider: "fireworks".to_owned(),
            model: "accounts/fireworks/models/deepseek-v4-flash-0731".to_owned(),
            display_name: "DeepSeek V4 Flash".to_owned(),
            context_window: 1_040_000,
            efforts: vec!["none".to_owned(), "high".to_owned(), "max".to_owned()],
        },
    ]
}

#[test]
fn coding_instruction_exposes_exact_subagent_model_coordinates() {
    let instruction = coding_instruction("/work/project", &models(), 0);
    assert!(instruction.contains("provider: `openai`; model: `gpt-5.6-luna`"));
    assert!(instruction.contains("selector: `openai/gpt-5.6-luna` (default)"));
    assert!(instruction.contains("efforts: [none, high, max]"));
    assert!(instruction.contains(
        "provider: `fireworks`; model: `accounts/fireworks/models/deepseek-v4-flash-0731`"
    ));
    assert!(instruction.contains("do not pass the selector in the `model` field"));
}

fn field<'a>(body: &'a [Field], name: &str) -> Option<&'a Setting> {
    body.iter().find(|field| field.name == name).map(|field| &field.value)
}

fn reasoning<'a>(body: &'a [Field], name: &str) -> Option<&'a str> {
    match field(body, "reasoning") {
        Some(Setting::Table(inner)) => match field(inner, name) {
            Some(Setting::Value(json)) => Some(json),
            _ => None,
        },
        _ => None,
    }
}

#[test]
fn effort_control_defaults_to_last_value_and_updates_nested_request_field() {
    let mut control = EffortControl::new(
        vec!["reasoning".to_owned(), "effort".to_owned()],
        &vec!["low".to_owned(), "high".to_owned()],
    );
    let body = vec![
        Field { name: "model".to_owned(), value: Setting::Value("\"example\"".to_owned()) },
        Field {
            name: "reasoning".to_owned(),
            value: Setting::Table(vec![Field {
                name: "summary".to_owned(),
                value: Setting::Value("\"auto\"".to_owned()),
            }]),
        },
    ];
    let leaf = format!("\"{}\"", control.selected());
    let body = insert_json_path(body, control.path(), &leaf).unwrap();
    assert_eq!(reasoning(&body, "effort"), Some("\"high\""));
    assert_eq!(reasoning(&body, "summary"), Some("\"auto\""));

    control.set("low").unwrap();
    let leaf = format!("\"{}\"", control.selected());
    let body = insert_json_path(body, control.path(), &leaf).unwrap();
    assert_eq!(reasoning(&body, "effort"), Some("\"low\""));
    assert!(control.set("max").is_err());
}

#[test]
fn folding_in_two_pages_gives_the_rows_of_one() {
    let entries = || {
        vec![
            context_entry(consumed("m-1", "one")),
            context_entry(model(false, Some(5))),
            context_entry(Transition::Eval { run_id: "run-1".to_owned() }),
            context_entry(Transition::Compaction { summary: Some("short".to_owned()) }),
        ]
    };
    let mut whole = FoldOutcome::empty();
    accumulate_entries(&mut whole, "/root", &entries());
    let mut pages = FoldOutcome::empty();
    let mut all = entries();
    let rest = all.split_off(2);
    accumulate_entries(&mut pages, "/root", &all);
    accumulate_entries(&mut pages, "/root", &rest);
    assert_eq!(pages.rows, whole.rows);
    assert_eq!(pages.context_tokens, whole.context_tokens);
}

#[test]
fn payloads_are_shown_as_text_or_as_indented_json() {
    assert_eq!(display_json("\"plain\""), "plain");
    assert_eq!(display_json("{\"a\":1}"), "{\n  \"a\": 1\n}");
    assert_eq!(display_json("broken"), "broken");
}

#[test]
fn numbers_are_shown_exactly() {
    for number in ["51.248178375505404", "-93.31137037688033", "97.45365320034685", "5e-324"] {
        assert_eq!(display_json(number), number);
    }
    assert_eq!(display_json("18446744073709551615"), "18446744073709551615");
}

#[test]
fn deep_payloads_are_indented_up_to_a_limit() {
    let lists = |depth: usize| format!("{}{}", "[".repeat(depth), "]".repeat(depth));
    assert_eq!(display_json(&lists(2)), "[\n  []\n]");
    assert_eq!(display_json(&lists(200)).lines().count(), 399);
    assert_eq!(display_json(&lists(512)).lines().count(), 1023);
    assert_eq!(display_json(&lists(513)), lists(513));
    let objects = format!("{}1{}", "{\"a\":".repeat(512), "}".repeat(512));
    assert_eq!(display_json(&objects).lines().count(), 1025);
    let quoted = format!("[\"{}\\\"[\"]", "[".repeat(600));
    assert_eq!(display_json(&quoted), format!("[\n  \"{}\\\"[\"\n]", "[".repeat(600)));
}

#[test]
fn preferences_choose_model_and_effort() {
    let preferences = RuntimePreferences {
        model_id: "fireworks/accounts/fireworks/models/deepseek-v4-flash-0731".to_owned(),
        effort: "none".to_owned(),
    };
    assert_eq!(initial_model(&models(), Some(&preferences), 0), 1);
    assert_eq!(initial_model(&models(), None, 0), 0);
    let mut controls: Vec<EffortControl> = models()
        .iter()
        .map(|model| EffortControl::new(vec!["effort".to_owned()], &model.efforts))
        .collect();
    restore_effort(&mut controls, 1, Some(&preferences)).unwrap();
    assert_eq!(controls[1].selected(), "none");
    assert_eq!(controls[0].selected(), "max");
}

#[test]
fn commands_turn_replies_into_results() {
    let mut controls = vec![EffortControl::new(
        vec!["effort".to_owned()],
        &vec!["low".to_owned(), "high".to_owned()],
    )];
    let sent = execute(
        Command::Message("hello".to_owned()),
        HostReply::Sent(Ok("m-1".to_owned())),
        &mut controls,
    );
    assert!(matches!(
        sent,
        Some(CommandResult::Message(Ok(message)))
            if message.message_id == "m-1" && message.text == "hello"
    ));
    let set = execute(
        Command::SetEffort { index: 0, effort: "low".to_owned() },
        HostReply::Nothing,
        &mut controls,
    );
    assert!(matches!(
        set,
        Some(CommandResult::SetEffort { index: 0, result: Ok(_), .. })
    ));
    assert_eq!(controls[0].selected(), "low");
    let refused = execute(
        Command::SetEffort { index: 0, effort: "max".to_owned() },
        HostReply::Nothing,
        &mut controls,
    );
    assert!(matches!(refused, Some(CommandResult::SetEffort { result: Err(_), .. })));
}

#[test]
fn worker_threads_are_bounded() {
    assert_eq!(default_worker_threads(None), 2);
    assert_eq!(default_worker_threads(Some(1)), 1);
    assert_eq!(default_worker_threads(Some(3)), 3);
    assert_eq!(default_worker_threads(Some(1_000)), 4);
}

fn arguments(words: &[&str]) -> Vec<Option<String>> {
    words.iter().map(|word| Some((*word).to_owned())).collect()
}

#[test]
fn command_lines_are_parsed() {
    let args = Args::parse(&arguments(&["--config", "p.toml", "--debug-log"])).unwrap();
    assert_eq!(args.config, Some(1));
    assert!(args.debug_log);
    assert!(args.command.is_none());
    let args = Args::parse(&arguments(&["login", "openai", "--force"])).unwrap();
    assert!(matches!(
        args.command,
        Some(CliCommand::Login {
            provider: LoginProvider::OpenAi,
            no_browser: false,
            force: true
        })
    ));
    assert!(Args::parse(&arguments(&["--version"])).unwrap().version);
    assert!(Args::parse(&arguments(&["--nonsense"])).is_err());
    assert!(Args::parse(&arguments(&["--config"])).is_err());
    assert!(Args::parse(&arguments(&["login", "elsewhere"])).is_err());
}

#[test]
fn journals_are_compacted_when_it_pays() {
    assert!(!worth_compacting(0, 1_000_000_000));
    assert!(worth_compacting(900_000_000, 1_000_000_000));
}

#[test]
fn listings_are_completed_from_what_is_known() {
    let listings = vec![
        Listing { id: 3, preview: Some("stored".to_owned()) },
        Listing { id: 2, preview: None },
    ];
    let planned = reconcile_session_choices(&listings, &Vec::new(), None);
    assert_eq!(planned.len(), 2);
    assert_eq!(planned[0].choice.preview.as_deref(), Some("stored"));
    assert!(!planned[0].scan);
    assert!(planned[1].scan);
    assert_eq!(
        scanned_preview(Ok(Some("found".to_owned()))),
        (Some("found".to_owned()), true)
    );
}

#[test]
fn fold_matches_payload_codec_across_model_variants() {
    // The responses model is listed first, but the payload belongs to the
    // chat-completions codec.
    let codecs = vec![
        Codec { id: "openai/responses".to_owned(), version: 1 },
        Codec { id: "openai/chat-completions".to_owned(), version: 1 },
    ];
    let usage = [Some(7), Some(12_345)];
    let owner = codec_owner(&codecs, "openai/chat-completions", 1);
    assert_eq!(owner, Some(1));
    let mut outcome = FoldOutcome::empty();
    accumulate_entries(
        &mut outcome,
        "/root",
        &vec![
            context_entry(consumed("m-1", "start the task")),
            context_entry(model(true, owner.and_then(|index| usage[index]))),
        ],
    );
    assert_eq!(outcome.context_tokens, Some(12_345));

    assert_eq!(codec_owner(&codecs, "openai/responses", 1), Some(0));
    assert_eq!(codec_owner(&codecs, "openai/responses", 2), None);
    assert_eq!(codec_owner(&codecs, "other", 1), None);
}

fn provider(name: &str, api_key: Option<&str>, api_key_env: Option<&str>) -> ProviderConfig {
    ProviderConfig {
        name: name.to_owned(),
        protocol: ProviderProtocol::OpenaiChatCompletions,
        api_base: None,
        api_key: api_key.map(str::to_owned),
        api_key_env: api_key_env.map(str::to_owned),
        effort_path: None,
        models: Vec::new(),
    }
}

#[test]
fn providers_without_their_key_are_skipped() {
    let providers =
        vec![provider("openai", None, Some("KEY")), provider("fireworks", Some("key"), None)];
    let ids = |models: &[ModelChoice]| -> Vec<String> {
        models.iter().map(|model| model.registry_id.clone()).collect()
    };

    let present = vec![Access::Key(Some("secret".to_owned())), Access::Key(None)];
    let lineup = available_models(&providers, &present, models(), 1).unwrap();
    assert_eq!(ids(&lineup.models), ids(&models()));
    assert_eq!(lineup.default_index, 1);
    assert!(lineup.warnings.is_empty());

    for absent in [None, Some(" ".to_owned())] {
        let absent = vec![Access::Key(absent), Access::Key(None)];
        let lineup = available_models(&providers, &absent, models(), 1).unwrap();
        assert_eq!(ids(&lineup.models), ids(&models()[1..]));
        assert_eq!(lineup.default_index, 0);
        assert_eq!(
            lineup.warnings,
            ["provider `openai` expects API key environment variable `KEY`"]
        );
        let lineup = available_models(&providers, &absent, models(), 0).unwrap();
        assert_eq!(lineup.default_index, 0);
        assert_eq!(lineup.warnings.len(), 2);
        assert_eq!(
            lineup.warnings[1],
            "default model `openai/gpt-5.6-luna` is unavailable; using \
             `fireworks/accounts/fireworks/models/deepseek-v4-flash-0731`"
        );
    }

    let alone =
        vec![provider("openai", None, Some("KEY")), provider("fireworks", None, Some("FW"))];
    assert_eq!(
        available_models(&alone, &vec![Access::Key(None), Access::Key(None)], models(), 0)
            .unwrap_err(),
        RuntimeError::Model(
            "provider `openai` expects API key environment variable `KEY`; \
             provider `fireworks` expects API key environment variable `FW`"
                .to_owned()
        )
    );
}

#[test]
fn later_requests_carry_the_effort_selected_last() {
    let efforts = || vec!["low".to_owned(), "a\"b".to_owned()];
    let mut controls: Vec<EffortControl> = (0..2)
        .map(|_| EffortControl::new(vec!["reasoning".to_owned(), "effort".to_owned()], &efforts()))
        .collect();
    let sent = |controls: &Vec<EffortControl>, index: usize| -> String {
        let body = with_effort(Vec::new(), controls, index).unwrap();
        reasoning(&body, "effort").unwrap().to_owned()
    };
    assert_eq!(sent(&controls, 0), r#""a\"b""#);
    let command = Command::SetEffort { index: 0, effort: "low".to_owned() };
    execute(command, HostReply::Interrupted(Ok(false)), &mut controls).unwrap();
    assert_eq!(sent(&controls, 0), "\"low\"");
    assert_eq!(sent(&controls, 0), "\"low\"");
    assert_eq!(sent(&controls, 1), r#""a\"b""#);
    let blocked =
        vec![Field { name: "reasoning".to_owned(), value: Setting::Value("1".to_owned()) }];
    assert!(with_effort(blocked, &controls, 0).is_none());
}

#[test]
fn providers_without_a_connection_are_skipped() {
    let mut codex = provider("openai", None, None);
    codex.protocol = ProviderProtocol::OpenaiCodex;
    let providers = vec![codex, provider("fireworks", None, None)];
    let access = vec![Access::Refused("no connection".to_owned()), Access::Key(None)];
    let lineup = available_models(&providers, &access, models(), 1).unwrap();
    assert_eq!(lineup.models.len(), 1);
    assert_eq!(lineup.models[0].provider, "fireworks");
    assert_eq!(lineup.default_index, 0);
    assert_eq!(lineup.warnings, ["no connection"]);
    let access = vec![Access::Key(None), Access::Key(None)];
    let lineup = available_models(&providers, &access, models(), 1).unwrap();
    assert_eq!((lineup.models.len(), lineup.default_index), (2, 1));
}
