use lam_tui::app::{App, PendingSteer, SessionChoice, SessionView};
use lam_tui::cells::slice_cells;
use lam_tui::config::ModelChoice;
use lam_tui::conversation::EntryKind;
use lam_tui::desk::{Focus, Hitbox};
use lam_tui::events::{
    AgentOutcome, AgentSystemEvent, KeyCode, KeyEvent, KeyEventKind, KeyModifiers, ModelDelta,
    MouseEvent, MouseEventKind, RunEvent, ToolCallDelta,
};
use lam_tui::history::{
    AgentHistory, Command, CommandResult, CommittedRow, FoldOutcome, HistoryEntry, HistoryKind,
    RuntimePreferences, SentMessage,
};
use lam_tui::input::InputBuffer;
use lam_tui::intent::partial_eval_intent;
use lam_tui::selection::{selected_text, CellPos, CopyRow, Rect, TextSelection};

const NONE: KeyModifiers =
    KeyModifiers { control: false, alt: false, shift: false, other: false };
const CONTROL: KeyModifiers =
    KeyModifiers { control: true, alt: false, shift: false, other: false };
const ALT: KeyModifiers = KeyModifiers { control: false, alt: true, shift: false, other: false };
const SESSION_PICKER_HINT: &str = "ctrl+d delete the highlighted session";

fn key_of_kind(code: KeyCode, modifiers: KeyModifiers, kind: KeyEventKind) -> KeyEvent {
    KeyEvent { code, modifiers, kind }
}

fn key_event(code: KeyCode, modifiers: KeyModifiers) -> KeyEvent {
    key_of_kind(code, modifiers, KeyEventKind::Press)
}

trait Keyboard {
    fn press(&mut self, key: KeyEvent) -> Option<Command>;
}

impl Keyboard for App {
    fn press(&mut self, key: KeyEvent) -> Option<Command> {
        self.handle_key(key, 0)
    }
}

fn committed(kind: HistoryKind, title: &str, body: &str, run_id: Option<&str>) -> CommittedRow {
    CommittedRow {
        entry: HistoryEntry {
            kind,
            title: title.to_owned(),
            body: body.to_owned(),
        },
        run_id: run_id.map(str::to_owned),
    }
}

fn fold_with_rows(rows: Vec<CommittedRow>, active_run: Option<&str>) -> FoldOutcome {
    FoldOutcome {
        rows,
        active_run: active_run.map(str::to_owned),
        ..FoldOutcome::empty()
    }
}

fn app() -> App {
    App::new(
        "/tmp/project".to_owned(),
        "/tmp/providers.toml".to_owned(),
        SessionView {
            id: 7,
            journal_path: "/tmp/session-00000007.redb".to_owned(),
            resumed: false,
            agents: vec![AgentHistory::root(Vec::new())],
            choices: vec![SessionChoice {
                id: 7,
                preview: None,
            }],
        },
        vec![ModelChoice {
            registry_id: "openai/gpt-5".to_owned(),
            provider: "openai".to_owned(),
            model: "gpt-5".to_owned(),
            display_name: "GPT-5".to_owned(),
            context_window: 400_000,
            efforts: vec!["low".to_owned(), "high".to_owned()],
        }],
        0,
        "high",
        Vec::new(),
    )
}

/// An app whose directory holds the open session plus two older ones.
fn session_picker() -> App {
    let mut app = app();
    app.sessions.push(SessionChoice {
        id: 4,
        preview: None,
    });
    app.sessions.push(SessionChoice {
        id: 3,
        preview: None,
    });
    app
}

fn control_d() -> KeyEvent {
    key_event(KeyCode::Char('d'), CONTROL)
}

#[test]
fn submit_registers_an_optimistic_pending_steer() {
    let mut app = app();
    app.input = InputBuffer::at_end("hello".to_owned());
    let command = app.press(key_event(KeyCode::Enter, NONE));
    assert!(matches!(command, Some(Command::Message(_))));
    assert_eq!(app.pending_steers.len(), 1);
    assert!(app.pending_steers[0].message_id.is_none());
    assert_eq!(app.pending_steers[0].text, "hello");
    assert!(app.input.text.is_empty());
}

#[test]
fn receipt_attaches_the_durable_id_to_the_optimistic_steer() {
    let mut app = app();
    app.pending_steers.push(PendingSteer {
        message_id: None,
        text: "hello".to_owned(),
    });
    app.apply_message_receipt(
        SentMessage {
            message_id: "m1".to_owned(),
            text: "hello".to_owned(),
        },
        false,
    );
    assert_eq!(app.pending_steers.len(), 1);
    assert_eq!(app.pending_steers[0].message_id.as_deref(), Some("m1"));
}

#[test]
fn consumed_receipt_removes_the_optimistic_steer() {
    let mut app = app();
    app.pending_steers.push(PendingSteer {
        message_id: None,
        text: "hello".to_owned(),
    });
    app.apply_message_receipt(
        SentMessage {
            message_id: "m1".to_owned(),
            text: "hello".to_owned(),
        },
        true,
    );
    assert!(app.pending_steers.is_empty());
}

#[test]
fn failed_send_removes_the_optimistic_steer_and_restores_the_draft() {
    let mut app = app();
    app.input = InputBuffer::at_end("hello".to_owned());
    let _ = app.press(key_event(KeyCode::Enter, NONE));
    assert_eq!(app.pending_steers.len(), 1);
    assert!(app.input.text.is_empty());
    app.apply_message_error("the journal rejected the message");
    assert!(app.pending_steers.is_empty());
    assert_eq!(app.input.text, "hello");
}

#[test]
fn delivered_steer_is_cleared_by_the_consume_fold() {
    let mut app = app();
    app.pending_steers.push(PendingSteer {
        message_id: Some("m1".to_owned()),
        text: "hello".to_owned(),
    });
    let outcome = FoldOutcome {
        consumed_message_ids: vec!["m1".to_owned()],
        ..FoldOutcome::empty()
    };
    app.apply_fold("/root", outcome);
    assert!(app.pending_steers.is_empty());
}

#[test]
fn edits_unicode_by_character_position() {
    let mut input = InputBuffer {
        text: "aλ".to_owned(),
        cursor: 2,
        preferred_column: None,
    };
    input.backspace();
    input.insert('界');
    assert_eq!(input.text, "a界");
    assert_eq!(input.cursor, 2);
}

#[test]
fn cursor_at_maps_clicked_columns_to_character_positions() {
    let input = InputBuffer::at_end("ab界d".to_owned());
    assert_eq!(input.cursor_at(10, 0, 0), 0);
    assert_eq!(
        input.cursor_at(10, 0, 1),
        1,
        "clicking a narrow char puts the cursor before it"
    );
    assert_eq!(
        input.cursor_at(10, 0, 2),
        2,
        "left half of a wide char stays before it"
    );
    assert_eq!(
        input.cursor_at(10, 0, 3),
        2,
        "right half of a wide char stays before it"
    );
    assert_eq!(
        input.cursor_at(10, 0, 4),
        3,
        "the column right after a wide char lands after it"
    );
    assert_eq!(
        input.cursor_at(10, 0, 5),
        4,
        "past the end clamps to the end"
    );
    assert_eq!(input.cursor_at(10, 0, 99), 4);
}

#[test]
fn cursor_at_maps_multiline_and_wrapped_rows() {
    let input = InputBuffer::at_end("first\nsecond".to_owned());
    assert_eq!(input.cursor_at(10, 0, 2), 2);
    assert_eq!(input.cursor_at(10, 0, 99), 5, "end of the first line");
    assert_eq!(input.cursor_at(10, 1, 0), 6, "start of the second line");
    assert_eq!(input.cursor_at(10, 1, 3), 9);
    assert_eq!(input.cursor_at(10, 1, 99), 12, "end of the second line");
    assert_eq!(
        input.cursor_at(10, 5, 0),
        12,
        "rows below the text land at the end"
    );
}

#[test]
fn delete_word_backward_removes_whitespace_delimited_chunks() {
    let mut input = InputBuffer::at_end("inspect the workspace".to_owned());
    input.delete_word_backward();
    assert_eq!(input.text, "inspect the ");
    assert_eq!(input.cursor, 12);

    let mut input = InputBuffer::at_end("hello".to_owned());
    input.cursor = 3;
    input.delete_word_backward();
    assert_eq!(input.text, "lo");
    assert_eq!(input.cursor, 0);

    let mut input = InputBuffer::at_end("αβ γδ".to_owned());
    input.delete_word_backward();
    assert_eq!(input.text, "αβ ");
    assert_eq!(input.cursor, 3);

    let mut input = InputBuffer::empty();
    input.delete_word_backward();
    assert_eq!(input.text, "");
}

#[test]
fn control_a_and_e_jump_to_logical_line_bounds() {
    let mut app = app();
    app.input = InputBuffer::at_end("first\nsecond".to_owned());
    app.input.cursor = 9;
    app.press(key_event(KeyCode::Char('a'), CONTROL));
    assert_eq!(app.input.cursor, 6);
    app.press(key_event(KeyCode::Char('e'), CONTROL));
    assert_eq!(app.input.cursor, 12);
    // Ctrl-A is line-relative: repeating it stays at the line start.
    app.press(key_event(KeyCode::Char('a'), CONTROL));
    assert_eq!(app.input.cursor, 6);
}

#[test]
fn control_w_deletes_the_word_before_the_cursor() {
    let mut app = app();
    app.input = InputBuffer::at_end("inspect the workspace".to_owned());
    app.press(key_event(KeyCode::Char('w'), CONTROL));
    assert_eq!(app.input.text, "inspect the ");
    assert_eq!(app.input.cursor, 12);
}

#[test]
fn control_j_inserts_a_newline_instead_of_submitting() {
    let mut app = app();
    app.input = InputBuffer::at_end("first".to_owned());
    app.press(key_event(KeyCode::Char('j'), CONTROL));
    assert_eq!(app.input.text, "first\n");
    assert_eq!(app.input.cursor, 6);
    assert!(app.pending_steers.is_empty(), "Ctrl+J must not submit");

    // The draft stays editable across the newline, and Enter still submits.
    app.input.insert('s');
    let command = app.press(key_event(KeyCode::Enter, NONE));
    assert!(matches!(command, Some(Command::Message(_))));
    assert_eq!(app.pending_steers[0].text, "first\ns");
}

#[test]
fn control_j_splits_the_line_at_the_cursor() {
    let mut app = app();
    app.input = InputBuffer::at_end("aλb".to_owned());
    app.input.cursor = 2;
    app.press(key_event(KeyCode::Char('j'), CONTROL));
    assert_eq!(app.input.text, "aλ\nb");
    assert_eq!(
        app.input.cursor, 3,
        "cursor lands at the start of the new line"
    );

    // The new logical line is navigable: Ctrl-A and Ctrl-E stay within it.
    app.input.cursor = 4;
    app.press(key_event(KeyCode::Char('a'), CONTROL));
    assert_eq!(app.input.cursor, 3);
    app.press(key_event(KeyCode::Char('e'), CONTROL));
    assert_eq!(app.input.cursor, 4);
}

#[test]
fn clicking_the_input_focuses_and_moves_the_cursor() {
    let mut app = app();
    app.input = InputBuffer::at_end("hello".to_owned());
    app.focus = Focus::Conversation;
    app.pane.input_area = Some(Rect {
        x: 2,
        y: 10,
        width: 60,
        height: 1,
    });
    app.handle_mouse(MouseEvent {
        kind: MouseEventKind::Down,
        column: 2 + 3 + 2,
        row: 10,
    });
    assert_eq!(app.focus, Focus::Input);
    assert_eq!(app.input.cursor, 2);
}

#[test]
fn clicking_the_input_prefix_moves_the_cursor_to_the_start() {
    let mut app = app();
    app.input = InputBuffer::at_end("hello".to_owned());
    app.focus = Focus::Conversation;
    app.pane.input_area = Some(Rect {
        x: 2,
        y: 10,
        width: 60,
        height: 1,
    });
    app.handle_mouse(MouseEvent {
        kind: MouseEventKind::Down,
        column: 2,
        row: 10,
    });
    assert_eq!(app.focus, Focus::Input);
    assert_eq!(app.input.cursor, 0);
}

#[test]
fn clicking_below_the_input_puts_the_cursor_at_the_end() {
    let mut app = app();
    app.input = InputBuffer::at_end("hi".to_owned());
    app.focus = Focus::Conversation;
    app.pane.input_area = Some(Rect {
        x: 0,
        y: 10,
        width: 80,
        height: 3,
    });
    app.handle_mouse(MouseEvent {
        kind: MouseEventKind::Down,
        column: 3,
        row: 12,
    });
    assert_eq!(app.focus, Focus::Input);
    assert_eq!(app.input.cursor, 2);
}

#[test]
fn bracketed_paste_preserves_multiline_prompts() {
    let mut app = app();
    app.handle_paste("first line\nsecond line");
    assert_eq!(app.input.text, "first line\nsecond line");
    assert_eq!(app.input.cursor, 22);
}

#[test]
fn cell_slicing_keeps_graphemes_that_overlap_the_selection() {
    assert_eq!(slice_cells("界x", 1, 1), "界");
    assert_eq!(slice_cells("界x", 2, 2), "x");
    assert_eq!(slice_cells("e\u{301}x", 0, 0), "e\u{301}");
}

#[test]
fn successful_model_switch_updates_the_root_display_model() {
    let mut app = app();
    app.view.model = Some(app.models[0].registry_id.clone());
    app.models.push(ModelChoice {
        registry_id: "fireworks/deepseek-v4-flash".to_owned(),
        provider: "fireworks".to_owned(),
        model: "deepseek-v4-flash".to_owned(),
        display_name: "DeepSeek V4 Flash".to_owned(),
        context_window: 128_000,
        efforts: vec!["none".to_owned(), "high".to_owned(), "max".to_owned()],
    });
    app.selected_efforts.push(2);

    app.apply_command_result(CommandResult::SwitchModel {
        index: 1,
        result: Ok("Switched to fireworks/deepseek-v4-flash.".to_owned()),
    });

    assert_eq!(app.selected_model, 1);
    assert_eq!(
        app.current_agent_model().as_deref(),
        Some("fireworks/deepseek-v4-flash")
    );
    assert!(
        app.agent_detail("/root")
            .contains("fireworks/deepseek-v4-flash")
    );
}

#[test]
fn slash_completion_populates_model_arguments() {
    let mut app = app();
    app.input.text = "/".to_owned();
    app.input.cursor = 1;
    app.suggestion_index = 3;
    app.press(key_event(KeyCode::Tab, NONE));
    assert_eq!(app.input.text, "/model ");
    let suggestions = app.suggestions();
    assert_eq!(suggestions[0].label, "openai / GPT-5");
    assert_eq!(suggestions[0].replacement, "/model openai/gpt-5");
}

#[test]
fn effort_defaults_to_maximum_and_can_be_changed() {
    let mut app = app();
    assert_eq!(app.current_agent_effort().as_deref(), Some("high"));
    app.input = InputBuffer::at_end("/effort low".to_owned());

    let command = app.press(key_event(KeyCode::Enter, NONE));

    assert!(matches!(
        command,
        Some(Command::SetEffort { index: 0, effort }) if effort == "low"
    ));
    app.apply_command_result(CommandResult::SetEffort {
        index: 0,
        effort: "low".to_owned(),
        result: Ok("Set reasoning effort to low.".to_owned()),
    });
    assert_eq!(app.current_agent_effort().as_deref(), Some("low"));
    assert_eq!(
        app.runtime_preferences(),
        RuntimePreferences {
            model_id: "openai/gpt-5".to_owned(),
            effort: "low".to_owned(),
        }
    );
}

#[test]
fn session_picker_requests_an_authoritative_catalog_refresh() {
    let mut app = app();
    app.input = InputBuffer::at_end("/session".to_owned());

    let command = app.submit();

    assert!(matches!(command, Some(Command::RefreshSessions)));
    assert_eq!(app.input.text, "/session ");
}

#[test]
fn session_picker_previews_first_user_messages_and_loads_the_selection() {
    let mut app = app();
    app.sessions.push(SessionChoice {
        id: 4,
        preview: Some("Inspect the workspace\nand summarize it".to_owned()),
    });
    app.input = InputBuffer::at_end("/session ".to_owned());

    let suggestions = app.suggestions();

    assert_eq!(suggestions[0].label, "#7");
    assert_eq!(suggestions[0].detail, "No user message yet");
    assert_eq!(suggestions[1].label, "#4");
    assert_eq!(
        suggestions[1].detail,
        "Inspect the workspace and summarize it"
    );
    assert_eq!(suggestions[1].replacement, "/session 4");

    app.input = InputBuffer::at_end("/session 4".to_owned());
    let command = app.press(key_event(KeyCode::Enter, NONE));

    assert!(matches!(command, Some(Command::LoadSession(4))));
    assert_eq!(app.view.status, "Loading session #4…");
}

#[test]
fn session_deletion_needs_a_second_control_d_on_the_same_session() {
    let mut app = session_picker();

    assert!(
        app.press(control_d()).is_none(),
        "ctrl+d is inert outside the session palette"
    );
    assert!(app.notice().is_none());

    app.input = InputBuffer::at_end("/session ".to_owned());
    // The palette lists #7 (the open session), #4, then #3.
    app.press(key_event(KeyCode::Down, NONE));

    assert!(app.press(control_d()).is_none());
    assert_eq!(
        app.notice().map(|notice| notice.text).as_deref(),
        Some("Press ctrl+d again to delete session #4")
    );

    assert!(
        app.press(key_of_kind(
            KeyCode::Char('d'),
            CONTROL,
            KeyEventKind::Repeat,
        ))
        .is_none(),
        "a held key never confirms a deletion"
    );
    assert_eq!(app.armed_session, Some(4));

    let command = app.press(control_d());

    assert!(matches!(command, Some(Command::DeleteSession(4))));
    assert!(app.armed_session.is_none());
    assert_eq!(
        app.notice().map(|notice| notice.text).as_deref(),
        Some(SESSION_PICKER_HINT)
    );

    // The catalog answers with the surviving sessions, so the highlight
    // must not outrun the shortened palette.
    app.replace_sessions(vec![SessionChoice {
        id: 7,
        preview: None,
    }]);
    app.session_deleted(4);
    assert_eq!(app.suggestion_index, 0);
    assert_eq!(app.view.status, "Deleted session #4");
}

#[test]
fn session_deletion_disarms_on_movement_and_other_keys() {
    let mut app = session_picker();
    app.input = InputBuffer::at_end("/session ".to_owned());
    app.press(key_event(KeyCode::Down, NONE));
    assert!(app.press(control_d()).is_none());

    // Moving to another session disarms, so the next ctrl+d arms that one
    // instead of deleting anything.
    app.press(key_event(KeyCode::Down, NONE));
    assert!(app.armed_session.is_none());
    assert_eq!(
        app.notice().map(|notice| notice.text).as_deref(),
        Some(SESSION_PICKER_HINT)
    );
    assert!(app.press(control_d()).is_none());
    assert_eq!(app.armed_session, Some(3));

    app.press(key_event(KeyCode::Esc, NONE));
    assert!(app.armed_session.is_none());
    assert!(app.session_notice.is_none());

    assert!(app.press(control_d()).is_none());
    app.press(key_event(KeyCode::Char('x'), NONE));
    assert!(app.armed_session.is_none());
}

#[test]
fn deleting_the_open_session_asks_for_a_replacement() {
    let mut app = session_picker();
    app.input = InputBuffer::at_end("/session ".to_owned());

    // The palette opens on #7, the session this app has open.
    assert!(app.press(control_d()).is_none());
    assert_eq!(app.armed_session, Some(7));
    assert_eq!(
        app.notice().map(|notice| notice.text).as_deref(),
        Some("Press ctrl+d again to delete the open session #7 and start a fresh one")
    );

    assert!(
        app.press(key_of_kind(
            KeyCode::Char('d'),
            CONTROL,
            KeyEventKind::Repeat,
        ))
        .is_none(),
        "a held key never confirms a replacement"
    );
    assert_eq!(app.armed_session, Some(7));

    let command = app.press(control_d());

    assert!(matches!(
        command,
        Some(Command::ReplaceSession { delete: 7 })
    ));
    assert!(app.armed_session.is_none());
    assert_eq!(
        app.notice().map(|notice| notice.text).as_deref(),
        Some(SESSION_PICKER_HINT)
    );

    // The successor is a whole new app; it reports both halves of the swap.
    let mut successor = session_picker();
    successor.session_id = 9;
    successor.session_replaced(7);
    assert_eq!(successor.view.status, "Deleted session #7; started #9");
}

#[test]
fn arming_the_open_session_disarms_like_any_other_row() {
    let mut app = session_picker();
    app.input = InputBuffer::at_end("/session ".to_owned());
    assert!(app.press(control_d()).is_none());
    assert_eq!(app.armed_session, Some(7));

    // Moving off the open session arms the next one from scratch rather
    // than confirming anything.
    app.press(key_event(KeyCode::Down, NONE));
    assert!(app.armed_session.is_none());
    assert!(app.press(control_d()).is_none());
    assert_eq!(app.armed_session, Some(4));

    // Coming back needs its own confirmation for the replacement.
    app.press(key_event(KeyCode::Up, NONE));
    assert!(app.press(control_d()).is_none());
    assert_eq!(app.armed_session, Some(7));

    app.press(key_event(KeyCode::Char('x'), NONE));
    assert!(app.armed_session.is_none());
    assert!(app.session_notice.is_none());
}

#[test]
fn tab_moves_focus_when_no_completion_is_open() {
    let mut app = app();
    app.press(key_event(KeyCode::Tab, NONE));
    assert_eq!(app.focus, Focus::Conversation);
    assert!(app.view.follow_conversation_tail);
}

#[test]
fn escape_requires_two_physical_presses_and_preserves_the_draft() {
    let mut app = app();
    let run_id = "run-escape".to_owned();
    app.apply_agent_event(AgentSystemEvent::Run {
        address: "/root".to_owned(),
        event: RunEvent::Started {
            run_id: run_id.clone(),
        },
    });
    app.input = InputBuffer::at_end("keep this draft".to_owned());

    assert!(
        app.press(key_event(KeyCode::Esc, NONE))
            .is_none()
    );
    assert_eq!(app.input.text, "keep this draft");
    assert_eq!(
        app.interruption_warning().as_deref(),
        Some("Press Esc again to stop the current run")
    );
    assert!(
        app.press(key_of_kind(
            KeyCode::Esc,
            NONE,
            KeyEventKind::Repeat,
        ))
        .is_none()
    );
    assert!(app.interruption_warning().is_some());

    let command = app.press(key_event(KeyCode::Esc, NONE));
    assert!(matches!(command, Some(Command::Interrupt)));
    assert!(app.interruption_warning().is_none());
    assert!(app.interruption_in_progress);
    assert_eq!(app.input.text, "keep this draft");
}

#[test]
fn interruption_warning_disarms_on_other_input_timeout_and_run_completion() {
    let mut app = app();
    let run_id = "run-disarm".to_owned();
    app.apply_agent_event(AgentSystemEvent::Run {
        address: "/root".to_owned(),
        event: RunEvent::Started {
            run_id: run_id.clone(),
        },
    });

    app.press(key_event(KeyCode::Esc, NONE));
    app.press(key_event(KeyCode::Char('x'), NONE));
    assert!(app.interruption_warning().is_none());

    app.press(key_event(KeyCode::Esc, NONE));
    let deadline = app.interruption_deadline().unwrap();
    assert!(app.expire_interruption(deadline));
    assert!(app.interruption_warning().is_none());

    app.press(key_event(KeyCode::Esc, NONE));
    app.apply_agent_event(AgentSystemEvent::Run {
        address: "/root".to_owned(),
        event: RunEvent::Completed { run_id },
    });
    assert!(app.interruption_warning().is_none());
}

#[test]
fn durable_interruption_replaces_transient_rows_and_ignores_late_deltas() {
    let mut app = app();
    let run_id = "run-reconcile".to_owned();
    let root = "/root".to_owned();
    app.apply_agent_event(AgentSystemEvent::Run {
        address: root.clone(),
        event: RunEvent::Started {
            run_id: run_id.clone(),
        },
    });
    app.apply_agent_event(AgentSystemEvent::Run {
        address: root.clone(),
        event: RunEvent::ModelDelta {
            run_id: run_id.clone(),
            delta: ModelDelta::Text("partial assistant output".to_owned()),
        },
    });
    app.interruption_in_progress = true;

    // The interruption boundary commits: the fold renders the consumed
    // message and the notice, and reports the run dead.
    app.apply_fold(
        "/root",
        FoldOutcome {
            rows: vec![
                committed(HistoryKind::User, "You", "Do some work", None),
                committed(
                    HistoryKind::System,
                    "Run interrupted",
                    "The run was stopped.",
                    None,
                ),
            ],
            dead_runs: vec![run_id.clone()],
            interrupted: true,
            ..FoldOutcome::empty()
        },
    );
    app.apply_interrupt_result(&Ok(true));

    assert!(!app.busy);
    assert!(
        app.view.entries
            .iter()
            .all(|entry| !entry.body.contains("partial assistant"))
    );
    assert!(
        app.view.entries
            .iter()
            .any(|entry| entry.title == "Run interrupted")
    );
    let entry_count = app.view.entries.len();
    app.apply_agent_event(AgentSystemEvent::Run {
        address: root,
        event: RunEvent::ModelDelta {
            run_id,
            delta: ModelDelta::Text("late buffered delta".to_owned()),
        },
    });
    assert_eq!(app.view.entries.len(), entry_count);
    assert!(
        app.view.entries
            .iter()
            .all(|entry| !entry.body.contains("late buffered"))
    );
}

#[test]
fn submission_during_active_run_queues_a_pending_message() {
    let mut app = app();
    app.root_run_active = true;
    app.busy = true;
    app.input.text = "one more thing".to_owned();
    app.input.cursor = app.input.char_count();

    let command = app.press(key_event(KeyCode::Enter, NONE));

    assert!(matches!(
        command,
        Some(Command::Message(input)) if input == "one more thing"
    ));
    assert!(app.input.text.is_empty());
    assert!(app.busy);
    assert!(
        !app.view.entries
            .iter()
            .any(|entry| entry.body == "one more thing")
    );

    // The receipt registers a pending steer, not a conversation row.
    app.apply_message_receipt(
        SentMessage {
            message_id: "steer-1".to_owned(),
            text: "one more thing".to_owned(),
        },
        false,
    );
    assert_eq!(app.pending_steers.len(), 1);
    assert_eq!(app.pending_steers[0].message_id.as_deref(), Some("steer-1"));
    assert!(
        app.view.entries
            .iter()
            .all(|entry| entry.body != "one more thing")
    );
}

#[test]
fn messages_submit_even_while_a_command_is_in_flight() {
    let mut app = app();
    app.command_in_flight = true;
    app.busy = true;
    app.input.text = "keep going".to_owned();
    app.input.cursor = app.input.char_count();

    let command = app.press(key_event(KeyCode::Enter, NONE));

    assert!(matches!(
        command,
        Some(Command::Message(input)) if input == "keep going"
    ));
}

#[test]
fn commands_remain_blocked_while_the_root_is_busy() {
    let mut app = app();
    app.root_run_active = true;
    app.busy = true;
    app.input.text = "/compact".to_owned();
    app.input.cursor = app.input.char_count();

    let command = app.press(key_event(KeyCode::Enter, NONE));

    assert!(command.is_none());
    assert_eq!(app.view.status, "Wait for the current operation to finish");
    assert!(app.pending_steers.is_empty());
}

#[test]
fn messages_are_rejected_during_an_interruption() {
    let mut app = app();
    app.interruption_in_progress = true;
    app.busy = true;
    app.input.text = "too soon".to_owned();
    app.input.cursor = app.input.char_count();

    let command = app.press(key_event(KeyCode::Enter, NONE));

    assert!(command.is_none());
    assert_eq!(app.view.status, "Wait for the interruption to finish");
}

#[test]
fn delivery_fold_moves_pending_messages_into_the_conversation() {
    let mut app = app();
    app.root_run_active = true;
    app.busy = true;
    app.apply_message_receipt(
        SentMessage {
            message_id: "steer-a".to_owned(),
            text: "first steer".to_owned(),
        },
        false,
    );
    app.apply_message_receipt(
        SentMessage {
            message_id: "steer-b".to_owned(),
            text: "second steer".to_owned(),
        },
        false,
    );
    assert_eq!(app.pending_steers.len(), 2);

    app.apply_fold(
        "/root",
        FoldOutcome {
            rows: vec![
                committed(HistoryKind::User, "You", "first steer", None),
                committed(HistoryKind::User, "You", "second steer", None),
            ],
            consumed_message_ids: vec!["steer-a".to_owned(), "steer-b".to_owned()],
            active_run: Some("run-steer".to_owned()),
            ..FoldOutcome::empty()
        },
    );

    assert!(app.pending_steers.is_empty());
    let users = app
        .view.entries
        .iter()
        .filter(|entry| entry.kind == EntryKind::User)
        .map(|entry| entry.body.as_str())
        .collect::<Vec<_>>();
    assert_eq!(users, ["first steer", "second steer"]);
}

#[test]
fn receipt_after_delivery_fold_registers_nothing() {
    let mut app = app();
    app.root_run_active = true;
    app.busy = true;

    // The delivery fold won the race against the send receipt: the row
    // is already rendered and the projector reports the message consumed.
    app.apply_fold(
        "/root",
        FoldOutcome {
            rows: vec![committed(HistoryKind::User, "You", "raced message", None)],
            consumed_message_ids: vec!["steer-race".to_owned()],
            active_run: Some("run-steer-race".to_owned()),
            ..FoldOutcome::empty()
        },
    );
    assert!(app.pending_steers.is_empty());

    app.apply_message_receipt(
        SentMessage {
            message_id: "steer-race".to_owned(),
            text: "raced message".to_owned(),
        },
        true,
    );

    assert!(app.pending_steers.is_empty());
    let raced = app
        .view.entries
        .iter()
        .filter(|entry| entry.kind == EntryKind::User && entry.body == "raced message")
        .count();
    assert_eq!(
        raced, 1,
        "the message renders exactly once and never vanishes"
    );
}

#[test]
fn interruption_fold_drops_consumed_steers_and_keeps_queued_ones() {
    let mut app = app();
    app.root_run_active = true;
    app.busy = true;
    app.apply_message_receipt(
        SentMessage {
            message_id: "steer-kept".to_owned(),
            text: "still queued".to_owned(),
        },
        false,
    );
    app.apply_message_receipt(
        SentMessage {
            message_id: "steer-consumed".to_owned(),
            text: "consumed by boundary".to_owned(),
        },
        false,
    );
    assert_eq!(app.pending_steers.len(), 2);
    app.interruption_in_progress = true;

    app.apply_fold(
        "/root",
        FoldOutcome {
            rows: vec![committed(
                HistoryKind::User,
                "You",
                "consumed by boundary",
                None,
            )],
            consumed_message_ids: vec!["steer-consumed".to_owned()],
            interrupted: true,
            ..FoldOutcome::empty()
        },
    );
    app.apply_interrupt_result(&Ok(true));

    assert_eq!(app.pending_steers.len(), 1);
    assert_eq!(
        app.pending_steers[0].message_id.as_deref(),
        Some("steer-kept")
    );
    assert!(app.view.entries.iter().any(|entry| {
        entry.kind == EntryKind::User && entry.body == "consumed by boundary"
    }));
}

#[test]
fn steered_message_renders_at_its_journal_position() {
    let mut app = app();
    let root = "/root".to_owned();
    let run_id = "run-1".to_owned();
    app.apply_agent_event(AgentSystemEvent::Run {
        address: root.clone(),
        event: RunEvent::Started {
            run_id: run_id.clone(),
        },
    });

    // The eval result commits, then the steer delivery commits, exactly
    // as journal order has it.
    app.apply_fold(
        "/root",
        FoldOutcome {
            rows: vec![
                committed(
                    HistoryKind::ToolCall,
                    "/root · Inspect",
                    "1 + 1",
                    Some("run-1"),
                ),
                committed(
                    HistoryKind::ToolResult,
                    "/root · eval result",
                    "2",
                    Some("run-1"),
                ),
            ],
            model_turns: vec!["run-1".to_owned()],
            active_run: Some("run-1".to_owned()),
            ..FoldOutcome::empty()
        },
    );
    app.apply_fold(
        "/root",
        FoldOutcome {
            rows: vec![committed(
                HistoryKind::User,
                "You",
                "also check the tests",
                None,
            )],
            consumed_message_ids: vec!["steer-1".to_owned()],
            active_run: Some("run-1".to_owned()),
            ..FoldOutcome::empty()
        },
    );
    // The model's next turn responds to the steer.
    app.apply_agent_event(AgentSystemEvent::Run {
        address: root,
        event: RunEvent::ModelDelta {
            run_id,
            delta: ModelDelta::Text("Good point, doing that now.".to_owned()),
        },
    });
    // The send receipt arrives last; the projector reports it consumed.
    app.apply_message_receipt(
        SentMessage {
            message_id: "steer-1".to_owned(),
            text: "also check the tests".to_owned(),
        },
        true,
    );

    let tool_result = app
        .view.entries
        .iter()
        .position(|entry| entry.kind == EntryKind::ToolResult)
        .expect("the eval result renders");
    let user = app
        .view.entries
        .iter()
        .position(|entry| entry.kind == EntryKind::User && entry.body == "also check the tests")
        .expect("the steer renders");
    let response = app
        .view.entries
        .iter()
        .position(|entry| {
            entry.kind == EntryKind::Assistant && entry.body.contains("Good point")
        })
        .expect("the response renders");
    assert!(
        tool_result < user && user < response,
        "journal order is eval result, steer, response: {tool_result} < {user} < {response}"
    );
    assert!(app.pending_steers.is_empty());
}

#[test]
fn committed_terminal_output_replaces_the_streamed_overlay_below_the_tool_calls() {
    let mut app = app();
    let root = "/root".to_owned();
    let run_id = "run-1".to_owned();
    app.apply_agent_event(AgentSystemEvent::Run {
        address: root.clone(),
        event: RunEvent::Started {
            run_id: run_id.clone(),
        },
    });

    // Turn one streams a preamble, then commits with its tool call.
    app.apply_agent_event(AgentSystemEvent::Run {
        address: root.clone(),
        event: RunEvent::ModelStarted {
            run_id: run_id.clone(),
        },
    });
    app.apply_agent_event(AgentSystemEvent::Run {
        address: root.clone(),
        event: RunEvent::ModelDelta {
            run_id: run_id.clone(),
            delta: ModelDelta::Text("I found the bug.".to_owned()),
        },
    });
    app.apply_fold(
        "/root",
        FoldOutcome {
            rows: vec![
                committed(
                    HistoryKind::Assistant,
                    "/root",
                    "I found the bug.",
                    Some("run-1"),
                ),
                committed(
                    HistoryKind::ToolCall,
                    "/root · first",
                    "1 + 1",
                    Some("run-1"),
                ),
            ],
            model_turns: vec!["run-1".to_owned()],
            active_run: Some("run-1".to_owned()),
            ..FoldOutcome::empty()
        },
    );
    // The eval result commits.
    app.apply_fold(
        "/root",
        FoldOutcome {
            rows: vec![committed(
                HistoryKind::ToolResult,
                "/root · eval result",
                "2",
                Some("run-1"),
            )],
            active_run: Some("run-1".to_owned()),
            ..FoldOutcome::empty()
        },
    );
    // The terminal turn streams, commits, and the run completes.
    app.apply_agent_event(AgentSystemEvent::Run {
        address: root.clone(),
        event: RunEvent::ModelStarted {
            run_id: run_id.clone(),
        },
    });
    app.apply_agent_event(AgentSystemEvent::Run {
        address: root.clone(),
        event: RunEvent::ModelDelta {
            run_id: run_id.clone(),
            delta: ModelDelta::Text("The fix is to flip the flag.".to_owned()),
        },
    });
    app.apply_fold(
        "/root",
        FoldOutcome {
            rows: vec![committed(
                HistoryKind::Assistant,
                "/root",
                "The fix is to flip the flag.",
                Some("run-1"),
            )],
            model_turns: vec!["run-1".to_owned()],
            dead_runs: vec!["run-1".to_owned()],
            ..FoldOutcome::empty()
        },
    );
    app.apply_agent_event(AgentSystemEvent::Run {
        address: root,
        event: RunEvent::Completed { run_id },
    });

    let final_row = app
        .view.entries
        .iter()
        .position(|entry| {
            entry.kind == EntryKind::Assistant && entry.body.contains("flip the flag")
        })
        .expect("the final output renders");
    let last_tool = app
        .view.entries
        .iter()
        .rposition(|entry| matches!(entry.kind, EntryKind::ToolCall | EntryKind::ToolResult))
        .expect("tool rows render");
    let duplicates = app
        .view.entries
        .iter()
        .filter(|entry| entry.body.contains("flip the flag"))
        .count();
    assert_eq!(duplicates, 1, "the overlay is replaced, not duplicated");
    assert!(
        final_row > last_tool,
        "the final output renders below the tool rows: {final_row} > {last_tool}"
    );
    assert!(!app.busy);
    assert_eq!(app.view.status, "Ready");
}

#[test]
fn quit_is_an_alias_for_exit() {
    let mut app = app();
    app.input = InputBuffer::at_end("/quit".to_owned());

    let command = app.press(key_event(KeyCode::Enter, NONE));

    assert!(command.is_none());
    assert!(app.should_exit);
}

#[test]
fn ctrl_c_clears_draft_before_exiting() {
    let mut app = app();
    app.input = InputBuffer::at_end("unfinished prompt".to_owned());

    app.press(key_event(KeyCode::Char('c'), CONTROL));

    assert!(app.input.text.is_empty());
    assert!(!app.should_exit);

    app.press(key_event(KeyCode::Char('c'), CONTROL));

    assert!(app.should_exit);
}

#[test]
fn vertical_input_navigation_uses_visual_rows_before_user_history() {
    let mut app = app();
    app.apply_fold(
        "/root",
        fold_with_rows(
            vec![
                committed(HistoryKind::User, "You", "one", None),
                committed(HistoryKind::User, "You", "two", None),
            ],
            None,
        ),
    );
    app.pane.input_width = 4;
    app.input = InputBuffer::at_end("abcdef".to_owned());

    app.press(key_event(KeyCode::Up, NONE));
    assert_eq!(app.input.text, "abcdef");
    assert_eq!(app.input.cursor, 2, "cursor should move to the row above");

    app.press(key_event(KeyCode::Up, NONE));
    assert_eq!(app.input.text, "two");
    app.press(key_event(KeyCode::Up, NONE));
    assert_eq!(app.input.text, "one");
    app.press(key_event(KeyCode::Down, NONE));
    assert_eq!(app.input.text, "two");
    app.press(key_event(KeyCode::Down, NONE));
    assert_eq!(app.input.text, "abcdef");
    assert_eq!(
        app.input.cursor, 2,
        "history should restore the draft cursor"
    );
}

#[test]
fn vertical_input_navigation_respects_explicit_newlines() {
    let mut input = InputBuffer::at_end("first\nxy".to_owned());

    assert!(input.move_vertical(-1, 20));
    assert_eq!(input.cursor, 2);
    assert!(input.move_vertical(1, 20));
    assert_eq!(input.cursor, input.char_count());
}

#[test]
fn browsing_selection_is_stable_until_navigation_returns_to_tail() {
    let mut app = app();
    app.push_entry(EntryKind::System, "Older", "first");
    app.push_entry(EntryKind::System, "Newer", "second");
    app.focus = Focus::Conversation;
    app.move_selection(-1);
    let selected = app.view.selected_entry;
    assert!(!app.view.follow_conversation_tail);

    app.apply_agent_event(AgentSystemEvent::Run {
        address: "/root".to_owned(),
        event: RunEvent::ModelDelta {
            run_id: "run-1".to_owned(),
            delta: ModelDelta::Text("streaming below".to_owned()),
        },
    });
    assert_eq!(app.view.selected_entry, selected);
    assert!(!app.view.follow_conversation_tail);

    app.move_selection(100);
    assert_eq!(app.view.selected_entry, app.view.entries.len().checked_sub(1));
    assert!(app.view.follow_conversation_tail);

    app.push_entry(EntryKind::System, "Latest", "third");
    assert_eq!(app.view.selected_entry, app.view.entries.len().checked_sub(1));
}

#[test]
fn mouse_wheel_scrolls_within_one_oversized_entry() {
    let mut app = app();
    app.push_entry(EntryKind::System, "Older", "first");
    app.apply_fold(
        "/root",
        fold_with_rows(
            vec![committed(
                HistoryKind::Assistant,
                "Agent",
                "long response",
                None,
            )],
            None,
        ),
    );
    app.focus = Focus::Conversation;
    app.view.selected_entry = Some(2);
    app.pane.conversation_ranges = vec![(0, 1), (2, 9), (10, 109)];
    app.pane.conversation_viewport_height = 10;
    app.pane.conversation_total_lines = 110;
    app.view.conversation_offset = 100;
    app.view.follow_conversation_tail = true;

    app.handle_mouse(MouseEvent {
        kind: MouseEventKind::ScrollUp,
        column: 0,
        row: 0,
    });

    assert_eq!(app.view.conversation_offset, 98);
    assert_eq!(app.view.selected_entry, Some(2));
    assert!(!app.view.follow_conversation_tail);
    assert!(!app.view.selection_drives_viewport);

    app.handle_mouse(MouseEvent {
        kind: MouseEventKind::ScrollDown,
        column: 0,
        row: 0,
    });

    assert_eq!(app.view.conversation_offset, 100);
    assert!(app.view.follow_conversation_tail);
}

#[test]
fn mouse_selection_follows_the_visible_viewport_but_keyboard_drives_it() {
    let mut app = app();
    app.push_entry(EntryKind::System, "Middle", "second");
    app.push_entry(EntryKind::System, "Latest", "third");
    app.focus = Focus::Conversation;
    app.view.selected_entry = Some(2);
    app.pane.conversation_ranges = vec![(0, 9), (10, 19), (20, 29)];
    app.pane.conversation_viewport_height = 10;
    app.pane.conversation_total_lines = 30;
    app.view.conversation_offset = 20;
    app.view.follow_conversation_tail = true;
    let wheel_up = MouseEvent {
        kind: MouseEventKind::ScrollUp,
        column: 0,
        row: 0,
    };

    for _ in 0..5 {
        app.handle_mouse(wheel_up);
    }

    assert_eq!(app.view.conversation_offset, 10);
    assert_eq!(app.view.selected_entry, Some(1));
    assert!(!app.view.selection_drives_viewport);

    app.press(key_event(KeyCode::Up, NONE));

    assert_eq!(app.view.selected_entry, Some(0));
    assert!(app.view.selection_drives_viewport);
}

#[test]
fn ordinary_input_sends_a_message() {
    let mut app = app();
    app.input.text = "inspect the workspace".to_owned();
    app.input.cursor = app.input.char_count();
    let command = app.press(key_event(KeyCode::Enter, NONE));
    assert!(
        matches!(command, Some(Command::Message(input)) if input == "inspect the workspace")
    );
    // The message is not blocking and its row renders from the journal
    // fold once the runner delivers it.
    assert!(!app.busy);
    assert_eq!(
        app.sessions
            .iter()
            .find(|session| session.id == app.session_id)
            .and_then(|session| session.preview.as_deref()),
        Some("inspect the workspace")
    );
}

#[test]
fn new_command_requests_a_fresh_session() {
    let mut app = app();
    app.input.text = "/new".to_owned();
    app.input.cursor = app.input.char_count();

    let command = app.press(key_event(KeyCode::Enter, NONE));

    assert!(matches!(command, Some(Command::New)));
    assert!(app.busy);
    assert_eq!(app.view.status, "Starting a new session…");
}

#[test]
fn durable_history_is_restored_before_the_ready_row() {
    let app = app();
    let restored = App::new(
        "/tmp/project".to_owned(),
        "/tmp/providers.toml".to_owned(),
        SessionView {
            id: 7,
            journal_path: "/tmp/session-00000007.redb".to_owned(),
            resumed: true,
            agents: vec![AgentHistory::root(vec![
                committed(HistoryKind::User, "You", "hello", None),
                committed(HistoryKind::Assistant, "/root", "hi", Some("run-1")),
                committed(
                    HistoryKind::ToolCall,
                    "/root · Calculate the result",
                    "1 + 1",
                    Some("run-1"),
                ),
            ])],
            choices: vec![SessionChoice {
                id: 7,
                preview: Some("hello".to_owned()),
            }],
        },
        app.models,
        0,
        "high",
        Vec::new(),
    );

    assert_eq!(restored.view.entries.len(), 4);
    assert!(restored.view.entries[0].expanded);
    assert!(restored.view.entries[1].expanded);
    assert!(!restored.view.entries[2].expanded);
    assert_eq!(restored.view.entries[3].title, "Ready");
    assert!(
        restored.view.entries[3]
            .body
            .starts_with("Resumed durable session #7")
    );
}

#[test]
fn committed_tool_calls_render_as_pending_source_rows() {
    let mut app = app();
    app.apply_fold(
        "/root",
        FoldOutcome {
            rows: vec![committed(
                HistoryKind::ToolCall,
                "/root · Inspect the workspace files",
                "const files = await lam.fs.list({ path: '.' });",
                Some("run-1"),
            )],
            model_turns: vec!["run-1".to_owned()],
            active_run: Some("run-1".to_owned()),
            ..FoldOutcome::empty()
        },
    );
    let tool = app.view.entries.last().unwrap();
    assert_eq!(tool.title, "/root · Inspect the workspace files");
    assert!(tool.body.contains("lam.fs.list"));
    assert!(tool.pending_tool);
}

#[test]
fn streamed_tool_arguments_reconcile_with_separate_result_row() {
    let mut app = app();
    let address = "/root".to_owned();
    let run_id = "run-1".to_owned();
    for delta in [
        ToolCallDelta {
            index: 0,
            name: Some("eval".to_owned()),
            arguments: "{\"intent\":\"Calculate the result\",\"source\":".to_owned(),
        },
        ToolCallDelta {
            index: 0,
            name: None,
            arguments: "\"1 + 1\"}".to_owned(),
        },
    ] {
        app.apply_agent_event(AgentSystemEvent::Run {
            address: address.clone(),
            event: RunEvent::ModelDelta {
                run_id: run_id.clone(),
                delta: ModelDelta::ToolCall(delta),
            },
        });
    }
    assert_eq!(app.view.entries.len(), 2);
    assert_eq!(app.view.entries[1].kind, EntryKind::ToolCall);
    assert_eq!(
        app.view.entries[1].body,
        "{\"intent\":\"Calculate the result\",\"source\":\"1 + 1\"}"
    );

    // The model turn commits: the fold's authoritative tool-call row
    // replaces the streamed overlay row.
    app.apply_fold(
        "/root",
        FoldOutcome {
            rows: vec![committed(
                HistoryKind::ToolCall,
                "/root · Calculate the result",
                "1 + 1",
                Some("run-1"),
            )],
            model_turns: vec!["run-1".to_owned()],
            active_run: Some("run-1".to_owned()),
            ..FoldOutcome::empty()
        },
    );
    assert_eq!(
        app.view.entries.len(),
        2,
        "the committed row replaces the streamed row"
    );
    assert_eq!(app.view.entries[1].title, "/root · Calculate the result");
    assert_eq!(app.view.entries[1].body, "1 + 1");

    // The durable eval outcome commits, pairing with the pending call;
    // the EvalCompleted event that follows is status-only and must not
    // add a duplicate row.
    app.apply_fold(
        "/root",
        FoldOutcome {
            rows: vec![committed(
                HistoryKind::ToolResult,
                "/root · eval result",
                "2",
                Some("run-1"),
            )],
            active_run: Some("run-1".to_owned()),
            ..FoldOutcome::empty()
        },
    );
    assert_eq!(app.view.entries.len(), 3);
    assert_eq!(app.view.entries[1].kind, EntryKind::ToolCall);
    assert_eq!(app.view.entries[2].kind, EntryKind::ToolResult);
    assert_eq!(app.view.entries[2].body, "2");
    assert!(!app.view.entries[1].pending_tool);

    app.apply_agent_event(AgentSystemEvent::Run {
        address,
        event: RunEvent::EvalCompleted { run_id },
    });
    assert_eq!(
        app.view.entries.len(),
        3,
        "the event adds no row: the committed result is already rendered"
    );
    assert_eq!(app.view.status, "/root finished eval");

    app.view.selected_entry = Some(1);
    app.toggle_selected();
    assert!(app.view.entries[1].expanded);
    assert_eq!(app.view.entries[1].title, "/root · Calculate the result");
    assert!(!app.view.entries[2].expanded);
}

#[test]
fn parallel_tool_results_pair_with_calls_in_provider_order() {
    let mut app = app();
    let address = "/root".to_owned();
    let run_id = "run-parallel".to_owned();
    for (index, intent, source) in [
        (0, "Commit the change", "await commit()"),
        (1, "Inspect the styling", "await inspect()"),
    ] {
        app.apply_agent_event(AgentSystemEvent::Run {
            address: address.clone(),
            event: RunEvent::ModelDelta {
                run_id: run_id.clone(),
                delta: ModelDelta::ToolCall(ToolCallDelta {
                    index,
                    name: Some("eval".to_owned()),
                    arguments: format!(
                        "{{\"intent\":\"{intent}\",\"source\":\"{source}\",\"timeoutMs\":null}}"
                    ),
                }),
            },
        });
    }

    // The turn commits with the executed request and the rejected
    // sibling, replacing both streamed overlay rows.
    app.apply_fold(
        "/root",
        FoldOutcome {
            rows: vec![
                committed(
                    HistoryKind::ToolCall,
                    "/root · Commit the change",
                    "await commit()",
                    Some("run-parallel"),
                ),
                committed(
                    HistoryKind::ToolCall,
                    "/root · Inspect the styling",
                    "await inspect()",
                    Some("run-parallel"),
                ),
            ],
            model_turns: vec!["run-parallel".to_owned()],
            active_run: Some("run-parallel".to_owned()),
            ..FoldOutcome::empty()
        },
    );
    assert_eq!(app.view.entries[1].body, "await commit()");
    assert!(app.view.entries[1].pending_tool);
    assert!(app.view.entries[2].pending_tool);

    // Both outcomes commit in one batch; the committed result rows pair
    // with the pending calls in provider order.
    app.apply_fold(
        "/root",
        FoldOutcome {
            rows: vec![
                committed(
                    HistoryKind::ToolResult,
                    "/root · eval result",
                    "\"committed\"",
                    Some("run-parallel"),
                ),
                committed(
                    HistoryKind::ToolResult,
                    "/root · eval result",
                    "Combine multiple actions in one eval program.",
                    Some("run-parallel"),
                ),
            ],
            active_run: Some("run-parallel".to_owned()),
            ..FoldOutcome::empty()
        },
    );
    for _ in 0..2 {
        app.apply_agent_event(AgentSystemEvent::Run {
            address: address.clone(),
            event: RunEvent::EvalCompleted { run_id: run_id.clone() },
        });
    }

    assert_eq!(app.view.entries.len(), 5, "the events add no rows");
    assert!(!app.view.entries[1].pending_tool);
    assert!(!app.view.entries[2].pending_tool);
    assert_eq!(app.view.entries[3].kind, EntryKind::ToolResult);
    assert_eq!(app.view.entries[4].kind, EntryKind::ToolResult);
    assert!(app.view.entries[4].body.contains("Combine multiple actions"));
}

#[test]
fn streamed_eval_intent_updates_the_collapsed_title_from_partial_json() {
    let mut app = app();
    let address = "/root".to_owned();
    let run_id = "run-intent".to_owned();
    let chunks = [
        (Some("eval"), r#"{"intent":"Inspect "#),
        (None, r#"the \u"#),
        (None, r#"0077orkspace","source":""#),
        (None, r#"await lam.dir()"}"#),
    ];
    let expected = [
        "/root · Inspect",
        "/root · Inspect the",
        "/root · Inspect the workspace",
        "/root · Inspect the workspace",
    ];

    for ((name, arguments), expected) in chunks.into_iter().zip(expected) {
        app.apply_agent_event(AgentSystemEvent::Run {
            address: address.clone(),
            event: RunEvent::ModelDelta {
                run_id: run_id.clone(),
                delta: ModelDelta::ToolCall(ToolCallDelta {
                    index: 0,
                    name: name.map(str::to_owned),
                    arguments: arguments.to_owned(),
                }),
            },
        });
        assert_eq!(app.view.entries.last().unwrap().title, expected);
        assert!(!app.view.entries.last().unwrap().expanded);
    }

    // The turn commits: the fold's authoritative row replaces the
    // streamed one with the final intent and source.
    app.apply_fold(
        "/root",
        FoldOutcome {
            rows: vec![committed(
                HistoryKind::ToolCall,
                "/root · Inspect the workspace",
                "await lam.dir()",
                Some(run_id.as_str()),
            )],
            model_turns: vec![run_id.clone()],
            active_run: Some(run_id.clone()),
            ..FoldOutcome::empty()
        },
    );
    assert_eq!(
        app.view.entries.last().unwrap().title,
        "/root · Inspect the workspace"
    );
    assert_eq!(app.view.entries.last().unwrap().body, "await lam.dir()");
}

#[test]
fn partial_eval_intent_skips_complete_fields_and_decodes_escapes() {
    let intent = partial_eval_intent(
        r#"{"source":"const label = \"intent\";","intent":"Read \"quoted\" \ud83d\ude"#,
    )
    .expect("the top-level intent should be discoverable after source");

    assert_eq!(intent.text, "Read \"quoted\" ");
    assert!(!intent.complete);
}

#[test]
fn committed_terminal_output_supersedes_stream_deltas_in_either_order() {
    // The terminal turn commits before any of its deltas render.
    let mut first_app = app();
    first_app.apply_fold(
        "/root",
        FoldOutcome {
            rows: vec![committed(
                HistoryKind::Assistant,
                "/root",
                "hello",
                Some("run-1"),
            )],
            model_turns: vec!["run-1".to_owned()],
            dead_runs: vec!["run-1".to_owned()],
            ..FoldOutcome::empty()
        },
    );
    for text in ["hel", "lo"] {
        first_app.apply_agent_event(AgentSystemEvent::Run {
            address: "/root".to_owned(),
            event: RunEvent::ModelDelta {
                run_id: "run-1".to_owned(),
                delta: ModelDelta::Text(text.to_owned()),
            },
        });
    }
    let visible = first_app
        .view.entries
        .iter()
        .filter(|entry| entry.kind == EntryKind::Assistant)
        .collect::<Vec<_>>();
    assert_eq!(visible.len(), 1);
    assert_eq!(visible[0].body, "hello");
    assert!(visible[0].expanded);

    // The deltas render first; the commit replaces the overlay segment.
    let mut second_app = app();
    for text in ["hel", "lo"] {
        second_app.apply_agent_event(AgentSystemEvent::Run {
            address: "/root".to_owned(),
            event: RunEvent::ModelDelta {
                run_id: "run-2".to_owned(),
                delta: ModelDelta::Text(text.to_owned()),
            },
        });
    }
    second_app.apply_fold(
        "/root",
        FoldOutcome {
            rows: vec![committed(
                HistoryKind::Assistant,
                "/root",
                "hello",
                Some("run-2"),
            )],
            model_turns: vec!["run-2".to_owned()],
            dead_runs: vec!["run-2".to_owned()],
            ..FoldOutcome::empty()
        },
    );
    let visible = second_app
        .view.entries
        .iter()
        .filter(|entry| entry.kind == EntryKind::Assistant)
        .collect::<Vec<_>>();
    assert_eq!(visible.len(), 1);
    assert_eq!(visible[0].body, "hello");
    assert!(visible[0].expanded);
}

#[test]
fn streamed_agent_text_stays_expanded_when_the_run_completes() {
    let mut app = app();
    let address = "/root".to_owned();
    let run_id = "run-1".to_owned();
    app.apply_agent_event(AgentSystemEvent::Run {
        address: address.clone(),
        event: RunEvent::ModelDelta {
            run_id: run_id.clone(),
            delta: ModelDelta::Text("Final answer".to_owned()),
        },
    });
    assert!(app.view.entries.last().unwrap().expanded);

    app.apply_agent_event(AgentSystemEvent::Run {
        address,
        event: RunEvent::Completed { run_id },
    });
    assert!(app.view.entries.last().unwrap().expanded);

    app.view.selected_entry = app.view.entries.len().checked_sub(1);
    app.toggle_selected();
    assert!(!app.view.entries.last().unwrap().expanded);
}

#[test]
fn empty_model_deltas_do_not_create_conversation_rows() {
    let mut app = app();
    let address = "/root".to_owned();
    let run_id = "run-1".to_owned();
    let initial_entries = app.view.entries.len();

    for delta in [
        ModelDelta::Text(String::new()),
        ModelDelta::Reasoning(String::new()),
    ] {
        app.apply_agent_event(AgentSystemEvent::Run {
            address: address.clone(),
            event: RunEvent::ModelDelta {
                run_id: run_id.clone(),
                delta,
            },
        });
    }
    assert_eq!(app.view.entries.len(), initial_entries);

    for delta in [
        ModelDelta::Text(" ".to_owned()),
        ModelDelta::Reasoning("\n".to_owned()),
    ] {
        app.apply_agent_event(AgentSystemEvent::Run {
            address: address.clone(),
            event: RunEvent::ModelDelta {
                run_id: run_id.clone(),
                delta,
            },
        });
    }
    assert_eq!(app.view.entries.len(), initial_entries + 2);
    assert_eq!(app.view.entries[initial_entries].body, " ");
    assert_eq!(app.view.entries[initial_entries + 1].body, "\n");
}

#[test]
fn tool_call_keeps_intermediate_text_expanded() {
    let mut app = app();
    let address = "/root".to_owned();
    let first_run = "run-1".to_owned();
    app.apply_agent_event(AgentSystemEvent::Run {
        address: address.clone(),
        event: RunEvent::ModelDelta {
            run_id: first_run.clone(),
            delta: ModelDelta::Text("Checking the workspace".to_owned()),
        },
    });
    let first_text = app.view.entries.len() - 1;
    assert!(app.view.entries[first_text].expanded);

    app.apply_agent_event(AgentSystemEvent::Run {
        address: address.clone(),
        event: RunEvent::ModelDelta {
            run_id: first_run,
            delta: ModelDelta::ToolCall(ToolCallDelta {
                index: 0,
                name: Some("eval".to_owned()),
                arguments: "{\"source\":".to_owned(),
            }),
        },
    });
    assert!(app.view.entries[first_text].expanded);
    app.apply_agent_event(AgentSystemEvent::Run {
        address,
        event: RunEvent::ModelDelta {
            run_id: "run-2".to_owned(),
            delta: ModelDelta::ToolCall(ToolCallDelta {
                index: 0,
                name: Some("eval".to_owned()),
                arguments: "{\"source\":".to_owned(),
            }),
        },
    });
    assert!(app.view.entries[first_text].expanded);
}

#[test]
fn streaming_marker_follows_the_active_row_and_clears_on_completion() {
    let mut app = app();
    let address = "/root".to_owned();
    let run_id = "run-1".to_owned();

    app.apply_agent_event(AgentSystemEvent::Run {
        address: address.clone(),
        event: RunEvent::ModelDelta {
            run_id: run_id.clone(),
            delta: ModelDelta::Reasoning("thinking".to_owned()),
        },
    });
    let reasoning = app.view.entries.len() - 1;
    assert!(app.view.entries[reasoning].streaming);

    app.apply_agent_event(AgentSystemEvent::Run {
        address: address.clone(),
        event: RunEvent::ModelDelta {
            run_id: run_id.clone(),
            delta: ModelDelta::ToolCall(ToolCallDelta {
                index: 0,
                name: Some("eval".to_owned()),
                arguments: r#"{"source":"1 + 1"}"#.to_owned(),
            }),
        },
    });
    let call = app.view.entries.len() - 1;
    assert!(!app.view.entries[reasoning].streaming);
    assert!(app.view.entries[call].streaming);

    // The turn and its eval outcome commit: the streamed rows are
    // replaced and the marker stays on the run's newest committed row.
    app.apply_fold(
        "/root",
        FoldOutcome {
            rows: vec![
                committed(
                    HistoryKind::ToolCall,
                    "/root · eval",
                    "1 + 1",
                    Some("run-1"),
                ),
                committed(
                    HistoryKind::ToolResult,
                    "/root · eval result",
                    "2",
                    Some("run-1"),
                ),
            ],
            model_turns: vec!["run-1".to_owned()],
            active_run: Some("run-1".to_owned()),
            ..FoldOutcome::empty()
        },
    );
    let call = app
        .view.entries
        .iter()
        .position(|entry| entry.kind == EntryKind::ToolCall)
        .unwrap();
    let result = app
        .view.entries
        .iter()
        .position(|entry| entry.kind == EntryKind::ToolResult)
        .unwrap();
    assert!(!app.view.entries[call].streaming);
    assert!(
        app.view.entries[result].streaming,
        "the run's newest committed row keeps full intensity"
    );

    app.apply_agent_event(AgentSystemEvent::Run {
        address: address.clone(),
        event: RunEvent::ModelDelta {
            run_id: run_id.clone(),
            delta: ModelDelta::Text("The answer is 2.".to_owned()),
        },
    });
    let text = app.view.entries.len() - 1;
    assert!(!app.view.entries[result].streaming);
    assert!(app.view.entries[text].streaming);

    app.apply_agent_event(AgentSystemEvent::Run {
        address,
        event: RunEvent::Completed { run_id },
    });
    assert!(app.view.entries.iter().all(|entry| !entry.streaming));
}

#[test]
fn terminal_fold_recovers_when_the_completed_event_is_dropped() {
    let mut app = app();
    let address = "/root".to_owned();
    let run_id = "run-1".to_owned();
    app.root_run_active = true;
    app.busy = true;
    app.view.status = "/root is responding…".to_owned();
    app.apply_agent_event(AgentSystemEvent::Run {
        address: address.clone(),
        event: RunEvent::ModelDelta {
            run_id: run_id.clone(),
            delta: ModelDelta::Text("Final ans".to_owned()),
        },
    });

    // The terminal turn commits; the Completed event is lost in transit.
    // The fold alone restores every invariant.
    app.apply_fold(
        "/root",
        FoldOutcome {
            rows: vec![committed(
                HistoryKind::Assistant,
                "/root",
                "Final answer",
                Some("run-1"),
            )],
            model_turns: vec!["run-1".to_owned()],
            dead_runs: vec!["run-1".to_owned()],
            ..FoldOutcome::empty()
        },
    );
    assert!(!app.busy);
    assert!(!app.root_run_active);
    assert_eq!(app.view.entries.last().unwrap().body, "Final answer");
    assert!(app.view.entries.last().unwrap().expanded);

    app.apply_agent_event(AgentSystemEvent::Run {
        address: address.clone(),
        event: RunEvent::ModelStarted {
            run_id: run_id.clone(),
        },
    });
    app.apply_agent_event(AgentSystemEvent::Run {
        address,
        event: RunEvent::ModelDelta {
            run_id,
            delta: ModelDelta::Text("wer".to_owned()),
        },
    });
    assert_eq!(app.view.entries.last().unwrap().body, "Final answer");
}

#[test]
fn child_streams_accumulate_without_moving_the_selected_agent() {
    let mut app = app();
    app.focus = Focus::Conversation;
    app.view.selected_entry = Some(0);
    app.view.follow_conversation_tail = false;
    app.view.conversation_offset = 3;
    let root_entries = app.view.entries.len();

    let child = "/root/researcher".to_owned();
    assert!(!app.apply_agent_event(AgentSystemEvent::Hosted {
        address: child.clone(),
        parent: Some("/root".to_owned()),
    }));
    assert!(!app.apply_agent_event(AgentSystemEvent::Run {
        address: child.clone(),
        event: RunEvent::ModelDelta {
            run_id: "child-run".to_owned(),
            delta: ModelDelta::Text("hello".to_owned()),
        },
    }));

    assert_eq!(app.current_agent, "/root");
    assert_eq!(app.view.entries.len(), root_entries);
    assert_eq!(app.view.selected_entry, Some(0));
    assert_eq!(app.view.conversation_offset, 3);

    app.focus = Focus::Input;
    app.input.text = "/agents /root/researcher".to_owned();
    app.input.cursor = app.input.char_count();
    assert!(
        app.press(key_event(KeyCode::Enter, NONE))
            .is_none()
    );
    assert_eq!(app.current_agent, "/root/researcher");
    assert_eq!(app.view.entries.len(), 1);
    assert_eq!(app.view.entries[0].body, "hello");
    assert!(app.view.entries[0].expanded);

    assert!(app.apply_agent_event(AgentSystemEvent::Run {
        address: child,
        event: RunEvent::ModelDelta {
            run_id: "child-run".to_owned(),
            delta: ModelDelta::Text(" world".to_owned()),
        },
    }));
    assert_eq!(app.view.entries[0].body, "hello world");
}

#[test]
fn agents_command_remains_available_while_root_is_busy() {
    let mut app = app();
    app.apply_agent_event(AgentSystemEvent::Hosted {
        address: "/root/worker".to_owned(),
        parent: Some("/root".to_owned()),
    });
    app.busy = true;
    app.input.text = "/agents /root/worker".to_owned();
    app.input.cursor = app.input.char_count();

    let command = app.press(key_event(KeyCode::Enter, NONE));

    assert!(command.is_none());
    assert_eq!(app.current_agent, "/root/worker");
    assert!(app.busy);
}

#[test]
fn switching_agents_tracks_the_child_model_in_the_header() {
    let mut app = app();
    app.models.push(ModelChoice {
        registry_id: "fireworks/deepseek-v4-flash".to_owned(),
        provider: "fireworks".to_owned(),
        model: "deepseek-v4-flash".to_owned(),
        display_name: "DeepSeek V4 Flash".to_owned(),
        context_window: 128_000,
        efforts: vec!["none".to_owned(), "high".to_owned()],
    });
    app.selected_efforts.push(1);

    app.apply_agent_event(AgentSystemEvent::Hosted {
        address: "/root/worker".to_owned(),
        parent: Some("/root".to_owned()),
    });
    app.apply_fold(
        "/root/worker",
        FoldOutcome {
            selected_model: Some("fireworks/deepseek-v4-flash".to_owned()),
            ..FoldOutcome::empty()
        },
    );

    app.input.text = "/agents /root/worker".to_owned();
    app.input.cursor = app.input.char_count();
    assert!(
        app.press(key_event(KeyCode::Enter, NONE))
            .is_none()
    );

    assert_eq!(app.current_agent, "/root/worker");
    assert_eq!(
        app.current_agent_model().as_deref(),
        Some("fireworks/deepseek-v4-flash")
    );
    assert!(
        app.agent_detail("/root/worker")
            .contains("fireworks/deepseek-v4-flash")
    );

    // Root keeps its own selected model.
    app.input.text = "/agents /root".to_owned();
    app.input.cursor = app.input.char_count();
    assert!(
        app.press(key_event(KeyCode::Enter, NONE))
            .is_none()
    );
    assert_eq!(app.current_agent_model().as_deref(), Some("openai/gpt-5"));
}

#[test]
fn background_streaming_preserves_click_targets_in_the_visible_conversation() {
    let mut app = app();
    app.push_entry(
        EntryKind::ToolCall,
        "/root · Inspect the workspace",
        "const files = await lam.fs.list({ path: '.' });",
    );
    let tool = app.view.entries.len() - 1;
    let child = "/root/worker".to_owned();
    app.apply_agent_event(AgentSystemEvent::Hosted {
        address: child.clone(),
        parent: Some("/root".to_owned()),
    });
    app.pane.hitboxes = vec![Hitbox {
        top: 4,
        bottom: 4,
        header: Some(4),
        entry: tool,
    }];
    app.busy = true;

    assert!(!app.apply_agent_event(AgentSystemEvent::Run {
        address: child,
        event: RunEvent::ModelDelta {
            run_id: "child-run".to_owned(),
            delta: ModelDelta::Text("streaming in the background".to_owned()),
        },
    }));
    assert_eq!(
        app.pane.hitboxes,
        [Hitbox {
            top: 4,
            bottom: 4,
            header: Some(4),
            entry: tool
        }]
    );

    app.handle_mouse(MouseEvent {
        kind: MouseEventKind::Down,
        column: 10,
        row: 4,
    });

    assert_eq!(app.view.selected_entry, Some(tool));
    assert!(app.view.entries[tool].expanded);
}

#[test]
fn body_click_selects_without_collapsing() {
    let mut app = app();
    app.push_entry(EntryKind::System, "Expanded", "first line\nsecond line");
    let entry = app.view.entries.len() - 1;
    app.view.entries[entry].expanded = true;
    app.pane.hitboxes = vec![Hitbox {
        top: 2,
        bottom: 4,
        header: Some(2),
        entry,
    }];

    app.view.follow_conversation_tail = true;
    app.view.selection_drives_viewport = true;
    app.view.conversation_offset = 7;

    app.handle_mouse(MouseEvent {
        kind: MouseEventKind::Down,
        column: 5,
        row: 3,
    });

    assert_eq!(app.focus, Focus::Conversation);
    assert_eq!(app.view.selected_entry, Some(entry));
    assert!(app.view.entries[entry].expanded);
    // Preserve scroll so tall expanded bodies stay put for copy selection.
    assert!(!app.view.follow_conversation_tail);
    assert!(!app.view.selection_drives_viewport);
    assert_eq!(app.view.conversation_offset, 7);
}

#[test]
fn body_click_on_last_entry_does_not_enable_follow_tail() {
    let mut app = app();
    // Ensure the clicked entry is the last one — the previous bug set
    // follow_conversation_tail whenever entry + 1 == len.
    app.push_entry(
        EntryKind::Assistant,
        "Long",
        "line
"
        .repeat(40).as_str(),
    );
    let entry = app.view.entries.len() - 1;
    app.view.entries[entry].expanded = true;
    app.view.follow_conversation_tail = true;
    app.view.selection_drives_viewport = true;
    app.view.conversation_offset = 12;
    app.pane.hitboxes = vec![Hitbox {
        top: 5,
        bottom: 20,
        header: Some(5),
        entry,
    }];

    app.handle_mouse(MouseEvent {
        kind: MouseEventKind::Down,
        column: 8,
        row: 10,
    });

    assert_eq!(app.view.selected_entry, Some(entry));
    assert_eq!(entry + 1, app.view.entries.len());
    assert!(!app.view.follow_conversation_tail);
    assert!(!app.view.selection_drives_viewport);
    assert_eq!(app.view.conversation_offset, 12);
}

#[test]
fn keyboard_expand_requests_reveal_near_top() {
    let mut app = app();
    app.push_entry(
        EntryKind::Assistant,
        "Long",
        "body line
"
        .repeat(20).as_str(),
    );
    let entry = app.view.entries.len() - 1;
    app.view.selected_entry = Some(entry);
    app.focus = Focus::Conversation;
    app.view.follow_conversation_tail = true;
    app.view.entries[entry].expanded = false;

    app.press(key_event(KeyCode::Enter, NONE));

    assert!(app.view.entries[entry].expanded);
    assert_eq!(app.view.reveal_entry_top, Some(entry));
    assert!(!app.view.follow_conversation_tail);
    assert!(!app.view.selection_drives_viewport);
}

#[test]
fn header_click_expand_does_not_request_reveal() {
    let mut app = app();
    app.push_entry(EntryKind::Assistant, "Long", "body");
    let entry = app.view.entries.len() - 1;
    app.view.entries[entry].expanded = false;
    app.pane.hitboxes = vec![Hitbox {
        top: 2,
        bottom: 2,
        header: Some(2),
        entry,
    }];

    app.handle_mouse(MouseEvent {
        kind: MouseEventKind::Down,
        column: 5,
        row: 2,
    });

    assert!(app.view.entries[entry].expanded);
    assert_eq!(app.view.reveal_entry_top, None);
}

#[test]
fn header_click_toggles_expand_and_collapse() {
    let mut app = app();
    app.push_entry(EntryKind::System, "Expanded", "body");
    let entry = app.view.entries.len() - 1;
    app.view.entries[entry].expanded = true;
    app.pane.hitboxes = vec![Hitbox {
        top: 2,
        bottom: 2,
        header: Some(2),
        entry,
    }];

    app.handle_mouse(MouseEvent {
        kind: MouseEventKind::Down,
        column: 5,
        row: 2,
    });
    assert!(!app.view.entries[entry].expanded);

    app.handle_mouse(MouseEvent {
        kind: MouseEventKind::Down,
        column: 5,
        row: 2,
    });
    assert!(app.view.entries[entry].expanded);
}

#[test]
fn body_click_with_scrolled_off_header_does_not_toggle() {
    let mut app = app();
    app.push_entry(EntryKind::System, "Expanded", "first line\nsecond line");
    let entry = app.view.entries.len() - 1;
    app.view.entries[entry].expanded = true;
    // The header is above the viewport; only body rows are clickable.
    app.pane.hitboxes = vec![Hitbox {
        top: 2,
        bottom: 3,
        header: None,
        entry,
    }];

    app.handle_mouse(MouseEvent {
        kind: MouseEventKind::Down,
        column: 5,
        row: 2,
    });

    assert_eq!(app.view.selected_entry, Some(entry));
    assert!(app.view.entries[entry].expanded);
}

fn selection_app() -> App {
    let mut app = app();
    app.pane.conversation_area = Some(Rect {
        x: 2,
        y: 2,
        width: 40,
        height: 8,
    });
    app.pane.conversation_rows = vec![
        CopyRow {
            pad: 0,
            text: "first line".to_owned(),
        },
        CopyRow {
            pad: 0,
            text: "second line".to_owned(),
        },
        CopyRow {
            pad: 0,
            text: "third line".to_owned(),
        },
        CopyRow {
            pad: 0,
            text: String::new(),
        },
    ];
    app
}

fn mouse_event(kind: MouseEventKind, column: u16, row: u16) -> MouseEvent {
    MouseEvent {
        kind,
        column,
        row,
    }
}

#[test]
fn drag_selects_visible_rows_and_returns_them_on_release() {
    let mut app = selection_app();
    app.handle_mouse(mouse_event(MouseEventKind::Down, 5, 3));
    app.handle_mouse(mouse_event(MouseEventKind::Drag, 12, 5));
    let copied = app.handle_mouse(mouse_event(MouseEventKind::Up, 12, 5));
    assert_eq!(copied.as_deref(), Some("ond line\nthird line\n"));
    assert!(app.text_selection.is_none());
}

#[test]
fn dragging_upwards_selects_backwards() {
    let mut app = selection_app();
    app.handle_mouse(mouse_event(MouseEventKind::Down, 12, 5));
    app.handle_mouse(mouse_event(MouseEventKind::Drag, 5, 3));
    let copied = app.handle_mouse(mouse_event(MouseEventKind::Up, 5, 3));
    assert_eq!(copied.as_deref(), Some("ond line\nthird line\n"));
}

#[test]
fn plain_click_copies_nothing() {
    let mut app = selection_app();
    app.handle_mouse(mouse_event(MouseEventKind::Down, 5, 3));
    assert!(
        app.handle_mouse(mouse_event(MouseEventKind::Up, 5, 3))
            .is_none()
    );
    assert!(app.text_selection.is_none());
}

#[test]
fn header_click_toggles_without_arming_selection() {
    let mut app = selection_app();
    app.push_entry(EntryKind::System, "Expanded", "body");
    let entry = app.view.entries.len() - 1;
    app.view.entries[entry].expanded = true;
    app.pane.hitboxes = vec![Hitbox {
        top: 2,
        bottom: 2,
        header: Some(2),
        entry,
    }];
    app.handle_mouse(mouse_event(MouseEventKind::Down, 5, 2));
    assert!(!app.view.entries[entry].expanded);
    assert!(app.text_selection.is_none());
}

#[test]
fn body_click_selects_the_entry_and_arms_selection() {
    let mut app = selection_app();
    app.push_entry(EntryKind::System, "Expanded", "first line\nsecond line");
    let entry = app.view.entries.len() - 1;
    app.view.entries[entry].expanded = true;
    app.pane.hitboxes = vec![Hitbox {
        top: 2,
        bottom: 4,
        header: Some(2),
        entry,
    }];
    app.handle_mouse(mouse_event(MouseEventKind::Down, 5, 3));
    assert_eq!(app.view.selected_entry, Some(entry));
    assert_eq!(
        app.text_selection,
        Some(TextSelection {
            anchor: CellPos { row: 1, col: 3 },
            head: CellPos { row: 1, col: 3 },
        })
    );
}

#[test]
fn click_outside_the_conversation_clears_selection() {
    let mut app = selection_app();
    app.pane.input_area = Some(Rect {
        x: 2,
        y: 10,
        width: 60,
        height: 1,
    });
    app.text_selection = Some(TextSelection {
        anchor: CellPos { row: 1, col: 0 },
        head: CellPos { row: 2, col: 4 },
    });
    app.handle_mouse(mouse_event(MouseEventKind::Down, 5, 10));
    assert!(app.text_selection.is_none());
    assert_eq!(app.focus, Focus::Input);
}

#[test]
fn wheel_scroll_clears_selection() {
    let mut app = selection_app();
    app.text_selection = Some(TextSelection {
        anchor: CellPos { row: 1, col: 0 },
        head: CellPos { row: 2, col: 4 },
    });
    app.handle_mouse(mouse_event(MouseEventKind::ScrollDown, 0, 0));
    assert!(app.text_selection.is_none());
}

#[test]
fn keystroke_clears_selection() {
    let mut app = selection_app();
    app.text_selection = Some(TextSelection {
        anchor: CellPos { row: 1, col: 0 },
        head: CellPos { row: 2, col: 4 },
    });
    app.press(key_event(KeyCode::Char('x'), NONE));
    assert!(app.text_selection.is_none());
}

#[test]
fn selected_text_joins_rows_and_trims_trailing_whitespace() {
    let rows = vec![
        CopyRow {
            pad: 0,
            text: "abcdef".to_owned(),
        },
        CopyRow {
            pad: 0,
            text: "ghijkl   ".to_owned(),
        },
    ];
    assert_eq!(
        selected_text(
            &rows,
            CellPos { row: 0, col: 1 },
            CellPos { row: 1, col: 2 }
        ),
        "bcdef\nghi"
    );
}

#[test]
fn selected_text_slices_wide_characters_by_cells() {
    let rows = vec![CopyRow {
        pad: 0,
        text: "ab界cd".to_owned(),
    }];
    assert_eq!(
        selected_text(
            &rows,
            CellPos { row: 0, col: 0 },
            CellPos { row: 0, col: 3 }
        ),
        "ab界"
    );
    assert_eq!(
        selected_text(
            &rows,
            CellPos { row: 0, col: 0 },
            CellPos { row: 0, col: 1 }
        ),
        "ab"
    );
    assert_eq!(
        selected_text(
            &rows,
            CellPos { row: 0, col: 4 },
            CellPos { row: 0, col: 5 }
        ),
        "cd"
    );
}

#[test]
fn selected_text_normalizes_reverse_drags() {
    let rows = vec![CopyRow {
        pad: 0,
        text: "abcdef".to_owned(),
    }];
    assert_eq!(
        selected_text(
            &rows,
            CellPos { row: 0, col: 4 },
            CellPos { row: 0, col: 1 }
        ),
        "bcde"
    );
}

#[test]
fn selected_text_out_of_bounds_is_empty() {
    let rows = vec![CopyRow {
        pad: 0,
        text: "abc".to_owned(),
    }];
    assert_eq!(
        selected_text(
            &rows,
            CellPos { row: 5, col: 0 },
            CellPos { row: 6, col: 1 }
        ),
        ""
    );
}

#[test]
fn selected_text_omits_presentation_padding() {
    let rows = vec![
        CopyRow {
            pad: 4,
            text: "    Hello".to_owned(),
        },
        CopyRow {
            pad: 4,
            text: "    There".to_owned(),
        },
    ];
    assert_eq!(
        selected_text(
            &rows,
            CellPos { row: 0, col: 0 },
            CellPos { row: 1, col: 9 }
        ),
        "Hello\nThere"
    );
}

#[test]
fn selected_text_keeps_content_level_indentation() {
    let rows = vec![CopyRow {
        pad: 4,
        text: "    let x = 1".to_owned(),
    }];
    assert_eq!(
        selected_text(
            &rows,
            CellPos { row: 0, col: 0 },
            CellPos { row: 0, col: 12 }
        ),
        "let x = 1"
    );
}

#[test]
fn selected_text_starting_inside_padding_skips_it() {
    let rows = vec![CopyRow {
        pad: 4,
        text: "    Hello".to_owned(),
    }];
    assert_eq!(
        selected_text(
            &rows,
            CellPos { row: 0, col: 2 },
            CellPos { row: 0, col: 8 }
        ),
        "Hello"
    );
}

#[test]
fn selected_text_header_furniture_copies_nothing() {
    let rows = vec![CopyRow {
        pad: 10,
        text: " ▾ you you".to_owned(),
    }];
    assert_eq!(
        selected_text(
            &rows,
            CellPos { row: 0, col: 0 },
            CellPos { row: 0, col: 9 }
        ),
        ""
    );
}

#[test]
fn show_toast_records_text() {
    let mut app = app();
    app.show_toast("Copied selection", 0);
    assert_eq!(app.toast.as_ref().unwrap().text, "Copied selection");
}

#[test]
fn model_completed_records_provider_usage() {
    let mut app = app();
    app.apply_agent_event(AgentSystemEvent::Run {
        address: "/root".to_owned(),
        event: RunEvent::ModelCompleted {
            run_id: "run-1".to_owned(),
            total_tokens: Some(12_345),
        },
    });
    assert_eq!(app.view.context_tokens, Some(12_345));
}

#[test]
fn apply_fold_seeds_context_tokens() {
    let mut app = app();
    app.apply_fold(
        "/root",
        FoldOutcome {
            context_tokens: Some(42),
            ..FoldOutcome::empty()
        },
    );
    assert_eq!(app.view.context_tokens, Some(42));
}

#[test]
fn empty_fold_preserves_existing_context_tokens() {
    let mut app = app();
    app.view.context_tokens = Some(42);
    // The projector already caught up at startup, so live folds report
    // no new usage; the seeded value must survive them.
    app.apply_fold("/root", FoldOutcome::empty());
    assert_eq!(app.view.context_tokens, Some(42));
}

#[test]
fn context_tokens_travel_with_the_agent() {
    let mut app = app();
    app.view.context_tokens = Some(7);
    app.ensure_agent("/root/worker", Some("/root".to_owned()), "Ready");
    assert!(app.switch_agent("/root/worker"));
    assert_eq!(app.view.context_tokens, None);
    app.view.context_tokens = Some(9);
    assert!(app.switch_agent("/root"));
    assert_eq!(app.view.context_tokens, Some(7));
    assert!(app.switch_agent("/root/worker"));
    assert_eq!(app.view.context_tokens, Some(9));
}

#[test]
fn agent_picker_is_hierarchical_and_keeps_child_outcomes_out_of_root() {
    let mut app = app();
    let worker = "/root/worker".to_owned();
    let nested = "/root/worker/scout".to_owned();
    for (address, parent) in [
        (worker.clone(), "/root".to_owned()),
        (nested, worker.clone()),
    ] {
        app.apply_agent_event(AgentSystemEvent::Hosted {
            address,
            parent: Some(parent),
        });
    }
    let root_entries = app.view.entries.len();
    app.apply_agent_event(AgentSystemEvent::Outcome {
        outcome: AgentOutcome::Completed {
            address: worker,
        },
    });
    assert_eq!(app.view.entries.len(), root_entries);

    app.input.text = "/agents ".to_owned();
    app.input.cursor = app.input.char_count();
    let suggestions = app.suggestions();
    assert_eq!(
        suggestions
            .iter()
            .map(|suggestion| suggestion.label.as_str())
            .collect::<Vec<_>>(),
        ["◉ [root]", "  └─ worker", "    └─ scout"]
    );
    assert!(suggestions[0].label.contains("[root]"));
    assert!(!suggestions[0].running);
}

#[test]
fn agent_picker_orders_siblings_newest_created_first() {
    let mut app = app();
    let older = "/root/older".to_owned();
    let newer = "/root/newer".to_owned();
    let root = "/root".to_owned();
    app.apply_agent_event(AgentSystemEvent::Hosted {
        address: older,
        parent: Some(root.clone()),
    });
    app.apply_agent_event(AgentSystemEvent::Hosted {
        address: newer,
        parent: Some(root),
    });
    app.open_agents_drawer();
    let labels = app
        .suggestions()
        .iter()
        .map(|suggestion| suggestion.label.clone())
        .collect::<Vec<_>>();
    assert_eq!(
        labels,
        vec![
            "◉ [root]".to_owned(),
            "  └─ newer".to_owned(),
            "  └─ older".to_owned(),
        ],
        "siblings should list newest-created first: {labels:?}"
    );
}

#[test]
fn slash_suggestions_remain_available_while_other_agents_run() {
    let mut app = app();
    let worker = "/root/worker".to_owned();
    app.apply_agent_event(AgentSystemEvent::Hosted {
        address: worker.clone(),
        parent: Some("/root".to_owned()),
    });
    app.apply_agent_event(AgentSystemEvent::Run {
        address: worker,
        event: RunEvent::Started {
            run_id: "run-worker".to_owned(),
        },
    });
    assert!(app.agents_collapsed_visible());
    assert!(app.agents_drawer_animates());

    // Slash command discovery must not be suppressed by the agents strip.
    app.input.text = "/m".to_owned();
    app.input.cursor = app.input.char_count();
    let suggestions = app.suggestions();
    assert!(
        suggestions
            .iter()
            .any(|suggestion| suggestion.replacement.starts_with("/model")),
        "expected /model suggestions while agents run, got {suggestions:?}"
    );
    assert!(!app.agents_palette_open());
    assert!(app.agents_collapsed_visible());
}

#[test]
fn agents_collapsed_strip_tracks_other_running_agents() {
    let mut app = app();
    let worker = "/root/worker".to_owned();
    let scout = "/root/scout".to_owned();
    for address in [worker.clone(), scout.clone()] {
        app.apply_agent_event(AgentSystemEvent::Hosted {
            address: address.clone(),
            parent: Some("/root".to_owned()),
        });
    }
    assert!(!app.agents_collapsed_visible());

    app.apply_agent_event(AgentSystemEvent::Run {
        address: worker.clone(),
        event: RunEvent::Started {
            run_id: "run-worker".to_owned(),
        },
    });
    assert!(app.agent_is_running("/root/worker"));
    assert!(app.agents_collapsed_visible());
    let summary = app.agents_collapsed_summary(80);
    assert!(summary.contains("1 agent running"), "{summary}");
    assert!(summary.contains("worker"), "{summary}");

    app.apply_agent_event(AgentSystemEvent::Run {
        address: scout,
        event: RunEvent::Started {
            run_id: "run-scout".to_owned(),
        },
    });
    let summary = app.agents_collapsed_summary(80);
    assert!(summary.starts_with("2 agents running"), "{summary}");
    assert!(summary.contains("scout"), "{summary}");

    // Viewing a running child hides it from the ambient strip.
    app.input.text = "/agents /root/worker".to_owned();
    app.input.cursor = app.input.char_count();
    app.press(key_event(KeyCode::Enter, NONE));
    assert_eq!(app.current_agent, "/root/worker");
    assert_eq!(app.other_running_agents(), vec!["/root/scout".to_owned()]);
    let summary = app.agents_collapsed_summary(80);
    assert!(summary.contains("1 agent running"), "{summary}");
    assert!(summary.contains("scout"), "{summary}");
    assert!(!summary.contains("worker"), "{summary}");
}

#[test]
fn alt_a_opens_the_agents_drawer() {
    let mut app = app();
    app.focus = Focus::Conversation;
    app.press(key_event(KeyCode::Char('a'), ALT));
    assert_eq!(app.focus, Focus::Input);
    assert_eq!(app.input.text, "/agents ");
    assert!(app.agents_palette_open());
}

#[test]
fn alt_m_opens_the_palette_of_models() {
    for letter in ['m', 'M'] {
        let mut app = app();
        app.focus = Focus::Conversation;
        app.press(key_event(KeyCode::Char(letter), ALT));
        assert_eq!(app.focus, Focus::Input);
        assert_eq!(app.input.text, "/model ");
        assert_eq!(app.suggestions().len(), app.models.len());
        let mut repeated = self::app();
        repeated.press(key_of_kind(KeyCode::Char(letter), ALT, KeyEventKind::Repeat));
        assert_ne!(repeated.input.text, "/model ");
    }
}

#[test]
fn enter_on_an_agent_suggestion_switches_immediately() {
    let mut app = app();
    let worker = "/root/worker".to_owned();
    app.apply_agent_event(AgentSystemEvent::Hosted {
        address: worker,
        parent: Some("/root".to_owned()),
    });
    app.open_agents_drawer();
    // Select the worker row (index 1: root, worker).
    app.suggestion_index = 1;
    app.press(key_event(KeyCode::Enter, NONE));
    assert_eq!(app.current_agent, "/root/worker");
    assert!(app.input.text.is_empty());
    assert!(!app.agents_palette_open());
}

#[test]
fn agents_palette_marks_running_and_current_and_esc_dismisses() {
    let mut app = app();
    let worker = "/root/worker".to_owned();
    app.apply_agent_event(AgentSystemEvent::Hosted {
        address: worker.clone(),
        parent: Some("/root".to_owned()),
    });
    app.apply_agent_event(AgentSystemEvent::Run {
        address: worker,
        event: RunEvent::Started {
            run_id: "run-worker".to_owned(),
        },
    });
    app.input.text = "/agents ".to_owned();
    app.input.cursor = app.input.char_count();
    assert!(app.agents_palette_open());
    assert!(!app.agents_collapsed_visible());

    let suggestions = app.suggestions();
    let worker = suggestions
        .iter()
        .find(|suggestion| suggestion.replacement == "/agents /root/worker")
        .expect("worker row");
    assert!(worker.running);
    assert!(worker.label.contains('●'));
    assert!(
        worker.detail.contains("working")
            || worker.detail.contains("Working")
            || !worker.detail.is_empty()
    );

    let root = suggestions
        .iter()
        .find(|suggestion| suggestion.replacement == "/agents /root")
        .expect("root row");
    assert!(root.label.contains("[root]"));

    app.press(key_event(KeyCode::Esc, NONE));
    assert!(!app.agents_palette_open());
    assert!(app.input.text.is_empty());
    // Esc dismisses the drawer without arming interruption when root is idle.
    assert!(app.interruption_deadline().is_none());
}

#[test]
fn agents_palette_keeps_completed_rows_and_clears_running_marker() {
    let mut app = app();
    let worker = "/root/worker".to_owned();
    app.apply_agent_event(AgentSystemEvent::Hosted {
        address: worker.clone(),
        parent: Some("/root".to_owned()),
    });
    app.apply_agent_event(AgentSystemEvent::Run {
        address: worker.clone(),
        event: RunEvent::Started {
            run_id: "run-worker".to_owned(),
        },
    });
    app.apply_agent_event(AgentSystemEvent::Run {
        address: worker.clone(),
        event: RunEvent::Completed {
            run_id: "run-worker".to_owned(),
        },
    });
    app.input.text = "/agents ".to_owned();
    app.input.cursor = app.input.char_count();
    let suggestions = app.suggestions();
    assert_eq!(suggestions.len(), 2);
    let worker_row = &suggestions[1];
    assert!(!worker_row.running);
    assert!(!worker_row.label.contains('●'));
    assert!(
        worker_row.detail.contains("Complete"),
        "{}",
        worker_row.detail
    );
    assert!(!app.agents_collapsed_visible());
}
