use lam_tui::app::{one_line_preview, App, SessionView};
use lam_tui::cells::slice_cells;
use lam_tui::config::ModelChoice;
use lam_tui::conversation::{conversation_from_rows, AgentConversation, EntryKind};
use lam_tui::entry_view::wrap_text_rows;
use lam_tui::events::{AgentSystemEvent, KeyCode, KeyEvent, KeyEventKind, KeyModifiers};
use lam_tui::events::{ModelDelta, RunEvent};
use lam_tui::history::{AgentHistory, CommittedRow, FoldOutcome, HistoryEntry, HistoryKind};
use lam_tui::input::InputBuffer;
use lam_tui::intent::{partial_eval_intent, title_for_intent};
use lam_tui::markdown::hard_breaks;
use lam_tui::selection::{cell_pos, selected_text, CellPos, CopyRow, Rect};
use lam_tui::styling::{apply_selection_style, Line, Span};
use lam_tui::table::constrain_column_widths;
use lam_tui::text_wrap::{measure, wrap_items};
use lam_tui::transcript::viewport_offset;

const PLAIN: KeyModifiers =
    KeyModifiers { control: false, alt: false, shift: false, other: false };

fn key(code: KeyCode, kind: KeyEventKind) -> KeyEvent {
    KeyEvent { code, modifiers: PLAIN, kind }
}

fn app() -> App {
    App::new(
        "/tmp/project".to_owned(),
        "/tmp/providers.toml".to_owned(),
        SessionView {
            id: 1,
            journal_path: "/tmp/session-00000001.redb".to_owned(),
            resumed: false,
            agents: vec![AgentHistory::root(Vec::new())],
            choices: Vec::new(),
        },
        vec![ModelChoice {
            registry_id: "openai/gpt-5".to_owned(),
            provider: "openai".to_owned(),
            model: "gpt-5".to_owned(),
            display_name: "GPT-5".to_owned(),
            context_window: 400_000,
            efforts: vec!["high".to_owned()],
        }],
        0,
        "high",
        Vec::new(),
    )
}

fn row(kind: HistoryKind, body: &str, run: Option<&str>) -> CommittedRow {
    CommittedRow {
        entry: HistoryEntry { kind, title: "row".to_owned(), body: body.to_owned() },
        run_id: run.map(str::to_owned),
    }
}

fn text_delta(address: &str, run: &str, text: &str) -> AgentSystemEvent {
    AgentSystemEvent::Run {
        address: address.to_owned(),
        event: RunEvent::ModelDelta {
            run_id: run.to_owned(),
            delta: ModelDelta::Text(text.to_owned()),
        },
    }
}

fn bodies(view: &AgentConversation) -> Vec<String> {
    view.entries.iter().map(|entry| entry.body.clone()).collect()
}

#[test]
fn a_slice_of_all_cells_is_the_text() {
    for text in ["", "abc", "a界b", "e\u{301}x"] {
        assert_eq!(slice_cells(text, 0, 40), text);
    }
}

#[test]
fn deleting_undoes_typing() {
    let mut input = InputBuffer::at_end("aéb".to_owned());
    input.cursor = 1;
    input.insert('界');
    assert_eq!((input.text.as_str(), input.cursor), ("a界éb", 2));
    input.backspace();
    assert_eq!((input.text.as_str(), input.cursor), ("aéb", 1));
    input.insert('x');
    input.cursor = 1;
    input.delete();
    assert_eq!((input.text.as_str(), input.cursor), ("aéb", 1));
}

#[test]
fn pasting_equals_typing() {
    let mut typed = InputBuffer::at_end("ab".to_owned());
    typed.cursor = 1;
    let mut pasted = typed.copy();
    for c in "x\ny".chars() {
        typed.insert(c);
    }
    pasted.insert_text("x\ny");
    assert_eq!((&typed.text, typed.cursor), (&pasted.text, pasted.cursor));
    assert_eq!((pasted.text.as_str(), pasted.cursor), ("ax\nyb", 4));
}

#[test]
fn input_rows_show_the_text_and_fit() {
    let input = InputBuffer::at_end("ab界cd\nef".to_owned());
    assert_eq!(input.rows(3), ["ab", "界c", "d", "ef"]);
    assert_eq!(input.cursor_position(3), (3, 2));
}

#[test]
fn cells_outside_the_pane_are_moved_into_it() {
    let area = Rect { x: 2, y: 3, width: 10, height: 4 };
    assert_eq!(cell_pos(0, 0, area), CellPos { row: 0, col: 0 });
    assert_eq!(cell_pos(5, 6, area), CellPos { row: 2, col: 4 });
    assert_eq!(cell_pos(60, 60, area), CellPos { row: 3, col: 9 });
}

#[test]
fn shown_intents_are_cut() {
    let arguments = format!("{{\"intent\":\"{}\"}}", "x".repeat(500));
    let intent = partial_eval_intent(&arguments).unwrap();
    let title = title_for_intent("/root", &intent).unwrap();
    assert_eq!(title.chars().count(), "/root · ".chars().count() + 120);
}

#[test]
fn hard_breaks_put_two_spaces_before_a_line_end() {
    assert_eq!(hard_breaks("é\nb\nc", &vec![2, 4]), "é  \nb  \nc");
    assert_eq!(hard_breaks("a\nb", &Vec::new()), "a\nb");
}

#[test]
fn highlighted_lines_keep_their_text() {
    let line = Line::from_spans(vec![
        Span::raw("ab界".to_owned()),
        Span::raw("cd".to_owned()),
    ]);
    let start = CellPos { row: 0, col: 1 };
    let end = CellPos { row: 0, col: 4 };
    let shown = apply_selection_style(&line, 0, Some((start, end)));
    assert_eq!(shown.plain_text(), "ab界cd");
    assert!(shown.spans.iter().any(|span| span.style.add_modifier != 0));
    let other = apply_selection_style(&line, 3, Some((start, end)));
    assert!(other.spans.iter().all(|span| span.style.add_modifier == 0));
}

#[test]
fn columns_never_take_more_than_there_is() {
    assert_eq!(constrain_column_widths(&vec![3, 4], 10), [3, 4]);
    let shared = constrain_column_widths(&vec![20, 2, 20], 12);
    assert_eq!(shared.iter().sum::<usize>(), 12);
    assert_eq!(shared, [5, 2, 5]);
}

#[test]
fn columns_that_must_shrink_differ_by_one_cell_at_most() {
    assert_eq!(constrain_column_widths(&vec![20, 2, 20], 13), [6, 2, 5]);
    assert_eq!(constrain_column_widths(&vec![9, 9, 9], 10), [4, 3, 3]);
}

#[test]
fn wrapped_rows_fit_and_follow_one_another() {
    let parts: Vec<String> = "one twotwotwo 界界 x".chars().map(String::from).collect();
    let items = measure(&parts);
    let rows = wrap_items(&items, 5);
    for row in &rows {
        let cells: usize = items[row.start..row.end].iter().map(|item| item.width).sum();
        assert!(row.indent + cells <= 5);
    }
    for pair in rows.windows(2) {
        assert!(pair[0].end <= pair[1].start);
    }
}

#[test]
fn wrapped_rows_break_only_where_the_next_word_does_not_fit() {
    let text = "aa bb   ccc dd e";
    let parts: Vec<String> = text.chars().map(String::from).collect();
    let items = measure(&parts);
    let rows = wrap_items(&items, 6);
    let shown: Vec<&str> = rows.iter().map(|row| &text[row.start..row.end]).collect();
    assert_eq!(shown, ["aa bb", "ccc dd", "e"]);
    for pair in rows.windows(2) {
        let word = text[pair[1].start..].split(' ').next().unwrap();
        let end = pair[1].start + word.len();
        assert!(pair[0].indent + (end - pair[0].start) > 6);
        assert!(items[pair[0].end..pair[1].start].iter().all(|item| item.breakable));
    }
}

#[test]
fn viewports_stay_in_the_conversation() {
    assert_eq!(viewport_offset(0, true, None, 30, 10), 20);
    assert_eq!(viewport_offset(25, false, None, 30, 10), 20);
    assert_eq!(viewport_offset(7, false, None, 30, 10), 7);
    assert_eq!(viewport_offset(7, false, None, 90, 10), 7);
    assert_eq!(viewport_offset(7, false, Some(3), 30, 10), 3);
    assert_eq!(viewport_offset(9, false, None, 4, 10), 0);
}

#[test]
fn folded_and_restored_rows_are_the_same() {
    let rows = || {
        vec![
            row(HistoryKind::User, "go", None),
            row(HistoryKind::ToolCall, "first", Some("run")),
            row(HistoryKind::ToolCall, "second", Some("run")),
            row(HistoryKind::ToolResult, "done", Some("run")),
        ]
    };
    let restored = conversation_from_rows(&rows());
    let mut live = AgentConversation::empty(None, "Ready", 0);
    live.apply_committed_rows("/root", &rows(), true);
    assert_eq!(live.committed_len, 4);
    let pending = |entries: &[lam_tui::conversation::ConversationEntry]| {
        entries.iter().map(|entry| (entry.kind, entry.pending_tool)).collect::<Vec<_>>()
    };
    assert_eq!(pending(&live.entries), pending(&restored));
    assert_eq!(
        pending(&restored),
        [
            (EntryKind::User, false),
            (EntryKind::ToolCall, false),
            (EntryKind::ToolCall, true),
            (EntryKind::ToolResult, false),
        ]
    );
}

#[test]
fn ended_runs_leave_no_overlay() {
    let mut app = app();
    let before = bodies(&app.view);
    app.apply_agent_event(text_delta("/root", "old", "stale"));
    app.apply_agent_event(text_delta("/root", "new", "kept"));
    app.apply_fold(
        "/root",
        FoldOutcome { dead_runs: vec!["old".to_owned()], ..FoldOutcome::empty() },
    );
    assert_eq!(bodies(&app.view)[..before.len()], before);
    assert_eq!(bodies(&app.view)[before.len()..], ["kept".to_owned()]);
    app.apply_agent_event(text_delta("/root", "old", "late"));
    assert_eq!(bodies(&app.view)[before.len()..], ["kept".to_owned()]);
}

#[test]
fn removed_rows_keep_the_selection_on_a_row() {
    let mut view = AgentConversation::empty(None, "Ready", 0);
    view.push_entry(EntryKind::System, "a", "1", true);
    view.push_entry(EntryKind::System, "b", "2", true);
    view.selected_entry = Some(1);
    view.remove_entry(1);
    assert_eq!(view.selected_entry, Some(0));
    view.remove_entry(0);
    assert_eq!(view.selected_entry, None);
}

#[test]
fn visiting_another_agent_changes_nothing() {
    let mut app = app();
    app.apply_agent_event(AgentSystemEvent::Hosted {
        address: "/root/worker".to_owned(),
        parent: Some("/root".to_owned()),
    });
    app.apply_agent_event(text_delta("/root/worker", "run", "child"));
    let root = bodies(&app.view);
    let offset = app.view.conversation_offset;
    assert!(app.switch_agent("/root/worker"));
    assert_eq!(bodies(&app.view), ["child"]);
    assert!(app.switch_agent("/root"));
    assert_eq!(bodies(&app.view), root);
    assert_eq!(app.view.conversation_offset, offset);
    assert!(app.switch_agent("/root/worker"));
    assert_eq!(bodies(&app.view), ["child"]);
}

#[test]
fn agents_only_change_by_their_own_events_and_folds() {
    let mut app = app();
    let root = bodies(&app.view);
    app.apply_agent_event(text_delta("/root/worker", "run", "child"));
    app.apply_fold(
        "/root/worker",
        FoldOutcome {
            rows: vec![row(HistoryKind::Assistant, "answer", Some("run"))],
            model_turns: vec!["run".to_owned()],
            ..FoldOutcome::empty()
        },
    );
    assert_eq!(app.current_agent, "/root");
    assert_eq!(bodies(&app.view), root);
    app.switch_agent("/root/worker");
    assert_eq!(bodies(&app.view), ["answer"]);
}

#[test]
fn released_keys_are_ignored() {
    let mut app = app();
    app.input = InputBuffer::at_end("draft".to_owned());
    for code in [KeyCode::Enter, KeyCode::Esc, KeyCode::Char('x'), KeyCode::Backspace] {
        assert!(app.handle_key(key(code, KeyEventKind::Release), 0).is_none());
    }
    assert_eq!((app.input.text.as_str(), app.input.cursor), ("draft", 5));
}

#[test]
fn frames_cover_the_screen() {
    let app = app();
    let area = Rect { x: 0, y: 0, width: 80, height: 24 };
    let areas = app.frame_areas(area, &app.suggestions());
    assert_eq!(areas.header, Rect { x: 0, y: 0, width: 80, height: 1 });
    assert_eq!(areas.conversation, Rect { x: 0, y: 1, width: 80, height: 21 });
    assert_eq!(areas.agents, Rect { x: 0, y: 22, width: 80, height: 0 });
    assert_eq!(areas.shelf, Rect { x: 0, y: 22, width: 80, height: 2 });
    for height in 7..60 {
        let area = Rect { x: 3, y: 2, width: 40, height };
        let areas = app.frame_areas(area, &app.suggestions());
        assert_eq!(areas.conversation.y, 3);
        assert_eq!(areas.agents.y, areas.conversation.y + areas.conversation.height);
        assert_eq!(areas.shelf.y, areas.agents.y + areas.agents.height);
        assert_eq!(areas.shelf.y + areas.shelf.height, 2 + height);
    }
}

#[test]
fn shelves_keep_the_rows_of_the_input() {
    let mut app = app();
    app.input = InputBuffer::at_end("one\ntwo\nthree".to_owned());
    let area = Rect { x: 0, y: 10, width: 40, height: 6 };
    let suggestions = app.suggestions();
    let view = app.render_shelf(area, &suggestions, ' ').unwrap();
    assert_eq!(view.palette_area, Rect { x: 0, y: 11, width: 40, height: 2 });
    assert_eq!(view.input_area, Rect { x: 0, y: 13, width: 40, height: 3 });
    assert_eq!(view.input.len(), 3);
    assert_eq!(view.cursor, Some((8, 15)));
    assert_eq!(app.pane.input_area, Some(view.input_area));
}

#[test]
fn armed_interruptions_keep_their_row() {
    let mut app = app();
    app.input = InputBuffer::at_end("one\ntwo\nthree".to_owned());
    app.interruption_deadline = Some(9);
    let area = Rect { x: 0, y: 0, width: 60, height: 3 };
    let suggestions = app.suggestions();
    let view = app.render_shelf(area, &suggestions, ' ').unwrap();
    assert_eq!(view.notice_area.height, 1);
    let notice = view.notice.unwrap().plain_text();
    assert!(notice.contains("Press Esc again to stop the current run"));
}

fn agent(
    address: &str,
    parent: Option<&str>,
    run_completed: bool,
    rows: Vec<CommittedRow>,
) -> AgentHistory {
    AgentHistory {
        address: address.to_owned(),
        parent: parent.map(str::to_owned),
        model: None,
        status: "Ready".to_owned(),
        run_completed,
        context_tokens: None,
        history: rows,
    }
}

fn restored(agents: Vec<AgentHistory>) -> App {
    App::new(
        "/tmp/project".to_owned(),
        "/tmp/providers.toml".to_owned(),
        SessionView {
            id: 1,
            journal_path: "/tmp/session-00000001.redb".to_owned(),
            resumed: true,
            agents,
            choices: Vec::new(),
        },
        app().models,
        0,
        "high",
        Vec::new(),
    )
}

#[test]
fn running_agents_are_listed_by_address() {
    let app = restored(vec![
        AgentHistory::root(Vec::new()),
        agent("/root/a", Some("/root"), false, Vec::new()),
        agent("/root/b", Some("/root"), false, Vec::new()),
    ]);
    assert_eq!(app.running_agent_addresses(), ["/root/a", "/root/b"]);
    assert_eq!(app.other_running_agents(), ["/root/a", "/root/b"]);
    let app = restored(vec![
        agent("/root/b/a", Some("/root/b"), false, Vec::new()),
        agent("/root/b", Some("/root"), false, Vec::new()),
        agent("/root", None, false, Vec::new()),
        agent("/root/aa", Some("/root"), true, Vec::new()),
        agent("/root/a", Some("/root"), false, Vec::new()),
    ]);
    assert_eq!(app.running_agent_addresses(), ["/root", "/root/a", "/root/b", "/root/b/a"]);
}

#[test]
fn a_click_lands_at_or_before_its_cell() {
    assert_eq!(InputBuffer::at_end("abcdef".to_owned()).cursor_at(4, 1, 0), 5);
    assert_eq!(InputBuffer::at_end("abc".to_owned()).cursor_at(80, 0, 9), 3);
}

#[test]
fn a_click_on_the_cursor_leaves_it_there() {
    let mut input = InputBuffer::at_end("ab界\nsecond line".to_owned());
    for cursor in 0..=input.char_count() {
        input.cursor = cursor;
        let (row, column) = input.cursor_position(6);
        assert_eq!(input.cursor_at(6, row, column), cursor);
    }
}

#[test]
fn moving_up_and_down_brings_the_cursor_back() {
    let mut input = InputBuffer::at_end("short\na longer line".to_owned());
    let before = input.cursor_position(80);
    assert!(input.move_vertical(-1, 80));
    assert_eq!(input.cursor_position(80), (0, 5));
    assert!(input.move_vertical(1, 80));
    assert_eq!(input.cursor_position(80), before);
}

#[test]
fn a_second_root_is_kept_behind_the_first() {
    let mut app = restored(vec![
        agent("/root", None, true, vec![row(HistoryKind::User, "first", None)]),
        agent("/root/a", Some("/root"), true, Vec::new()),
        agent("/root", None, true, vec![row(HistoryKind::User, "second", None)]),
        agent("/root/b", Some("/root"), true, Vec::new()),
    ]);
    assert_eq!(app.view.entries[0].body, "first");
    assert_eq!(app.agents.slots.len(), 3);
    assert!(app.agents.slots.iter().any(|slot| slot.address == "/root"));
    assert_eq!(app.next_agent_ord, 4);
    assert_eq!(app.agent_addresses(), ["/root", "/root/b", "/root/a"]);
    assert!(app.running_agent_addresses().is_empty());
    assert!(app.switch_agent("/root/a"));
    assert_eq!(app.agents.slots.len(), 2);
    assert!(app.switch_agent("/root"));
    assert_eq!(app.view.entries[0].body, "first");
}

#[test]
fn continued_text_is_the_only_row_of_its_run_that_streams() {
    let mut app = app();
    app.apply_agent_event(text_delta("/root", "run", "a"));
    app.apply_fold(
        "/root",
        FoldOutcome {
            rows: vec![row(HistoryKind::ToolResult, "1", Some("run"))],
            active_run: Some("run".to_owned()),
            ..FoldOutcome::empty()
        },
    );
    let streaming = |app: &App| -> Vec<String> {
        let rows = app.view.entries.iter().filter(|entry| entry.streaming);
        rows.map(|entry| entry.body.clone()).collect()
    };
    assert_eq!(streaming(&app), ["1"]);
    app.apply_agent_event(text_delta("/root", "run", "b"));
    assert_eq!(streaming(&app), ["ab"]);
    app.apply_agent_event(text_delta("/root", "other", "c"));
    assert_eq!(streaming(&app), ["ab", "c"]);
}

#[test]
fn texts_wrap_line_by_line() {
    let (a, b) = ("one two three", "abcdefghij\n\nx");
    let both = wrap_text_rows(&format!("{a}\n{b}"), 6);
    let mut apart = wrap_text_rows(a, 6);
    apart.extend(wrap_text_rows(b, 6));
    assert_eq!(both, apart);
    assert_eq!(wrap_text_rows("", 6), [(String::new(), 0)]);
    for (line, indent) in both {
        assert!(indent <= 2 && line.starts_with(&" ".repeat(indent)));
    }
    assert_eq!(wrap_text_rows("abcdefghij", 6)[1], ("  ghij".to_owned(), 2));
}

#[test]
fn previews_keep_the_words() {
    let shown = one_line_preview("  a\u{3000}b\t\nc\u{85} d ");
    assert_eq!(shown, "a b c d");
    assert_eq!(one_line_preview(&shown), shown);
    assert_eq!(one_line_preview("a\u{200B}b"), "a\u{200B}b");
    assert_eq!(one_line_preview(" \n"), "");
}

#[test]
fn copies_have_a_line_for_each_row() {
    let rows: Vec<CopyRow> = ["  ab  ", "  ", "  cd"]
        .into_iter()
        .map(|text| CopyRow { pad: 2, text: text.to_owned() })
        .collect();
    let copied = selected_text(&rows, CellPos { row: 0, col: 0 }, CellPos { row: 9, col: 9 });
    assert_eq!(copied.split('\n').collect::<Vec<_>>(), ["ab", "", "cd"]);
}
