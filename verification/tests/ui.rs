use lam_tui::app::{SessionChoice, SessionView};
use lam_tui::cells::elide_end;
use lam_tui::config::ModelChoice;
use lam_tui::conversation::EntryKind;
use lam_tui::desk::Focus;
use lam_tui::entry_view::{needs_message_spacing, wrap_text};
use lam_tui::events::{AgentSystemEvent, KeyCode, KeyEvent, KeyEventKind, KeyModifiers};
use lam_tui::history::{AgentHistory, CommittedRow, FoldOutcome, HistoryEntry, HistoryKind};
use lam_tui::input::InputBuffer;
use lam_tui::markdown::StyledRow;
use lam_tui::selection::{CellPos, CopyRow, TextSelection};
use lam_tui::table::{markdown_preview, wrap_markdown_lines};
use lam_tui::transcript::{reveal_expanded_offset, viewport_offset};
use ratatui::backend::TestBackend;
use ratatui::Terminal;
use lam_tui::app::App;
use lam_tui::entry_view::renders_markdown;
use lam_tui::markdown::{list_depth_fits, preserve_markdown_newlines, Mark};
use lam_tui::rendering::{color_name, parse_color, render_markdown, MarkdownStyle};
use lam_tui::selection;
use lam_tui::shelf::{agent_spinner_frame, inset_rect, inside_frame, toast_panel};
use lam_tui::shelf::{DrawerView, PaletteView, AGENTS_DRAWER_INSET};
use lam_tui::styling;
use ratatui::layout::{Alignment, Rect};
use ratatui::style::{Color, Modifier, Style};
use ratatui::text::{Line, Span, Text};
use ratatui::widgets::{Block, Borders, Clear, Paragraph};
use ratatui::Frame;
use tui_markdown::{from_str_with_options, Options, StyleSheet};

fn accent() -> Color {
    color_out(styling::accent())
}

fn dim() -> Color {
    color_out(styling::dim())
}

fn panel() -> Color {
    color_out(styling::panel())
}

fn color_out(color: styling::Color) -> Color {
    match color {
        styling::Color::Reset => Color::Reset,
        styling::Color::Black => Color::Black,
        styling::Color::Red => Color::Red,
        styling::Color::Green => Color::Green,
        styling::Color::Yellow => Color::Yellow,
        styling::Color::Blue => Color::Blue,
        styling::Color::Magenta => Color::Magenta,
        styling::Color::Cyan => Color::Cyan,
        styling::Color::Gray => Color::Gray,
        styling::Color::DarkGray => Color::DarkGray,
        styling::Color::LightRed => Color::LightRed,
        styling::Color::LightGreen => Color::LightGreen,
        styling::Color::LightYellow => Color::LightYellow,
        styling::Color::LightBlue => Color::LightBlue,
        styling::Color::LightMagenta => Color::LightMagenta,
        styling::Color::LightCyan => Color::LightCyan,
        styling::Color::White => Color::White,
        styling::Color::Rgb(r, g, b) => Color::Rgb(r, g, b),
        styling::Color::Indexed(n) => Color::Indexed(n),
    }
}

fn style_out(s: styling::TextStyle) -> Style {
    Style {
        fg: s.fg.map(color_out),
        bg: s.bg.map(color_out),
        add_modifier: Modifier::from_bits_truncate(s.add_modifier),
        sub_modifier: Modifier::from_bits_truncate(s.sub_modifier),
        ..Style::default()
    }
}

fn line_out(line: &styling::Line) -> Line<'static> {
    let spans: Vec<Span<'static>> = line
        .spans
        .iter()
        .map(|span| Span::styled(span.content.clone(), style_out(span.style)))
        .collect();
    Line::from(spans).style(style_out(line.style))
}

fn lines_out(lines: &[styling::Line]) -> Text<'static> {
    Text::from(lines.iter().map(line_out).collect::<Vec<_>>())
}

fn area_in(area: Rect) -> selection::Rect {
    selection::Rect { x: area.x, y: area.y, width: area.width, height: area.height }
}

fn area_out(area: selection::Rect) -> Rect {
    Rect { x: area.x, y: area.y, width: area.width, height: area.height }
}

/// Draws one frame.
fn render(frame: &mut Frame<'_>, app: &mut App, millis: u64) {
    let whole = frame.area();
    let area = area_in(whole);
    if App::needs_room(area) {
        frame.render_widget(
            Paragraph::new("lam needs a little more room")
                .style(Style::default().fg(accent()))
                .centered(),
            whole,
        );
        return;
    }
    let spinner = agent_spinner_frame(millis);
    let suggestions = app.suggestions();
    let areas = app.frame_areas(area, &suggestions);
    render_header(frame, area_out(areas.header), app);
    render_conversation(frame, areas.conversation, app);
    if let Some(toast) = &app.toast {
        render_toast(frame, areas.conversation, &toast.text);
    }
    if app.agents_drawer_height(area, &suggestions) > 0 {
        let drawer = inset_rect(areas.agents, AGENTS_DRAWER_INSET);
        if drawer.width > 0 && drawer.height > 0 {
            frame.render_widget(
                Block::default()
                    .borders(Borders::TOP | Borders::LEFT | Borders::RIGHT)
                    .border_style(Style::default().fg(accent()))
                    .style(Style::default().bg(panel())),
                area_out(drawer),
            );
            let inner = inside_frame(drawer);
            if inner.width > 0 && inner.height > 0 {
                match app.drawer_view(inner, &suggestions, spinner) {
                    Some(DrawerView::Palette(view)) => render_palette(frame, inner, &view),
                    Some(DrawerView::Line(line)) => {
                        frame.render_widget(Paragraph::new(line_out(&line)), area_out(inner));
                    }
                    None => panic!("the palette has no highlighted row"),
                }
            }
        }
    }
    render_shelf(frame, areas.shelf, app, &suggestions, spinner);
}

fn render_header(frame: &mut Frame<'_>, area: Rect, app: &App) {
    let (cwd, right) = app.header_texts(area_in(area));
    frame.render_widget(Block::default().style(Style::default().bg(panel())), area);
    let left = Line::from(vec![
        Span::styled(" λ ", Style::default().fg(Color::Black).bg(accent()).bold()),
        Span::styled(cwd, Style::default().fg(dim())),
    ]);
    frame.render_widget(Paragraph::new(left).style(Style::default().bg(panel())), area);
    frame.render_widget(
        Paragraph::new(Span::styled(right, Style::default().fg(Color::Gray)))
            .alignment(Alignment::Right)
            .style(Style::default().bg(panel())),
        area,
    );
}

fn render_conversation(frame: &mut Frame<'_>, area: selection::Rect, app: &mut App) {
    if !app.lay_out_conversation(area) {
        panic!("a row cannot be laid out");
    }
    let lines = app.render_conversation(area).expect("every entry has been laid out");
    if let Some(inner) = app.pane.conversation_area {
        frame.render_widget(Paragraph::new(lines_out(&lines)), area_out(inner));
    }
}

fn render_toast(frame: &mut Frame<'_>, area: selection::Rect, content: &str) {
    let (panel, shown) = toast_panel(area, content);
    if panel.width == 0 || panel.height == 0 {
        return;
    }
    frame.render_widget(Clear, area_out(panel));
    frame.render_widget(
        Paragraph::new(Span::styled(
            shown,
            Style::default()
                .fg(Color::Black)
                .bg(accent())
                .add_modifier(Modifier::BOLD),
        )),
        area_out(panel),
    );
}

fn render_palette(frame: &mut Frame<'_>, area: selection::Rect, view: &PaletteView) {
    frame.render_widget(
        Paragraph::new(lines_out(&view.lines)).scroll((view.scroll, 0)),
        area_out(area),
    );
}

fn render_shelf(
    frame: &mut Frame<'_>,
    area: selection::Rect,
    app: &mut App,
    suggestions: &Vec<lam_tui::app::Suggestion>,
    spinner: char,
) {
    let view = app
        .render_shelf(area, suggestions, spinner)
        .expect("the palette has a highlighted row");
    let border = if view.focused {
        Style::default().fg(accent())
    } else {
        Style::default().fg(dim())
    };
    frame.render_widget(
        Block::default()
            .borders(Borders::TOP)
            .border_style(border)
            .title(Span::styled(view.title.clone(), border)),
        area_out(area),
    );
    if !view.steers.is_empty() {
        frame.render_widget(Paragraph::new(lines_out(&view.steers)), area_out(view.steer_area));
    }
    if let Some(palette) = &view.palette {
        render_palette(frame, view.palette_area, palette);
    }
    if let Some(notice) = &view.notice {
        frame.render_widget(Paragraph::new(line_out(notice)), area_out(view.notice_area));
    }
    frame.render_widget(Paragraph::new(lines_out(&view.input)), area_out(view.input_area));
    if let Some((x, y)) = view.cursor {
        frame.set_cursor_position((x, y));
    }
}

fn gray() -> styling::TextStyle {
    styling::TextStyle::fg(styling::Color::Gray)
}

/// The rows of a Markdown source in a pane of the given width.
fn markdown_lines(source: &str, width: usize, base: styling::TextStyle) -> Vec<StyledRow> {
    let lines = render_markdown(&preserve_markdown_newlines(source)).unwrap();
    wrap_markdown_lines(&lines, width, base).unwrap()
}

fn preview_of(source: &str) -> String {
    markdown_preview(&render_markdown(source).unwrap())
}

fn rendered(lines: &[StyledRow]) -> Vec<String> {
    lines.iter().map(|row| row.line.plain_text()).collect()
}

fn test_app(history: Vec<HistoryEntry>) -> App {
    let history = history
        .into_iter()
        .map(|entry| CommittedRow { entry, run_id: None })
        .collect();
    App::new(
        "/tmp/project".to_owned(),
        "/tmp/providers.toml".to_owned(),
        SessionView {
            id: 1,
            journal_path: "/tmp/session.redb".to_owned(),
            resumed: false,
            agents: vec![AgentHistory::root(history)],
            choices: vec![SessionChoice { id: 1, preview: None }],
        },
        vec![ModelChoice {
            registry_id: "openai/gpt-5".to_owned(),
            provider: "openai".to_owned(),
            model: "gpt-5".to_owned(),
            display_name: "GPT-5".to_owned(),
            context_window: 400_000,
            efforts: vec!["low".to_owned(), "high".to_owned()],
        }],
        0,
        "high",
        Vec::new(),
    )
}

#[test]
fn wraps_wide_characters_by_terminal_cells() {
    assert_eq!(wrap_text("ab界cd", 4), ["ab界", "  cd"]);
}

#[test]
fn wrap_text_moves_breaks_before_words() {
    assert_eq!(wrap_text("alpha beta", 7), ["alpha", "beta"]);
    assert_eq!(wrap_text("a abcde", 5), ["a", "abcde"]);
}

#[test]
fn wrap_text_indents_overwide_word_continuations() {
    assert_eq!(wrap_text("abcdefghij", 6), ["abcdef", "  ghij"]);
    assert_eq!(
        wrap_text("abcdefghijklmn", 6),
        ["abcdef", "  ghij", "  klmn"]
    );
    assert_eq!(wrap_text("go abcdefghij", 6), ["go", "abcdef", "  ghij"]);
    assert_eq!(wrap_text("abcdefg abcde", 6), ["abcdef", "  g", "abcde"]);
    assert_eq!(wrap_text("abcdefgh x", 6), ["abcdef", "  gh x"]);
}

#[test]
fn wrap_text_handles_whitespace_and_narrow_widths() {
    assert_eq!(wrap_text("aa   bb", 7), ["aa   bb"]);
    assert_eq!(wrap_text("aa   bb", 6), ["aa", "bb"]);
    assert_eq!(wrap_text("  abc", 4), ["  ", "abc"]);
    assert_eq!(wrap_text("abc  ", 4), ["abc ", " "]);
    assert_eq!(wrap_text("ab", 0), ["a", "b"]);
    assert_eq!(wrap_text("ab", 1), ["a", "b"]);
    assert_eq!(wrap_text("abc", 2), ["ab", " c"]);
    assert_eq!(wrap_text("abcd", 2), ["ab", " c", " d"]);
    assert_eq!(wrap_text("界", 1), ["界"]);
}

#[test]
fn wrap_text_preserves_explicit_newlines() {
    assert_eq!(wrap_text("a\n\nb\n", 10), ["a", "", "b", ""]);
    assert_eq!(wrap_text("abcdef\nxy", 4), ["abcd", "  ef", "xy"]);
}

#[test]
fn expanded_user_rows_preserve_explicit_newlines() {
    let mut app = test_app(vec![HistoryEntry {
        kind: HistoryKind::User,
        title: "you".to_owned(),
        body: "Test\nAgain\nHere we go".to_owned(),
    }]);
    app.view.entries[0].expanded = true;
    let backend = TestBackend::new(60, 24);
    let mut terminal = Terminal::new(backend).unwrap();
    terminal.draw(|frame| render(frame, &mut app, 0)).unwrap();
    let rows = terminal
        .backend()
        .buffer()
        .content()
        .iter()
        .map(|cell| cell.symbol())
        .collect::<String>()
        .chars()
        .collect::<Vec<_>>()
        .chunks(60)
        .map(|row| row.iter().collect::<String>())
        .filter(|row| !row.trim().is_empty())
        .collect::<Vec<_>>();
    let test_row = rows.iter().position(|row| row.contains("Test")).unwrap();
    let again_row = rows.iter().position(|row| row.contains("Again")).unwrap();
    let here_row = rows
        .iter()
        .position(|row| row.contains("Here we go"))
        .unwrap();
    assert!(
        test_row < again_row && again_row < here_row,
        "each Ctrl+J line should render on its own row: {rows:?}"
    );
    assert!(
        rows.iter().all(|row| !row.contains("Test Again")),
        "soft breaks must not be collapsed into spaces: {rows:?}"
    );
}

#[test]
fn reveal_expanded_offset_bottom_aligns_short_entries() {
    // entry 10..=14 (height 5), viewport 20 → offset = 14+1+1-20 = 0
    assert_eq!(reveal_expanded_offset(10, 14, 20, 100), 0);
    // entry 50..=54, viewport 20 → offset = 54+1+1-20 = 36
    assert_eq!(reveal_expanded_offset(50, 54, 20, 100), 36);
}

#[test]
fn reveal_expanded_offset_keeps_header_on_screen_when_bottom_aligning() {
    assert_eq!(reveal_expanded_offset(0, 8, 10, 50), 0);
}

#[test]
fn reveal_expanded_offset_pins_tall_entries_near_top() {
    // height 40 > viewport 15 → pin start with top buffer
    assert_eq!(reveal_expanded_offset(20, 59, 15, 200), 18);
}

#[test]
fn elides_to_the_requested_width() {
    assert_eq!(elide_end("abcdefgh", 5), "abcd…");
}

#[test]
fn markdown_preserves_inline_styles_in_ratatui_spans() {
    let lines = markdown_lines(
        "A **bold** word and `code`.",
        80,
        gray(),
    );
    let spans = lines
        .iter()
        .flat_map(|StyledRow { line, .. }| line.spans.iter())
        .collect::<Vec<_>>();

    assert_eq!(rendered(&lines).join(" "), "A bold word and code.");
    assert!(spans.iter().any(|span| {
        span.content.contains("bold")
            && span
                .style
                .add_modifier & styling::BOLD != 0
    }));
    assert!(
        spans
            .iter()
            .any(|span| { span.content.contains("code") && span.style.bg == Some(styling::panel()) })
    );
}

#[test]
fn markdown_wraps_styled_wide_text_by_terminal_cells() {
    let lines = markdown_lines("**ab界cd**", 4, gray());

    assert_eq!(rendered(&lines), ["ab界", "  cd"]);
    assert!(lines.iter().all(|StyledRow { line, .. }| line.width() <= 4));
    // Source characters stay bold; the synthetic continuation indent is
    // unstyled furniture, not part of the emphasized text.
    assert!(lines.iter().flat_map(|StyledRow { line, .. }| &line.spans).any(|span| {
        !span.content.trim().is_empty()
            && span
                .style
                .add_modifier & styling::BOLD != 0
    }));
    assert!(lines.iter().flat_map(|StyledRow { line, .. }| &line.spans).any(|span| {
        span.content.trim().is_empty()
            && span
                .style
                .add_modifier & styling::BOLD == 0
    }));
}

#[test]
fn markdown_wraps_styled_text_at_word_boundaries() {
    let lines = markdown_lines("**alpha beta**", 7, gray());
    assert_eq!(rendered(&lines), ["alpha", "beta"]);
}

#[test]
fn markdown_preserves_source_newlines_as_hard_breaks() {
    let lines = markdown_lines("first\nsecond", 80, gray());
    assert_eq!(rendered(&lines), ["first", "second"]);
}

#[test]
fn markdown_newline_preservation_leaves_code_blocks_alone() {
    let markdown = "```rust\nlet a = 1;\nlet b = 2;\n```";
    let lines = markdown_lines(markdown, 80, gray());
    let rendered = rendered(&lines).join("\n");
    assert!(rendered.contains("let a = 1;"));
    assert!(rendered.contains("let b = 2;"));
    assert!(
        !rendered.contains("  let a"),
        "code lines must not gain indents"
    );
}

#[test]
fn markdown_trailing_newline_does_not_add_an_empty_row() {
    let lines = markdown_lines("first\n", 80, gray());
    assert_eq!(rendered(&lines), ["first"]);
}

#[test]
fn markdown_tables_wrap_cells_within_the_pane() {
    let markdown = "| Term | Meaning |\n| --- | --- |\n| **Thread-mobile / migratable** | The value can be moved across threads while work is running. |\n| **Thread-affine** | The value must remain on the worker that owns it. |";
    let lines = markdown_lines(markdown, 42, gray());
    let rendered_rows = rendered(&lines);
    let rows = rendered_rows
        .iter()
        .filter(|line| line.starts_with('│'))
        .collect::<Vec<_>>();

    assert!(lines.iter().all(|StyledRow { line, .. }| line.width() <= 42));
    assert!(rows.len() > 3, "cells should grow table rows vertically");
    assert!(
        rows.iter()
            .all(|line| line.ends_with('│') && line.matches('│').count() == 3)
    );
    assert!(
        rendered_rows
            .iter()
            .any(|line| line.contains("Thread-mobile"))
    );
    assert!(rendered_rows.iter().any(|line| line.contains("across")));
    assert!(rendered_rows.iter().any(|line| line.contains("threads")));
}

#[test]
fn collapsed_markdown_preview_removes_presentation_syntax() {
    assert_eq!(
        preview_of("# Result\n\nUse **care** with `code`."),
        "Result Use care with code."
    );
}

#[test]
fn markdown_is_scoped_to_assistant_and_reasoning() {
    assert!(!renders_markdown(EntryKind::User));
    assert!(renders_markdown(EntryKind::Assistant));
    assert!(renders_markdown(EntryKind::Reasoning));
    assert!(!renders_markdown(EntryKind::ToolCall));
    assert!(!renders_markdown(EntryKind::ToolResult));
    assert!(!renders_markdown(EntryKind::System));
    assert!(!renders_markdown(EntryKind::Error));
}

#[test]
fn drag_selection_reverses_selected_cells() {
    let mut app = test_app(vec![HistoryEntry {
        kind: HistoryKind::User,
        title: "you".to_owned(),
        body: "abc\ndef".to_owned(),
    }]);
    app.view.entries[0].expanded = true;
    let backend = TestBackend::new(60, 24);
    let mut terminal = Terminal::new(backend).unwrap();
    terminal.draw(|frame| render(frame, &mut app, 0)).unwrap();
    let area = app.pane.conversation_area.unwrap();
    // Viewport row 0 is the leading message-spacing blank; row 1 is the
    // header and row 2 is the first body row ("     abc", marker column
    // plus indent). Select its text cells and leave the rest untouched.
    app.text_selection = Some(TextSelection {
        anchor: CellPos { row: 2, col: 5 },
        head: CellPos { row: 2, col: 7 },
    });
    terminal.draw(|frame| render(frame, &mut app, 0)).unwrap();
    let buffer = terminal.backend().buffer();
    for col in 5..=7 {
        let cell = &buffer[(area.x + col as u16, area.y + 2)];
        assert!(
            cell.modifier.contains(Modifier::REVERSED),
            "cell at ({}, {}) should be reversed: {:?}",
            area.x + col as u16,
            area.y + 2,
            cell.symbol()
        );
    }
    assert!(
        !buffer[(area.x + 8, area.y + 2)]
            .modifier
            .contains(Modifier::REVERSED)
    );
    assert!(
        !buffer[(area.x + 4, area.y + 3)]
            .modifier
            .contains(Modifier::REVERSED)
    );
}

#[test]
fn selected_entry_extends_the_selection_bar_across_every_line() {
    let mut app = test_app(vec![HistoryEntry {
        kind: HistoryKind::User,
        title: "you".to_owned(),
        body: "abc\ndef".to_owned(),
    }]);
    app.view.entries[0].expanded = true;
    app.focus = Focus::Conversation;
    app.view.selected_entry = Some(0);
    let backend = TestBackend::new(60, 24);
    let mut terminal = Terminal::new(backend).unwrap();
    terminal.draw(|frame| render(frame, &mut app, 0)).unwrap();
    let area = app.pane.conversation_area.unwrap();
    let buffer = terminal.backend().buffer();
    // Row 0 is the leading spacing blank; rows 1..3 are the entry's
    // header and two body rows. Each starts with the accent bar.
    for row in 1..=3 {
        let cell = &buffer[(area.x, area.y + row)];
        assert_eq!(cell.symbol(), "│", "row {row} should start with the bar");
        assert_eq!(cell.fg, accent());
        assert_eq!(
            cell.bg,
            Color::Reset,
            "row {row} should have no body highlight"
        );
    }
}

#[test]
fn conversation_rows_carry_presentation_pads() {
    let mut app = test_app(vec![HistoryEntry {
        kind: HistoryKind::User,
        title: "you".to_owned(),
        body: "abc\ndef".to_owned(),
    }]);
    app.view.entries[0].expanded = true;
    let backend = TestBackend::new(60, 24);
    let mut terminal = Terminal::new(backend).unwrap();
    terminal.draw(|frame| render(frame, &mut app, 0)).unwrap();
    // Viewport row 0 is the leading spacing blank; row 1 is the header
    // (furniture only) and rows 2..3 are body rows with the selection
    // marker column plus a 4-cell indent.
    assert_eq!(
        app.pane.conversation_rows[1],
        CopyRow {
            pad: 10,
            text: " ▾ you you".to_owned()
        }
    );
    assert_eq!(
        app.pane.conversation_rows[2],
        CopyRow {
            pad: 5,
            text: "     abc".to_owned()
        }
    );
    assert_eq!(
        app.pane.conversation_rows[3],
        CopyRow {
            pad: 5,
            text: "     def".to_owned()
        }
    );
}

#[test]
fn wrapped_continuation_indent_counts_as_presentation_padding() {
    let mut app = test_app(vec![HistoryEntry {
        kind: HistoryKind::User,
        title: "you".to_owned(),
        body: "abcdefghijklmnop".to_owned(),
    }]);
    app.view.entries[0].expanded = true;
    let backend = TestBackend::new(24, 24);
    let mut terminal = Terminal::new(backend).unwrap();
    terminal.draw(|frame| render(frame, &mut app, 0)).unwrap();
    // Body width is 24 - 4 (pane) - 6 (furniture) = 14, so the 16-cell
    // word wraps onto an indented continuation row.
    assert_eq!(
        app.pane.conversation_rows[2],
        CopyRow {
            pad: 5,
            text: "     abcdefghijklmn".to_owned()
        }
    );
    assert_eq!(
        app.pane.conversation_rows[3],
        CopyRow {
            pad: 7,
            text: "       op".to_owned()
        }
    );
}

#[test]
fn markdown_list_markers_keep_continuations_inside_the_item() {
    let lines = markdown_lines("- abcdefghijklmnop", 14, gray());
    assert_eq!(rendered(&lines), ["- abcdefghijkl", "    mnop"]);
    assert_eq!(
        lines.iter().map(|row| row.indent).collect::<Vec<_>>(),
        [0, 4]
    );
}

#[test]
fn markdown_list_soft_breaks_hang_beneath_the_marker() {
    let lines = markdown_lines("- first\n  second", 80, gray());
    assert_eq!(rendered(&lines), ["- first", "  second"]);
}

#[test]
fn markdown_task_and_footnote_continuations_hang() {
    let lines = markdown_lines(
        "- [ ] first\n  second",
        80,
        gray(),
    );
    assert_eq!(rendered(&lines), ["- [ ] first", "      second"]);

    let lines = markdown_lines(
        "[^1]: first\n  second",
        80,
        gray(),
    );
    assert_eq!(rendered(&lines), ["[1]: first", "     second"]);
}

#[test]
fn markdown_definition_continuations_hang() {
    let lines = markdown_lines(
        "term\n: first\n  second",
        80,
        gray(),
    );
    assert_eq!(rendered(&lines), ["term", ": first", "  second"]);
}

#[test]
fn markdown_blank_lines_end_the_pending_hang() {
    let lines = markdown_lines("- first\n\noutside", 80, gray());
    assert_eq!(rendered(&lines), ["- first", "", "outside"]);
}

#[test]
fn oversized_marker_continuations_never_overflow_the_pane() {
    // The 12-cell "[12345678]: " marker consumes the whole 12-cell width,
    // so it wraps as ordinary content and its continuation must not hang
    // by the full marker width.
    let lines = markdown_lines(
        "[^12345678]: first\n  second",
        12,
        gray(),
    );
    let rows = rendered(&lines);
    assert!(
        rows.iter()
            .all(|line| unicode_width::UnicodeWidthStr::width(line.as_str()) <= 12),
        "rows must stay within the pane: {rows:?}"
    );
}

#[test]
fn markdown_code_whitespace_is_preserved_at_wraps() {
    let lines = markdown_lines("`a  b`", 5, gray());
    assert_eq!(rendered(&lines), ["a  b"]);
    let lines = markdown_lines("`a  b`", 3, gray());
    assert_eq!(rendered(&lines), ["a  ", "  b"]);
}

#[test]
fn blockquote_prefixes_repeat_on_wrapped_rows() {
    let lines = markdown_lines("> alpha beta", 7, gray());
    assert_eq!(rendered(&lines), ["> alpha", "> beta"]);
}

#[test]
fn footnote_prefixes_hang_continuations() {
    let lines = markdown_lines("[^1]: alpha beta", 12, gray());
    assert_eq!(rendered(&lines), ["[1]: alpha", "     beta"]);
    assert_eq!(
        lines.iter().map(|row| row.indent).collect::<Vec<_>>(),
        [0, 5]
    );
}

#[test]
fn footnote_labels_with_combining_marks_do_not_panic() {
    let lines = markdown_lines(
        "[^e\u{301}]: alpha beta",
        12,
        gray(),
    );
    let rows = rendered(&lines);
    assert!(rows[0].contains("alpha"));
    assert!(rows[1].starts_with(' '), "continuation hangs: {rows:?}");
    // An empty definition body must not slice past the marker's graphemes.
    let lines = markdown_lines("[^x]: ", 12, gray());
    assert!(!rendered(&lines).is_empty());
}

#[test]
fn ordered_task_markers_include_the_checkbox_in_the_hang() {
    let lines = markdown_lines(
        "1. [ ] abcdefghijklmnop",
        14,
        gray(),
    );
    let rows = rendered(&lines);
    assert!(
        rows.iter()
            .all(|line| unicode_width::UnicodeWidthStr::width(line.as_str()) <= 14)
    );
    assert_eq!(rows[0], "1. [ ] abcdefg");
}

#[test]
fn nested_list_markers_never_overflow_the_pane() {
    let markdown = "- a\n  - b\n    - c\n      - abcdefghijklmnop";
    let lines = markdown_lines(markdown, 14, gray());
    assert!(
        lines.iter().all(|StyledRow { line, .. }| line.width() <= 14),
        "a marker that consumes the whole width must not overflow: {:?}",
        rendered(&lines)
    );
}

#[test]
fn zero_width_items_do_not_form_phantom_rows() {
    assert_eq!(wrap_text("\u{2060}界", 1), ["\u{2060}界"]);
    assert_eq!(wrap_text("\u{200B}abcdefgh", 6), ["abcdef", "  gh"]);
}

#[test]
fn fitting_tables_keep_their_declared_alignment() {
    let markdown = "| long | b |\n|:----:|---|\n| 1 | 2 |";
    let lines = markdown_lines(markdown, 80, gray());
    let options = Options::new(MarkdownStyle);
    let direct = from_str_with_options(markdown, &options);
    let direct_rows: Vec<String> =
        direct.lines.iter().map(|line| line.to_string()).collect();
    assert_eq!(rendered(&lines), direct_rows);
    // The fast path must still apply the ambient base style.
    assert!(
        lines
            .iter()
            .flat_map(|StyledRow { line, .. }| &line.spans)
            .any(|span| { span.content.contains('1') && span.style.fg == Some(styling::Color::Gray) })
    );
}

#[test]
fn input_scrolls_to_keep_the_caret_row_visible() {
    let mut app = test_app(Vec::new());
    app.input = InputBuffer::at_end(
        "abcdefghijklmnopqrstuvwxyzABCDEFGHIJKLMNOPQRSTUVWXYZ0123456789".to_owned(),
    );
    app.focus = Focus::Input;
    let backend = TestBackend::new(24, 8);
    let mut terminal = Terminal::new(backend).unwrap();
    terminal.draw(|frame| render(frame, &mut app, 0)).unwrap();
    assert!(app.pane.input_scroll > 0, "tall drafts scroll the input window");
    let (caret_row, _) = app.input.cursor_position(app.pane.input_width);
    let visible = caret_row.saturating_sub(app.pane.input_scroll);
    assert!(
        visible < 2,
        "the caret stays inside the visible input window"
    );
}

#[test]
fn copy_toast_renders_in_the_conversation_corner() {
    let mut app = test_app(vec![HistoryEntry {
        kind: HistoryKind::User,
        title: "you".to_owned(),
        body: "hello".to_owned(),
    }]);
    app.show_toast("Copied selection", 0);
    let backend = TestBackend::new(60, 24);
    let mut terminal = Terminal::new(backend).unwrap();
    terminal.draw(|frame| render(frame, &mut app, 0)).unwrap();
    let joined = terminal
        .backend()
        .buffer()
        .content()
        .iter()
        .map(|cell| cell.symbol())
        .collect::<String>();
    assert!(joined.contains("Copied selection"));
}

#[test]
fn copy_toast_is_clipped_to_the_conversation_area() {
    let mut app = test_app(Vec::new());
    app.show_toast("Copied selection", 0);
    let backend = TestBackend::new(12, 5);
    let mut terminal = Terminal::new(backend).unwrap();
    terminal
        .draw(|frame| {
            render_toast(
                frame,
                selection::Rect { x: 7, y: 3, width: 4, height: 1 },
                &app.toast.as_ref().unwrap().text,
            );
        })
        .unwrap();
    assert_eq!(terminal.backend().buffer()[(1, 3)].symbol(), " ");
}

#[test]
fn text_message_spacing_is_deduplicated_at_shared_boundaries() {
    assert!(needs_message_spacing(None, Some(EntryKind::User)));
    assert!(needs_message_spacing(
        Some(EntryKind::User),
        Some(EntryKind::Assistant)
    ));
    assert!(needs_message_spacing(
        Some(EntryKind::Assistant),
        Some(EntryKind::ToolCall)
    ));
    assert!(needs_message_spacing(
        Some(EntryKind::ToolResult),
        Some(EntryKind::User)
    ));
    assert!(needs_message_spacing(Some(EntryKind::Assistant), None));
    assert!(!needs_message_spacing(
        Some(EntryKind::ToolCall),
        Some(EntryKind::ToolResult)
    ));
    assert!(!needs_message_spacing(Some(EntryKind::ToolResult), None));
}

#[test]
fn conversation_geometry_includes_one_blank_line_around_text_messages() {
    let mut app = test_app(vec![
        HistoryEntry {
            kind: HistoryKind::User,
            title: "You".to_owned(),
            body: "First prompt".to_owned(),
        },
        HistoryEntry {
            kind: HistoryKind::Assistant,
            title: "/root".to_owned(),
            body: "First answer".to_owned(),
        },
    ]);
    app.view.entries.pop();
    app.view.selected_entry = Some(1);
    let backend = TestBackend::new(80, 24);
    let mut terminal = Terminal::new(backend).unwrap();

    terminal.draw(|frame| render(frame, &mut app, 0)).unwrap();

    assert_eq!(app.pane.conversation_total_lines, 7);
    assert_eq!(app.pane.conversation_ranges, [(1, 2), (4, 5)]);
}

#[test]
fn incomplete_streamed_code_fence_renders_its_content() {
    let lines = markdown_lines(
        "Working…\n\n```rust\nlet answer = 42;",
        80,
        gray(),
    );
    let rendered = rendered(&lines).join("\n");

    assert!(rendered.contains("Working…"));
    assert!(rendered.contains("let answer = 42;"));
    assert!(!rendered.contains("```"));
    assert!(
        lines.iter().flat_map(|StyledRow { line, .. }| &line.spans).any(|span| {
            span.content.contains("let answer") && span.style.bg == Some(styling::panel())
        })
    );
}

#[test]
fn detached_viewport_ignores_new_content_below_it() {
    assert_eq!(viewport_offset(4, false, Some(6), 20, 10), 4);
    assert_eq!(viewport_offset(4, false, Some(6), 80, 10), 4);
    assert_eq!(viewport_offset(4, true, Some(6), 80, 10), 70);
}

#[test]
fn detached_viewport_scrolls_only_to_reveal_the_selected_header() {
    assert_eq!(viewport_offset(10, false, Some(7), 40, 10), 7);
    assert_eq!(viewport_offset(10, false, Some(24), 40, 10), 15);
    assert_eq!(viewport_offset(10, false, Some(12), 80, 10), 10);
}

#[test]
fn rendered_header_tracks_the_selected_agent() {
    let mut app = test_app(Vec::new());
    app.apply_agent_event(AgentSystemEvent::Hosted {
        address: "/root/worker".to_owned(),
        parent: Some("/root".to_owned()),
    });
    app.apply_fold(
        "/root/worker",
        FoldOutcome {
            selected_model: Some("fireworks/deepseek-v4-flash".to_owned()),
            ..FoldOutcome::empty()
        },
    );
    app.input.text = "/agents /root/worker".to_owned();
    app.input.cursor = app.input.char_count();
    app.handle_key(
        KeyEvent {
            code: KeyCode::Enter,
            modifiers: KeyModifiers { control: false, alt: false, shift: false, other: false },
            kind: KeyEventKind::Press,
        },
        0,
    );

    let backend = TestBackend::new(100, 24);
    let mut terminal = Terminal::new(backend).unwrap();
    terminal.draw(|frame| render(frame, &mut app, 0)).unwrap();
    let rendered = terminal
        .backend()
        .buffer()
        .content()
        .iter()
        .map(|cell| cell.symbol())
        .collect::<String>();
    assert!(rendered.contains("/root/worker"));
    // Child model must not fall back to root's GPT-5 display name.
    assert!(rendered.contains("fireworks/deepseek-v4-flash"));
    assert!(!rendered.contains("GPT-5"));
}

#[test]
fn session_palette_advertises_the_delete_binding() {
    let mut app = test_app(Vec::new());
    app.input.text = "/session ".to_owned();
    app.input.cursor = app.input.char_count();

    let backend = TestBackend::new(100, 24);
    let mut terminal = Terminal::new(backend).unwrap();
    terminal.draw(|frame| render(frame, &mut app, 0)).unwrap();
    let rendered = terminal
        .backend()
        .buffer()
        .content()
        .iter()
        .map(|cell| cell.symbol())
        .collect::<String>();
    assert!(rendered.contains("ctrl+d delete the highlighted session"));
}

#[test]
fn header_shows_lambda_and_cwd_without_the_wordmark() {
    let mut app = test_app(Vec::new());
    let backend = TestBackend::new(100, 24);
    let mut terminal = Terminal::new(backend).unwrap();
    terminal.draw(|frame| render(frame, &mut app, 0)).unwrap();
    let rendered = terminal
        .backend()
        .buffer()
        .content()
        .iter()
        .map(|cell| cell.symbol())
        .collect::<String>();
    assert!(rendered.contains("λ /tmp/project"));
    assert!(!rendered.contains("λ lam"));
}

#[test]
fn message_bar_reports_context_consumption() {
    let mut app = test_app(Vec::new());
    app.view.context_tokens = Some(123_456);
    let backend = TestBackend::new(100, 24);
    let mut terminal = Terminal::new(backend).unwrap();
    terminal.draw(|frame| render(frame, &mut app, 0)).unwrap();
    let rendered = terminal
        .backend()
        .buffer()
        .content()
        .iter()
        .map(|cell| cell.symbol())
        .collect::<String>();
    assert!(rendered.contains(" message (30% · 123k/400k) "));
}

#[test]
fn message_bar_omits_context_before_the_first_model_turn() {
    let mut app = test_app(Vec::new());
    let backend = TestBackend::new(100, 24);
    let mut terminal = Terminal::new(backend).unwrap();
    terminal.draw(|frame| render(frame, &mut app, 0)).unwrap();
    let rendered = terminal
        .backend()
        .buffer()
        .content()
        .iter()
        .map(|cell| cell.symbol())
        .collect::<String>();
    assert!(rendered.contains(" message "));
    assert!(!rendered.contains("tokens)"));
}

#[test]
fn message_bar_keeps_context_while_working() {
    let mut app = test_app(Vec::new());
    app.view.context_tokens = Some(123_456);
    app.busy = true;
    let backend = TestBackend::new(100, 24);
    let mut terminal = Terminal::new(backend).unwrap();
    terminal.draw(|frame| render(frame, &mut app, 0)).unwrap();
    let rendered = terminal
        .backend()
        .buffer()
        .content()
        .iter()
        .map(|cell| cell.symbol())
        .collect::<String>();
    assert!(rendered.contains(" working (30% · 123k/400k) "));
}

#[test]
fn context_parenthetical_stays_aligned_between_states() {
    let mut app = test_app(Vec::new());
    app.view.context_tokens = Some(123_456);
    let paren_column = |app: &mut App, label: &str| {
        let backend = TestBackend::new(100, 24);
        let mut terminal = Terminal::new(backend).unwrap();
        terminal.draw(|frame| render(frame, app, 0)).unwrap();
        let content = terminal.backend().buffer().content();
        let row = content
            .chunks(100)
            .position(|row| {
                row.iter()
                    .map(|cell| cell.symbol())
                    .collect::<String>()
                    .contains(label)
            })
            .expect("the shelf title row should render");
        content[row * 100..(row + 1) * 100]
            .iter()
            .position(|cell| cell.symbol() == "(")
            .expect("the context parenthetical should render")
    };
    let message_column = paren_column(&mut app, " message (");
    app.busy = true;
    let working_column = paren_column(&mut app, " working (");
    assert_eq!(message_column, working_column);
}

#[test]
fn collapsed_eval_rows_hide_source_until_expanded() {
    let mut app = test_app(vec![HistoryEntry {
        kind: HistoryKind::ToolCall,
        title: "/root · Inspect the workspace".to_owned(),
        body: "const secret_marker = await lam.fs.list({ path: '.' });".to_owned(),
    }]);
    let backend = TestBackend::new(100, 24);
    let mut terminal = Terminal::new(backend).unwrap();

    terminal.draw(|frame| render(frame, &mut app, 0)).unwrap();
    let collapsed = terminal
        .backend()
        .buffer()
        .content()
        .iter()
        .map(|cell| cell.symbol())
        .collect::<String>();
    assert!(collapsed.contains("Inspect the workspace"));
    assert!(!collapsed.contains("secret_marker"));

    app.view.entries[0].expanded = true;
    terminal.draw(|frame| render(frame, &mut app, 0)).unwrap();
    let expanded = terminal
        .backend()
        .buffer()
        .content()
        .iter()
        .map(|cell| cell.symbol())
        .collect::<String>();
    assert!(expanded.contains("secret_marker"));
}

#[test]
fn tool_rows_render_dimmed_until_selected() {
    let mut app = test_app(vec![HistoryEntry {
        kind: HistoryKind::ToolCall,
        title: "/root · Inspect the workspace".to_owned(),
        body: "const files = await lam.fs.list({ path: '.' });".to_owned(),
    }]);
    let backend = TestBackend::new(100, 24);
    let mut terminal = Terminal::new(backend).unwrap();

    terminal.draw(|frame| render(frame, &mut app, 0)).unwrap();
    let dimmed = text_modifier(terminal.backend().buffer(), "/root · Inspect");
    assert!(dimmed.contains(Modifier::DIM));
    assert!(!dimmed.contains(Modifier::BOLD));

    app.focus = Focus::Conversation;
    app.view.selected_entry = Some(0);
    terminal.draw(|frame| render(frame, &mut app, 0)).unwrap();
    let focused = text_modifier(terminal.backend().buffer(), "/root · Inspect");
    assert!(!focused.contains(Modifier::DIM));
    assert!(focused.contains(Modifier::BOLD));
}

#[test]
fn reasoning_rows_render_dimmed_until_selected() {
    let mut app = test_app(vec![HistoryEntry {
        kind: HistoryKind::Reasoning,
        title: "agent".to_owned(),
        body: "weighing the options".to_owned(),
    }]);
    app.view.entries[0].expanded = true;
    let backend = TestBackend::new(100, 24);
    let mut terminal = Terminal::new(backend).unwrap();

    terminal.draw(|frame| render(frame, &mut app, 0)).unwrap();
    let buffer = terminal.backend().buffer();
    assert!(text_modifier(buffer, "weighing").contains(Modifier::DIM));

    app.focus = Focus::Conversation;
    app.view.selected_entry = Some(0);
    terminal.draw(|frame| render(frame, &mut app, 0)).unwrap();
    let buffer = terminal.backend().buffer();
    assert!(!text_modifier(buffer, "weighing").contains(Modifier::DIM));
}

#[test]
fn streaming_rows_render_at_full_intensity() {
    let mut app = test_app(vec![HistoryEntry {
        kind: HistoryKind::Reasoning,
        title: "agent".to_owned(),
        body: "weighing the options".to_owned(),
    }]);
    app.view.entries[0].expanded = true;
    app.view.entries[0].streaming = true;
    let backend = TestBackend::new(100, 24);
    let mut terminal = Terminal::new(backend).unwrap();

    terminal.draw(|frame| render(frame, &mut app, 0)).unwrap();
    let buffer = terminal.backend().buffer();
    assert!(!text_modifier(buffer, "weighing").contains(Modifier::DIM));
}

fn text_modifier(buffer: &ratatui::buffer::Buffer, needle: &str) -> Modifier {
    let cells = buffer.content();
    let symbols: Vec<&str> = cells.iter().map(|cell| cell.symbol()).collect();
    let needle: Vec<String> = needle
        .chars()
        .map(|character| character.to_string())
        .collect();
    let index = symbols
        .windows(needle.len())
        .position(|window| window == needle.as_slice())
        .expect("the needle is rendered");
    cells[index].modifier
}

fn buffer_text(terminal: &Terminal<TestBackend>) -> String {
    terminal
        .backend()
        .buffer()
        .content()
        .iter()
        .map(|cell| cell.symbol())
        .collect()
}

#[test]
fn layout_cache_reuses_untouched_rows_and_rebuilds_grown_ones() {
    let mut app = test_app(vec![
        HistoryEntry {
            kind: HistoryKind::System,
            title: "Static".to_owned(),
            body: "unchanged content".to_owned(),
        },
        HistoryEntry {
            kind: HistoryKind::Assistant,
            title: "/root".to_owned(),
            body: "growing".to_owned(),
        },
    ]);
    let backend = TestBackend::new(100, 24);
    let mut terminal = Terminal::new(backend).unwrap();
    terminal.draw(|frame| render(frame, &mut app, 0)).unwrap();

    let static_lines = app.view.entries[0].layout.as_ref().unwrap().rows.as_ptr();
    let grown_before = app.view.entries[1].layout.as_ref().unwrap().key;

    app.view.entries[1].body.push_str(" and growing");
    terminal.draw(|frame| render(frame, &mut app, 0)).unwrap();

    assert_eq!(
        app.view.entries[0].layout.as_ref().unwrap().rows.as_ptr(),
        static_lines,
        "an untouched row keeps its cached layout allocation"
    );
    let grown_after = &app.view.entries[1].layout.as_ref().unwrap().key;
    assert!(
        grown_after.body_len > grown_before.body_len,
        "a grown row rebuilds its layout"
    );
    assert!(buffer_text(&terminal).contains("and growing"));
}

#[test]
fn viewport_materializes_only_the_visible_window() {
    let rows = (0..80)
        .map(|index| HistoryEntry {
            kind: HistoryKind::System,
            title: format!("row-{index}"),
            body: format!("body {index}"),
        })
        .collect::<Vec<_>>();
    let mut app = test_app(rows);
    let backend = TestBackend::new(100, 24);
    let mut terminal = Terminal::new(backend).unwrap();

    // Following the tail shows the newest rows and not the oldest.
    terminal.draw(|frame| render(frame, &mut app, 0)).unwrap();
    let tail = buffer_text(&terminal);
    assert!(tail.contains("row-79"));
    assert!(!tail.contains("row-2 "));

    // A detached viewport shows the middle of the scrollback.
    app.view.follow_conversation_tail = false;
    app.view.selection_drives_viewport = false;
    app.focus = Focus::Conversation;
    app.view.conversation_offset = 40;
    terminal.draw(|frame| render(frame, &mut app, 0)).unwrap();
    let middle = buffer_text(&terminal);
    assert!(middle.contains("row-41"));
    assert!(!middle.contains("row-79"));
    assert!(!middle.contains("row-2 "));
}

#[test]
fn markdown_is_rendered_in_the_interface_styles() {
    let lines = render_markdown("# Title\n\nSee [docs](url) and `code`.").unwrap();
    let title = &lines[0];
    assert_eq!(title.plain_text(), "Title", "headings have no markers");
    assert_eq!(title.style.fg, Some(styling::accent()));
    assert_eq!(title.style.add_modifier, styling::BOLD);
    let spans: Vec<_> = lines.iter().flat_map(|line| &line.spans).collect();
    let link = spans.iter().find(|span| span.content == "docs").unwrap();
    assert_eq!(link.style.add_modifier, styling::UNDERLINED);
    let code = spans.iter().find(|span| span.content == "code").unwrap();
    assert_eq!(code.style.fg, Some(styling::Color::LightCyan));
    assert_eq!(code.style.bg, Some(styling::panel()));
}

#[test]
fn colors_are_known_by_name() {
    let colors = [
        styling::Color::Reset,
        styling::Color::DarkGray,
        styling::Color::LightMagenta,
        styling::Color::White,
        styling::Color::Rgb(0, 171, 255),
        styling::Color::Indexed(0),
        styling::Color::Indexed(208),
    ];
    for color in colors {
        assert_eq!(parse_color(&color_name(color)), Some(color));
        let outside: Color = color_name(color).parse().unwrap();
        assert_eq!(outside, color_out(color));
        assert_eq!(outside.to_string(), color_name(color));
    }
    assert_eq!(color_name(styling::Color::Rgb(0, 171, 255)), "#00ABFF");
    assert_eq!(parse_color("#00abff"), None);
    assert_eq!(parse_color("256"), None);
    assert_eq!(parse_color("Mauve"), None);
}

#[test]
fn lists_are_rendered_up_to_a_depth() {
    let nested = |depth: usize, numbered: bool| {
        let mut events = vec![(Mark::ListStart(numbered), 0); depth];
        events.push((Mark::Item, 0));
        events
    };
    assert!(list_depth_fits(&nested(16384, true)));
    assert!(!list_depth_fits(&nested(16385, true)));
    assert!(list_depth_fits(&nested(20000, false)));
    let mut closed = nested(16384, true);
    closed.extend([(Mark::ListEnd, 0), (Mark::ListStart(true), 0), (Mark::Item, 0)]);
    assert!(list_depth_fits(&closed));
    closed.extend([(Mark::ListStart(true), 0), (Mark::Item, 0)]);
    assert!(!list_depth_fits(&closed));
    let lines = render_markdown("1. a\n   1. b").unwrap();
    assert_eq!(lines[0].plain_text(), "1. a");
    assert_eq!(lines[1].plain_text(), "    1. b");
    let lines = render_markdown("- a\n  - b").unwrap();
    assert_eq!(lines[0].plain_text(), "- a");
    assert_eq!(lines[1].plain_text(), "    - b");
}

#[test]
fn the_style_sheet_tells_the_parts_of_a_text_apart() {
    let sheet = MarkdownStyle;
    assert_eq!(sheet.heading(1), Style::default().fg(accent()).add_modifier(Modifier::BOLD));
    assert_eq!(sheet.heading(2), Style::default().fg(Color::White).add_modifier(Modifier::BOLD));
    assert_eq!(sheet.heading(6), Style::default().fg(Color::Gray).add_modifier(Modifier::BOLD));
    assert_eq!(sheet.code(), Style::default().fg(Color::LightCyan).bg(panel()));
    assert_eq!(sheet.link(), Style::default().fg(accent()).add_modifier(Modifier::UNDERLINED));
    assert_eq!(sheet.blockquote(), Style::default().fg(dim()).add_modifier(Modifier::ITALIC));
    assert_eq!(sheet.heading_meta(), Style::default().fg(dim()));
    assert_eq!(sheet.metadata_block(), Style::default().fg(dim()));
    assert_eq!((sheet.heading_marker(1), sheet.code_block_fence()), ("", ""));
}
