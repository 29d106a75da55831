//! The display rows of one conversation row.

use crate::cells;
use crate::cells::elide_end;
use crate::conversation::{ConversationEntry, Entry, EntryKind, EntryLayout, LayoutKey};
use crate::markdown;
use crate::markdown::{Shown, StyledRow};
use crate::selection;
use crate::styling;
use crate::styling::{extend_spans, Color, Ink, Line, Span, Strip, TextStyle};
use crate::table;
use crate::table::{markdown_preview, wrap_markdown_lines};
use crate::text;
use crate::text_wrap;
use crate::text_wrap::{measure, wrap_items};
use vstd::prelude::*;
use vstd::string::*;

verus! {

/// Whether a row is a message of the user or the agent.
pub open spec fn is_message(kind: EntryKind) -> bool {
    kind == EntryKind::User || kind == EntryKind::Assistant
}

pub fn is_text_message(kind: EntryKind) -> (r: bool)
    ensures
        r == is_message(kind),
{
    matches!(kind, EntryKind::User | EntryKind::Assistant)
}

/// Whether a blank line stands between two neighbouring rows; `None` is the
/// edge of the conversation.
pub open spec fn spaced(previous: Option<EntryKind>, next: Option<EntryKind>) -> bool {
    (previous matches Some(k) && is_message(k)) || (next matches Some(k) && is_message(k))
}

pub fn needs_message_spacing(previous: Option<EntryKind>, next: Option<EntryKind>) -> (r: bool)
    ensures
        r == spaced(previous, next),
{
    let before = match previous {
        Some(kind) => is_text_message(kind),
        None => false,
    };
    let after = match next {
        Some(kind) => is_text_message(kind),
        None => false,
    };
    before || after
}

/// Whether the body of a row is rendered as Markdown.
pub open spec fn is_markdown(kind: EntryKind) -> bool {
    kind == EntryKind::Assistant || kind == EntryKind::Reasoning
}

/// Whether the body of a row is rendered as Markdown. User prompts are plain
/// text: they render verbatim, so that their line breaks survive.
pub fn renders_markdown(kind: EntryKind) -> (r: bool)
    ensures
        r == is_markdown(kind),
{
    matches!(kind, EntryKind::Assistant | EntryKind::Reasoning)
}

/// Whether a row renders faint: tool and reasoning rows are ambient detail
/// unless selected or still being written.
pub open spec fn faint(e: Entry, selected: bool) -> bool {
    (e.kind == EntryKind::ToolCall || e.kind == EntryKind::ToolResult || e.kind
        == EntryKind::Reasoning) && !selected && !e.streaming
}

pub fn is_dimmed(entry: &ConversationEntry, selected: bool) -> (r: bool)
    ensures
        r == faint(entry@, selected),
{
    matches!(entry.kind, EntryKind::ToolCall | EntryKind::ToolResult | EntryKind::Reasoning)
        && !selected && !entry.streaming
}

/// The marker and color of a kind of row.
pub open spec fn marker_of(kind: EntryKind) -> (Seq<char>, Color) {
    match kind {
        EntryKind::User => ("you"@, styling::accent_color()),
        EntryKind::Assistant => ("agent"@, Color::White),
        EntryKind::Reasoning => ("think"@, Color::Magenta),
        EntryKind::ToolCall => ("call"@, Color::Yellow),
        EntryKind::ToolResult => ("result"@, Color::Green),
        EntryKind::System => ("info"@, styling::dim_color()),
        EntryKind::Error => ("error"@, Color::Red),
    }
}

fn entry_style(kind: EntryKind) -> (r: (String, Color))
    ensures
        r.0@ == marker_of(kind).0,
        r.1 == marker_of(kind).1,
{
    match kind {
        EntryKind::User => ("you".to_owned(), styling::accent()),
        EntryKind::Assistant => ("agent".to_owned(), Color::White),
        EntryKind::Reasoning => ("think".to_owned(), Color::Magenta),
        EntryKind::ToolCall => ("call".to_owned(), Color::Yellow),
        EntryKind::ToolResult => ("result".to_owned(), Color::Green),
        EntryKind::System => ("info".to_owned(), styling::dim()),
        EntryKind::Error => ("error".to_owned(), Color::Red),
    }
}

/// A style as shown on an ambient row.
pub open spec fn ambient(style: TextStyle, dimmed: bool) -> TextStyle {
    if dimmed {
        style.with(styling::DIM)
    } else {
        style
    }
}

fn dim_ambient(style: TextStyle, dimmed: bool) -> (r: TextStyle)
    ensures
        r == ambient(style, dimmed),
{
    if dimmed {
        style.add_modifier(styling::DIM)
    } else {
        style
    }
}

/// A row of wrapped plain text and its synthetic indent.
pub struct TextRow {
    pub text: Seq<char>,
    pub indent: int,
}

/// The rows of one source line.
pub open spec fn line_rows(line: Seq<char>, width: nat) -> Seq<TextRow> {
    let parts = cells::clusters(line);
    let rows = text_wrap::wrapped(text_wrap::measured(parts), width);
    Seq::new(
        rows.len(),
        |k: int|
            TextRow {
                text: text::repeated(' ', rows[k].indent as nat) + cells::concat_all(
                    parts.subrange(rows[k].start as int, rows[k].end as int),
                ),
                indent: rows[k].indent as int,
            },
    )
}

/// The rows of the first `n` source lines.
pub open spec fn lines_rows(lines: Seq<Seq<char>>, n: int, width: nat) -> Seq<TextRow>
    decreases n,
{
    if n <= 0 {
        Seq::empty()
    } else {
        lines_rows(lines, n - 1, width) + line_rows(lines[n - 1], width)
    }
}

/// The rows of a plain text wrapped at `width` cells.
pub open spec fn text_rows(s: Seq<char>, width: nat) -> Seq<TextRow> {
    let lines = text::split(s, '\n');
    lines_rows(lines, lines.len() as int, width)
}

/// Whether each row begins with its indent, which is that of a split word or
/// none.
pub open spec fn indented(rows: Seq<TextRow>) -> bool {
    forall|k: int|
        0 <= k < rows.len() ==> 0 <= (#[trigger] rows[k]).indent
            <= text_wrap::LONG_WORD_INDENT && text::starts_with(
            rows[k].text,
            text::repeated(' ', rows[k].indent as nat),
        )
}

proof fn lemma_line_rows(line: Seq<char>, width: nat)
    requires
        cells::clusters(line).len() <= usize::MAX,
    ensures
        indented(line_rows(line, width)),
        line_rows(line, width).len() > 0,
{
    let items = text_wrap::measured(cells::clusters(line));
    let rows = line_rows(line, width);
    text_wrap::wrapping_yields_a_row(items, width);
    assert forall|k: int| 0 <= k < rows.len() implies 0 <= (#[trigger] rows[k]).indent
        <= text_wrap::LONG_WORD_INDENT && text::starts_with(
        rows[k].text,
        text::repeated(' ', rows[k].indent as nat),
    ) by {
        text_wrap::only_continuations_are_indented(items, width, k);
        let lead = text::repeated(' ', rows[k].indent as nat);
        assert(rows[k].text.take(lead.len() as int) =~= lead);
    }
}

/// The values of wrapped rows.
pub open spec fn text_rows_of(v: Seq<(String, usize)>) -> Seq<TextRow> {
    v.map_values(|r: (String, usize)| TextRow { text: r.0@, indent: r.1 as int })
}

fn concat_range(parts: &Vec<String>, lo: usize, hi: usize) -> (r: String)
    requires
        lo <= hi <= parts@.len(),
    ensures
        r@ == cells::concat_all(text::texts(parts@).subrange(lo as int, hi as int)),
{
    let ghost all = text::texts(parts@);
    let mut r = String::new();
    let mut i: usize = lo;
    proof {
        assert(all.subrange(lo as int, lo as int) =~= Seq::empty());
    }
    while i < hi
        invariant
            lo <= i <= hi <= parts@.len(),
            all == text::texts(parts@),
            r@ == cells::concat_all(all.subrange(lo as int, i as int)),
        decreases hi - i,
    {
        r.append(parts[i].as_str());
        proof {
            assert(all[i as int] == parts@[i as int]@);
            assert(all.subrange(lo as int, i + 1).drop_last() =~= all.subrange(
                lo as int,
                i as int,
            ));
        }
        i += 1;
    }
    r
}

fn push_line_rows(out: &mut Vec<(String, usize)>, line: &str, width: usize)
    ensures
        text_rows_of(final(out)@) == text_rows_of(old(out)@) + line_rows(line@, width as nat),
        indented(line_rows(line@, width as nat)),
        line_rows(line@, width as nat).len() > 0,
{
    let parts = cells::graphemes_of(line);
    let items = measure(&parts);
    let rows = wrap_items(&items, width);
    let ghost want = line_rows(line@, width as nat);
    let ghost start = text_rows_of(out@);
    let mut k: usize = 0;
    proof {
        assert(text::texts(parts@).len() == parts@.len());
        lemma_line_rows(line@, width as nat);
        assert(text_rows_of(out@) =~= start + want.take(0));
    }
    while k < rows.len()
        invariant
            k <= rows@.len(),
            rows@.len() == want.len(),
            want == line_rows(line@, width as nat),
            text::texts(parts@) == cells::clusters(line@),
            text::texts(parts@).len() == parts@.len(),
            items@ == text_wrap::measured(text::texts(parts@)),
            rows@ == text_wrap::wrapped(items@, width as nat),
            text_rows_of(out@) == start + want.take(k as int),
        decreases rows@.len() - k,
    {
        let ghost before = out@;
        proof {
            text_wrap::rows_cover_items(items@, width as nat, k as int);
        }
        let row = rows[k];
        let lead = text::repeat(' ', row.indent);
        let body = concat_range(&parts, row.start, row.end);
        let shown = text::concat(lead.as_str(), body.as_str());
        let ghost value = TextRow { text: shown@, indent: row.indent as int };
        out.push((shown, row.indent));
        proof {
            assert(value == want[k as int]);
            assert(text_rows_of(out@) =~= text_rows_of(before).push(value));
            assert(want.take(k + 1) =~= want.take(k as int).push(value));
            assert(text_rows_of(out@) =~= start + want.take(k + 1));
        }
        k += 1;
    }
    proof {
        assert(want.take(want.len() as int) =~= want);
    }
}

/// Wraps plain text at `width` cells, each row with its synthetic indent.
pub fn wrap_text_rows(content: &str, width: usize) -> (r: Vec<(String, usize)>)
    ensures
        text_rows_of(r@) == text_rows(content@, width as nat),
        indented(text_rows_of(r@)),
        r@.len() > 0,
{
    let lines = text::split_on(content, '\n');
    let ghost all = text::texts(lines@);
    let mut out: Vec<(String, usize)> = Vec::new();
    let mut i: usize = 0;
    proof {
        assert(text_rows_of(out@) =~= Seq::empty());
        assert(all.len() == lines@.len());
        text::lemma_split_around(content@, Seq::empty(), '\n');
    }
    while i < lines.len()
        invariant
            i <= lines@.len(),
            all == text::texts(lines@),
            text_rows_of(out@) == lines_rows(all, i as int, width as nat),
            indented(text_rows_of(out@)),
            i > 0 ==> out@.len() > 0,
        decreases lines@.len() - i,
    {
        let ghost before = text_rows_of(out@);
        proof {
            assert(all[i as int] == lines@[i as int]@);
        }
        push_line_rows(&mut out, lines[i].as_str(), width);
        i += 1;
        proof {
            let more = line_rows(all[i - 1], width as nat);
            let rows = text_rows_of(out@);
            assert(rows.len() == out@.len());
            assert forall|k: int| 0 <= k < rows.len() implies 0 <= (#[trigger] rows[k]).indent
                <= text_wrap::LONG_WORD_INDENT && text::starts_with(
                rows[k].text,
                text::repeated(' ', rows[k].indent as nat),
            ) by {
                if k < before.len() {
                    assert(rows[k] == before[k]);
                } else {
                    assert(rows[k] == more[k - before.len()]);
                }
            }
        }
    }
    out
}

/// Wraps plain text at `width` cells.
pub fn wrap_text(content: &str, width: usize) -> (r: Vec<String>)
    ensures
        r@.len() == text_rows(content@, width as nat).len(),
        forall|k: int|
            0 <= k < r@.len() ==> (#[trigger] r@[k])@ == text_rows(content@, width as nat)[k].text,
{
    let rows = wrap_text_rows(content, width);
    let ghost all = text_rows_of(rows@);
    let mut r: Vec<String> = Vec::new();
    let mut i: usize = 0;
    proof {
        assert(all.len() == rows@.len());
    }
    while i < rows.len()
        invariant
            i <= rows@.len(),
            all == text_rows_of(rows@),
            r@.len() == i,
            forall|k: int| 0 <= k < i ==> (#[trigger] r@[k])@ == all[k].text,
        decreases rows@.len() - i,
    {
        proof {
            assert(all[i as int].text == rows@[i as int].0@);
        }
        r.push(rows[i].0.clone());
        i += 1;
    }
    r
}

/// A text on one line, white space squeezed.
pub fn one_line(content: &str) -> (r: String)
    ensures
        r@ == text::squash(content@),
{
    text::squashed(content)
}

/// The bar in front of every display row of a conversation row.
pub open spec fn bar(selected: bool) -> Ink {
    Ink {
        text: if selected {
            "│"@
        } else {
            " "@
        },
        style: TextStyle::ink(styling::accent_color()),
    }
}

fn bar_span(selected: bool) -> (r: Span)
    ensures
        r@ == bar(selected),
{
    Span::styled(
        if selected {
            "│".to_owned()
        } else {
            " ".to_owned()
        },
        TextStyle::fg(styling::accent()),
    )
}

/// The preview on the header of a collapsed row: its body on one line, cut to
/// the cells behind the title. `rendered` is the body as Markdown.
pub open spec fn preview_of(e: Entry, width: int, rendered: Seq<Strip>) -> Seq<char> {
    if e.expanded || e.kind == EntryKind::ToolCall {
        Seq::empty()
    } else {
        let body = if is_markdown(e.kind) {
            table::preview_text(rendered)
        } else {
            text::squash(e.body)
        };
        cells::elided_end(
            body,
            selection::monus(width, 10int + cells::text_width(e.title)) as nat,
        )
    }
}

/// The header row of a conversation row.
pub open spec fn header_row(e: Entry, width: int, selected: bool, rendered: Seq<Strip>) -> Shown {
    let dimmed = faint(e, selected);
    let (marker, color) = marker_of(e.kind);
    let preview = preview_of(e, width, rendered);
    let spacer = if preview.len() == 0 {
        ""@
    } else {
        "  "@
    };
    Shown {
        line: Strip::of(
            seq![
                bar(selected),
                Ink {
                    text: (if e.expanded {
                        "▾ "@
                    } else {
                        "▸ "@
                    }) + marker + " "@,
                    style: ambient(TextStyle::ink(color), dimmed),
                },
                Ink {
                    text: e.title,
                    style: TextStyle::ink(color).with(
                        if dimmed {
                            styling::DIM
                        } else {
                            styling::BOLD
                        },
                    ),
                },
                Ink { text: spacer, style: TextStyle::bare() },
                Ink { text: preview, style: ambient(TextStyle::ink(Color::Gray), dimmed) },
            ],
        ),
        indent: cells::sat_add(
            if preview.len() == 0 {
                7
            } else {
                9
            },
            cells::text_width(e.title),
        ) as int,
    }
}

/// Cells for the body of an expanded row.
pub open spec fn body_cells(width: int) -> nat {
    if width <= 7 {
        1
    } else {
        (width - 6) as nat
    }
}

/// A body row behind the bar and its indentation.
pub open spec fn body_row(selected: bool, spans: Seq<Ink>, indent: int) -> Shown {
    Shown {
        line: Strip::of(
            seq![bar(selected), Ink { text: "    "@, style: TextStyle::bare() }] + spans,
        ),
        indent: cells::sat_add(5, indent as nat) as int,
    }
}

/// The body rows of an expanded row; `None` when its Markdown cannot be
/// wrapped.
pub open spec fn body_rows(e: Entry, width: int, selected: bool, rendered: Seq<Strip>) -> Option<
    Seq<Shown>,
> {
    let base = ambient(TextStyle::ink(Color::Gray), faint(e, selected));
    if is_markdown(e.kind) {
        match table::document_rows(rendered, 0, None, body_cells(width) as int, base) {
            None => None,
            Some(rows) => Some(
                Seq::new(
                    rows.len(),
                    |i: int| body_row(selected, rows[i].line.spans, rows[i].indent),
                ),
            ),
        }
    } else {
        let rows = text_rows(e.body, body_cells(width));
        Some(
            Seq::new(
                rows.len(),
                |i: int|
                    body_row(
                        selected,
                        seq![Ink { text: rows[i].text, style: base }],
                        rows[i].indent,
                    ),
            ),
        )
    }
}

/// The display rows of a conversation row in a pane of `width` cells.
/// `rendered` is the body as Markdown; for an expanded row with its line
/// breaks kept.
pub open spec fn entry_rows(e: Entry, width: int, selected: bool, rendered: Seq<Strip>) -> Option<
    Seq<Shown>,
> {
    let header = header_row(e, width, selected, rendered);
    if e.expanded {
        match body_rows(e, width, selected, rendered) {
            None => None,
            Some(rows) => Some(seq![header] + rows),
        }
    } else {
        Some(seq![header])
    }
}

fn build_header(
    entry: &ConversationEntry,
    width: usize,
    selected: bool,
    rendered: &Vec<Line>,
) -> (r: StyledRow)
    ensures
        r@ == header_row(entry@, width as int, selected, styling::strips(rendered@)),
{
    let dimmed = is_dimmed(entry, selected);
    let (marker, color) = entry_style(entry.kind);
    let title_width: usize = cells::width_of(entry.title.as_str());
    let preview = if entry.expanded || entry.kind == EntryKind::ToolCall {
        String::new()
    } else {
        let body = if renders_markdown(entry.kind) {
            markdown_preview(rendered)
        } else {
            one_line(entry.body.as_str())
        };
        let fixed: usize = title_width.saturating_add(10);
        elide_end(body.as_str(), width.saturating_sub(fixed))
    };
    proof {
        assert(preview@ =~= preview_of(entry@, width as int, styling::strips(rendered@)));
    }
    let bare = preview.as_str().is_empty();
    let disclosure = if entry.expanded {
        "▾ "
    } else {
        "▸ "
    };
    let mut spans: Vec<Span> = Vec::new();
    spans.push(bar_span(selected));
    spans.push(
        Span::styled(
            text::concat3(disclosure, marker.as_str(), " "),
            dim_ambient(TextStyle::fg(color), dimmed),
        ),
    );
    spans.push(
        Span::styled(
            entry.title.clone(),
            TextStyle::fg(color).add_modifier(
                if dimmed {
                    styling::DIM
                } else {
                    styling::BOLD
                },
            ),
        ),
    );
    spans.push(
        Span::raw(
            if bare {
                "".to_owned()
            } else {
                "  ".to_owned()
            },
        ),
    );
    spans.push(Span::styled(preview, dim_ambient(TextStyle::fg(Color::Gray), dimmed)));
    let lead: usize = if bare {
        7
    } else {
        9
    };
    let indent: usize = lead.saturating_add(title_width);
    proof {
        let want = header_row(entry@, width as int, selected, styling::strips(rendered@));
        assert(styling::inks(spans@) =~= want.line.spans);
    }
    StyledRow { line: Line::from_spans(spans), indent }
}

fn build_body_row(selected: bool, body: &Vec<Span>, indent: usize) -> (r: StyledRow)
    ensures
        r@ == body_row(selected, styling::inks(body@), indent as int),
{
    let mut spans: Vec<Span> = Vec::new();
    spans.push(bar_span(selected));
    spans.push(Span::raw("    ".to_owned()));
    proof {
        assert(styling::inks(spans@) =~= seq![
            bar(selected),
            Ink { text: "    "@, style: TextStyle::bare() },
        ]);
    }
    extend_spans(&mut spans, body);
    let five: usize = 5;
    StyledRow { line: Line::from_spans(spans), indent: five.saturating_add(indent) }
}

fn markdown_body(rows: &Vec<StyledRow>, selected: bool, out: &mut Vec<StyledRow>)
    ensures
        ({
            let shown = markdown::shown_of(rows@);
            markdown::shown_of(final(out)@) == markdown::shown_of(old(out)@) + Seq::new(
                shown.len(),
                |i: int| body_row(selected, shown[i].line.spans, shown[i].indent),
            )
        }),
{
    let ghost shown = markdown::shown_of(rows@);
    let ghost want = Seq::new(
        shown.len(),
        |i: int| body_row(selected, shown[i].line.spans, shown[i].indent),
    );
    let ghost start = markdown::shown_of(out@);
    let mut i: usize = 0;
    proof {
        assert(markdown::shown_of(out@) =~= start + want.take(0));
    }
    while i < rows.len()
        invariant
            i <= rows@.len(),
            shown == markdown::shown_of(rows@),
            shown.len() == rows@.len(),
            want == Seq::new(
                shown.len(),
                |i: int| body_row(selected, shown[i].line.spans, shown[i].indent),
            ),
            markdown::shown_of(out@) == start + want.take(i as int),
        decreases rows@.len() - i,
    {
        let ghost before = out@;
        out.push(build_body_row(selected, &rows[i].line.spans, rows[i].indent));
        proof {
            assert(shown[i as int] == rows@[i as int]@);
            assert(want.take(i + 1) =~= want.take(i as int).push(want[i as int]));
            assert(markdown::shown_of(out@) =~= markdown::shown_of(before).push(want[i as int]));
            assert(markdown::shown_of(out@) =~= start + want.take(i + 1));
        }
        i += 1;
    }
    proof {
        assert(want.take(want.len() as int) =~= want);
    }
}

fn plain_body(rows: &Vec<(String, usize)>, base: TextStyle, selected: bool, out: &mut Vec<StyledRow>)
    ensures
        ({
            let shown = text_rows_of(rows@);
            markdown::shown_of(final(out)@) == markdown::shown_of(old(out)@) + Seq::new(
                shown.len(),
                |i: int|
                    body_row(
                        selected,
                        seq![Ink { text: shown[i].text, style: base }],
                        shown[i].indent,
                    ),
            )
        }),
{
    let ghost shown = text_rows_of(rows@);
    let ghost want = Seq::new(
        shown.len(),
        |i: int|
            body_row(
                selected,
                seq![Ink { text: shown[i].text, style: base }],
                shown[i].indent,
            ),
    );
    let ghost start = markdown::shown_of(out@);
    let mut i: usize = 0;
    proof {
        assert(markdown::shown_of(out@) =~= start + want.take(0));
    }
    while i < rows.len()
        invariant
            i <= rows@.len(),
            shown == text_rows_of(rows@),
            shown.len() == rows@.len(),
            want == Seq::new(
                shown.len(),
                |i: int|
                    body_row(
                        selected,
                        seq![Ink { text: shown[i].text, style: base }],
                        shown[i].indent,
                    ),
            ),
            markdown::shown_of(out@) == start + want.take(i as int),
        decreases rows@.len() - i,
    {
        let ghost before = out@;
        let mut spans: Vec<Span> = Vec::new();
        spans.push(Span::styled(rows[i].0.clone(), base));
        proof {
            assert(shown[i as int].text == rows@[i as int].0@);
            assert(styling::inks(spans@) =~= seq![
                Ink { text: shown[i as int].text, style: base },
            ]);
        }
        out.push(build_body_row(selected, &spans, rows[i].1));
        proof {
            assert(want.take(i + 1) =~= want.take(i as int).push(want[i as int]));
            assert(markdown::shown_of(out@) =~= markdown::shown_of(before).push(want[i as int]));
            assert(markdown::shown_of(out@) =~= start + want.take(i + 1));
        }
        i += 1;
    }
    proof {
        assert(want.take(want.len() as int) =~= want);
    }
}

/// Lays out a conversation row; `None` when its Markdown cannot be wrapped.
pub fn entry_lines(
    entry: &ConversationEntry,
    width: usize,
    selected: bool,
    rendered: &Vec<Line>,
) -> (r: Option<Vec<StyledRow>>)
    ensures
        ({
            let want = entry_rows(entry@, width as int, selected, styling::strips(rendered@));
            &&& r is Some == want is Some
            &&& r matches Some(rows) ==> markdown::shown_of(rows@) == want->0
        }),
{
    let mut out: Vec<StyledRow> = Vec::new();
    out.push(build_header(entry, width, selected, rendered));
    let ghost header = header_row(entry@, width as int, selected, styling::strips(rendered@));
    proof {
        assert(markdown::shown_of(out@) =~= seq![header]);
    }
    if entry.expanded {
        let room: usize = width.saturating_sub(6);
        let body_width: usize = if room < 1 {
            1
        } else {
            room
        };
        let base = dim_ambient(TextStyle::fg(Color::Gray), is_dimmed(entry, selected));
        if renders_markdown(entry.kind) {
            match wrap_markdown_lines(rendered, body_width, base) {
                None => {
                    return None;
                },
                Some(rows) => {
                    markdown_body(&rows, selected, &mut out);
                },
            }
        } else {
            let rows = wrap_text_rows(entry.body.as_str(), body_width);
            plain_body(&rows, base, selected, &mut out);
        }
    }
    Some(out)
}

/// Bytes a text takes.
pub open spec fn byte_len(s: Seq<char>) -> usize {
    vstd::utf8::encode_utf8(s).len() as usize
}

/// What the layout of a row depends on, as it is now.
pub open spec fn layout_key(e: Entry, width: usize, selected: bool) -> LayoutKey {
    LayoutKey {
        width,
        expanded: e.expanded,
        selected,
        dimmed: faint(e, selected),
        title_len: byte_len(e.title),
        body_len: byte_len(e.body),
    }
}

proof fn lemma_lines_rows_apart(a: Seq<Seq<char>>, b: Seq<Seq<char>>, n: int, width: nat)
    requires
        0 <= n <= b.len(),
    ensures
        lines_rows(a + b, a.len() + n, width) == lines_rows(a, a.len() as int, width) + lines_rows(
            b,
            n,
            width,
        ),
    decreases n,
{
    if n > 0 {
        lemma_lines_rows_apart(a, b, n - 1, width);
        assert((a + b)[a.len() + n - 1] == b[n - 1]);
        assert(lines_rows(a + b, a.len() + n, width) =~= lines_rows(a, a.len() as int, width)
            + lines_rows(b, n, width));
    } else {
        lemma_lines_rows_prefix(a, b, a.len() as int, width);
        assert(lines_rows(a, a.len() as int, width) + lines_rows(b, 0, width) =~= lines_rows(
            a,
            a.len() as int,
            width,
        ));
    }
}

proof fn lemma_lines_rows_prefix(a: Seq<Seq<char>>, b: Seq<Seq<char>>, n: int, width: nat)
    requires
        n <= a.len(),
    ensures
        lines_rows(a + b, n, width) == lines_rows(a, n, width),
    decreases n,
{
    if n > 0 {
        lemma_lines_rows_prefix(a, b, n - 1, width);
    }
}

/// Text wraps line by line: the rows of two texts with a line break between
/// them are the rows of the one and then the rows of the other.
pub proof fn lines_wrap_on_their_own(a: Seq<char>, b: Seq<char>, width: nat)
    ensures
        text_rows(a.push('\n') + b, width) == text_rows(a, width) + text_rows(b, width),
{
    text::lemma_split_around(a, b, '\n');
    let after = text::split(b, '\n');
    lemma_lines_rows_apart(text::split(a, '\n'), after, after.len() as int, width);
}

proof fn lemma_longer(s: Seq<char>, more: Seq<char>)
    requires
        vstd::utf8::encode_utf8(s + more).len() <= usize::MAX,
        byte_len(s + more) == byte_len(s),
    ensures
        s + more == s,
{
    markdown::lemma_encode_append(s, more);
    if more.len() > 0 {
        assert(vstd::utf8::encode_utf8(more).len() > 0);
    } else {
        assert(s + more =~= s);
    }
}

/// The lengths in a key are sound: a row whose title and body have only been
/// added to, and whose key is unchanged, still holds the text that was laid
/// out.
pub proof fn unchanged_keys_mean_unchanged_text(
    before: Entry,
    after: Entry,
    title: Seq<char>,
    body: Seq<char>,
    width: usize,
    selected: bool,
)
    requires
        after.title == before.title + title,
        after.body == before.body + body,
        vstd::utf8::encode_utf8(after.title).len() <= usize::MAX,
        vstd::utf8::encode_utf8(after.body).len() <= usize::MAX,
        layout_key(after, width, selected) == layout_key(before, width, selected),
    ensures
        after.title == before.title,
        after.body == before.body,
        after.expanded == before.expanded,
{
    lemma_longer(before.title, title);
    lemma_longer(before.body, body);
}

fn key_of(entry: &ConversationEntry, width: usize, selected: bool) -> (r: LayoutKey)
    ensures
        r == layout_key(entry@, width, selected),
{
    LayoutKey {
        width,
        expanded: entry.expanded,
        selected,
        dimmed: is_dimmed(entry, selected),
        title_len: entry.title.as_str().as_bytes().len(),
        body_len: entry.body.as_str().as_bytes().len(),
    }
}

/// Whether a row has been laid out since anything its layout depends on
/// changed.
pub open spec fn is_fresh(entry: ConversationEntry, width: usize, selected: bool) -> bool {
    entry.layout matches Some(l) && l.key == layout_key(entry@, width, selected)
}

/// Whether the cached layout of a row can be kept.
pub fn layout_is_fresh(entry: &ConversationEntry, width: usize, selected: bool) -> (r: bool)
    ensures
        r == is_fresh(*entry, width, selected),
{
    match &entry.layout {
        Some(layout) => layout.key == key_of(entry, width, selected),
        None => false,
    }
}

/// Rebuilds the cached layout of a row if anything it depends on changed.
/// False, with the row unchanged, when its Markdown cannot be wrapped.
pub fn ensure_entry_layout(
    entry: &mut ConversationEntry,
    width: usize,
    selected: bool,
    rendered: &Vec<Line>,
) -> (r: bool)
    ensures
        final(entry)@ == old(entry)@,
        ({
            let rows = entry_rows(old(entry)@, width as int, selected, styling::strips(rendered@));
            if is_fresh(*old(entry), width, selected) {
                r && *final(entry) == *old(entry)
            } else if rows is Some {
                &&& r
                &&& final(entry).layout is Some
                &&& final(entry).layout->0.key == layout_key(old(entry)@, width, selected)
                &&& markdown::shown_of(final(entry).layout->0.rows@) == rows->0
            } else {
                !r && *final(entry) == *old(entry)
            }
        }),
{
    if layout_is_fresh(entry, width, selected) {
        return true;
    }
    match entry_lines(entry, width, selected, rendered) {
        None => false,
        Some(rows) => {
            let key = key_of(entry, width, selected);
            entry.layout = Some(EntryLayout { key, rows });
            true
        },
    }
}

} // verus!
