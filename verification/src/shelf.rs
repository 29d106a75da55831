//! The frame around the conversation: header, agents drawer and message
//! shelf.

use crate::app;
use crate::app::{find_model, App, NoticeKind, Suggestion};
use crate::cells;
use crate::cells::{elide_end, elide_middle, to_u16};
use crate::desk;
use crate::desk::{Desk, Focus, Hint};
use crate::entry_view::one_line;
use crate::selection;
use crate::selection::Rect;
use crate::styling;
use crate::styling::{Color, Ink, Line, Span, Strip, TextStyle};
use crate::text;
use crate::transcript;
use vstd::prelude::*;
use vstd::string::*;

verus! {

/// Rows of the shelf that list messages awaiting delivery.
pub const MAX_PENDING_STEER_ROWS: usize = 3;

/// Columns left free on each side of the agents drawer.
pub const AGENTS_DRAWER_INSET: u16 = 2;

/// The narrowest and lowest area in which the interface is drawn.
pub const MIN_WIDTH: u16 = 24;

pub const MIN_HEIGHT: u16 = 6;

/// The sum of the first `n` heights.
pub open spec fn sum_of(heights: Seq<u16>, n: int) -> int
    decreases n,
{
    if n <= 0 {
        0
    } else {
        sum_of(heights, n - 1) + heights[n - 1]
    }
}

/// Whether an area has room for the rows above and below, and for one between
/// them.
pub open spec fn has_room(area: Rect, above: Seq<u16>, below: Seq<u16>) -> bool {
    &&& area.y + area.height <= u16::MAX
    &&& sum_of(above, above.len() as int) + 1 + sum_of(below, below.len() as int) <= area.height
}

/// Row `i` of an area that is divided from top to bottom into the rows above,
/// one that takes what is left, and the rows below.
pub open spec fn stacked(area: Rect, above: Seq<u16>, below: Seq<u16>, i: int) -> Rect {
    let top = sum_of(above, above.len() as int);
    let bottom = sum_of(below, below.len() as int);
    let k = i - above.len() - 1;
    if i < above.len() {
        Rect { y: (area.y + sum_of(above, i)) as u16, height: above[i], ..area }
    } else if k < 0 {
        Rect { y: (area.y + top) as u16, height: (area.height - top - bottom) as u16, ..area }
    } else {
        Rect {
            y: (area.y + area.height - bottom + sum_of(below, k)) as u16,
            height: below[k],
            ..area
        }
    }
}

/// `ratatui::layout::Layout::vertical`: rows of the given heights, between
/// those above and those below one that takes what is left. There is one area
/// for each row, and each keeps the columns of `area`. Where there is room,
/// the rows have their heights and follow one another from the top to the
/// bottom of `area`. How a height is shared out that is too small is the
/// solver's choice and is not stated.
#[verifier::external_body]
fn stack(area: Rect, above: &Vec<u16>, below: &Vec<u16>) -> (r: Vec<Rect>)
    ensures
        r@.len() == above@.len() + 1 + below@.len(),
        forall|i: int|
            0 <= i < r@.len() ==> (#[trigger] r@[i]).x == area.x && r@[i].width == area.width,
        has_room(area, above@, below@) ==> forall|i: int|
            0 <= i < r@.len() ==> #[trigger] r@[i] == stacked(area, above@, below@, i),
{
    let mut rows: Vec<ratatui::layout::Constraint> = Vec::new();
    rows.extend(above.iter().map(|n| ratatui::layout::Constraint::Length(*n)));
    rows.push(ratatui::layout::Constraint::Min(1));
    rows.extend(below.iter().map(|n| ratatui::layout::Constraint::Length(*n)));
    let Rect { x, y, width, height } = area;
    let whole = ratatui::layout::Rect { x, y, width, height };
    ratatui::layout::Layout::vertical(rows).split(whole).iter()
        .map(|r| Rect { x: r.x, y: r.y, width: r.width, height: r.height })
        .collect()
}

/// The smaller of a number and a bound, at least `low`.
pub open spec fn clamped(n: int, low: int, high: int) -> int {
    if n < low {
        low
    } else if n > high {
        high
    } else {
        n
    }
}

fn clamp(n: usize, low: usize, high: usize) -> (r: usize)
    ensures
        r == clamped(n as int, low as int, high as int),
{
    if n < low {
        low
    } else if n > high {
        high
    } else {
        n
    }
}

/// Cells for the text of the input: the prompt and the margin take four.
pub open spec fn input_cells(width: u16) -> int {
    if width <= 5 {
        1
    } else {
        width - 4
    }
}

pub fn input_text_width(area_width: u16) -> (r: usize)
    ensures
        r == input_cells(area_width),
{
    let room: u16 = area_width.saturating_sub(4);
    if room < 1 {
        1
    } else {
        room as usize
    }
}

/// Two fifths of the height, at least three rows.
pub open spec fn two_fifths(height: u16) -> int {
    transcript::most((height * 2) / 5, 3)
}

fn share_of(height: u16) -> (r: usize)
    ensures
        r == two_fifths(height),
{
    let rows: usize = (height as usize) * 2 / 5;
    if rows < 3 {
        3
    } else {
        rows
    }
}

/// A number of rows as a height.
pub open spec fn as_height(rows: int) -> u16 {
    selection::least(rows, u16::MAX as int) as u16
}

/// Height of the agents drawer: room for the open palette or, collapsed, for
/// one line.
pub open spec fn drawer_height(area: Rect, open: bool, collapsed: bool, rows: int) -> u16 {
    if open {
        let maximum = selection::least(
            selection::monus(area.height as int, 6),
            two_fifths(area.height),
        );
        as_height(clamped(transcript::most(rows, 1) + 1, 2, transcript::most(maximum, 2)))
    } else if collapsed {
        2
    } else {
        0
    }
}

/// How many provider headings the first `n` palette rows need, and the
/// provider of the last row that has one.
pub open spec fn provider_runs(hints: Seq<Hint>, n: int) -> (int, Option<Seq<char>>)
    decreases n,
{
    if n <= 0 {
        (0, None)
    } else {
        let (count, last) = provider_runs(hints, n - 1);
        match hints[n - 1].provider {
            None => (count, last),
            Some(p) => (
                if last == Some(p) {
                    count
                } else {
                    count + 1
                },
                Some(p),
            ),
        }
    }
}

/// Rows of the open palette in the shelf; the agents palette has its own
/// drawer.
pub open spec fn palette_rows(desk: Desk, hints: Seq<Hint>) -> int {
    if desk.agents_open() {
        0
    } else {
        hints.len() + provider_runs(hints, hints.len() as int).0
    }
}

/// Whether an advisory line is due.
pub open spec fn has_notice(desk: Desk) -> bool {
    desk.deadline is Some || desk.notice is Some || desk.session_open()
}

pub open spec fn has_warning(desk: Desk) -> bool {
    desk.deadline is Some || desk.notice is Some
}

/// One as a number of rows.
pub open spec fn one_if(b: bool) -> int {
    if b {
        1
    } else {
        0
    }
}

/// Height of the message shelf: its border, the input, pending messages, the
/// palette and the advisory line, within two fifths of the area.
pub open spec fn shelf_rows(area: Rect, desk: Desk, hints: Seq<Hint>) -> u16 {
    let input = desk.input.rows(input_cells(area.width) as nat).len();
    let wanted = 1 + input + selection::least(
        desk.steers.len() as int,
        MAX_PENDING_STEER_ROWS as int,
    ) + palette_rows(desk, hints) + one_if(has_notice(desk));
    as_height(clamped(wanted, 2, two_fifths(area.height)))
}

/// `area` without `cols` columns on each side, or half its width.
pub open spec fn inset(area: Rect, cols: u16) -> Rect {
    let n = selection::least(cols as int, (area.width / 2) as int);
    Rect {
        x: selection::least(area.x + n, u16::MAX as int) as u16,
        width: (area.width - 2 * n) as u16,
        ..area
    }
}

pub fn inset_rect(area: Rect, cols: u16) -> (r: Rect)
    ensures
        r == inset(area, cols),
{
    let half: u16 = area.width / 2;
    let n: u16 = if cols < half {
        cols
    } else {
        half
    };
    Rect {
        x: area.x.saturating_add(n),
        y: area.y,
        width: area.width - n * 2,
        height: area.height,
    }
}

/// `area` below a border along its top.
pub open spec fn below_border(area: Rect) -> Rect {
    let bottom = selection::least(area.y + area.height, u16::MAX as int);
    Rect {
        y: selection::least(
            selection::least(area.y + 1, u16::MAX as int),
            bottom,
        ) as u16,
        height: selection::monus(area.height as int, 1) as u16,
        ..area
    }
}

pub fn under_border(area: Rect) -> (r: Rect)
    ensures
        r == below_border(area),
{
    let bottom: u16 = area.y.saturating_add(area.height);
    let next: u16 = area.y.saturating_add(1);
    Rect {
        x: area.x,
        y: if next < bottom {
            next
        } else {
            bottom
        },
        width: area.width,
        height: area.height.saturating_sub(1),
    }
}

/// `area` within a frame that is open at the bottom.
pub open spec fn within_frame(area: Rect) -> Rect {
    let right = selection::least(area.x + area.width, u16::MAX as int);
    let moved = Rect {
        x: selection::least(selection::least(area.x + 1, u16::MAX as int), right) as u16,
        width: selection::monus(area.width as int, 2) as u16,
        ..area
    };
    below_border(moved)
}

pub fn inside_frame(area: Rect) -> (r: Rect)
    ensures
        r == within_frame(area),
{
    let right: u16 = area.x.saturating_add(area.width);
    let next: u16 = area.x.saturating_add(1);
    under_border(
        Rect {
            x: if next < right {
                next
            } else {
                right
            },
            y: area.y,
            width: area.width.saturating_sub(1).saturating_sub(1),
            height: area.height,
        },
    )
}

/// The area of a toast: the top right corner of the conversation.
pub open spec fn toast_rect(area: Rect, content: Seq<char>) -> Rect {
    let wide = selection::least(
        selection::least(
            transcript::most(cells::text_width(" "@ + content + " "@) as int, 4),
            u16::MAX as int,
        ),
        area.width as int,
    );
    Rect {
        x: selection::monus(
            selection::least(area.x + area.width, u16::MAX as int),
            wide,
        ) as u16,
        y: area.y,
        width: wide as u16,
        height: selection::least(area.height as int, 1) as u16,
    }
}

/// Where and what a toast shows.
pub fn toast_panel(area: Rect, content: &str) -> (r: (Rect, String))
    ensures
        r.0 == toast_rect(area, content@),
        r.1@ == " "@ + content@ + " "@,
{
    let shown = text::concat3(" ", content, " ");
    let measured: usize = cells::width_of(shown.as_str());
    let wanted: u16 = to_u16(
        if measured < 4 {
            4
        } else {
            measured
        },
    );
    let width: u16 = if wanted < area.width {
        wanted
    } else {
        area.width
    };
    (
        Rect {
            x: area.x.saturating_add(area.width).saturating_sub(width),
            y: area.y,
            width,
            height: if area.height < 1 {
                area.height
            } else {
                1
            },
        },
        shown,
    )
}

/// The name of the model that drives the viewed agent: its display name when
/// it is configured, its id otherwise, and a dash when it is not known.
pub open spec fn header_model(desk: Desk) -> Seq<char> {
    let root = desk.current == desk::root();
    let id = if root {
        Some(desk.models[desk.selected_model].registry_id@)
    } else {
        desk.conv.model
    };
    match id {
        None => "—"@,
        Some(id) => match desk::model_index(desk.models, 0, id) {
            Some(i) => desk.models[i].display_name@,
            None => id,
        },
    }
}

/// The effort that the header shows.
pub open spec fn header_effort(desk: Desk) -> Seq<char> {
    let index = if desk.current == desk::root() {
        Some(desk.selected_model)
    } else if desk.conv.model is Some {
        desk::model_index(desk.models, 0, desk.conv.model->0)
    } else {
        None
    };
    match index {
        Some(i) => desk.models[i].efforts@[desk.efforts[i] as int]@,
        None => "—"@,
    }
}

/// The right side of the header.
pub open spec fn header_right(desk: Desk) -> Seq<char> {
    desk.current + "  ·  "@ + header_model(desk) + "  ·  "@ + header_effort(desk)
        + " effort  ·  #"@ + text::decimal(desk.session_id as nat) + "  ·  "@ + desk.conv.status
}

/// The left side of the header: the directory, cut in its middle to what the
/// right side leaves.
pub open spec fn header_left(desk: Desk, width: u16) -> Seq<char> {
    cells::elided_middle(
        desk.cwd,
        selection::monus(
            width as int,
            cells::text_width(header_right(desk)) + 10int,
        ) as nat,
    )
}

/// The percentage and thousands of tokens of the context that are used.
pub open spec fn context_note(consumed: u64, window: u64) -> Seq<char> {
    let used = selection::least(consumed as int, window as int);
    let percent = selection::least(used * 100, u64::MAX as int) / (window as int);
    "("@ + text::decimal(percent as nat) + "% · "@ + text::decimal(
        (selection::least(used + 500, u64::MAX as int) / 1000) as nat,
    ) + "k/"@ + text::decimal(
        (selection::least(window + 500, u64::MAX as int) / 1000) as nat,
    ) + "k) "@
}

/// The context window of the model that drives the viewed agent.
pub open spec fn window_of(desk: Desk) -> u64 {
    let id = if desk.current == desk::root() {
        Some(desk.models[desk.selected_model].registry_id@)
    } else {
        desk.conv.model
    };
    let found = match id {
        Some(id) => desk::model_index(desk.models, 0, id),
        None => None,
    };
    match found {
        Some(i) => desk.models[i].context_window,
        None => desk.models[desk.selected_model].context_window,
    }
}

/// The title of the message shelf.
pub open spec fn shelf_title(desk: Desk) -> Seq<char> {
    let label = if desk.busy {
        " working "@
    } else {
        " message "@
    };
    match desk.conv.context_tokens {
        Some(consumed) => if window_of(desk) > 0 {
            label + context_note(consumed, window_of(desk))
        } else {
            label
        },
        None => label,
    }
}

fn context_text(consumed: u64, window: u64) -> (r: String)
    requires
        window > 0,
    ensures
        r@ == context_note(consumed, window),
{
    let used: u64 = if consumed < window {
        consumed
    } else {
        window
    };
    let hundredfold: u64 = match used.checked_mul(100) {
        Some(n) => n,
        None => u64::MAX,
    };
    let percent: u64 = hundredfold / window;
    let mut r = "(".to_owned();
    r.append(text::decimal_text(percent).as_str());
    r.append("% · ");
    r.append(text::decimal_text(used.saturating_add(500) / 1000).as_str());
    r.append("k/");
    r.append(text::decimal_text(window.saturating_add(500) / 1000).as_str());
    r.append("k) ");
    r
}

/// How the inside of the shelf is shared out, by priority: a pending
/// confirmation, the input, other notices, pending messages, the palette.
#[derive(Clone, Copy, Debug, PartialEq, Eq, Structural)]
pub struct ShelfHeights {
    pub palette: usize,
    pub steers: usize,
    pub notice: usize,
    pub input: usize,
}

pub open spec fn shelf_heights(desk: Desk, inner: Rect) -> ShelfHeights {
    let height = inner.height as int;
    let rows = desk.input.rows(input_cells(inner.width) as nat).len() as int;
    let warning = selection::least(one_if(has_warning(desk)), height);
    let left = height - warning;
    let input = clamped(rows, 1, transcript::most(left, 1));
    let left = selection::monus(left, input);
    let notice = if warning > 0 {
        warning
    } else {
        selection::least(one_if(has_notice(desk)), left)
    };
    let left = selection::monus(left, notice);
    let steers = selection::least(
        selection::least(desk.steers.len() as int, MAX_PENDING_STEER_ROWS as int),
        left,
    );
    let left = selection::monus(left, steers);
    ShelfHeights {
        palette: (if desk.agents_open() {
            0
        } else {
            left
        }) as usize,
        steers: steers as usize,
        notice: notice as usize,
        input: input as usize,
    }
}

/// A pending confirmation stays visible: while one is armed the shelf keeps a
/// row for it, however low it is, and that row shows no hint.
pub proof fn warnings_stay_visible(desk: Desk, inner: Rect)
    requires
        has_warning(desk),
        inner.height >= 1,
    ensures
        shelf_heights(desk, inner).notice == 1,
        notice_of(desk) == Some(
            notice_line(
                if desk.deadline is Some {
                    "Press Esc again to stop the current run"@
                } else {
                    desk.notice->0
                },
                NoticeKind::Warning,
            ),
        ),
{
}

/// First visible row of an input of `rows` rows that has `height` rows to
/// show and the caret on row `caret`.
pub open spec fn input_scroll_of(rows: int, height: int, caret: int) -> int {
    if rows > height {
        selection::least(
            selection::monus(caret, selection::monus(height, 1)),
            rows - height,
        )
    } else {
        0
    }
}

/// The caret of a scrolled input is visible, and no row is scrolled away that
/// could be shown.
pub proof fn caret_stays_visible(rows: int, height: int, caret: int)
    requires
        0 <= caret < rows,
        height >= 1,
    ensures
        input_scroll_of(rows, height, caret) <= caret < input_scroll_of(rows, height, caret)
            + height,
        0 <= input_scroll_of(rows, height, caret) <= selection::monus(rows, height),
{
}

/// What the message shelf shows.
#[derive(Debug)]
pub struct ShelfView {
    pub title: String,
    /// Whether the shelf has the focus.
    pub focused: bool,
    pub palette_area: Rect,
    pub palette: Option<PaletteView>,
    pub steer_area: Rect,
    pub steers: Vec<Line>,
    pub notice_area: Rect,
    pub notice: Option<Line>,
    pub input_area: Rect,
    pub input: Vec<Line>,
    /// Screen column and row of the caret.
    pub cursor: Option<(u16, u16)>,
}

/// The rows of a palette and how many of them are scrolled away.
#[derive(Debug)]
pub struct PaletteView {
    pub lines: Vec<Line>,
    pub scroll: u16,
}

fn push_span(spans: &mut Vec<Span>, content: String, style: TextStyle)
    ensures
        styling::inks(final(spans)@) == styling::inks(old(spans)@).push(
            Ink { text: content@, style },
        ),
{
    let ghost before = spans@;
    let span = Span::styled(content, style);
    let ghost ink = span@;
    spans.push(span);
    proof {
        assert(styling::inks(spans@) =~= styling::inks(before).push(ink));
    }
}

fn no_spans() -> (r: Vec<Span>)
    ensures
        styling::inks(r@) == Seq::<Ink>::empty(),
{
    let r: Vec<Span> = Vec::new();
    proof {
        assert(styling::inks(r@) =~= Seq::<Ink>::empty());
    }
    r
}

fn push_line(lines: &mut Vec<Line>, line: Line)
    ensures
        styling::strips(final(lines)@) == styling::strips(old(lines)@).push(line@),
{
    let ghost before = lines@;
    let ghost strip = line@;
    lines.push(line);
    proof {
        assert(styling::strips(lines@) =~= styling::strips(before).push(strip));
    }
}

fn no_lines() -> (r: Vec<Line>)
    ensures
        styling::strips(r@) == Seq::<Strip>::empty(),
{
    let r: Vec<Line> = Vec::new();
    proof {
        assert(styling::strips(r@) =~= Seq::<Strip>::empty());
    }
    r
}

/// One pending message.
pub open spec fn steer_line(message: Seq<char>, width: int) -> Strip {
    let yellow = TextStyle::ink(Color::Yellow);
    Strip::of(
        seq![
            Ink { text: "   "@, style: yellow },
            Ink { text: "pending steer"@, style: yellow.with(styling::BOLD) },
            Ink { text: "  "@, style: yellow },
            Ink {
                text: cells::elided_end(
                    text::squash(message),
                    selection::monus(
                        width,
                        cells::text_width("   pending steer  "@) as int,
                    ) as nat,
                ),
                style: TextStyle::ink(Color::Gray),
            },
        ],
    )
}

/// How many of the pending messages are listed in `capacity` rows: when they
/// do not fit, the last row tells how many are missing.
pub open spec fn steers_shown(pending: int, capacity: int) -> int {
    if pending > capacity {
        selection::monus(capacity, 1)
    } else {
        pending
    }
}

/// The rows that list the pending messages.
pub open spec fn steer_lines(steers: Seq<desk::Steer>, area: Rect) -> Seq<Strip> {
    let shown = steers_shown(steers.len() as int, area.height as int);
    let rows = Seq::new(
        shown as nat,
        |i: int| steer_line(steers[i].text, area.width as int),
    );
    if steers.len() > shown {
        rows.push(
            Strip::of(
                seq![
                    Ink {
                        text: "   +"@ + text::decimal((steers.len() - shown) as nat)
                            + " more queued"@,
                        style: TextStyle::ink(Color::Yellow),
                    },
                ],
            ),
        )
    } else {
        rows
    }
}

fn build_steer(message: &str, width: u16) -> (r: Line)
    ensures
        r@ == steer_line(message@, width as int),
{
    let yellow = TextStyle::fg(Color::Yellow);
    let prefix: usize = cells::width_of("   pending steer  ");
    let room: usize = (width as usize).saturating_sub(prefix);
    let mut spans = no_spans();
    push_span(&mut spans, "   ".to_owned(), yellow);
    push_span(&mut spans, "pending steer".to_owned(), yellow.add_modifier(styling::BOLD));
    push_span(&mut spans, "  ".to_owned(), yellow);
    push_span(
        &mut spans,
        elide_end(one_line(message).as_str(), room),
        TextStyle::fg(Color::Gray),
    );
    proof {
        assert(styling::inks(spans@) =~= steer_line(message@, width as int).spans);
    }
    Line::from_spans(spans)
}

/// The spinner frames of a live run, one every 80 ms.
pub open spec fn spinner_frames() -> Seq<char> {
    seq!['⠋', '⠙', '⠹', '⠸', '⠼', '⠴', '⠦', '⠧', '⠇', '⠏']
}

/// The spinner frame at `millis` milliseconds.
pub fn agent_spinner_frame(millis: u64) -> (r: char)
    ensures
        r == spinner_frames()[((millis / 80) % 10) as int],
{
    let frames: [char; 10] = ['⠋', '⠙', '⠹', '⠸', '⠼', '⠴', '⠦', '⠧', '⠇', '⠏'];
    proof {
        assert(frames@ =~= spinner_frames());
    }
    frames[((millis / 80) % 10) as usize]
}

/// The label with its first live marker replaced by the spinner.
pub open spec fn spun(label: Seq<char>, spinner: char) -> Seq<char> {
    let at = text::index_from(label, 0, '●');
    if at < label.len() {
        label.update(at, spinner)
    } else {
        label
    }
}

fn spin(label: &str, spinner: char) -> (r: String)
    ensures
        r@ == spun(label@, spinner),
{
    let chars = text::chars_of(label);
    let mut r = String::new();
    let mut done = false;
    let mut i: usize = 0;
    proof {
        text::lemma_index_from(label@, 0, '●');
    }
    let ghost at = text::index_from(label@, 0, '●');
    while i < chars.len()
        invariant
            i <= chars@.len(),
            chars@ == label@,
            at == text::index_from(label@, 0, '●'),
            0 <= at <= label@.len(),
            forall|k: int| 0 <= k < at ==> #[trigger] label@[k] != '●',
            at < label@.len() ==> label@[at] == '●',
            done == (at < i),
            r@ == spun(label@, spinner).take(i as int),
        decreases chars@.len() - i,
    {
        let ghost want = spun(label@, spinner);
        proof {
            assert(want.take(i + 1) =~= want.take(i as int).push(want[i as int]));
        }
        if !done && chars[i] == '●' {
            r.push(spinner);
            done = true;
        } else {
            r.push(chars[i]);
        }
        i += 1;
    }
    proof {
        assert(spun(label@, spinner).take(label@.len() as int) =~= spun(label@, spinner));
    }
    r
}

/// The style of a palette row.
pub open spec fn hint_style(hint: Hint, selected: bool) -> TextStyle {
    if selected {
        TextStyle { bg: Some(styling::accent_color()), ..TextStyle::ink(Color::Black) }
    } else if hint.running {
        TextStyle::ink(styling::accent_color())
    } else {
        TextStyle::ink(Color::White)
    }
}

/// One palette row.
pub open spec fn hint_line(hint: Hint, selected: bool, width: int, spinner: char) -> Strip {
    let style = hint_style(hint, selected);
    let label = if hint.running {
        spun(hint.label, spinner)
    } else {
        hint.label
    };
    Strip {
        style,
        spans: seq![
            Ink {
                text: if selected {
                    " › "@
                } else {
                    "   "@
                },
                style,
            },
            Ink { text: label, style: style.with(styling::BOLD) },
            Ink { text: "  "@, style },
            Ink {
                text: cells::elided_end(
                    hint.detail,
                    selection::monus(width, 6int + cells::text_width(label)) as nat,
                ),
                style,
            },
        ],
    }
}

/// The heading in front of palette row `i`: its provider, when it differs
/// from that of the row before.
pub open spec fn hint_heading(hints: Seq<Hint>, i: int) -> Seq<Strip> {
    let before = if i > 0 {
        hints[i - 1].provider
    } else {
        None
    };
    match hints[i].provider {
        Some(p) => if before == Some(p) {
            Seq::empty()
        } else {
            seq![
                Strip::of(
                    seq![
                        Ink {
                            text: "   "@ + p,
                            style: TextStyle::ink(styling::dim_color()).with(styling::BOLD),
                        },
                    ],
                ),
            ]
        },
        None => Seq::empty(),
    }
}

/// The lines of the first `n` palette rows.
pub open spec fn palette_lines(
    hints: Seq<Hint>,
    n: int,
    selected: int,
    width: int,
    spinner: char,
) -> Seq<Strip>
    decreases n,
{
    if n <= 0 {
        Seq::empty()
    } else {
        (palette_lines(hints, n - 1, selected, width, spinner) + hint_heading(hints, n - 1)).push(
            hint_line(hints[n - 1], n - 1 == selected, width, spinner),
        )
    }
}

/// The line of palette row `i`.
pub open spec fn hint_row(
    hints: Seq<Hint>,
    i: int,
    selected: int,
    width: int,
    spinner: char,
) -> int {
    palette_lines(hints, i + 1, selected, width, spinner).len() - 1
}

fn build_hint(hint: &Suggestion, selected: bool, width: u16, spinner: char) -> (r: Line)
    ensures
        r@ == hint_line(hint@, selected, width as int, spinner),
{
    let mut style = if selected {
        TextStyle::fg(Color::Black)
    } else if hint.running {
        TextStyle::fg(styling::accent())
    } else {
        TextStyle::fg(Color::White)
    };
    if selected {
        style.bg = Some(styling::accent());
    }
    let label = if hint.running {
        spin(hint.label.as_str(), spinner)
    } else {
        hint.label.clone()
    };
    let taken: usize = cells::width_of(label.as_str()).saturating_add(6);
    let room: usize = (width as usize).saturating_sub(taken);
    let detail = elide_end(hint.detail.as_str(), room);
    let mut spans = no_spans();
    push_span(
        &mut spans,
        if selected {
            " › ".to_owned()
        } else {
            "   ".to_owned()
        },
        style,
    );
    push_span(&mut spans, label, style.add_modifier(styling::BOLD));
    push_span(&mut spans, "  ".to_owned(), style);
    push_span(&mut spans, detail, style);
    proof {
        assert(styling::inks(spans@) =~= hint_line(hint@, selected, width as int, spinner).spans);
    }
    Line { style, spans }
}

/// Whether the provider heading is repeated.
fn same_provider(a: &Option<String>, b: &Option<String>) -> (r: bool)
    ensures
        r == (text::opt_text(*a) == text::opt_text(*b)),
{
    match (a, b) {
        (Some(a), Some(b)) => text::same(a.as_str(), b.as_str()),
        (None, None) => true,
        _ => false,
    }
}

/// The lines of a palette, scrolled so that the selected row is visible.
/// `None` when there is no such row.
pub fn palette_view(
    suggestions: &Vec<Suggestion>,
    selected: usize,
    area: Rect,
    spinner: char,
) -> (r: Option<PaletteView>)
    ensures
        r is Some == (selected < suggestions@.len()),
        r matches Some(view) ==> {
            let hints = app::hints_of(suggestions@);
            &&& styling::strips(view.lines@) == palette_lines(
                hints,
                hints.len() as int,
                selected as int,
                area.width as int,
                spinner,
            )
            &&& view.scroll == as_height(
                selection::monus(
                    hint_row(
                        hints,
                        selected as int,
                        selected as int,
                        area.width as int,
                        spinner,
                    ),
                    selection::monus(area.height as int, 1),
                ),
            )
        },
{
    if selected >= suggestions.len() {
        return None;
    }
    let ghost hints = app::hints_of(suggestions@);
    let mut lines = no_lines();
    let mut at: usize = 0;
    let mut i: usize = 0;
    proof {
        assert(hints.len() == suggestions@.len());
    }
    while i < suggestions.len()
        invariant
            i <= suggestions@.len(),
            hints == app::hints_of(suggestions@),
            hints.len() == suggestions@.len(),
            styling::strips(lines@) == palette_lines(
                hints,
                i as int,
                selected as int,
                area.width as int,
                spinner,
            ),
            lines@.len() == styling::strips(lines@).len(),
            i > selected ==> at == hint_row(
                hints,
                selected as int,
                selected as int,
                area.width as int,
                spinner,
            ),
        decreases suggestions@.len() - i,
    {
        proof {
            assert(hints[i as int] == suggestions@[i as int]@);
            if i > 0 {
                assert(hints[i - 1] == suggestions@[i - 1]@);
            }
        }
        let repeated = if i > 0 {
            same_provider(&suggestions[i - 1].provider, &suggestions[i].provider)
        } else {
            suggestions[i].provider.is_none()
        };
        let ghost before = styling::strips(lines@);
        if !repeated {
            if let Some(provider) = &suggestions[i].provider {
                let mut spans = no_spans();
                push_span(
                    &mut spans,
                    text::concat("   ", provider.as_str()),
                    TextStyle::fg(styling::dim()).add_modifier(styling::BOLD),
                );
                proof {
                    assert(styling::inks(spans@) =~= hint_heading(hints, i as int)[0].spans);
                }
                push_line(&mut lines, Line::from_spans(spans));
            }
        }
        proof {
            assert(styling::strips(lines@) =~= before + hint_heading(hints, i as int));
            assert(lines@.len() == styling::strips(lines@).len());
        }
        if i == selected {
            at = lines.len();
        }
        push_line(
            &mut lines,
            build_hint(&suggestions[i], i == selected, area.width, spinner),
        );
        proof {
            assert(lines@.len() == styling::strips(lines@).len());
        }
        i += 1;
    }
    let height: usize = area.height as usize;
    let scroll: u16 = to_u16(at.saturating_sub(height.saturating_sub(1)));
    Some(PaletteView { lines, scroll })
}

/// The advisory line.
pub open spec fn notice_line(content: Seq<char>, kind: NoticeKind) -> Strip {
    match kind {
        NoticeKind::Warning => Strip::of(
            seq![
                Ink { text: "   ! "@, style: TextStyle::ink(Color::Yellow).with(styling::BOLD) },
                Ink { text: content, style: TextStyle::ink(Color::Yellow) },
            ],
        ),
        NoticeKind::Hint => Strip::of(
            seq![Ink { text: "   "@ + content, style: TextStyle::ink(styling::dim_color()) }],
        ),
    }
}

/// The advisory line that is due, if any.
pub open spec fn notice_of(desk: Desk) -> Option<Strip> {
    if desk.deadline is Some {
        Some(notice_line("Press Esc again to stop the current run"@, NoticeKind::Warning))
    } else if desk.notice is Some {
        Some(notice_line(desk.notice->0, NoticeKind::Warning))
    } else if desk.session_open() {
        Some(notice_line("ctrl+d delete the highlighted session"@, NoticeKind::Hint))
    } else {
        None
    }
}

/// Row `i` of the visible input.
pub open spec fn input_line(rows: Seq<Seq<char>>, scroll: int, i: int) -> Strip {
    Strip::of(
        seq![
            Ink {
                text: if i == 0 && scroll == 0 {
                    " › "@
                } else {
                    "   "@
                },
                style: TextStyle::ink(styling::accent_color()),
            },
            Ink { text: rows[scroll + i], style: TextStyle::bare() },
        ],
    )
}

/// The visible rows of the input.
pub open spec fn input_lines(rows: Seq<Seq<char>>, scroll: int, height: int) -> Seq<Strip> {
    Seq::new(
        selection::least(height, rows.len() - scroll) as nat,
        |i: int| input_line(rows, scroll, i),
    )
}

/// Screen position of the caret.
pub open spec fn caret_cell(desk: Desk, inner: Rect, scroll: int, area: Rect) -> (u16, u16) {
    let (row, column) = desk.input.positions(input_cells(inner.width) as nat)[desk.input.at()];
    let visible = selection::least(
        selection::least(selection::monus(row as int, scroll), u16::MAX as int),
        selection::monus(area.height as int, 1),
    );
    (
        selection::least(
            selection::least(area.x + 3, u16::MAX as int) + selection::least(
                column as int,
                u16::MAX as int,
            ),
            u16::MAX as int,
        ) as u16,
        selection::least(area.y + visible, u16::MAX as int) as u16,
    )
}

/// First visible row of the input in the shelf.
pub open spec fn shelf_scroll(desk: Desk, inner: Rect) -> int {
    let width = input_cells(inner.width) as nat;
    let caret = if desk.focus == Focus::Input {
        desk.input.positions(width)[desk.input.at()].0 as int
    } else {
        0
    };
    input_scroll_of(
        desk.input.rows(width).len() as int,
        shelf_heights(desk, inner).input as int,
        caret,
    )
}

/// The heights of the rows above the input.
pub open spec fn shelf_tops(desk: Desk, inner: Rect) -> Seq<u16> {
    let heights = shelf_heights(desk, inner);
    seq![
        as_height(heights.palette as int),
        as_height(heights.steers as int),
        as_height(heights.notice as int),
    ]
}

/// Row `i` of the shelf: the palette, the pending messages, the advisory line
/// and the input.
pub open spec fn shelf_row(desk: Desk, inner: Rect, i: int) -> Rect {
    stacked(inner, shelf_tops(desk, inner), Seq::empty(), i)
}

/// Whether there is room for the rows of the shelf.
pub open spec fn shelf_has_room(desk: Desk, inner: Rect) -> bool {
    has_room(inner, shelf_tops(desk, inner), Seq::empty())
}

/// A shelf of at least two rows has room for what it shows, and its input has
/// the rows that it is drawn into.
pub proof fn shelves_have_room(desk: Desk, inner: Rect)
    requires
        inner.height >= 2,
        inner.y + inner.height <= u16::MAX,
    ensures
        shelf_has_room(desk, inner),
        shelf_row(desk, inner, 3).height >= shelf_heights(desk, inner).input,
{
    let tops = shelf_tops(desk, inner);
    reveal_with_fuel(sum_of, 4);
    assert(sum_of(tops, 3) == tops[0] + tops[1] + tops[2]);
    assert(sum_of(Seq::<u16>::empty(), 0) == 0);
}

/// What the shelf shows in the given areas.
pub open spec fn shelf_shown(
    view: ShelfView,
    desk: Desk,
    hints: Seq<Hint>,
    inner: Rect,
    spinner: char,
) -> bool {
    let heights = shelf_heights(desk, inner);
    let rows = desk.input.rows(input_cells(inner.width) as nat);
    let scroll = shelf_scroll(desk, inner);
    &&& view.title@ == shelf_title(desk)
    &&& view.focused == (desk.focus == Focus::Input)
    &&& styling::strips(view.steers@) == (if heights.steers > 0 {
        steer_lines(desk.steers, view.steer_area)
    } else {
        Seq::empty()
    })
    &&& (match view.palette {
        Some(p) => hints.len() > 0 && view.palette_area.height > 0 && styling::strips(p.lines@)
            == palette_lines(
            hints,
            hints.len() as int,
            desk.suggestion,
            view.palette_area.width as int,
            spinner,
        ) && p.scroll == as_height(
            selection::monus(
                hint_row(
                    hints,
                    desk.suggestion,
                    desk.suggestion,
                    view.palette_area.width as int,
                    spinner,
                ),
                selection::monus(view.palette_area.height as int, 1),
            ),
        ),
        None => hints.len() == 0 || view.palette_area.height == 0,
    })
    &&& (match view.notice {
        Some(line) => notice_of(desk) == Some(line@),
        None => notice_of(desk) is None,
    })
    &&& styling::strips(view.input@) == input_lines(rows, scroll, heights.input as int)
    &&& view.cursor == (if desk.focus == Focus::Input {
        Some(caret_cell(desk, inner, scroll, view.input_area))
    } else {
        None
    })
}

fn build_input(rows: &Vec<String>, scroll: usize, height: usize) -> (r: Vec<Line>)
    requires
        scroll <= rows@.len(),
    ensures
        styling::strips(r@) == input_lines(text::texts(rows@), scroll as int, height as int),
{
    let ghost all = text::texts(rows@);
    let ghost want = input_lines(all, scroll as int, height as int);
    let mut lines = no_lines();
    let mut i: usize = 0;
    let total: usize = rows.len();
    let left: usize = total - scroll;
    let count: usize = if height < left {
        height
    } else {
        left
    };
    proof {
        assert(all.len() == rows@.len());
        assert(styling::strips(lines@) =~= want.take(0));
    }
    while i < count
        invariant
            i <= count,
            total == rows@.len(),
            count <= total - scroll,
            scroll <= rows@.len(),
            all == text::texts(rows@),
            want == input_lines(all, scroll as int, height as int),
            want.len() == count,
            styling::strips(lines@) == want.take(i as int),
        decreases count - i,
    {
        let mut spans = no_spans();
        push_span(
            &mut spans,
            if i == 0 && scroll == 0 {
                " › ".to_owned()
            } else {
                "   ".to_owned()
            },
            TextStyle::fg(styling::accent()),
        );
        push_span(&mut spans, rows[scroll + i].clone(), TextStyle::plain());
        proof {
            assert(all[scroll + i] == rows@[scroll + i]@);
            assert(styling::inks(spans@) =~= input_line(all, scroll as int, i as int).spans);
            assert(want.take(i + 1) =~= want.take(i as int).push(want[i as int]));
        }
        push_line(&mut lines, Line::from_spans(spans));
        i += 1;
    }
    proof {
        assert(want.take(want.len() as int) =~= want);
    }
    lines
}

fn count_provider_runs(suggestions: &Vec<Suggestion>) -> (r: usize)
    ensures
        r == provider_runs(
            app::hints_of(suggestions@),
            suggestions@.len() as int,
        ).0,
        r <= suggestions@.len(),
{
    let ghost hints = app::hints_of(suggestions@);
    let mut count: usize = 0;
    let mut last: Option<String> = None;
    let mut i: usize = 0;
    while i < suggestions.len()
        invariant
            i <= suggestions@.len(),
            hints == app::hints_of(suggestions@),
            count <= i,
            provider_runs(hints, i as int) == (count as int, text::opt_text(last)),
        decreases suggestions@.len() - i,
    {
        proof {
            assert(hints[i as int] == suggestions@[i as int]@);
        }
        if suggestions[i].provider.is_some() {
            if !same_provider(&last, &suggestions[i].provider) {
                count += 1;
            }
            last = crate::history::copy_opt(&suggestions[i].provider);
        }
        i += 1;
    }
    count
}

/// The areas of the header, the conversation, the agents drawer and the
/// shelf.
#[derive(Clone, Copy, Debug, PartialEq, Eq, Structural)]
pub struct FrameAreas {
    pub header: Rect,
    pub conversation: Rect,
    pub agents: Rect,
    pub shelf: Rect,
}

/// The heights of the agents drawer and of the shelf.
pub open spec fn frame_bottom(area: Rect, desk: Desk, hints: Seq<Hint>) -> Seq<u16> {
    seq![
        drawer_height(area, desk.agents_open(), desk.collapsed_visible(), hints.len() as int),
        shelf_rows(area, desk, hints),
    ]
}

/// The areas of the screen, given the heights at its bottom.
pub open spec fn frame_of(area: Rect, below: Seq<u16>) -> FrameAreas {
    FrameAreas {
        header: stacked(area, seq![1u16], below, 0),
        conversation: stacked(area, seq![1u16], below, 1),
        agents: stacked(area, seq![1u16], below, 2),
        shelf: stacked(area, seq![1u16], below, 3),
    }
}

/// A screen of at least seven rows has room for everything, whatever is shown:
/// the four areas cover it from top to bottom, and the conversation keeps a
/// row.
pub proof fn frames_have_room(area: Rect, desk: Desk, hints: Seq<Hint>)
    requires
        area.height >= 7,
        area.y + area.height <= u16::MAX,
    ensures
        has_room(area, seq![1u16], frame_bottom(area, desk, hints)),
        ({
            let r = frame_of(area, frame_bottom(area, desk, hints));
            &&& r.header.y == area.y
            &&& r.conversation.y == r.header.y + r.header.height
            &&& r.agents.y == r.conversation.y + r.conversation.height
            &&& r.shelf.y == r.agents.y + r.agents.height
            &&& r.shelf.y + r.shelf.height == area.y + area.height
            &&& r.conversation.height >= 1
        }),
{
    let below = frame_bottom(area, desk, hints);
    reveal_with_fuel(sum_of, 3);
    assert(sum_of(seq![1u16], 1) == 1);
    assert(sum_of(below, 2) == below[0] + below[1]);
    assert(below[1] <= two_fifths(area.height));
    assert(below[0] + below[1] + 2 <= area.height);
}

/// What the agents drawer shows inside its frame.
#[derive(Debug)]
pub enum DrawerView {
    Palette(PaletteView),
    Line(Line),
}

/// The line of a collapsed drawer.
pub open spec fn summary_line(summary: Seq<char>, spinner: char) -> Strip {
    let accent = TextStyle::ink(styling::accent_color());
    Strip::of(
        seq![
            Ink { text: " "@, style: accent },
            Ink { text: seq![spinner, ' '], style: accent },
            Ink { text: summary, style: accent },
        ],
    )
}

/// The line of a drawer without agents.
pub open spec fn no_agents_line() -> Strip {
    Strip::of(seq![Ink { text: "  no agents"@, style: TextStyle::ink(styling::dim_color()) }])
}

impl App {
    /// Whether an area is too small for the interface.
    pub fn needs_room(area: Rect) -> (r: bool)
        ensures
            r == (area.width < MIN_WIDTH || area.height < MIN_HEIGHT),
    {
        area.width < MIN_WIDTH || area.height < MIN_HEIGHT
    }

    pub fn agents_drawer_height(&self, area: Rect, suggestions: &Vec<Suggestion>) -> (r: u16)
        requires
            self.wf(),
        ensures
            r == drawer_height(
                area,
                self@.agents_open(),
                self@.collapsed_visible(),
                suggestions@.len() as int,
            ),
    {
        if self.agents_palette_open() {
            let count: usize = suggestions.len();
            let rows: usize = if count < 1 {
                2
            } else {
                count.saturating_add(1)
            };
            let room: usize = area.height.saturating_sub(6) as usize;
            let share: usize = share_of(area.height);
            let least: usize = if room < share {
                room
            } else {
                share
            };
            let maximum: usize = if least < 2 {
                2
            } else {
                least
            };
            return to_u16(clamp(rows, 2, maximum));
        }
        if self.agents_collapsed_visible() {
            2
        } else {
            0
        }
    }

    pub fn shelf_height(&self, area: Rect, suggestions: &Vec<Suggestion>) -> (r: u16)
        requires
            self.wf(),
        ensures
            r == shelf_rows(area, self@, app::hints_of(suggestions@)),
    {
        let rows = self.input.rows(input_text_width(area.width));
        proof {
            assert(text::texts(rows@).len() == rows@.len());
            assert(app::hints_of(suggestions@).len() == suggestions@.len());
            assert(self@.steers.len() == self.pending_steers@.len());
        }
        let palette: usize = if self.agents_palette_open() {
            0
        } else {
            suggestions.len().saturating_add(count_provider_runs(suggestions))
        };
        let notice: usize = if self.notice().is_some() {
            1
        } else {
            0
        };
        let pending: usize = self.pending_steers.len();
        let steers: usize = if pending < MAX_PENDING_STEER_ROWS {
            pending
        } else {
            MAX_PENDING_STEER_ROWS
        };
        let wanted: usize = rows.len().saturating_add(1).saturating_add(steers).saturating_add(
            palette,
        ).saturating_add(notice);
        to_u16(clamp(wanted, 2, share_of(area.height)))
    }

    /// Splits the screen: one row for the header, the heights of the agents
    /// drawer and of the shelf at the bottom, and the rest for the
    /// conversation. Each area spans the width of the screen.
    pub fn frame_areas(&self, area: Rect, suggestions: &Vec<Suggestion>) -> (r: FrameAreas)
        requires
            self.wf(),
        ensures
            ({
                let below = frame_bottom(area, self@, app::hints_of(suggestions@));
                has_room(area, seq![1u16], below) ==> r == frame_of(area, below)
            }),
            r.header.x == area.x && r.header.width == area.width,
            r.conversation.x == area.x && r.conversation.width == area.width,
            r.agents.x == area.x && r.agents.width == area.width,
            r.shelf.x == area.x && r.shelf.width == area.width,
    {
        let mut above: Vec<u16> = Vec::new();
        above.push(1);
        let mut below: Vec<u16> = Vec::new();
        below.push(self.agents_drawer_height(area, suggestions));
        below.push(self.shelf_height(area, suggestions));
        let rows = stack(area, &above, &below);
        proof {
            assert(app::hints_of(suggestions@).len() == suggestions@.len());
            assert(above@ =~= seq![1u16]);
            assert(below@ =~= frame_bottom(area, self@, app::hints_of(suggestions@)));
        }
        FrameAreas {
            header: rows[0],
            conversation: rows[1],
            agents: rows[2],
            shelf: rows[3],
        }
    }

    /// The two sides of the header.
    pub fn header_texts(&self, area: Rect) -> (r: (String, String))
        requires
            self.wf(),
        ensures
            r.0@ == header_left(self@, area.width),
            r.1@ == header_right(self@),
    {
        let model = match self.current_agent_model() {
            None => "—".to_owned(),
            Some(id) => match find_model(&self.models, id.as_str()) {
                Some(i) => self.models[i].display_name.clone(),
                None => id,
            },
        };
        let effort = match self.current_agent_effort() {
            Some(effort) => effort,
            None => "—".to_owned(),
        };
        let mut right = self.current_agent.clone();
        right.append("  ·  ");
        right.append(model.as_str());
        right.append("  ·  ");
        right.append(effort.as_str());
        right.append(" effort  ·  #");
        right.append(text::decimal_text(self.session_id).as_str());
        right.append("  ·  ");
        right.append(self.view.status.as_str());
        proof {
            assert(right@ == header_right(self@));
        }
        let taken: usize = cells::width_of(right.as_str()).saturating_add(10);
        let room: usize = (area.width as usize).saturating_sub(taken);
        (elide_middle(self.cwd.as_str(), room), right)
    }

    fn title_text(&self) -> (r: String)
        requires
            self.wf(),
        ensures
            r@ == shelf_title(self@),
    {
        let mut title = if self.busy {
            " working ".to_owned()
        } else {
            " message ".to_owned()
        };
        if let Some(consumed) = self.view.context_tokens {
            if let Some(window) = self.context_window_tokens() {
                title.append(context_text(consumed, window).as_str());
            }
        }
        title
    }

    /// Shares out the inside of the shelf.
    fn heights(&self, inner: Rect, rows: usize) -> (r: ShelfHeights)
        requires
            rows == self@.input.rows(input_cells(inner.width) as nat).len(),
        ensures
            r == shelf_heights(self@, inner),
    {
        let height: usize = inner.height as usize;
        let noticed = self.notice();
        let warns = match &noticed {
            Some(n) => n.kind == NoticeKind::Warning,
            None => false,
        };
        let warning: usize = if warns && height > 0 {
            1
        } else {
            0
        };
        let left: usize = height - warning;
        let input: usize = clamp(
            rows,
            1,
            if left < 1 {
                1
            } else {
                left
            },
        );
        let left: usize = left.saturating_sub(input);
        let notice: usize = if warning > 0 {
            warning
        } else if noticed.is_some() && left > 0 {
            1
        } else {
            0
        };
        let left: usize = left.saturating_sub(notice);
        let pending: usize = self.pending_steers.len();
        proof {
            assert(self@.steers.len() == self.pending_steers@.len());
        }
        let listed: usize = if pending < MAX_PENDING_STEER_ROWS {
            pending
        } else {
            MAX_PENDING_STEER_ROWS
        };
        let steers: usize = if listed < left {
            listed
        } else {
            left
        };
        let left: usize = left.saturating_sub(steers);
        ShelfHeights {
            palette: if self.agents_palette_open() {
                0
            } else {
                left
            },
            steers,
            notice,
            input,
        }
    }

    fn steer_rows(&self, area: Rect) -> (r: Vec<Line>)
        ensures
            styling::strips(r@) == steer_lines(self@.steers, area),
    {
        let pending: usize = self.pending_steers.len();
        let capacity: usize = area.height as usize;
        let shown: usize = if pending > capacity {
            capacity.saturating_sub(1)
        } else {
            pending
        };
        let ghost want = steer_lines(self@.steers, area);
        let mut lines = no_lines();
        let mut i: usize = 0;
        proof {
            assert(self@.steers.len() == pending);
            assert(styling::strips(lines@) =~= want.take(0));
        }
        while i < shown
            invariant
                i <= shown <= pending,
                pending == self.pending_steers@.len(),
                self@.steers.len() == pending,
                shown == steers_shown(pending as int, area.height as int),
                want == steer_lines(self@.steers, area),
                want.len() >= shown,
                styling::strips(lines@) == want.take(i as int),
            decreases shown - i,
        {
            proof {
                assert(self@.steers[i as int] == self.pending_steers@[i as int]@);
                assert(want.take(i + 1) =~= want.take(i as int).push(want[i as int]));
            }
            push_line(
                &mut lines,
                build_steer(self.pending_steers[i].text.as_str(), area.width),
            );
            i += 1;
        }
        if pending > shown {
            let count: usize = pending - shown;
            let mut spans = no_spans();
            let number = text::decimal_text(count as u64);
            push_span(
                &mut spans,
                text::concat3("   +", number.as_str(), " more queued"),
                TextStyle::fg(Color::Yellow),
            );
            proof {
                assert(styling::inks(spans@) =~= want[shown as int].spans);
            }
            push_line(&mut lines, Line::from_spans(spans));
        }
        proof {
            assert(styling::strips(lines@) =~= want);
        }
        lines
    }

    fn notice_row(&self) -> (r: Option<Line>)
        ensures
            (match r {
                Some(line) => notice_of(self@) == Some(line@),
                None => notice_of(self@) is None,
            }),
    {
        match self.notice() {
            None => None,
            Some(notice) => {
                let mut spans = no_spans();
                let ghost want = notice_line(notice.text@, notice.kind);
                match notice.kind {
                    NoticeKind::Warning => {
                        push_span(
                            &mut spans,
                            "   ! ".to_owned(),
                            TextStyle::fg(Color::Yellow).add_modifier(styling::BOLD),
                        );
                        push_span(&mut spans, notice.text, TextStyle::fg(Color::Yellow));
                    },
                    NoticeKind::Hint => {
                        push_span(
                            &mut spans,
                            text::concat("   ", notice.text.as_str()),
                            TextStyle::fg(styling::dim()),
                        );
                    },
                }
                proof {
                    assert(styling::inks(spans@) =~= want.spans);
                }
                Some(Line::from_spans(spans))
            },
        }
    }

    /// What the shelf shows in the given areas. `None` when the palette is
    /// visible and has no highlighted row.
    fn fill_shelf(
        &self,
        inner: Rect,
        suggestions: &Vec<Suggestion>,
        spinner: char,
        areas: &Vec<Rect>,
        heights: ShelfHeights,
        scroll: usize,
        rows: &Vec<String>,
    ) -> (r: Option<ShelfView>)
        requires
            self.wf(),
            areas@.len() == 4,
            heights == shelf_heights(self@, inner),
            scroll == shelf_scroll(self@, inner),
            scroll <= rows@.len(),
            text::texts(rows@) == self@.input.rows(input_cells(inner.width) as nat),
        ensures
            r is None == (suggestions@.len() > 0 && areas@[0].height > 0 && self@.suggestion
                >= suggestions@.len()),
            r matches Some(view) ==> shelf_shown(
                view,
                self@,
                app::hints_of(suggestions@),
                inner,
                spinner,
            ) && view.palette_area == areas@[0] && view.steer_area == areas@[1]
                && view.notice_area == areas@[2] && view.input_area == areas@[3],
    {
        proof {
            assert(app::hints_of(suggestions@).len() == suggestions@.len());
        }
        let palette_area = areas[0];
        let input_area = areas[3];
        let palette = if suggestions.len() > 0 && palette_area.height > 0 {
            match palette_view(suggestions, self.suggestion_index, palette_area, spinner) {
                None => {
                    return None;
                },
                Some(view) => Some(view),
            }
        } else {
            None
        };
        let steers = if heights.steers > 0 {
            self.steer_rows(areas[1])
        } else {
            no_lines()
        };
        let cursor = if self.focus == Focus::Input {
            let (row, column) = self.input.cursor_position(input_text_width(inner.width));
            let visible: u16 = to_u16(row.saturating_sub(scroll));
            let lowest: u16 = input_area.height.saturating_sub(1);
            let down: u16 = if visible < lowest {
                visible
            } else {
                lowest
            };
            Some(
                (
                    input_area.x.saturating_add(3).saturating_add(to_u16(column)),
                    input_area.y.saturating_add(down),
                ),
            )
        } else {
            None
        };
        Some(
            ShelfView {
                title: self.title_text(),
                focused: self.focus == Focus::Input,
                palette_area,
                palette,
                steer_area: areas[1],
                steers,
                notice_area: areas[2],
                notice: self.notice_row(),
                input_area,
                input: build_input(rows, scroll, heights.input),
                cursor,
            },
        )
    }

    /// Draws the message shelf into `area` and records where its input is.
    /// `None`, with only the input's geometry recorded, when the palette is
    /// visible and has no highlighted row.
    pub fn render_shelf(
        &mut self,
        area: Rect,
        suggestions: &Vec<Suggestion>,
        spinner: char,
    ) -> (r: Option<ShelfView>)
        requires
            old(self).wf(),
        ensures
            final(self)@ == (Desk { pane: final(self).pane, ..old(self)@ }),
            final(self).wf(),
            final(self).view == old(self).view,
            final(self).agents == old(self).agents,
            final(self).pane.input_width == input_cells(below_border(area).width),
            final(self).pane.input_scroll == shelf_scroll(old(self)@, below_border(area)),
            final(self).pane.input_area is Some,
            shelf_has_room(old(self)@, below_border(area)) ==> final(self).pane.input_area == Some(
                shelf_row(old(self)@, below_border(area), 3),
            ),
            final(self).pane.conversation_ranges == old(self).pane.conversation_ranges,
            final(self).pane.conversation_viewport_height == old(
                self,
            ).pane.conversation_viewport_height,
            final(self).pane.conversation_total_lines == old(self).pane.conversation_total_lines,
            final(self).pane.hitboxes == old(self).pane.hitboxes,
            final(self).pane.conversation_rows == old(self).pane.conversation_rows,
            final(self).pane.conversation_area == old(self).pane.conversation_area,
            r is None ==> suggestions@.len() > 0 && old(self)@.suggestion >= suggestions@.len(),
            shelf_has_room(old(self)@, below_border(area)) ==> r is None == (suggestions@.len() > 0
                && shelf_row(old(self)@, below_border(area), 0).height > 0
                && old(self)@.suggestion >= suggestions@.len()),
            r matches Some(view) ==> shelf_shown(
                view,
                old(self)@,
                app::hints_of(suggestions@),
                below_border(area),
                spinner,
            ) && final(self).pane.input_area == Some(view.input_area),
            r matches Some(view) ==> shelf_has_room(old(self)@, below_border(area)) ==> {
                &&& view.palette_area == shelf_row(old(self)@, below_border(area), 0)
                &&& view.steer_area == shelf_row(old(self)@, below_border(area), 1)
                &&& view.notice_area == shelf_row(old(self)@, below_border(area), 2)
            },
    {
        let inner = under_border(area);
        let width: usize = input_text_width(inner.width);
        let rows = self.input.rows(width);
        proof {
            assert(text::texts(rows@).len() == rows@.len());
        }
        let heights = self.heights(inner, rows.len());
        let mut above: Vec<u16> = Vec::new();
        above.push(to_u16(heights.palette));
        above.push(to_u16(heights.steers));
        above.push(to_u16(heights.notice));
        let below: Vec<u16> = Vec::new();
        let areas = stack(inner, &above, &below);
        proof {
            assert(above@ =~= shelf_tops(self@, inner));
            assert(below@ =~= Seq::<u16>::empty());
        }
        let caret: usize = if self.focus == Focus::Input {
            self.input.cursor_position(width).0
        } else {
            0
        };
        let scroll: usize = if rows.len() > heights.input {
            let from: usize = caret.saturating_sub(heights.input.saturating_sub(1));
            let most: usize = rows.len() - heights.input;
            if from < most {
                from
            } else {
                most
            }
        } else {
            0
        };
        let view = self.fill_shelf(inner, suggestions, spinner, &areas, heights, scroll, &rows);
        self.pane.input_width = width;
        self.pane.input_scroll = scroll;
        self.pane.input_area = Some(areas[3]);
        view
    }

    /// What the agents drawer shows inside its frame. `None` when its palette
    /// has no highlighted row.
    pub fn drawer_view(
        &self,
        inner: Rect,
        suggestions: &Vec<Suggestion>,
        spinner: char,
    ) -> (r: Option<DrawerView>)
        requires
            self.wf(),
        ensures
            r is None == (self@.agents_open() && suggestions@.len() > 0 && self@.suggestion
                >= suggestions@.len()),
            match r {
                Some(DrawerView::Palette(p)) => {
                    let hints = app::hints_of(suggestions@);
                    &&& self@.agents_open()
                    &&& hints.len() > 0
                    &&& styling::strips(p.lines@) == palette_lines(
                        hints,
                        hints.len() as int,
                        self@.suggestion,
                        inner.width as int,
                        spinner,
                    )
                    &&& p.scroll == as_height(
                        selection::monus(
                            hint_row(
                                hints,
                                self@.suggestion,
                                self@.suggestion,
                                inner.width as int,
                                spinner,
                            ),
                            selection::monus(inner.height as int, 1),
                        ),
                    )
                },
                Some(DrawerView::Line(line)) => if self@.agents_open() {
                    suggestions@.len() == 0 && line@ == no_agents_line()
                } else {
                    line@ == summary_line(
                        self@.collapsed_summary(
                            transcript::most(
                                selection::monus(inner.width as int, 2),
                                1,
                            ),
                        ),
                        spinner,
                    )
                },
                None => true,
            },
    {
        if self.agents_palette_open() {
            if suggestions.len() == 0 {
                let mut spans = no_spans();
                push_span(&mut spans, "  no agents".to_owned(), TextStyle::fg(styling::dim()));
                proof {
                    assert(styling::inks(spans@) =~= no_agents_line().spans);
                }
                return Some(DrawerView::Line(Line::from_spans(spans)));
            }
            return match palette_view(suggestions, self.suggestion_index, inner, spinner) {
                Some(view) => Some(DrawerView::Palette(view)),
                None => None,
            };
        }
        let room: u16 = inner.width.saturating_sub(2);
        let width: usize = if room < 1 {
            1
        } else {
            room as usize
        };
        let summary = self.agents_collapsed_summary(width);
        let ghost want = summary_line(summary@, spinner);
        let accent = TextStyle::fg(styling::accent());
        let mut frame = String::new();
        frame.push(spinner);
        frame.push(' ');
        let mut spans = no_spans();
        push_span(&mut spans, " ".to_owned(), accent);
        push_span(&mut spans, frame, accent);
        push_span(&mut spans, summary, accent);
        proof {
            assert(frame@ =~= seq![spinner, ' ']);
            assert(styling::inks(spans@) =~= want.spans);
        }
        Some(DrawerView::Line(Line::from_spans(spans)))
    }
}

} // verus!
