//! The conversation pane: which display rows are visible, and what a click on
//! them selects.

use crate::app::App;
use crate::cells::to_u16;
use crate::conversation;
use crate::conversation::{Conv, ConversationEntry, Entry, EntryKind};
use crate::desk::{Desk, Focus, Hitbox, Pane};
use crate::entry_view;
use crate::entry_view::{
    ensure_entry_layout, layout_is_fresh, needs_message_spacing, renders_markdown,
};
use crate::markdown;
use crate::markdown::{preserve_markdown_newlines, Shown, StyledRow};
use crate::rendering;
use crate::rendering::render_markdown;
use crate::selection;
use crate::selection::{CellPos, CopyRow, Rect};
use crate::styling;
use crate::styling::{apply_selection_style, Line, Strip};
use vstd::prelude::*;
use vstd::string::*;

verus! {

/// Lines kept above a tall row that is revealed.
pub const REVEAL_TOP_BUFFER: usize = 2;

/// Lines kept below a short row that is revealed.
pub const REVEAL_BOTTOM_BUFFER: usize = 1;

/// The larger of two numbers.
pub open spec fn most(a: int, b: int) -> int {
    if a >= b {
        a
    } else {
        b
    }
}

/// The offset that reveals the lines `start..=end`: a row taller than the
/// viewport is pinned near the top, any other ends one line above the bottom
/// unless its header would scroll out.
pub open spec fn reveal_offset(start: int, end: int, viewport: int, total: int) -> int {
    let view = most(viewport, 1);
    let maximum = selection::monus(total, view);
    let height = selection::least(selection::monus(end, start) + 1, usize::MAX as int);
    if height > view {
        selection::least(selection::monus(start, REVEAL_TOP_BUFFER as int), maximum)
    } else {
        let aligned = selection::monus(
            selection::least(end + 1 + REVEAL_BOTTOM_BUFFER, usize::MAX as int),
            view,
        );
        selection::least(selection::least(aligned, start), maximum)
    }
}

/// Offset after a row has been expanded from the keyboard.
pub fn reveal_expanded_offset(start: usize, end: usize, viewport: usize, total: usize) -> (r: usize)
    ensures
        r == reveal_offset(start as int, end as int, viewport as int, total as int),
{
    let view: usize = if viewport < 1 {
        1
    } else {
        viewport
    };
    let maximum: usize = total.saturating_sub(view);
    let height: usize = end.saturating_sub(start).saturating_add(1);
    if height > view {
        let pinned: usize = start.saturating_sub(REVEAL_TOP_BUFFER);
        return if pinned < maximum {
            pinned
        } else {
            maximum
        };
    }
    let mut offset: usize = end.saturating_add(1).saturating_add(REVEAL_BOTTOM_BUFFER).saturating_sub(
        view,
    );
    if start < offset {
        offset = start;
    }
    if offset < maximum {
        offset
    } else {
        maximum
    }
}

/// The offset of the viewport: the tail when it is followed, otherwise where
/// it was, moved as little as shows the selected line.
pub open spec fn viewport_at(
    current: int,
    follow_tail: bool,
    selected: Option<int>,
    total: int,
    viewport: int,
) -> int {
    let view = most(viewport, 1);
    let maximum = selection::monus(total, view);
    if follow_tail {
        maximum
    } else {
        let here = selection::least(current, maximum);
        let moved = match selected {
            None => here,
            Some(line) => if line < here {
                line
            } else if line >= here + view {
                line + 1 - view
            } else {
                here
            },
        };
        selection::least(moved, maximum)
    }
}

/// A line as a mathematical value.
pub open spec fn line_of(line: Option<usize>) -> Option<int> {
    match line {
        Some(l) => Some(l as int),
        None => None,
    }
}

/// Offset of the viewport in a conversation of `total` lines.
pub fn viewport_offset(
    current: usize,
    follow_tail: bool,
    selected_start: Option<usize>,
    total: usize,
    viewport: usize,
) -> (r: usize)
    ensures
        r == viewport_at(
            current as int,
            follow_tail,
            line_of(selected_start),
            total as int,
            viewport as int,
        ),
{
    let view: usize = if viewport < 1 {
        1
    } else {
        viewport
    };
    let maximum: usize = total.saturating_sub(view);
    if follow_tail {
        return maximum;
    }
    let mut offset: usize = if current < maximum {
        current
    } else {
        maximum
    };
    if let Some(selected) = selected_start {
        if selected < offset {
            offset = selected;
        } else if selected - offset >= view {
            offset = selected - (view - 1);
        }
    }
    if offset < maximum {
        offset
    } else {
        maximum
    }
}

/// The viewport never leaves the conversation, and when the selection drives
/// it, the selected line is visible.
pub proof fn viewport_stays_in_range(
    current: int,
    follow_tail: bool,
    selected: Option<int>,
    total: int,
    viewport: int,
)
    requires
        current >= 0,
        total >= 0,
        viewport >= 1,
        selected matches Some(line) ==> 0 <= line < total,
    ensures
        ({
            let offset = viewport_at(current, follow_tail, selected, total, viewport);
            &&& 0 <= offset <= selection::monus(total, viewport)
            &&& !follow_tail && selected is Some ==> offset <= selected->0 < offset + viewport
        }),
{
}

/// A viewport that neither follows the tail nor is driven by the selection
/// does not move when content is added below it.
pub proof fn detached_viewport_holds_still(current: int, total: int, more: int, viewport: int)
    requires
        0 <= current <= selection::monus(total, most(viewport, 1)),
        more >= 0,
    ensures
        viewport_at(current, false, None, total + more, viewport) == current,
{
}

/// A revealed row that fits shows its header and its last line.
pub proof fn revealed_rows_are_visible(start: int, end: int, viewport: int, total: int)
    requires
        0 <= start <= end < total < usize::MAX - 1,
        1 <= viewport,
        end - start + 1 <= viewport,
    ensures
        ({
            let offset = reveal_offset(start, end, viewport, total);
            0 <= offset <= start && end < offset + viewport
        }),
{
}

/// The kind of the row before row `i`.
pub open spec fn kind_before(kinds: Seq<EntryKind>, i: int) -> Option<EntryKind> {
    if 0 < i <= kinds.len() {
        Some(kinds[i - 1])
    } else {
        None
    }
}

/// The blank line in front of row `i`, if there is one.
pub open spec fn gap_before(kinds: Seq<EntryKind>, i: int) -> Seq<Shown> {
    if entry_view::spaced(kind_before(kinds, i), Some(kinds[i])) {
        seq![Shown { line: Strip::blank(), indent: 0 }]
    } else {
        Seq::empty()
    }
}

/// All display rows of the first `n` rows of the conversation.
pub open spec fn transcript(kinds: Seq<EntryKind>, rows: Seq<Seq<Shown>>, n: int) -> Seq<Shown>
    decreases n,
{
    if n <= 0 {
        Seq::empty()
    } else {
        transcript(kinds, rows, n - 1) + gap_before(kinds, n - 1) + rows[n - 1]
    }
}

/// First and last line of row `i`.
pub open spec fn range_of(kinds: Seq<EntryKind>, rows: Seq<Seq<Shown>>, i: int) -> (int, int) {
    let start = transcript(kinds, rows, i).len() + gap_before(kinds, i).len();
    (start as int, start + selection::monus(rows[i].len() as int, 1))
}

/// Lines of the conversation, with the blank line behind a final message.
pub open spec fn total_lines(kinds: Seq<EntryKind>, rows: Seq<Seq<Shown>>) -> int {
    let n = kinds.len() as int;
    transcript(kinds, rows, n).len() + (if entry_view::spaced(kind_before(kinds, n), None) {
        1int
    } else {
        0int
    })
}

/// The kinds of the rows.
pub open spec fn kinds_of(entries: Seq<ConversationEntry>) -> Seq<EntryKind> {
    entries.map_values(|e: ConversationEntry| e.kind)
}

/// The display rows of a row as last laid out.
pub open spec fn laid_out(e: ConversationEntry) -> Seq<Shown> {
    match e.layout {
        Some(l) => markdown::shown_of(l.rows@),
        None => Seq::empty(),
    }
}

/// The display rows of all rows as last laid out.
pub open spec fn layouts_of(entries: Seq<ConversationEntry>) -> Seq<Seq<Shown>> {
    entries.map_values(|e: ConversationEntry| laid_out(e))
}

/// Whether every row has been laid out and the lines can be counted.
pub open spec fn measurable(entries: Seq<ConversationEntry>) -> bool {
    &&& forall|i: int| 0 <= i < entries.len() ==> (#[trigger] entries[i]).layout is Some
    &&& total_lines(kinds_of(entries), layouts_of(entries)) < usize::MAX - 1
}

/// The part of `rows` between the lines `from` and `to`.
pub open spec fn clip(rows: Seq<Shown>, from: int, to: int) -> Seq<Shown> {
    let n = rows.len() as int;
    let a = if from < 0 {
        0
    } else {
        selection::least(from, n)
    };
    let b = if to < a {
        a
    } else {
        selection::least(to, n)
    };
    rows.subrange(a, b)
}

proof fn lemma_clip_append(a: Seq<Shown>, b: Seq<Shown>, from: int, to: int)
    requires
        0 <= from <= to,
    ensures
        clip(a + b, from, to) == clip(a, from, to) + clip(b, from - a.len(), to - a.len()),
{
    assert(clip(a + b, from, to) =~= clip(a, from, to) + clip(b, from - a.len(), to - a.len()));
}

proof fn lemma_transcript_grows(kinds: Seq<EntryKind>, rows: Seq<Seq<Shown>>, m: int, n: int)
    requires
        0 <= m <= n,
    ensures
        transcript(kinds, rows, m).len() <= transcript(kinds, rows, n).len(),
    decreases n,
{
    if m < n {
        lemma_transcript_grows(kinds, rows, m, n - 1);
    }
}

/// Line `k` of the viewport as it is painted.
pub open spec fn painted(
    window: Seq<Shown>,
    selected: Option<(CellPos, CellPos)>,
) -> Seq<Strip> {
    Seq::new(
        window.len(),
        |k: int| styling::selected_strip(window[k].line, k, selected),
    )
}

/// Whether `copies` hold the text and padding of the painted lines.
pub open spec fn copies_ok(
    copies: Seq<CopyRow>,
    window: Seq<Shown>,
    selected: Option<(CellPos, CellPos)>,
) -> bool {
    &&& copies.len() == window.len()
    &&& forall|k: int|
        0 <= k < copies.len() ==> (#[trigger] copies[k]).pad == window[k].indent
            && copies[k].text@ == painted(window, selected)[k].text()
}

/// Measures the conversation: the lines of each row, and all lines. `None`
/// when a row has not been laid out or the lines cannot be counted.
fn measure(entries: &Vec<ConversationEntry>) -> (r: Option<(Vec<(usize, usize)>, usize)>)
    ensures
        r is Some == measurable(entries@),
        r matches Some((ranges, total)) ==> {
            let kinds = kinds_of(entries@);
            let rows = layouts_of(entries@);
            &&& ranges@.len() == entries@.len()
            &&& forall|i: int|
                0 <= i < ranges@.len() ==> (#[trigger] ranges@[i]).0 == range_of(kinds, rows, i).0
                    && ranges@[i].1 == range_of(kinds, rows, i).1 && ranges@[i].1 < usize::MAX - 1
            &&& total == total_lines(kinds, rows)
        },
{
    let ghost kinds = kinds_of(entries@);
    let ghost rows = layouts_of(entries@);
    let mut ranges: Vec<(usize, usize)> = Vec::new();
    let mut total: usize = 0;
    let mut previous: Option<EntryKind> = None;
    let mut i: usize = 0;
    while i < entries.len()
        invariant
            i <= entries@.len(),
            kinds == kinds_of(entries@),
            rows == layouts_of(entries@),
            previous == kind_before(kinds, i as int),
            total == transcript(kinds, rows, i as int).len(),
            total < usize::MAX - 1,
            forall|k: int| 0 <= k < i ==> (#[trigger] entries@[k]).layout is Some,
            ranges@.len() == i,
            forall|k: int|
                0 <= k < i ==> (#[trigger] ranges@[k]).0 == range_of(kinds, rows, k).0
                    && ranges@[k].1 == range_of(kinds, rows, k).1 && ranges@[k].1 < usize::MAX - 1,
        decreases entries@.len() - i,
    {
        let kind = entries[i].kind;
        proof {
            assert(kinds[i as int] == kind);
            assert(rows[i as int] == laid_out(entries@[i as int]));
            lemma_transcript_grows(kinds, rows, i + 1, entries@.len() as int);
            assert(kinds.len() == entries@.len());
        }
        if needs_message_spacing(previous, Some(kind)) {
            total = total + 1;
        }
        match &entries[i].layout {
            None => {
                return None;
            },
            Some(layout) => {
                let height: usize = layout.rows.len();
                proof {
                    assert(rows[i as int].len() == height);
                }
                if height >= usize::MAX - 1 - total {
                    return None;
                }
                ranges.push((total, total + height.saturating_sub(1)));
                total = total + height;
            },
        }
        previous = Some(kind);
        i += 1;
    }
    proof {
        assert(kinds.len() == entries@.len());
    }
    if needs_message_spacing(previous, None) {
        total = total + 1;
    }
    if total >= usize::MAX - 1 {
        return None;
    }
    Some((ranges, total))
}

/// Paints one display row behind those painted so far.
fn paint(
    lines: &mut Vec<Line>,
    copies: &mut Vec<CopyRow>,
    line: &Line,
    indent: usize,
    selected: Option<(CellPos, CellPos)>,
    Ghost(window): Ghost<Seq<Shown>>,
)
    requires
        styling::strips(old(lines)@) == painted(window, selected),
        copies_ok(old(copies)@, window, selected),
    ensures
        ({
            let next = window.push(Shown { line: line@, indent: indent as int });
            &&& styling::strips(final(lines)@) == painted(next, selected)
            &&& copies_ok(final(copies)@, next, selected)
        }),
{
    let ghost before = lines@;
    let ghost next = window.push(Shown { line: line@, indent: indent as int });
    let row: usize = lines.len();
    proof {
        assert(styling::strips(before).len() == before.len());
    }
    let shown = apply_selection_style(line, row, selected);
    let ghost strip = shown@;
    copies.push(CopyRow { pad: indent, text: shown.plain_text() });
    lines.push(shown);
    proof {
        assert(styling::strips(lines@) =~= styling::strips(before).push(strip));
        assert(painted(next, selected) =~= painted(window, selected).push(strip));
        assert forall|k: int| 0 <= k < copies@.len() implies (#[trigger] copies@[k]).pad
            == next[k].indent && copies@[k].text@ == painted(next, selected)[k].text() by {
            if k < before.len() {
                assert(painted(next, selected)[k] == painted(window, selected)[k]);
            }
        }
    }
}

/// Paints the visible rows of one conversation row whose first line is
/// `cursor`.
fn paint_rows(
    lines: &mut Vec<Line>,
    copies: &mut Vec<CopyRow>,
    rows: &Vec<StyledRow>,
    cursor: usize,
    from: usize,
    to: usize,
    selected: Option<(CellPos, CellPos)>,
    Ghost(window): Ghost<Seq<Shown>>,
)
    requires
        from <= to,
        styling::strips(old(lines)@) == painted(window, selected),
        copies_ok(old(copies)@, window, selected),
    ensures
        ({
            let next = window + clip(
                markdown::shown_of(rows@),
                from - cursor,
                to - cursor,
            );
            &&& styling::strips(final(lines)@) == painted(next, selected)
            &&& copies_ok(final(copies)@, next, selected)
        }),
{
    let ghost all = markdown::shown_of(rows@);
    let count: usize = rows.len();
    let skip: usize = from.saturating_sub(cursor);
    let start: usize = if skip < count {
        skip
    } else {
        count
    };
    let left: usize = to.saturating_sub(cursor);
    let end: usize = if left < start {
        start
    } else if left < count {
        left
    } else {
        count
    };
    let mut i: usize = start;
    proof {
        assert(all.len() == rows@.len());
        assert(all.subrange(start as int, start as int) =~= Seq::empty());
        assert(window + Seq::<Shown>::empty() =~= window);
    }
    while i < end
        invariant
            start <= i <= end <= rows@.len(),
            all == markdown::shown_of(rows@),
            styling::strips(lines@) == painted(
                window + all.subrange(start as int, i as int),
                selected,
            ),
            copies_ok(copies@, window + all.subrange(start as int, i as int), selected),
        decreases end - i,
    {
        let ghost so_far = window + all.subrange(start as int, i as int);
        paint(lines, copies, &rows[i].line, rows[i].indent, selected, Ghost(so_far));
        proof {
            assert(all[i as int] == rows@[i as int]@);
            assert(window + all.subrange(start as int, i + 1) =~= so_far.push(all[i as int]));
        }
        i += 1;
    }
    proof {
        assert(clip(all, from - cursor, to - cursor) =~= all.subrange(start as int, end as int));
    }
}

/// Paints the lines of the conversation between `from` and `to`.
fn paint_window(
    entries: &Vec<ConversationEntry>,
    from: usize,
    to: usize,
    selected: Option<(CellPos, CellPos)>,
) -> (r: (Vec<Line>, Vec<CopyRow>))
    requires
        from <= to,
        measurable(entries@),
    ensures
        ({
            let window = clip(
                transcript(
                    kinds_of(entries@),
                    layouts_of(entries@),
                    entries@.len() as int,
                ),
                from as int,
                to as int,
            );
            &&& styling::strips(r.0@) == painted(window, selected)
            &&& copies_ok(r.1@, window, selected)
        }),
{
    let ghost kinds = kinds_of(entries@);
    let ghost rows = layouts_of(entries@);
    let mut lines: Vec<Line> = Vec::new();
    let mut copies: Vec<CopyRow> = Vec::new();
    let mut cursor: usize = 0;
    let mut previous: Option<EntryKind> = None;
    let mut i: usize = 0;
    let blank = Line::blank();
    proof {
        let none = clip(transcript(kinds, rows, 0), from as int, to as int);
        assert(none =~= Seq::empty());
        assert(styling::strips(lines@) =~= painted(none, selected));
    }
    while i < entries.len()
        invariant
            i <= entries@.len(),
            from <= to,
            measurable(entries@),
            kinds == kinds_of(entries@),
            rows == layouts_of(entries@),
            blank@ == Strip::blank(),
            previous == kind_before(kinds, i as int),
            cursor == transcript(kinds, rows, i as int).len(),
            styling::strips(lines@) == painted(
                clip(transcript(kinds, rows, i as int), from as int, to as int),
                selected,
            ),
            copies_ok(
                copies@,
                clip(transcript(kinds, rows, i as int), from as int, to as int),
                selected,
            ),
        decreases entries@.len() - i,
    {
        let kind = entries[i].kind;
        let ghost done = transcript(kinds, rows, i as int);
        let ghost gap = gap_before(kinds, i as int);
        let ghost window = clip(done, from as int, to as int);
        proof {
            assert(kinds[i as int] == kind);
            assert(rows[i as int] == laid_out(entries@[i as int]));
            assert(kinds.len() == entries@.len());
            lemma_transcript_grows(kinds, rows, i + 1, entries@.len() as int);
            lemma_clip_append(done, gap, from as int, to as int);
            lemma_clip_append(done + gap, rows[i as int], from as int, to as int);
        }
        if needs_message_spacing(previous, Some(kind)) {
            if from <= cursor && cursor < to {
                paint(&mut lines, &mut copies, &blank, 0, selected, Ghost(window));
                proof {
                    assert(clip(gap, from - done.len(), to - done.len()) =~= gap);
                    assert(window + gap =~= window.push(gap[0]));
                }
            } else {
                proof {
                    assert(clip(gap, from - done.len(), to - done.len()) =~= Seq::empty());
                    assert(window + Seq::<Shown>::empty() =~= window);
                }
            }
            cursor = cursor + 1;
        } else {
            proof {
                assert(clip(gap, from - done.len(), to - done.len()) =~= Seq::empty());
                assert(window + Seq::<Shown>::empty() =~= window);
            }
        }
        if let Some(layout) = &entries[i].layout {
            let ghost shown = clip(done + gap, from as int, to as int);
            paint_rows(
                &mut lines,
                &mut copies,
                &layout.rows,
                cursor,
                from,
                to,
                selected,
                Ghost(shown),
            );
            proof {
                assert(rows[i as int].len() == layout.rows@.len());
            }
            cursor = cursor + layout.rows.len();
        }
        previous = Some(kind);
        i += 1;
    }
    (lines, copies)
}

/// Screen row of line `line` of a pane that begins at `y` and shows the lines
/// from `offset` on.
pub open spec fn screen_row(y: u16, line: int, offset: int) -> u16 {
    selection::least(y + selection::least(line - offset, u16::MAX as int), u16::MAX as int) as u16
}

/// The visible part of row `i`; only a visible header can be clicked.
pub open spec fn hitbox_of(
    ranges: Seq<(usize, usize)>,
    i: int,
    offset: int,
    viewport: int,
    y: u16,
) -> Option<Hitbox> {
    let (start, end) = ranges[i];
    let first = most(start as int, offset);
    let last = selection::least(
        end as int,
        selection::monus(selection::least(offset + viewport, usize::MAX as int), 1),
    );
    if first <= last {
        let top = screen_row(y, first, offset);
        Some(
            Hitbox {
                top,
                bottom: screen_row(y, last, offset),
                header: if start >= offset {
                    Some(top)
                } else {
                    None
                },
                entry: i as usize,
            },
        )
    } else {
        None
    }
}

/// The visible parts of the first `n` rows.
pub open spec fn hitboxes_of(
    ranges: Seq<(usize, usize)>,
    n: int,
    offset: int,
    viewport: int,
    y: u16,
) -> Seq<Hitbox>
    decreases n,
{
    if n <= 0 {
        Seq::empty()
    } else {
        let before = hitboxes_of(ranges, n - 1, offset, viewport, y);
        match hitbox_of(ranges, n - 1, offset, viewport, y) {
            Some(hit) => before.push(hit),
            None => before,
        }
    }
}

fn find_hitboxes(ranges: &Vec<(usize, usize)>, offset: usize, viewport: usize, y: u16) -> (r: Vec<
    Hitbox,
>)
    ensures
        r@ == hitboxes_of(ranges@, ranges@.len() as int, offset as int, viewport as int, y),
{
    let mut r: Vec<Hitbox> = Vec::new();
    let bottom: usize = offset.saturating_add(viewport).saturating_sub(1);
    let mut i: usize = 0;
    while i < ranges.len()
        invariant
            i <= ranges@.len(),
            bottom == selection::monus(
                selection::least(offset + viewport, usize::MAX as int),
                1,
            ),
            r@ == hitboxes_of(ranges@, i as int, offset as int, viewport as int, y),
        decreases ranges@.len() - i,
    {
        let (start, end) = ranges[i];
        let first: usize = if start >= offset {
            start
        } else {
            offset
        };
        let last: usize = if end < bottom {
            end
        } else {
            bottom
        };
        if first <= last {
            let top: u16 = y.saturating_add(to_u16(first - offset));
            let low: u16 = y.saturating_add(to_u16(last - offset));
            r.push(
                Hitbox {
                    top,
                    bottom: low,
                    header: if start >= offset {
                        Some(top)
                    } else {
                        None
                    },
                    entry: i,
                },
            );
        }
        i += 1;
    }
    r
}

/// The part of the pane that shows text.
pub open spec fn inner_area(area: Rect) -> Rect {
    Rect {
        x: selection::least(area.x + 2, u16::MAX as int) as u16,
        y: area.y,
        width: selection::monus(area.width as int, 4) as u16,
        height: area.height,
    }
}

fn inner_of(area: Rect) -> (r: Rect)
    ensures
        r == inner_area(area),
{
    Rect {
        x: area.x.saturating_add(2),
        y: area.y,
        width: area.width.saturating_sub(4),
        height: area.height,
    }
}

/// Cells of a line of the conversation.
pub open spec fn text_cells(area: Rect) -> int {
    most(inner_area(area).width as int, 1)
}

/// The row shown as selected: the selected one while the conversation has the
/// focus.
pub open spec fn marked(desk: Desk) -> Option<int> {
    if desk.focus == Focus::Conversation {
        desk.conv.selected
    } else {
        None
    }
}

/// The first line of row `i`, if it exists.
pub open spec fn start_of(kinds: Seq<EntryKind>, rows: Seq<Seq<Shown>>, i: Option<int>) -> Option<
    int,
> {
    match i {
        Some(i) => if 0 <= i < kinds.len() {
            Some(range_of(kinds, rows, i).0)
        } else {
            None
        },
        None => None,
    }
}

/// The conversation's scroll state after it has been drawn.
#[verifier::opaque]
pub open spec fn scrolled(
    desk: Desk,
    kinds: Seq<EntryKind>,
    rows: Seq<Seq<Shown>>,
    viewport: int,
) -> Conv {
    let total = total_lines(kinds, rows);
    let revealed = match desk.conv.reveal {
        Some(i) => if 0 <= i < kinds.len() {
            let (start, end) = range_of(kinds, rows, i);
            Conv {
                offset: reveal_offset(start, end, viewport, total) as usize,
                follow: false,
                drives: false,
                ..desk.conv
            }
        } else {
            desk.conv
        },
        None => desk.conv,
    };
    let selected = if revealed.drives {
        start_of(kinds, rows, revealed.selected)
    } else {
        None
    };
    Conv {
        offset: viewport_at(
            revealed.offset as int,
            desk.focus == Focus::Input || revealed.follow,
            selected,
            total,
            viewport,
        ) as usize,
        reveal: None,
        ..revealed
    }
}

/// Whether the pane holds the geometry of the conversation as drawn.
pub open spec fn drawn(
    pane: Pane,
    kinds: Seq<EntryKind>,
    rows: Seq<Seq<Shown>>,
    inner: Rect,
    offset: int,
    selected: Option<(CellPos, CellPos)>,
) -> bool {
    let viewport = inner.height as int;
    &&& pane.conversation_ranges@.len() == kinds.len()
    &&& forall|i: int|
        0 <= i < kinds.len() ==> (#[trigger] pane.conversation_ranges@[i]).0 == range_of(
            kinds,
            rows,
            i,
        ).0 && pane.conversation_ranges@[i].1 == range_of(kinds, rows, i).1
    &&& pane.conversation_viewport_height == viewport
    &&& pane.conversation_total_lines == total_lines(kinds, rows)
    &&& pane.conversation_area == Some(inner)
    &&& copies_ok(
        pane.conversation_rows@,
        clip(transcript(kinds, rows, kinds.len() as int), offset, offset + viewport),
        selected,
    )
    &&& pane.hitboxes@ == hitboxes_of(
        pane.conversation_ranges@,
        kinds.len() as int,
        offset,
        viewport,
        inner.y,
    )
}

/// The drag selection in reading order.
pub open spec fn selection_of(desk: Desk) -> Option<(CellPos, CellPos)> {
    match desk.selection {
        Some(s) => Some(selection::ordered(s.anchor, s.head)),
        None => None,
    }
}

proof fn lemma_selected_line(
    kinds: Seq<EntryKind>,
    rows: Seq<Seq<Shown>>,
    i: int,
)
    requires
        0 <= i < kinds.len(),
    ensures
        0 <= range_of(kinds, rows, i).0 <= total_lines(kinds, rows),
{
    lemma_transcript_grows(kinds, rows, i + 1, kinds.len() as int);
}

/// The Markdown that the body of a row is shown as, if it is: an expanded row
/// keeps its line breaks.
pub open spec fn markdown_of(e: Entry) -> Option<Seq<char>> {
    if !entry_view::is_markdown(e.kind) {
        None
    } else if e.expanded {
        Some(markdown::with_hard_breaks(e.body))
    } else {
        Some(e.body)
    }
}

/// Whether the Markdown of a row, if it has any, can be rendered.
pub open spec fn can_render(e: Entry) -> bool {
    markdown_of(e) matches Some(source) ==> markdown::depth_fits(markdown::markdown_events(source))
}

/// The lines that the Markdown of a row is rendered as.
pub open spec fn body_lines(e: Entry) -> Seq<styling::Strip> {
    match markdown_of(e) {
        Some(source) => rendering::lines_shown(source),
        None => Seq::empty(),
    }
}

/// The display rows of a row, if there is a way to lay it out.
pub open spec fn display_rows(e: Entry, width: usize, selected: bool) -> Option<Seq<Shown>> {
    if can_render(e) {
        entry_view::entry_rows(e, width as int, selected, body_lines(e))
    } else {
        None
    }
}

/// Whether a row can be shown: as it was laid out, or laid out again.
pub open spec fn can_show(entry: ConversationEntry, width: usize, selected: bool) -> bool {
    entry_view::is_fresh(entry, width, selected) || display_rows(entry@, width, selected) is Some
}

/// Whether `after` is `before` with a layout that is up to date.
pub open spec fn brought_up(
    before: ConversationEntry,
    after: ConversationEntry,
    width: usize,
    selected: bool,
) -> bool {
    if entry_view::is_fresh(before, width, selected) {
        after == before
    } else {
        &&& after@ == before@
        &&& after.layout is Some
        &&& after.layout->0.key == entry_view::layout_key(before@, width, selected)
        &&& display_rows(before@, width, selected) == Some(laid_out(after))
    }
}

impl App {
    /// Whether row `index` has to be laid out again for a pane of this area.
    pub fn entry_is_stale(&self, index: usize, area: Rect) -> (r: bool)
        requires
            index < self.view.entries@.len(),
        ensures
            r == !entry_view::is_fresh(
                self.view.entries@[index as int],
                text_cells(area) as usize,
                marked(self@) == Some(index as int),
            ),
    {
        let width = Self::pane_cells(area);
        !layout_is_fresh(&self.view.entries[index], width, self.is_marked(index))
    }

    /// Lays out row `index` for a pane of this area unless its layout is
    /// fresh. `rendered` is its body as Markdown. False when that cannot be
    /// wrapped.
    pub fn lay_out_entry(&mut self, index: usize, area: Rect, rendered: &Vec<Line>) -> (r: bool)
        requires
            index < old(self).view.entries@.len(),
        ensures
            final(self)@ == old(self)@,
            final(self).agents == old(self).agents,
            final(self).view.entries@.len() == old(self).view.entries@.len(),
            forall|k: int|
                0 <= k < old(self).view.entries@.len() && k != index ==> (
                #[trigger] final(self).view.entries@[k]) == old(self).view.entries@[k],
            ({
                let before = old(self).view.entries@[index as int];
                let after = final(self).view.entries@[index as int];
                let width = text_cells(area) as usize;
                let selected = marked(old(self)@) == Some(index as int);
                let rows = entry_view::entry_rows(
                    before@,
                    width as int,
                    selected,
                    styling::strips(rendered@),
                );
                if entry_view::is_fresh(before, width, selected) {
                    r && after == before
                } else if rows is Some {
                    &&& r
                    &&& after.layout is Some
                    &&& after.layout->0.key == entry_view::layout_key(before@, width, selected)
                    &&& laid_out(after) == rows->0
                } else {
                    !r && after == before
                }
            }),
    {
        let width = Self::pane_cells(area);
        let selected = self.is_marked(index);
        let ghost before = self.view.entries@;
        let r = ensure_entry_layout(&mut self.view.entries[index], width, selected, rendered);
        proof {
            assert(conversation::entries_of(self.view.entries@) =~= conversation::entries_of(
                before,
            ));
        }
        r
    }

    /// Lays out row `index` for a pane of this area unless its layout is
    /// fresh. False, with nothing changed, when there is no way to.
    pub fn lay_out(&mut self, index: usize, area: Rect) -> (r: bool)
        requires
            index < old(self).view.entries@.len(),
        ensures
            final(self)@ == old(self)@,
            final(self).agents == old(self).agents,
            final(self).view.entries@.len() == old(self).view.entries@.len(),
            forall|k: int|
                0 <= k < old(self).view.entries@.len() && k != index ==> (
                #[trigger] final(self).view.entries@[k]) == old(self).view.entries@[k],
            ({
                let before = old(self).view.entries@[index as int];
                let after = final(self).view.entries@[index as int];
                let width = text_cells(area) as usize;
                let selected = marked(old(self)@) == Some(index as int);
                &&& r == can_show(before, width, selected)
                &&& r ==> brought_up(before, after, width, selected)
                &&& !r ==> after == before
            }),
    {
        if !self.entry_is_stale(index, area) {
            return true;
        }
        let entry = &self.view.entries[index];
        let rendered = if !renders_markdown(entry.kind) {
            Some(Vec::new())
        } else if entry.expanded {
            let source = preserve_markdown_newlines(entry.body.as_str());
            render_markdown(source.as_str())
        } else {
            render_markdown(entry.body.as_str())
        };
        match rendered {
            None => false,
            Some(lines) => {
                proof {
                    let e = self.view.entries@[index as int]@;
                    assert(styling::strips(lines@) =~= body_lines(e));
                }
                let ghost before = self.view.entries@;
                let r = self.lay_out_entry(index, area, &lines);
                proof {
                    let after = self.view.entries@;
                    assert(conversation::entries_of(after)[index as int] == after[index as int]@);
                    assert(conversation::entries_of(before)[index as int] == before[index as int]@);
                }
                r
            },
        }
    }

    /// Lays out every row that has to be for a pane of this area. False when
    /// there is no way to lay out one of them.
    pub fn lay_out_conversation(&mut self, area: Rect) -> (r: bool)
        ensures
            final(self)@ == old(self)@,
            final(self).agents == old(self).agents,
            final(self).view.entries@.len() == old(self).view.entries@.len(),
            r == (forall|k: int|
                0 <= k < old(self).view.entries@.len() ==> can_show(
                    #[trigger] old(self).view.entries@[k],
                    text_cells(area) as usize,
                    marked(old(self)@) == Some(k),
                )),
            r ==> forall|k: int|
                0 <= k < old(self).view.entries@.len() ==> brought_up(
                    old(self).view.entries@[k],
                    #[trigger] final(self).view.entries@[k],
                    text_cells(area) as usize,
                    marked(old(self)@) == Some(k),
                ),
    {
        let ghost first = self.view.entries@;
        let n: usize = self.view.entries.len();
        let mut i: usize = 0;
        while i < n
            invariant
                i <= n,
                n == first.len(),
                first == old(self).view.entries@,
                self.view.entries@.len() == n,
                self@ == old(self)@,
                self.agents == old(self).agents,
                forall|k: int|
                    0 <= k < i ==> can_show(
                        #[trigger] first[k],
                        text_cells(area) as usize,
                        marked(old(self)@) == Some(k),
                    ),
                forall|k: int|
                    0 <= k < i ==> brought_up(
                        first[k],
                        #[trigger] self.view.entries@[k],
                        text_cells(area) as usize,
                        marked(old(self)@) == Some(k),
                    ),
                forall|k: int| i <= k < n ==> #[trigger] self.view.entries@[k] == first[k],
            decreases n - i,
        {
            let ghost before = self.view.entries@;
            let done = self.lay_out(i, area);
            proof {
                assert(before[i as int] == first[i as int]);
                assert forall|k: int| 0 <= k < i implies #[trigger] self.view.entries@[k]
                    == before[k] by {}
            }
            if !done {
                return false;
            }
            i += 1;
        }
        true
    }

    fn pane_cells(area: Rect) -> (r: usize)
        ensures
            r == text_cells(area),
    {
        let inner = inner_of(area);
        if inner.width < 1 {
            1
        } else {
            inner.width as usize
        }
    }

    fn is_marked(&self, index: usize) -> (r: bool)
        ensures
            r == (marked(self@) == Some(index as int)),
    {
        match self.view.selected_entry {
            Some(i) => self.focus == Focus::Conversation && i == index,
            None => false,
        }
    }

    /// Scrolls a conversation of `total` lines, whose rows take `ranges`.
    fn scroll(&mut self, ranges: &Vec<(usize, usize)>, total: usize, viewport: usize)
        requires
            ({
                let kinds = kinds_of(old(self).view.entries@);
                let rows = layouts_of(old(self).view.entries@);
                &&& ranges@.len() == kinds.len()
                &&& forall|i: int|
                    0 <= i < ranges@.len() ==> (#[trigger] ranges@[i]).0 == range_of(
                        kinds,
                        rows,
                        i,
                    ).0 && ranges@[i].1 == range_of(kinds, rows, i).1 && ranges@[i].1 < usize::MAX
                        - 1
                &&& total == total_lines(kinds, rows)
            }),
        ensures
            final(self)@ == (Desk {
                conv: scrolled(
                    old(self)@,
                    kinds_of(old(self).view.entries@),
                    layouts_of(old(self).view.entries@),
                    viewport as int,
                ),
                ..old(self)@
            }),
            final(self).view.entries@ == old(self).view.entries@,
            final(self).view.conversation_offset == final(self)@.conv.offset,
            final(self).agents == old(self).agents,
            final(self).pane == old(self).pane,
            final(self).text_selection == old(self).text_selection,
    {
        let ghost kinds = kinds_of(self.view.entries@);
        let ghost rows = layouts_of(self.view.entries@);
        if let Some(entry) = self.view.reveal_entry_top {
            if entry < ranges.len() {
                let (start, end) = ranges[entry];
                proof {
                    lemma_selected_line(kinds, rows, entry as int);
                }
                self.view.conversation_offset = reveal_expanded_offset(
                    start,
                    end,
                    viewport,
                    total,
                );
                self.view.follow_conversation_tail = false;
                self.view.selection_drives_viewport = false;
            }
        }
        self.view.reveal_entry_top = None;
        let selected_start = if self.view.selection_drives_viewport {
            match self.view.selected_entry {
                Some(i) => if i < ranges.len() {
                    Some(ranges[i].0)
                } else {
                    None
                },
                None => None,
            }
        } else {
            None
        };
        let offset: usize = viewport_offset(
            self.view.conversation_offset,
            self.focus == Focus::Input || self.view.follow_conversation_tail,
            selected_start,
            total,
            viewport,
        );
        self.view.conversation_offset = offset;
        proof {
            reveal(scrolled);
        }
    }

    /// Draws the conversation into `area`: scrolls it, paints the visible
    /// lines and records what can be clicked and copied. Every row must have
    /// been laid out. `None`, with nothing changed, when one has not or the
    /// lines cannot be counted.
    pub fn render_conversation(&mut self, area: Rect) -> (r: Option<Vec<Line>>)
        ensures
            final(self).view.entries@ == old(self).view.entries@,
            final(self).agents == old(self).agents,
            r is Some == measurable(old(self).view.entries@),
            r is None ==> final(self)@ == old(self)@,
            r matches Some(lines) ==> {
                let kinds = kinds_of(old(self).view.entries@);
                let rows = layouts_of(old(self).view.entries@);
                let inner = inner_area(area);
                let conv = scrolled(old(self)@, kinds, rows, inner.height as int);
                let window = clip(
                    transcript(kinds, rows, kinds.len() as int),
                    conv.offset as int,
                    conv.offset + inner.height,
                );
                &&& styling::strips(lines@) == painted(window, selection_of(old(self)@))
                &&& final(self)@ == (Desk { conv, pane: final(self).pane, ..old(self)@ })
                &&& drawn(
                    final(self).pane,
                    kinds,
                    rows,
                    inner,
                    conv.offset as int,
                    selection_of(old(self)@),
                )
                &&& final(self).pane.input_width == old(self).pane.input_width
                &&& final(self).pane.input_scroll == old(self).pane.input_scroll
                &&& final(self).pane.input_area == old(self).pane.input_area
            },
    {
        let inner = inner_of(area);
        let (ranges, total) = match measure(&self.view.entries) {
            None => {
                return None;
            },
            Some(measured) => measured,
        };
        let ghost kinds = kinds_of(self.view.entries@);
        let ghost rows = layouts_of(self.view.entries@);
        let viewport: usize = inner.height as usize;
        proof {
            assert(kinds.len() == self.view.entries@.len());
        }
        self.scroll(&ranges, total, viewport);
        let offset: usize = self.view.conversation_offset;
        let selected = match self.text_selection {
            Some(s) => Some(s.normalized()),
            None => None,
        };
        let bottom: usize = offset.saturating_add(viewport);
        let (lines, copies) = paint_window(&self.view.entries, offset, bottom, selected);
        proof {
            let all = transcript(kinds, rows, kinds.len() as int);
            assert(all.len() <= total_lines(kinds, rows));
            assert(clip(all, offset as int, bottom as int) =~= clip(
                all,
                offset as int,
                offset + viewport,
            ));
        }
        let hits = find_hitboxes(&ranges, offset, viewport, inner.y);
        self.pane.conversation_ranges = ranges;
        self.pane.conversation_viewport_height = viewport;
        self.pane.conversation_total_lines = total;
        self.pane.conversation_rows = copies;
        self.pane.conversation_area = Some(inner);
        self.pane.hitboxes = hits;
        Some(lines)
    }
}

} // verus!
