//! What clicks, the wheel, drags and pastes do.

use crate::cells;
use crate::conversation::Entry;
use crate::desk;
use crate::desk::{Desk, Focus, Hitbox};
use crate::events::{MouseEvent, MouseEventKind};
use crate::input;
use crate::selection;
use crate::selection::{CellPos, CopyRow};
use crate::text;
use vstd::prelude::*;

verus! {

/// Pasting puts the text at the cursor and the cursor behind it, while the
/// input has the focus; otherwise it does nothing.
pub proof fn pastes_go_to_the_cursor(d: Desk, s: Seq<char>)
    requires
        d.wf(),
        d.input.cursor + s.len() <= usize::MAX,
    ensures
        d.focus == Focus::Input ==> {
            let after = d.paste(s);
            let at = d.input.cursor;
            &&& after.input.text == d.input.text.take(at) + s + d.input.text.skip(at)
            &&& after.input.cursor == at + s.len()
            &&& after == (Desk {
                input: after.input,
                recall: after.recall,
                suggestion: after.suggestion,
                ..d
            })
        },
        d.focus != Focus::Input ==> d.paste(s) == d,
{
}

/// A click on a drawn character of the input puts the cursor at it: at the
/// position that is drawn on the clicked cell, three cells behind the edge of
/// the box and as far down as the input is scrolled. The input gets the focus
/// and keeps its text.
pub proof fn clicks_put_the_cursor_on_their_cell(d: Desk, mouse: MouseEvent, p: int)
    requires
        d.wf(),
        mouse.kind == MouseEventKind::Down,
        d.pane.input_area is Some,
        0 <= p <= d.input.text.len(),
        d.input.text.len() <= usize::MAX,
        ({
            let area = d.pane.input_area->0;
            let (row, column) = d.input.positions(d.pane.input_width as nat)[p];
            &&& mouse.row == area.y + row - d.pane.input_scroll
            &&& area.y <= mouse.row
            &&& mouse.row < area.y + area.height
            &&& area.y + area.height <= u16::MAX
            &&& mouse.column == area.x + 3 + column
        }),
    ensures
        ({
            let (after, copied) = d.mouse(mouse);
            let width = d.pane.input_width as nat;
            &&& copied is None
            &&& after.focus == Focus::Input
            &&& after.input.text == d.input.text
            &&& 0 <= after.input.cursor <= d.input.text.len()
            &&& d.input.positions(width)[after.input.cursor] == d.input.positions(width)[p]
            &&& after.conv == d.conv
        }),
{
    reveal(Desk::mouse);
    reveal(Desk::click);
    let width = d.pane.input_width as nat;
    let at = input::Draft { cursor: p, ..d.input };
    assert(at.positions(width) == d.input.positions(width));
    input::clicking_the_cursor_keeps_it(at, width);
    let (row, column) = d.input.positions(width)[p];
    assert(at.cursor_at(width, row as int, column as int) == d.input.cursor_at(
        width,
        row as int,
        column as int,
    ));
}

proof fn lemma_first_meeting(ranges: Seq<(usize, usize)>, i: int, start: int, end: int)
    requires
        0 <= i <= ranges.len(),
    ensures
        desk::first_meeting(ranges, i, start, end) matches Some(k) ==> i <= k < ranges.len()
            && desk::meets(ranges, k, start, end),
        desk::first_meeting(ranges, i, start, end) is None ==> forall|k: int|
            i <= k < ranges.len() ==> !#[trigger] desk::meets(ranges, k, start, end),
    decreases ranges.len() - i,
{
    if i < ranges.len() && !desk::meets(ranges, i, start, end) {
        lemma_first_meeting(ranges, i + 1, start, end);
    }
}

proof fn lemma_last_meeting(ranges: Seq<(usize, usize)>, n: int, start: int, end: int)
    requires
        0 <= n <= ranges.len(),
    ensures
        desk::last_meeting(ranges, n, start, end) matches Some(k) ==> 0 <= k < n && desk::meets(
            ranges,
            k,
            start,
            end,
        ),
        desk::last_meeting(ranges, n, start, end) is None ==> forall|k: int|
            0 <= k < n ==> !#[trigger] desk::meets(ranges, k, start, end),
    decreases n,
{
    if n > 0 && !desk::meets(ranges, n - 1, start, end) {
        lemma_last_meeting(ranges, n - 1, start, end);
    }
}

/// The wheel scrolls the conversation by two lines, up to its first line and
/// down to the last page, and goes on following the tail exactly there. A
/// selected row that stays in view stays selected; otherwise one in view is
/// selected, if there is any.
pub proof fn the_wheel_scrolls_two_lines(d: Desk, mouse: MouseEvent)
    requires
        mouse.kind == MouseEventKind::ScrollUp || mouse.kind == MouseEventKind::ScrollDown,
        d.conv.offset + 2 + d.pane.conversation_viewport_height < usize::MAX,
    ensures
        ({
            let (after, copied) = d.mouse(mouse);
            let viewport = if d.pane.conversation_viewport_height > 0 {
                d.pane.conversation_viewport_height as int
            } else {
                1
            };
            let last = if d.pane.conversation_total_lines > viewport {
                d.pane.conversation_total_lines - viewport
            } else {
                0
            };
            let from = d.conv.offset as int;
            let to = after.conv.offset as int;
            let ranges = d.pane.conversation_ranges@;
            &&& copied is None
            &&& after.focus == Focus::Conversation
            &&& after.selection is None
            &&& after.conv.entries == d.conv.entries
            &&& after.input == d.input
            &&& mouse.kind == MouseEventKind::ScrollUp ==> to == (if from >= 2 {
                from - 2
            } else {
                0
            }) && !after.conv.follow
            &&& mouse.kind == MouseEventKind::ScrollDown ==> to == (if from + 2 <= last {
                from + 2
            } else {
                last
            }) && after.conv.follow == (to == last)
            &&& d.conv.selected matches Some(s) ==> 0 <= s < ranges.len() && ranges[s].1 >= to
                && ranges[s].0 < to + viewport ==> after.conv.selected == Some(s)
            &&& after.conv.selected matches Some(s) ==> 0 <= s < ranges.len() && ranges[s].1 >= to
                && ranges[s].0 < to + viewport
            &&& after.conv.selected is None ==> forall|k: int|
                0 <= k < ranges.len() ==> !((#[trigger] ranges[k]).1 >= to && ranges[k].0 < to
                    + viewport)
        }),
{
    reveal(Desk::mouse);
    reveal(Desk::scroll);
    let e = Desk { selection: None, ..d };
    let after = d.mouse(mouse).0;
    let viewport = if d.pane.conversation_viewport_height == 0 {
        1
    } else {
        d.pane.conversation_viewport_height as int
    };
    let ranges = d.pane.conversation_ranges@;
    let offset = after.conv.offset as int;
    let end = offset + viewport;
    lemma_first_meeting(ranges, 0, offset, end);
    lemma_last_meeting(ranges, ranges.len() as int, offset, end);
    if after.conv.selected is None {
        assert forall|k: int| 0 <= k < ranges.len() implies !((#[trigger] ranges[k]).1 >= offset
            && ranges[k].0 < end) by {
            assert(!desk::meets(ranges, k, offset, end));
        }
    }
}

proof fn lemma_hit(boxes: Seq<Hitbox>, i: int, row: int, k: int)
    requires
        0 <= i <= k < boxes.len(),
        boxes[k].top <= row <= boxes[k].bottom,
        forall|j: int|
            i <= j < k ==> !((#[trigger] boxes[j]).top <= row && row <= boxes[j].bottom),
    ensures
        desk::hit(boxes, i, row) == Some(k),
    decreases k - i,
{
    if i < k {
        lemma_hit(boxes, i + 1, row, k);
    }
}

/// A click on a row of an entry selects that entry, and on its header row also
/// expands it, or collapses it when it is expanded; no other entry changes.
pub proof fn clicks_select_the_entry_under_them(d: Desk, mouse: MouseEvent, k: int)
    requires
        mouse.kind == MouseEventKind::Down,
        !d.in_input(mouse),
        0 <= k < d.pane.hitboxes@.len(),
        d.pane.hitboxes@[k].top <= mouse.row <= d.pane.hitboxes@[k].bottom,
        forall|j: int|
            0 <= j < k ==> !((#[trigger] d.pane.hitboxes@[j]).top <= mouse.row && mouse.row
                <= d.pane.hitboxes@[j].bottom),
        d.pane.hitboxes@[k].entry < d.conv.entries.len(),
    ensures
        ({
            let target = d.pane.hitboxes@[k];
            let i = target.entry as int;
            let e = d.conv.entries[i];
            let (after, copied) = d.mouse(mouse);
            &&& copied is None
            &&& after.focus == Focus::Conversation
            &&& after.conv.selected == Some(i)
            &&& !after.conv.follow
            &&& after.conv.entries.len() == d.conv.entries.len()
            &&& after.conv.entries[i] == if target.header == Some(mouse.row) {
                Entry { expanded: !e.expanded, ..e }
            } else {
                e
            }
            &&& forall|j: int|
                0 <= j < d.conv.entries.len() && j != i ==> after.conv.entries[j]
                    == #[trigger] d.conv.entries[j]
            &&& after.input == d.input
        }),
{
    reveal(Desk::mouse);
    reveal(Desk::click);
    reveal(Desk::on_entry);
    reveal(Desk::begin_selection);
    lemma_hit(d.pane.hitboxes@, 0, mouse.row as int, k);
}

/// A press in the conversation pane, where no header is, begins a selection on
/// its cell; dragging moves its other end, kept within the pane.
pub proof fn drags_select_from_press_to_pointer(
    d: Desk,
    press: MouseEvent,
    drag: MouseEvent,
    area: selection::Rect,
)
    requires
        press.kind == MouseEventKind::Down,
        drag.kind == MouseEventKind::Drag,
        !d.in_input(press),
        d.pane.conversation_area == Some(area),
        area.y <= press.row < area.y + area.height,
        area.x <= press.column < area.x + area.width,
        area.y + area.height <= u16::MAX,
        forall|j: int|
            0 <= j < d.pane.hitboxes@.len() ==> (#[trigger] d.pane.hitboxes@[j]).header != Some(
                press.row,
            ),
    ensures
        ({
            let began = d.mouse(press).0;
            let dragged = began.mouse(drag).0;
            &&& began.selection matches Some(s) && s.anchor == s.head && s.anchor.row == press.row
                - area.y && s.anchor.col == press.column - area.x
            &&& dragged.selection matches Some(s) && s.anchor == began.selection->0.anchor
            &&& area.y <= drag.row < area.y + area.height ==> dragged.selection->0.head.row
                == drag.row - area.y
            &&& area.x <= drag.column < area.x + area.width ==> dragged.selection->0.head.col
                == drag.column - area.x
            &&& dragged.selection->0.head.row < area.height
            &&& dragged.selection->0.head.col < area.width
            &&& dragged.conv.entries == d.conv.entries
        }),
{
    reveal(Desk::mouse);
    reveal(Desk::click);
    reveal(Desk::on_entry);
    reveal(Desk::begin_selection);
    lemma_hit_in_range(d.pane.hitboxes@, 0, press.row as int);
}

proof fn lemma_hit_in_range(boxes: Seq<Hitbox>, i: int, row: int)
    requires
        0 <= i <= boxes.len(),
    ensures
        desk::hit(boxes, i, row) matches Some(k) ==> i <= k < boxes.len() && boxes[k].top <= row
            <= boxes[k].bottom,
        desk::hit(boxes, i, row) is None ==> forall|k: int|
            i <= k < boxes.len() ==> !((#[trigger] boxes[k]).top <= row && row <= boxes[k].bottom),
    decreases boxes.len() - i,
{
    if i < boxes.len() && !(boxes[i].top <= row <= boxes[i].bottom) {
        lemma_hit_in_range(boxes, i + 1, row);
    }
}

/// Releasing the button ends a selection and copies its text, unless nothing
/// was dragged over.
pub proof fn releases_copy_the_selection(d: Desk, mouse: MouseEvent)
    requires
        mouse.kind == MouseEventKind::Up,
    ensures
        d.mouse(mouse).0 == (Desk { selection: None, ..d }),
        d.mouse(mouse).1 is Some <==> d.selection is Some && d.selection->0.anchor
            != d.selection->0.head,
        d.mouse(mouse).1 is Some ==> d.mouse(mouse).1->0 == selection::copied_text(
            d.pane.conversation_rows@,
            d.selection->0.anchor,
            d.selection->0.head,
        ),
{
    reveal(Desk::mouse);
}

/// Whether every cluster of a row takes one cell.
pub open spec fn is_narrow(row: CopyRow) -> bool {
    let parts = cells::clusters(row.text@);
    &&& parts.len() < usize::MAX
    &&& forall|i: int| 0 <= i < parts.len() ==> cells::text_width(#[trigger] parts[i]) == 1
}

proof fn lemma_narrow_offset(parts: Seq<Seq<char>>, i: int)
    requires
        0 <= i <= parts.len() < usize::MAX,
        forall|k: int| 0 <= k < parts.len() ==> cells::text_width(#[trigger] parts[k]) == 1,
    ensures
        cells::cell_offset(parts, 0, i) == i,
    decreases i,
{
    if i > 0 {
        lemma_narrow_offset(parts, i - 1);
    }
}

proof fn lemma_narrow_slice(parts: Seq<Seq<char>>, n: int, from: nat, to: nat)
    requires
        0 <= n <= parts.len() < usize::MAX,
        forall|k: int| 0 <= k < parts.len() ==> cells::text_width(#[trigger] parts[k]) == 1,
    ensures
        ({
            let end = if n <= to + 1 {
                n
            } else {
                (to + 1) as int
            };
            cells::overlapping(parts, n, from, to) == if from < end {
                cells::concat_all(parts.subrange(from as int, end))
            } else {
                Seq::<char>::empty()
            }
        }),
    decreases n,
{
    if n > 0 {
        lemma_narrow_slice(parts, n - 1, from, to);
        lemma_narrow_offset(parts, n - 1);
        lemma_narrow_offset(parts, n);
        if from <= n - 1 <= to {
            let all = parts.subrange(from as int, n);
            assert(all.drop_last() =~= parts.subrange(from as int, n - 1));
            assert(all.last() == parts[n - 1]);
            if from == n - 1 {
                assert(all.drop_last() =~= Seq::<Seq<char>>::empty());
                assert(cells::concat_all(Seq::<Seq<char>>::empty()) == Seq::<char>::empty());
            }
        }
    }
}

/// On rows of one-cell characters, a copy within one row takes exactly the
/// characters from the first to the last selected cell, without trailing
/// whitespace and without the padding.
pub proof fn copies_take_the_selected_cells(rows: Seq<CopyRow>, row: usize, a: usize, b: usize)
    requires
        row < rows.len(),
        is_narrow(rows[row as int]),
        rows[row as int].pad <= a <= b < cells::clusters(rows[row as int].text@).len(),
    ensures
        selection::copied_text(rows, CellPos { row, col: a }, CellPos { row, col: b })
            == text::trim_end(
            cells::concat_all(
                cells::clusters(rows[row as int].text@).subrange(a as int, b + 1),
            ),
        ),
{
    let parts = cells::clusters(rows[row as int].text@);
    let start = CellPos { row, col: a };
    let end = CellPos { row, col: b };
    lemma_narrow_slice(parts, parts.len() as int, a as nat, b as nat);
    let copied = selection::copied_rows(rows, start, end);
    assert(copied.len() == 1);
    assert(copied[0] == selection::copied_row(rows, row as int, start, end));
    assert(text::join(copied, "\n"@) == copied[0]);
}

proof fn lemma_last_meets(ranges: Seq<(usize, usize)>, n: int, start: int, end: int)
    requires
        0 <= n <= ranges.len(),
    ensures
        desk::last_meeting(ranges, n, start, end) matches Some(s) ==> 0 <= s < n
            && (forall|k: int| s < k < n ==> !desk::meets(ranges, k, start, end)),
    decreases n,
{
    if n > 0 && !desk::meets(ranges, n - 1, start, end) {
        lemma_last_meets(ranges, n - 1, start, end);
    }
}

proof fn lemma_first_meets(ranges: Seq<(usize, usize)>, i: int, start: int, end: int)
    requires
        0 <= i <= ranges.len(),
    ensures
        desk::first_meeting(ranges, i, start, end) matches Some(s) ==> i <= s < ranges.len()
            && (forall|k: int| i <= k < s ==> !desk::meets(ranges, k, start, end)),
    decreases ranges.len() - i,
{
    if i < ranges.len() && !desk::meets(ranges, i, start, end) {
        lemma_first_meets(ranges, i + 1, start, end);
    }
}

/// Where scrolling takes the selected row out of view, the selection goes to
/// the nearest row in view: the last one on the way up, the first one on the
/// way down.
pub proof fn scrolling_pushes_the_selection(d: Desk, mouse: MouseEvent, k: int)
    requires
        mouse.kind == MouseEventKind::ScrollUp || mouse.kind == MouseEventKind::ScrollDown,
        d.pane.conversation_viewport_height > 0,
        d.conv.offset + 2 + d.pane.conversation_viewport_height < usize::MAX,
        0 <= k < d.pane.conversation_ranges@.len(),
    ensures
        ({
            let after = d.mouse(mouse).0;
            let ranges = d.pane.conversation_ranges@;
            let from = after.conv.offset as int;
            let to = from + d.pane.conversation_viewport_height;
            let visible = ranges[k].1 >= from && ranges[k].0 < to;
            after.conv.selected is Some && after.conv.selected != d.conv.selected && visible ==> {
                &&& mouse.kind == MouseEventKind::ScrollUp ==> k <= after.conv.selected->0
                &&& mouse.kind == MouseEventKind::ScrollDown ==> after.conv.selected->0 <= k
            }
        }),
{
    reveal(Desk::mouse);
    reveal(Desk::scroll);
    let after = d.mouse(mouse).0;
    let ranges = d.pane.conversation_ranges@;
    let from = after.conv.offset as int;
    let to = from + d.pane.conversation_viewport_height;
    lemma_last_meets(ranges, ranges.len() as int, from, to);
    lemma_first_meets(ranges, 0, from, to);
    assert(desk::meets(ranges, k, from, to) <==> ranges[k].1 >= from && ranges[k].0 < to);
}

} // verus!
