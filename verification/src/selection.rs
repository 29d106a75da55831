//! Drag selections over the conversation viewport and the text they copy.

use crate::cells;
use crate::text;
use vstd::prelude::*;
use vstd::string::*;

verus! {

/// A rectangle of terminal cells.
#[derive(Clone, Copy, Debug, PartialEq, Eq, Structural)]
pub struct Rect {
    pub x: u16,
    pub y: u16,
    pub width: u16,
    pub height: u16,
}

/// A cell position in the conversation viewport: a layout row and column
/// relative to the conversation pane's top-left corner.
#[derive(Clone, Copy, Debug, PartialEq, Eq, Structural)]
pub struct CellPos {
    pub row: usize,
    pub col: usize,
}

/// An in-progress drag selection over the conversation viewport. The anchor
/// is where the drag started and the head follows the cursor.
#[derive(Clone, Copy, Debug, PartialEq, Eq, Structural)]
pub struct TextSelection {
    pub anchor: CellPos,
    pub head: CellPos,
}

/// One visible conversation viewport row, plus how many leading cells are
/// presentation padding that copied text leaves out.
#[derive(Clone, Debug, PartialEq, Eq)]
pub struct CopyRow {
    pub pad: usize,
    pub text: String,
}

/// Whether `a` precedes or equals `b` in reading order.
pub open spec fn pos_le(a: CellPos, b: CellPos) -> bool {
    a.row < b.row || (a.row == b.row && a.col <= b.col)
}

/// Two positions in reading order.
pub open spec fn ordered(a: CellPos, b: CellPos) -> (CellPos, CellPos) {
    if pos_le(a, b) {
        (a, b)
    } else {
        (b, a)
    }
}

/// Puts two positions in reading order.
fn order(a: CellPos, b: CellPos) -> (r: (CellPos, CellPos))
    ensures
        r == ordered(a, b),
{
    if a.row < b.row || (a.row == b.row && a.col <= b.col) {
        (a, b)
    } else {
        (b, a)
    }
}

impl TextSelection {
    /// The selection as an ordered (start, end) pair.
    pub fn normalized(&self) -> (r: (CellPos, CellPos))
        ensures
            r == ordered(self.anchor, self.head),
    {
        order(self.anchor, self.head)
    }
}

/// The smaller of two numbers.
pub open spec fn least(a: int, b: int) -> int {
    if a <= b {
        a
    } else {
        b
    }
}

/// `a - b`, or zero when `b` is larger.
pub open spec fn monus(a: int, b: int) -> int {
    if a <= b {
        0
    } else {
        a - b
    }
}

/// A terminal position as a viewport cell, clamped to the pane.
pub open spec fn cell_at(row: int, column: int, area: Rect) -> CellPos {
    CellPos {
        row: least(monus(row, area.y as int), monus(area.height as int, 1)) as usize,
        col: least(monus(column, area.x as int), monus(area.width as int, 1)) as usize,
    }
}

/// Maps a terminal row and column onto a viewport cell, clamped to the pane.
pub fn cell_pos(row: u16, column: u16, area: Rect) -> (r: CellPos)
    ensures
        r == cell_at(row as int, column as int, area),
{
    let down: u16 = row.saturating_sub(area.y);
    let across: u16 = column.saturating_sub(area.x);
    let bottom: u16 = area.height.saturating_sub(1);
    let right: u16 = area.width.saturating_sub(1);
    CellPos {
        row: if down <= bottom {
            down as usize
        } else {
            bottom as usize
        },
        col: if across <= right {
            across as usize
        } else {
            right as usize
        },
    }
}

/// First cell of row `row` that a copy from `start` on takes: its padding is
/// left out.
pub open spec fn copied_from(rows: Seq<CopyRow>, row: int, start: CellPos) -> nat {
    let pad = rows[row].pad;
    if row == start.row && start.col > pad {
        start.col as nat
    } else {
        pad as nat
    }
}

/// Last cell of row `row` that a copy up to `end` takes.
pub open spec fn copied_to(row: int, end: CellPos) -> nat {
    if row == end.row {
        end.col as nat
    } else {
        usize::MAX as nat
    }
}

/// What row `row` contributes to a copy of the cells from `start` to `end`:
/// its content cells in range, without trailing whitespace.
pub open spec fn copied_row(rows: Seq<CopyRow>, row: int, start: CellPos, end: CellPos) -> Seq<
    char,
> {
    text::trim_end(
        cells::cell_slice(
            rows[row].text@,
            copied_from(rows, row, start),
            copied_to(row, end),
        ),
    )
}

/// The contributions of the rows from `start` to `end` that exist.
pub open spec fn copied_rows(rows: Seq<CopyRow>, start: CellPos, end: CellPos) -> Seq<Seq<char>> {
    if start.row >= rows.len() {
        Seq::empty()
    } else {
        let last = least(end.row as int, rows.len() - 1);
        Seq::new(
            (last - start.row + 1) as nat,
            |i: int| copied_row(rows, start.row + i, start, end),
        )
    }
}

/// Whether no row holds a line break.
pub open spec fn unbroken(rows: Seq<CopyRow>) -> bool {
    forall|i: int, x: int|
        0 <= i < rows.len() && 0 <= x < rows[i].text@.len() ==> #[trigger] rows[i].text@[x] != '\n'
}

/// Whether a text holds no line break.
pub open spec fn one_line(s: Seq<char>) -> bool {
    forall|x: int| 0 <= x < s.len() ==> #[trigger] s[x] != '\n'
}

/// What a row without line breaks contributes has none either.
proof fn lemma_copied_row(rows: Seq<CopyRow>, row: int, start: CellPos, end: CellPos)
    requires
        0 <= row < rows.len(),
        unbroken(rows),
        cells::concat_all(cells::clusters(rows[row].text@)) == rows[row].text@,
    ensures
        one_line(copied_row(rows, row, start, end)),
{
    let parts = cells::clusters(rows[row].text@);
    let from = copied_from(rows, row, start);
    let to = copied_to(row, end);
    cells::lemma_slice_lacks(parts, parts.len() as int, from, to, '\n');
    let slice = cells::cell_slice(rows[row].text@, from, to);
    text::lemma_rspan(slice, slice.len() as int, true);
}

/// The text a selection copies.
pub open spec fn copied_text(rows: Seq<CopyRow>, anchor: CellPos, head: CellPos) -> Seq<char> {
    let (start, end) = ordered(anchor, head);
    text::join(copied_rows(rows, start, end), "\n"@)
}

/// The copied text for a selection over the viewport's visible rows: the
/// selected content cells of each row in order, joined with newlines, with
/// trailing whitespace trimmed per row and presentation padding skipped.
pub fn selected_text(rows: &Vec<CopyRow>, anchor: CellPos, head: CellPos) -> (r: String)
    ensures
        r@ == copied_text(rows@, anchor, head),
        ({
            let (start, end) = ordered(anchor, head);
            start.row < rows@.len() && unbroken(rows@) ==> text::split(r@, '\n') == copied_rows(
                rows@,
                start,
                end,
            )
        }),
{
    let (start, end) = order(anchor, head);
    if start.row >= rows.len() {
        return String::new();
    }
    let last: usize = if end.row < rows.len() {
        end.row
    } else {
        rows.len() - 1
    };
    let mut parts: Vec<String> = Vec::new();
    let mut row: usize = start.row;
    while row <= last
        invariant
            start.row < rows@.len(),
            start.row <= row <= last + 1,
            start.row <= last < rows@.len(),
            last == least(end.row as int, rows@.len() - 1),
            rows@.len() <= usize::MAX,
            text::texts(parts@) == copied_rows(rows@, start, end).take(row - start.row),
            unbroken(rows@) ==> forall|k: int|
                0 <= k < row - start.row ==> one_line(#[trigger] copied_rows(rows@, start, end)[k]),
        decreases last + 1 - row,
    {
        let pad: usize = rows[row].pad;
        let from: usize = if row == start.row && start.col > pad {
            start.col
        } else {
            pad
        };
        let to: usize = if row == end.row {
            end.col
        } else {
            usize::MAX
        };
        let slice = cells::slice_cells(rows[row].text.as_str(), from, to);
        let ghost before = text::texts(parts@);
        parts.push(text::trimmed_end(slice.as_str()));
        proof {
            let all = copied_rows(rows@, start, end);
            if unbroken(rows@) {
                lemma_copied_row(rows@, row as int, start, end);
            }
            assert(text::texts(parts@) =~= before.push(copied_row(rows@, row as int, start, end)));
            assert(all.take(row - start.row + 1) =~= all.take(row - start.row).push(
                all[row - start.row],
            ));
        }
        row += 1;
    }
    proof {
        let all = copied_rows(rows@, start, end);
        assert(all.take(all.len() as int) =~= all);
        if unbroken(rows@) {
            assert forall|k: int, x: int|
                0 <= k < all.len() && 0 <= x < all[k].len() implies #[trigger] all[k][x] != '\n' by {
                assert(one_line(all[k]));
            }
            text::lemma_split_joined(all, '\n');
            reveal_strlit("\n");
            assert("\n"@ =~= seq!['\n']);
        }
    }
    text::joined(&parts, "\n")
}

/// A selection copies the same text whichever way it was dragged.
pub proof fn drag_direction_does_not_matter(rows: Seq<CopyRow>, anchor: CellPos, head: CellPos)
    ensures
        copied_text(rows, anchor, head) == copied_text(rows, head, anchor),
{
    if pos_le(anchor, head) && pos_le(head, anchor) {
        assert(anchor == head);
    }
}

/// A selection that starts below the visible rows copies nothing.
pub proof fn selection_below_the_rows_is_empty(rows: Seq<CopyRow>, anchor: CellPos, head: CellPos)
    requires
        anchor.row >= rows.len(),
        head.row >= rows.len(),
    ensures
        copied_text(rows, anchor, head) == Seq::<char>::empty(),
{
}

/// A selection copies a line for each visible row it touches.
pub proof fn each_selected_row_is_one_line(rows: Seq<CopyRow>, start: CellPos, end: CellPos)
    requires
        start.row < rows.len(),
        start.row <= end.row,
    ensures
        copied_rows(rows, start, end).len() == least(end.row as int, rows.len() - 1) - start.row
            + 1,
{
}

/// No copied line ends in whitespace.
pub proof fn copied_lines_end_in_content(rows: Seq<CopyRow>, start: CellPos, end: CellPos, i: int)
    requires
        0 <= i < copied_rows(rows, start, end).len(),
        copied_rows(rows, start, end)[i].len() > 0,
    ensures
        !text::is_space(copied_rows(rows, start, end)[i].last()),
{
    let row = start.row + i;
    let slice = cells::cell_slice(
        rows[row].text@,
        copied_from(rows, row, start),
        copied_to(row, end),
    );
    text::lemma_rspan(slice, slice.len() as int, true);
}

/// Padding is never copied: where the first `k` clusters of a row lie within
/// its padding, what the row contributes is made of the clusters behind them.
pub proof fn padding_is_not_copied(
    rows: Seq<CopyRow>,
    row: int,
    start: CellPos,
    end: CellPos,
    k: int,
)
    requires
        0 <= row < rows.len(),
        0 <= k <= cells::clusters(rows[row].text@).len(),
        cells::cell_offset(cells::clusters(rows[row].text@), 0, k) <= rows[row].pad,
    ensures
        ({
            let parts = cells::clusters(rows[row].text@);
            copied_row(rows, row, start, end) == text::trim_end(
                cells::overlapping_behind(
                    parts,
                    k,
                    parts.len() as int,
                    copied_from(rows, row, start),
                    copied_to(row, end),
                ),
            )
        }),
{
    let parts = cells::clusters(rows[row].text@);
    cells::lemma_behind(
        parts,
        k,
        parts.len() as int,
        copied_from(rows, row, start),
        copied_to(row, end),
    );
}

/// Every clamped position lies inside a nonempty pane.
pub proof fn cell_positions_stay_in_the_pane(row: u16, column: u16, area: Rect)
    requires
        area.width > 0,
        area.height > 0,
    ensures
        cell_at(row as int, column as int, area).row < area.height,
        cell_at(row as int, column as int, area).col < area.width,
{
}

} // verus!
