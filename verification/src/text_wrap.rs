//! Word-aware soft-wrapping for the conversation pane.
//!
//! Rows never break mid-word: when the next word does not fit on the current
//! row, the break moves before the word. A word wider than its container is
//! the one exception: it is split, and every continuation row after its first
//! chunk is indented two cells (clamped when the container is too narrow to
//! hold both the indent and the items of the row). Items are extended grapheme
//! clusters, so emoji sequences and combining marks are never torn apart.

use crate::cells;
use crate::text;
use vstd::prelude::*;
use vstd::string::*;

verus! {

/// Indent applied to continuation rows of a word wider than its container.
pub const LONG_WORD_INDENT: usize = 2;

/// Whether a soft wrap may replace the character.
pub open spec fn breakable(c: char) -> bool {
    c == '\u{200B}' || (text::is_space(c) && c != '\u{00A0}' && c != '\u{2007}' && c != '\u{202F}'
        && c != '\u{2060}')
}

/// Whitespace characters that permit a soft wrap. Non-breaking spaces and
/// word joiners stay inside their word; the zero-width space is an explicit,
/// invisible break opportunity.
pub fn is_breakable_whitespace(character: char) -> (r: bool)
    ensures
        r == breakable(character),
{
    character == '\u{200B}' || (text::whitespace(character) && character != '\u{00A0}' && character
        != '\u{2007}' && character != '\u{202F}' && character != '\u{2060}')
}

/// One item to lay out: the cells it takes and whether it is a soft-wrap
/// point.
#[derive(Clone, Copy, Debug, PartialEq, Eq, Structural)]
pub struct WrapItem {
    pub width: usize,
    pub breakable: bool,
}

/// One rendered row: the items `start..end` after `indent` synthetic spaces.
#[derive(Clone, Copy, Debug, PartialEq, Eq, Structural)]
pub struct WrapRow {
    pub start: usize,
    pub end: usize,
    pub indent: usize,
}

/// Rows finished so far and the row being filled.
pub struct Fill {
    pub rows: Seq<WrapRow>,
    pub start: int,
    pub end: int,
    pub indent: int,
    pub used: int,
}

/// Cells taken by the items `i..j`.
pub open spec fn total(items: Seq<WrapItem>, i: int, j: int) -> int
    decreases j - i,
{
    if i < j {
        total(items, i, j - 1) + items[j - 1].width
    } else {
        0
    }
}

/// First index at or after `i` whose item is not of the class `ws`.
pub open spec fn run_end(items: Seq<WrapItem>, i: int, ws: bool) -> int
    decreases items.len() - i,
{
    if 0 <= i < items.len() && items[i].breakable == ws {
        run_end(items, i + 1, ws)
    } else {
        i
    }
}

pub open spec fn monus(a: int, b: int) -> int {
    if a <= b {
        0
    } else {
        a - b
    }
}

impl Fill {
    /// The open row.
    pub open spec fn row(self) -> WrapRow {
        WrapRow { start: self.start as usize, end: self.end as usize, indent: self.indent as usize }
    }

    /// Whether the open row holds items that take cells.
    pub open spec fn visible(self) -> bool {
        self.end > self.start && self.used > 0
    }

    /// Finishes the open row when it is visible.
    pub open spec fn flush(self) -> Fill {
        if self.visible() {
            Fill { rows: self.rows.push(self.row()), ..self }
        } else {
            self
        }
    }

    /// Opens a fresh empty row at item `start`.
    pub open spec fn begin(self, start: int, indent: int) -> Fill {
        Fill { rows: self.rows, start, end: start, indent, used: 0 }
    }

    /// Extends the open row through item `end` by `width` cells.
    pub open spec fn append(self, end: int, width: int) -> Fill {
        Fill { end, used: self.used + width, ..self }
    }
}

/// Lays out the whitespace items `pos..end` verbatim, on unindented new rows
/// where they overflow.
pub open spec fn put_whitespace(
    items: Seq<WrapItem>,
    pos: int,
    end: int,
    width: int,
    f: Fill,
) -> Fill
    decreases end - pos,
{
    if pos >= end {
        f
    } else {
        let w = items[pos].width as int;
        let g = if f.end > f.start && f.used + w > monus(width, f.indent) {
            f.flush().begin(pos, 0)
        } else {
            f
        };
        put_whitespace(items, pos + 1, end, width, g.append(pos + 1, w))
    }
}

/// Indent that the chunk of an over-wide word which begins at `pos` is filled
/// beside.
pub open spec fn chunk_indent(items: Seq<WrapItem>, pos: int, word_start: int, width: int) -> int {
    let most = if width - 1 < LONG_WORD_INDENT {
        width - 1
    } else {
        LONG_WORD_INDENT as int
    };
    let room = monus(width, items[pos].width as int);
    if pos <= word_start {
        0
    } else if most < room {
        most
    } else {
        room
    }
}

/// End and cells of a chunk that begins at `pos`, holds the items up to `e`
/// in `used` cells, and takes further items while they fit.
pub open spec fn chunk_fill(
    items: Seq<WrapItem>,
    pos: int,
    e: int,
    used: int,
    word_end: int,
    capacity: int,
) -> (int, int)
    decreases word_end - e,
{
    if e >= word_end {
        (e, used)
    } else {
        let w = items[e].width as int;
        if e > pos && used + w > capacity {
            (e, used)
        } else if used + w >= capacity {
            (e + 1, used + w)
        } else {
            chunk_fill(items, pos, e + 1, used + w, word_end, capacity)
        }
    }
}

/// First index at or after `e`, and before `word_end`, whose item takes cells.
pub open spec fn skip_zero(items: Seq<WrapItem>, e: int, word_end: int) -> int
    decreases word_end - e,
{
    if e < word_end && items[e].width == 0 {
        skip_zero(items, e + 1, word_end)
    } else {
        e
    }
}

/// End and cells of the chunk of an over-wide word that begins at `pos`.
/// Items without cells stay with the chunk before them; a chunk of only such
/// items takes the next item too.
pub open spec fn chunk(
    items: Seq<WrapItem>,
    pos: int,
    word_start: int,
    word_end: int,
    width: int,
) -> (int, int) {
    let capacity = monus(width, chunk_indent(items, pos, word_start, width));
    let (filled, used) = chunk_fill(items, pos, pos, 0, word_end, capacity);
    let e = skip_zero(items, filled, word_end);
    if used == 0 && e < word_end {
        (e + 1, items[e].width as int)
    } else {
        (e, used)
    }
}

/// Indent of the row for the chunk that begins at `pos`: it gives way where
/// the chunk would not fit beside it.
pub open spec fn row_indent(
    items: Seq<WrapItem>,
    pos: int,
    word_start: int,
    word_end: int,
    width: int,
) -> int {
    let indent = chunk_indent(items, pos, word_start, width);
    let room = monus(width, chunk(items, pos, word_start, word_end, width).1);
    if indent < room {
        indent
    } else {
        room
    }
}

proof fn lemma_chunk_fill(
    items: Seq<WrapItem>,
    pos: int,
    e: int,
    used: int,
    word_end: int,
    capacity: int,
)
    requires
        0 <= pos <= e <= word_end <= items.len(),
        used == total(items, pos, e),
        used < capacity,
    ensures
        e <= chunk_fill(items, pos, e, used, word_end, capacity).0 <= word_end,
        e < word_end && e == pos ==> chunk_fill(items, pos, e, used, word_end, capacity).0 > pos,
        chunk_fill(items, pos, e, used, word_end, capacity).1 == total(
            items,
            pos,
            chunk_fill(items, pos, e, used, word_end, capacity).0,
        ),
        ({
            let (end, cells) = chunk_fill(items, pos, e, used, word_end, capacity);
            cells <= capacity || (end == pos + 1)
        }),
        ({
            let (end, cells) = chunk_fill(items, pos, e, used, word_end, capacity);
            cells == 0 && end < word_end ==> items[end].width > capacity
        }),
        ({
            let (end, cells) = chunk_fill(items, pos, e, used, word_end, capacity);
            end < word_end ==> cells >= capacity || cells + items[end].width > capacity
        }),
    decreases word_end - e,
{
    lemma_total_nonneg(items, pos, e);
    if e < word_end {
        let w = items[e].width as int;
        if !(e > pos && used + w > capacity) && used + w < capacity {
            lemma_chunk_fill(items, pos, e + 1, used + w, word_end, capacity);
        }
    }
}

proof fn lemma_skip_zero(items: Seq<WrapItem>, pos: int, e: int, word_end: int)
    requires
        0 <= pos <= e <= word_end <= items.len(),
    ensures
        e <= skip_zero(items, e, word_end) <= word_end,
        total(items, pos, skip_zero(items, e, word_end)) == total(items, pos, e),
        forall|x: int|
            e <= x < skip_zero(items, e, word_end) ==> (#[trigger] items[x]).width == 0,
        skip_zero(items, e, word_end) < word_end ==> items[skip_zero(
            items,
            e,
            word_end,
        )].width > 0,
    decreases word_end - e,
{
    if e < word_end && items[e].width == 0 {
        lemma_skip_zero(items, pos, e + 1, word_end);
    }
}

/// Exactly one of the items `i..j` takes cells, and it is wider than `width`.
pub open spec fn lone_wide_item(items: Seq<WrapItem>, i: int, j: int, width: int) -> bool {
    exists|x: int|
        i <= x < j && (#[trigger] items[x]).width > width && total(items, i, j) == items[x].width
}

/// Whether the items `i..j` after `indent` cells stay within `width`, unless a
/// single item alone exceeds it.
pub open spec fn row_fits(items: Seq<WrapItem>, i: int, j: int, indent: int, width: int) -> bool {
    indent + total(items, i, j) <= width || (indent == 0 && lone_wide_item(items, i, j, width))
}

proof fn lemma_total_split(items: Seq<WrapItem>, i: int, m: int, j: int)
    requires
        i <= m <= j,
    ensures
        total(items, i, j) == total(items, i, m) + total(items, m, j),
        total(items, i, m) >= 0,
        total(items, m, j) >= 0,
    decreases j - i,
{
    if m < j {
        lemma_total_split(items, i, m, j - 1);
    } else if i < m {
        lemma_total_split(items, i, m - 1, m - 1);
    }
}

proof fn lemma_total_zero(items: Seq<WrapItem>, i: int, j: int, x: int)
    requires
        i <= x < j,
        total(items, i, j) == 0,
    ensures
        items[x].width == 0,
{
    lemma_total_split(items, i, x, j);
    lemma_total_split(items, x, x + 1, j);
    assert(total(items, x, x + 1) == total(items, x, x) + items[x].width);
}

proof fn lemma_chunk(
    items: Seq<WrapItem>,
    pos: int,
    word_start: int,
    word_end: int,
    width: int,
)
    requires
        0 <= word_start <= pos < word_end <= items.len(),
        width >= 1,
    ensures
        ({
            let (end, used) = chunk(items, pos, word_start, word_end, width);
            let indent = row_indent(items, pos, word_start, word_end, width);
            &&& pos < end <= word_end
            &&& used == total(items, pos, end)
            &&& used > 0 || end == word_end
            &&& 0 <= indent <= LONG_WORD_INDENT
            &&& indent < width
            &&& row_fits(items, pos, end, indent, width)
        }),
{
    let indent = chunk_indent(items, pos, word_start, width);
    let capacity = monus(width, indent);
    lemma_chunk_fill(items, pos, pos, 0, word_end, capacity);
    let (filled, cells) = chunk_fill(items, pos, pos, 0, word_end, capacity);
    lemma_skip_zero(items, pos, filled, word_end);
    let e = skip_zero(items, filled, word_end);
    let (end, used) = chunk(items, pos, word_start, word_end, width);
    lemma_total_nonneg(items, pos, filled);
    if cells == 0 && e < word_end {
        assert(e == filled);
        assert(end == e + 1);
        assert(total(items, pos, end) == items[e].width);
        if items[e].width > width {
            assert(lone_wide_item(items, pos, end, width));
        }
    } else if cells > capacity {
        assert(filled == pos + 1);
        assert(total(items, pos, pos + 1) == total(items, pos, pos) + items[pos].width);
        assert(items[pos].width > width);
    }
}

/// Splits the over-wide word `pos..word_end` into indented chunks; the last
/// chunk stays open.
pub open spec fn put_long_word(
    items: Seq<WrapItem>,
    pos: int,
    word_start: int,
    word_end: int,
    width: int,
    f: Fill,
) -> Fill
    decreases word_end - pos,
{
    if pos >= word_end {
        f
    } else {
        let indent = row_indent(items, pos, word_start, word_end, width);
        let (end, used) = chunk(items, pos, word_start, word_end, width);
        if end <= pos {
            f
        } else if end < word_end {
            let row = WrapRow { start: pos as usize, end: end as usize, indent: indent as usize };
            put_long_word(
                items,
                end,
                word_start,
                word_end,
                width,
                Fill { rows: f.rows.push(row), ..f },
            )
        } else {
            f.begin(pos, indent).append(end, used)
        }
    }
}

/// Lays out a word that fits a row, after the pending whitespace when both fit
/// on the open row and without it on a new row otherwise.
pub open spec fn put_word(
    items: Seq<WrapItem>,
    pending: Option<int>,
    i: int,
    j: int,
    width: int,
    f: Fill,
) -> Fill {
    let word = total(items, i, j);
    let gap = match pending {
        Some(p) => total(items, p, i),
        None => 0,
    };
    if f.used + gap + word <= monus(width, f.indent) {
        f.append(j, gap + word)
    } else {
        f.flush().begin(i, 0).append(j, word)
    }
}

/// Lays out the items from `i` on. Whitespace before the first word is
/// content; later whitespace waits for the word that follows it.
pub open spec fn put_items(
    items: Seq<WrapItem>,
    i: int,
    pending: Option<int>,
    saw_word: bool,
    width: int,
    f: Fill,
) -> (Fill, Option<int>)
    decreases items.len() - i,
{
    if i < 0 || i >= items.len() {
        (f, pending)
    } else {
        let ws = items[i].breakable;
        let j = run_end(items, i, ws);
        proof {
            lemma_run_end(items, i, ws);
        }
        if ws {
            if saw_word {
                put_items(items, j, Some(i), true, width, f)
            } else {
                put_items(items, j, pending, false, width, put_whitespace(items, i, j, width, f))
            }
        } else if total(items, i, j) > width {
            put_items(
                items,
                j,
                None,
                true,
                width,
                put_long_word(items, i, i, j, width, f.flush().begin(i, 0)),
            )
        } else {
            put_items(items, j, None, true, width, put_word(items, pending, i, j, width, f))
        }
    }
}

/// The state before anything is laid out.
pub open spec fn fresh() -> Fill {
    Fill { rows: Seq::empty(), start: 0, end: 0, indent: 0, used: 0 }
}

/// The container width in effect.
pub open spec fn effective(requested: nat) -> int {
    if requested == 0 {
        1
    } else {
        requested as int
    }
}

/// The last open row is kept when it is visible or the only one.
pub open spec fn finish(f: Fill) -> Seq<WrapRow> {
    if f.visible() || f.rows.len() == 0 {
        f.rows.push(f.row())
    } else {
        f.rows
    }
}

/// The state after all items, trailing whitespace included.
pub open spec fn filled(items: Seq<WrapItem>, width: int) -> Fill {
    let (f, pending) = put_items(items, 0, None, false, width, fresh());
    match pending {
        Some(p) => put_whitespace(items, p, items.len() as int, width, f),
        None => f,
    }
}

/// The rows into which `items` wrap.
pub open spec fn wrapped(items: Seq<WrapItem>, requested: nat) -> Seq<WrapRow> {
    finish(filled(items, effective(requested)))
}

pub proof fn lemma_run_end(items: Seq<WrapItem>, i: int, ws: bool)
    requires
        0 <= i <= items.len(),
    ensures
        i <= run_end(items, i, ws) <= items.len(),
        i < items.len() && items[i].breakable == ws ==> run_end(items, i, ws) > i,
        forall|x: int|
            i <= x < run_end(items, i, ws) ==> (#[trigger] items[x]).breakable == ws,
        run_end(items, i, ws) < items.len() ==> items[run_end(items, i, ws)].breakable != ws,
    decreases items.len() - i,
{
    if i < items.len() && items[i].breakable == ws {
        lemma_run_end(items, i + 1, ws);
    }
}

/// Accumulator for the row currently being filled.
pub struct WrapState {
    pub rows: Vec<WrapRow>,
    pub row_start: usize,
    pub row_end: usize,
    pub row_indent: usize,
    pub used: usize,
}

impl View for WrapState {
    type V = Fill;

    open spec fn view(&self) -> Fill {
        Fill {
            rows: self.rows@,
            start: self.row_start as int,
            end: self.row_end as int,
            indent: self.row_indent as int,
            used: self.used as int,
        }
    }
}

impl WrapState {
    /// Pushes the open row when it holds any visible items.
    pub fn flush(&mut self)
        ensures
            final(self)@ == old(self)@.flush(),
    {
        if self.row_end > self.row_start && self.used > 0 {
            self.rows.push(
                WrapRow { start: self.row_start, end: self.row_end, indent: self.row_indent },
            );
        }
    }

    /// Opens a fresh empty row starting at item `start`.
    pub fn begin(&mut self, start: usize, indent: usize)
        ensures
            final(self)@ == old(self)@.begin(start as int, indent as int),
    {
        self.row_start = start;
        self.row_end = start;
        self.row_indent = indent;
        self.used = 0;
    }

    /// Extends the open row through item `end`, adding `width` cells.
    pub fn append(&mut self, end: usize, width: usize)
        requires
            old(self).used + width <= usize::MAX,
        ensures
            final(self)@ == old(self)@.append(end as int, width as int),
    {
        self.row_end = end;
        self.used = self.used + width;
    }
}

/// The cells of the items `i..j`, when they are at most `limit`.
fn total_within(items: &Vec<WrapItem>, i: usize, j: usize, limit: usize) -> (r: Option<usize>)
    requires
        i <= j <= items@.len(),
    ensures
        r is Some == (total(items@, i as int, j as int) <= limit),
        r is Some ==> r->0 == total(items@, i as int, j as int),
{
    let mut sum: usize = 0;
    let mut k: usize = i;
    while k < j
        invariant
            i <= k <= j <= items@.len(),
            sum <= limit,
            sum == total(items@, i as int, k as int),
        decreases j - k,
    {
        if items[k].width > limit - sum {
            proof {
                lemma_total_split(items@, i as int, k + 1, j as int);
            }
            return None;
        }
        sum = sum + items[k].width;
        k += 1;
    }
    Some(sum)
}

fn run_end_of(items: &Vec<WrapItem>, from: usize, ws: bool) -> (r: usize)
    requires
        from <= items@.len(),
    ensures
        r == run_end(items@, from as int, ws),
        from <= r <= items@.len(),
        from < items@.len() && items@[from as int].breakable == ws ==> r > from,
{
    let mut i: usize = from;
    while i < items.len() && items[i].breakable == ws
        invariant
            from <= i <= items@.len(),
            run_end(items@, from as int, ws) == run_end(items@, i as int, ws),
        decreases items@.len() - i,
    {
        i += 1;
    }
    proof {
        lemma_run_end(items@, from as int, ws);
    }
    i
}

/// Lays out a whitespace run verbatim, wrapping onto unindented rows when it
/// overflows the current row.
fn emit_whitespace(
    items: &Vec<WrapItem>,
    ws_start: usize,
    ws_end: usize,
    width: usize,
    state: &mut WrapState,
)
    requires
        ws_start <= ws_end <= items@.len(),
        old(state).row_end <= old(state).row_start ==> old(state).used == 0,
        old(state).row_start <= ws_start,
    ensures
        final(state)@ == put_whitespace(
            items@,
            ws_start as int,
            ws_end as int,
            width as int,
            old(state)@,
        ),
{
    let mut position: usize = ws_start;
    while position < ws_end
        invariant
            ws_start <= position <= ws_end <= items@.len(),
            state.row_end <= state.row_start ==> state.used == 0,
            state.row_start <= position,
            put_whitespace(
                items@,
                ws_start as int,
                ws_end as int,
                width as int,
                old(state)@,
            ) == put_whitespace(items@, position as int, ws_end as int, width as int, state@),
        decreases ws_end - position,
    {
        let item_width: usize = items[position].width;
        let available: usize = width.saturating_sub(state.row_indent);
        if state.row_end > state.row_start && (state.used > available || item_width > available
            - state.used) {
            state.flush();
            state.begin(position, 0);
        }
        state.append(position + 1, item_width);
        position += 1;
    }
}

/// Splits one word wider than the container. The first chunk fills the open
/// row; each later chunk starts a new indented row.
fn emit_long_word(
    items: &Vec<WrapItem>,
    word_start: usize,
    word_end: usize,
    width: usize,
    state: &mut WrapState,
)
    requires
        word_start < word_end <= items@.len(),
        width >= 1,
    ensures
        final(state)@ == put_long_word(
            items@,
            word_start as int,
            word_start as int,
            word_end as int,
            width as int,
            old(state)@,
        ),
{
    let most: usize = if width - 1 < LONG_WORD_INDENT {
        width - 1
    } else {
        LONG_WORD_INDENT
    };
    let mut position: usize = word_start;
    while position < word_end
        invariant
            word_start <= position <= word_end <= items@.len(),
            word_start < word_end,
            width >= 1,
            most == (if width - 1 < LONG_WORD_INDENT {
                width - 1
            } else {
                LONG_WORD_INDENT as int
            }),
            put_long_word(
                items@,
                word_start as int,
                word_start as int,
                word_end as int,
                width as int,
                old(state)@,
            ) == put_long_word(
                items@,
                position as int,
                word_start as int,
                word_end as int,
                width as int,
                state@,
            ),
        decreases word_end - position,
    {
        let room: usize = width.saturating_sub(items[position].width);
        let indent: usize = if position == word_start {
            0
        } else if most < room {
            most
        } else {
            room
        };
        let capacity: usize = width - indent;
        let (chunk_end, chunk_width) = measure_chunk(items, position, word_end, capacity);
        let left: usize = width.saturating_sub(chunk_width);
        let indent: usize = if indent < left {
            indent
        } else {
            left
        };
        if chunk_end < word_end {
            state.rows.push(WrapRow { start: position, end: chunk_end, indent });
        } else {
            state.begin(position, indent);
            state.append(chunk_end, chunk_width);
        }
        position = chunk_end;
    }
}

/// End and cells of the chunk that begins at `position` and has `capacity`
/// cells to fill.
fn measure_chunk(
    items: &Vec<WrapItem>,
    position: usize,
    word_end: usize,
    capacity: usize,
) -> (r: (usize, usize))
    requires
        position < word_end <= items@.len(),
        capacity >= 1,
    ensures
        position < r.0 <= word_end,
        ({
            let (filled, used) = chunk_fill(
                items@,
                position as int,
                position as int,
                0,
                word_end as int,
                capacity as int,
            );
            let e = skip_zero(items@, filled, word_end as int);
            (r.0 as int, r.1 as int) == if used == 0 && e < word_end {
                (e + 1, items@[e].width as int)
            } else {
                (e, used)
            }
        }),
{
    let mut chunk_end: usize = position;
    let mut chunk_width: usize = 0;
    let mut open = true;
    while open && chunk_end < word_end
        invariant
            position <= chunk_end <= word_end <= items@.len(),
            capacity >= 1,
            open ==> chunk_width < capacity,
            chunk_end == position ==> chunk_width == 0,
            !open ==> chunk_end > position,
            chunk_fill(
                items@,
                position as int,
                position as int,
                0,
                word_end as int,
                capacity as int,
            ) == (if open {
                chunk_fill(
                    items@,
                    position as int,
                    chunk_end as int,
                    chunk_width as int,
                    word_end as int,
                    capacity as int,
                )
            } else {
                (chunk_end as int, chunk_width as int)
            }),
        decreases (if open {
            1int
        } else {
            0
        }), word_end - chunk_end,
    {
        let item_width: usize = items[chunk_end].width;
        if chunk_end > position && item_width > capacity - chunk_width {
            open = false;
        } else {
            if item_width >= capacity - chunk_width {
                open = false;
            }
            chunk_width = chunk_width + item_width;
            chunk_end += 1;
        }
    }
    chunk_end = past_zero(items, chunk_end, word_end);
    if chunk_width == 0 && chunk_end < word_end {
        chunk_width = items[chunk_end].width;
        chunk_end += 1;
    }
    (chunk_end, chunk_width)
}

/// First index at or after `from` whose item takes cells.
fn past_zero(items: &Vec<WrapItem>, from: usize, word_end: usize) -> (r: usize)
    requires
        from <= word_end <= items@.len(),
    ensures
        r == skip_zero(items@, from as int, word_end as int),
        from <= r <= word_end,
{
    let mut e: usize = from;
    while e < word_end && items[e].width == 0
        invariant
            from <= e <= word_end <= items@.len(),
            skip_zero(items@, from as int, word_end as int) == skip_zero(
                items@,
                e as int,
                word_end as int,
            ),
        decreases word_end - e,
    {
        e += 1;
    }
    e
}

/// Wraps `items` into rows no wider than `requested_width` cells.
///
/// A word (a maximal run of items that are not breakable) is never split
/// unless its width exceeds the full container width; the first chunk of such
/// a word fills the row and every later chunk starts on a new indented row.
/// Inter-word whitespace is preserved when the following word fits with it and
/// omitted at the soft wrap otherwise. Leading and trailing whitespace are
/// content and are laid out verbatim.
pub fn wrap_items(items: &Vec<WrapItem>, requested_width: usize) -> (r: Vec<WrapRow>)
    ensures
        r@ == wrapped(items@, requested_width as nat),
{
    let width: usize = if requested_width == 0 {
        1
    } else {
        requested_width
    };
    let mut state = WrapState {
        rows: Vec::new(),
        row_start: 0,
        row_end: 0,
        row_indent: 0,
        used: 0,
    };
    let mut pending_ws: Option<usize> = None;
    let mut saw_word = false;
    let mut index: usize = 0;
    proof {
        assert(state@.rows =~= fresh().rows);
        lemma_fresh_is_sound(items@, width as int);
    }
    while index < items.len()
        invariant
            index <= items@.len(),
            width == effective(requested_width as nat),
            width >= 1,
            pending_ws matches Some(p) ==> p <= index,
            sound(items@, state@, pending_of(pending_ws), saw_word, index as int, width as int),
            put_items(items@, 0, None, false, width as int, fresh()) == put_items(
                items@,
                index as int,
                pending_of(pending_ws),
                saw_word,
                width as int,
                state@,
            ),
        decreases items@.len() - index,
    {
        let ghost f0 = state@;
        let start: usize = index;
        let ws = items[index].breakable;
        let end: usize = run_end_of(items, index, ws);
        proof {
            lemma_step_is_sound(
                items@,
                f0,
                pending_of(pending_ws),
                saw_word,
                index as int,
                width as int,
            );
        }
        if ws {
            if saw_word {
                pending_ws = Some(start);
            } else {
                emit_whitespace(items, start, end, width, &mut state);
            }
            index = end;
            continue;
        }
        saw_word = true;
        match total_within(items, start, end, width) {
            None => {
                state.flush();
                state.begin(start, 0);
                emit_long_word(items, start, end, width, &mut state);
            },
            Some(word_width) => {
                let available: usize = width.saturating_sub(state.row_indent);
                let mut gap: Option<usize> = None;
                if state.used <= available {
                    let from: usize = match pending_ws {
                        Some(p) => p,
                        None => start,
                    };
                    gap = total_within(items, from, start, available - state.used);
                }
                proof {
                    if pending_ws is None {
                        assert(total(items@, start as int, start as int) == 0);
                    }
                    lemma_total_nonneg(items@, start as int, end as int);
                    if pending_ws is Some {
                        lemma_total_nonneg(items@, pending_ws->0 as int, start as int);
                    }
                }
                let mut placed = false;
                match gap {
                    Some(gap_width) => {
                        if word_width <= available - state.used - gap_width {
                            state.append(end, gap_width + word_width);
                            placed = true;
                        }
                    },
                    None => {},
                }
                if !placed {
                    state.flush();
                    state.begin(start, 0);
                    state.append(end, word_width);
                }
            },
        }
        pending_ws = None;
        index = end;
    }
    if let Some(ws_start) = pending_ws {
        emit_whitespace(items, ws_start, items.len(), width, &mut state);
    }
    if (state.row_end > state.row_start && state.used > 0) || state.rows.is_empty() {
        state.rows.push(
            WrapRow { start: state.row_start, end: state.row_end, indent: state.row_indent },
        );
    }
    state.rows
}

pub open spec fn pending_of(p: Option<usize>) -> Option<int> {
    match p {
        Some(x) => Some(x as int),
        None => None,
    }
}

proof fn lemma_total_nonneg(items: Seq<WrapItem>, i: int, j: int)
    ensures
        total(items, i, j) >= 0,
    decreases j - i,
{
    if i < j {
        lemma_total_nonneg(items, i, j - 1);
    }
}

/// Whether position `x` lies strictly inside a word.
pub open spec fn inside_word(items: Seq<WrapItem>, x: int) -> bool {
    0 < x < items.len() && !items[x - 1].breakable && !items[x].breakable
}

/// Whether position `x` lies strictly inside a run of word items wider than
/// `width`.
pub open spec fn inside_wide_word(items: Seq<WrapItem>, x: int, width: int) -> bool {
    exists|a: int, b: int| #[trigger] wide_run(items, a, b, width) && a < x < b
}

/// Whether the items `a..b` belong to one word and take more than `width`
/// cells.
pub open spec fn wide_run(items: Seq<WrapItem>, a: int, b: int, width: int) -> bool {
    &&& 0 <= a <= b <= items.len()
    &&& forall|x: int| a <= x < b ==> !(#[trigger] items[x]).breakable
    &&& total(items, a, b) > width
}

/// Whether some row displays item `x`.
pub open spec fn displayed(rows: Seq<WrapRow>, x: int) -> bool {
    exists|k: int| 0 <= k < rows.len() && (#[trigger] rows[k]).start <= x < rows[k].end
}

/// What holds of a row `start..end` behind `indent` cells.
pub open spec fn good_row(
    items: Seq<WrapItem>,
    start: int,
    end: int,
    indent: int,
    width: int,
) -> bool {
    &&& 0 <= start <= end <= items.len()
    &&& 0 <= indent <= LONG_WORD_INDENT
    &&& indent < width
    &&& row_fits(items, start, end, indent, width)
    &&& indent > 0 ==> inside_word(items, start)
    &&& inside_word(items, start) ==> inside_wide_word(items, start, width)
    &&& inside_word(items, end) ==> inside_wide_word(items, end, width)
}

/// What holds of finished rows that lie before item `end`: each is good, they
/// follow one another, and every word item with cells before `end` is on one.
pub open spec fn good_rows(items: Seq<WrapItem>, rows: Seq<WrapRow>, end: int, width: int) -> bool {
    &&& forall|k: int|
        0 <= k < rows.len() ==> good_row(
            items,
            (#[trigger] rows[k]).start as int,
            rows[k].end as int,
            rows[k].indent as int,
            width,
        ) && rows[k].end <= end
    &&& forall|k: int, l: int|
        0 <= k < l < rows.len() ==> (#[trigger] rows[k]).end <= (#[trigger] rows[l]).start
    &&& forall|x: int|
        0 <= x < end && x < items.len() && !(#[trigger] items[x]).breakable && items[x].width > 0
            ==> displayed(rows, x)
}

/// What holds of a partial layout whose open row ends at `end`.
pub open spec fn good_fill(items: Seq<WrapItem>, f: Fill, end: int, width: int) -> bool {
    &&& f.end == end
    &&& f.start <= f.end
    &&& f.start == f.end ==> f.indent == 0
    &&& f.used == total(items, f.start, f.end)
    &&& good_rows(items, f.rows, f.start, width)
    &&& good_row(items, f.start, f.end, f.indent, width)
}

/// What holds before item `i` is laid out.
pub open spec fn sound(
    items: Seq<WrapItem>,
    f: Fill,
    pending: Option<int>,
    saw_word: bool,
    i: int,
    width: int,
) -> bool {
    &&& 0 <= i <= items.len()
    &&& !inside_word(items, i)
    &&& saw_word || pending is None
    &&& match pending {
        Some(p) => {
            &&& 0 <= p < i
            &&& good_fill(items, f, p, width)
            &&& forall|x: int| p <= x < i ==> (#[trigger] items[x]).breakable
            &&& i < items.len() ==> !items[i].breakable
        },
        None => good_fill(items, f, i, width),
    }
}

proof fn lemma_fresh_is_sound(items: Seq<WrapItem>, width: int)
    requires
        width >= 1,
    ensures
        sound(items, fresh(), None, false, 0, width),
{
}

/// Closing the open row and starting another at `s`, past nothing but
/// whitespace, keeps a layout good.
proof fn lemma_new_row(items: Seq<WrapItem>, f: Fill, e: int, s: int, width: int)
    requires
        good_fill(items, f, e, width),
        e <= s <= items.len() <= usize::MAX,
        forall|x: int| e <= x < s ==> (#[trigger] items[x]).breakable,
        !inside_word(items, s),
        !inside_word(items, e),
        width >= 1,
    ensures
        good_fill(items, f.flush().begin(s, 0), s, width),
{
    let rows = f.flush().rows;
    assert forall|x: int|
        0 <= x < s && x < items.len() && !(#[trigger] items[x]).breakable && items[x].width
            > 0 implies displayed(rows, x) by {
        assert(x < e);
        if x < f.start {
            assert(displayed(f.rows, x));
            let k = choose|k: int|
                0 <= k < f.rows.len() && (#[trigger] f.rows[k]).start <= x < f.rows[k].end;
            assert(rows[k] == f.rows[k]);
        } else {
            if f.used == 0 {
                lemma_total_zero(items, f.start, f.end, x);
            }
            lemma_total_nonneg(items, f.start, f.end);
            assert(rows[f.rows.len() as int] == f.row());
        }
    }
    lemma_total_nonneg(items, s, s);
    assert(good_rows(items, rows, s, width)) by {
        assert forall|k: int| 0 <= k < rows.len() implies good_row(
            items,
            (#[trigger] rows[k]).start as int,
            rows[k].end as int,
            rows[k].indent as int,
            width,
        ) && rows[k].end <= s by {
            if k < f.rows.len() {
                assert(rows[k] == f.rows[k]);
            }
        }
        assert forall|k: int, l: int| 0 <= k < l < rows.len() implies (#[trigger] rows[k]).end
            <= (#[trigger] rows[l]).start by {
            assert(rows[k] == f.rows[k]);
            if l < f.rows.len() {
                assert(rows[l] == f.rows[l]);
            }
        }
    }
}

proof fn lemma_whitespace_is_good(
    items: Seq<WrapItem>,
    pos: int,
    end: int,
    width: int,
    f: Fill,
)
    requires
        0 <= pos <= end <= items.len() <= usize::MAX,
        forall|x: int| pos <= x < end ==> (#[trigger] items[x]).breakable,
        good_fill(items, f, pos, width),
        !inside_word(items, pos),
        width >= 1,
    ensures
        good_fill(items, put_whitespace(items, pos, end, width, f), end, width),
    decreases end - pos,
{
    if pos < end {
        let w = items[pos].width as int;
        let crowded = f.end > f.start && f.used + w > monus(width, f.indent);
        let g = if crowded {
            f.flush().begin(pos, 0)
        } else {
            f
        };
        assert(items[pos].breakable);
        if crowded {
            lemma_new_row(items, f, pos, pos, width);
        }
        let h = g.append(pos + 1, w);
        assert(total(items, g.start, pos + 1) == total(items, g.start, pos) + w);
        lemma_total_nonneg(items, g.start, pos);
        if g.start == pos && w > width {
            assert(items[pos].width > width && total(items, pos, pos + 1) == items[pos].width);
            assert(lone_wide_item(items, g.start, pos + 1, width));
        }
        assert(!inside_word(items, pos + 1));
        assert(good_fill(items, h, pos + 1, width));
        lemma_whitespace_is_good(items, pos + 1, end, width, h);
    }
}

proof fn lemma_long_word_is_good(
    items: Seq<WrapItem>,
    pos: int,
    word_start: int,
    word_end: int,
    width: int,
    f: Fill,
)
    requires
        0 <= word_start <= pos < word_end <= items.len() <= usize::MAX,
        width >= 1,
        wide_run(items, word_start, word_end, width),
        !inside_word(items, word_start),
        !inside_word(items, word_end),
        good_rows(items, f.rows, pos, width),
    ensures
        good_fill(
            items,
            put_long_word(items, pos, word_start, word_end, width, f),
            word_end,
            width,
        ),
    decreases word_end - pos,
{
    lemma_chunk(items, pos, word_start, word_end, width);
    let indent = row_indent(items, pos, word_start, word_end, width);
    let (end, used) = chunk(items, pos, word_start, word_end, width);
    assert(inside_word(items, pos) ==> inside_wide_word(items, pos, width)) by {
        if pos > word_start {
            assert(wide_run(items, word_start, word_end, width) && word_start < pos < word_end);
        }
    }
    assert(inside_word(items, end) ==> inside_wide_word(items, end, width)) by {
        if end < word_end {
            assert(wide_run(items, word_start, word_end, width) && word_start < end < word_end);
        }
    }
    if indent > 0 {
        assert(!items[pos - 1].breakable && !items[pos].breakable);
    }
    assert(good_row(items, pos, end, indent, width));
    if end < word_end {
        let row = WrapRow { start: pos as usize, end: end as usize, indent: indent as usize };
        let rows = f.rows.push(row);
        assert(good_rows(items, rows, end, width)) by {
            assert forall|k: int| 0 <= k < rows.len() implies good_row(
                items,
                (#[trigger] rows[k]).start as int,
                rows[k].end as int,
                rows[k].indent as int,
                width,
            ) && rows[k].end <= end by {
                if k < f.rows.len() {
                    assert(rows[k] == f.rows[k]);
                }
            }
            assert forall|k: int, l: int| 0 <= k < l < rows.len() implies (#[trigger] rows[k]).end
                <= (#[trigger] rows[l]).start by {
                assert(rows[k] == f.rows[k]);
                if l < f.rows.len() {
                    assert(rows[l] == f.rows[l]);
                }
            }
            assert forall|x: int|
                0 <= x < end && x < items.len() && !(#[trigger] items[x]).breakable
                    && items[x].width > 0 implies displayed(rows, x) by {
                if x < pos {
                    let k = choose|k: int|
                        0 <= k < f.rows.len() && (#[trigger] f.rows[k]).start <= x < f.rows[k].end;
                    assert(rows[k] == f.rows[k]);
                } else {
                    assert(rows[f.rows.len() as int] == row);
                }
            }
        }
        lemma_long_word_is_good(
            items,
            end,
            word_start,
            word_end,
            width,
            Fill { rows, ..f },
        );
    }
}

proof fn lemma_step_is_sound(
    items: Seq<WrapItem>,
    f: Fill,
    pending: Option<int>,
    saw_word: bool,
    i: int,
    width: int,
)
    requires
        sound(items, f, pending, saw_word, i, width),
        i < items.len() <= usize::MAX,
        width >= 1,
    ensures
        ({
            let ws = items[i].breakable;
            let j = run_end(items, i, ws);
            if ws {
                if saw_word {
                    sound(items, f, Some(i), true, j, width)
                } else {
                    sound(
                        items,
                        put_whitespace(items, i, j, width, f),
                        pending,
                        false,
                        j,
                        width,
                    )
                }
            } else if total(items, i, j) > width {
                sound(
                    items,
                    put_long_word(items, i, i, j, width, f.flush().begin(i, 0)),
                    None,
                    true,
                    j,
                    width,
                )
            } else {
                sound(items, put_word(items, pending, i, j, width, f), None, true, j, width)
            }
        }),
{
    let ws = items[i].breakable;
    let j = run_end(items, i, ws);
    lemma_run_end(items, i, ws);
    let e = match pending {
        Some(p) => p,
        None => i,
    };
    if ws {
        if !saw_word {
            lemma_whitespace_is_good(items, i, j, width, f);
        }
    } else {
        assert(!inside_word(items, e)) by {
            if pending is Some {
                assert(items[e].breakable);
            }
        }
        lemma_new_row(items, f, e, i, width);
        let g = f.flush().begin(i, 0);
        if total(items, i, j) > width {
            lemma_long_word_is_good(items, i, i, j, width, g);
        } else {
            lemma_total_split(items, f.start, e, i);
            lemma_total_split(items, f.start, i, j);
            lemma_total_nonneg(items, i, j);
            assert(total(items, i, i) == 0);
        }
    }
}

proof fn lemma_put_items_is_sound(
    items: Seq<WrapItem>,
    i: int,
    pending: Option<int>,
    saw_word: bool,
    width: int,
    f: Fill,
)
    requires
        sound(items, f, pending, saw_word, i, width),
        items.len() <= usize::MAX,
        width >= 1,
    ensures
        ({
            let (g, p) = put_items(items, i, pending, saw_word, width, f);
            sound(items, g, p, true, items.len() as int, width)
        }),
    decreases items.len() - i,
{
    if i < items.len() {
        lemma_step_is_sound(items, f, pending, saw_word, i, width);
        let ws = items[i].breakable;
        let j = run_end(items, i, ws);
        lemma_run_end(items, i, ws);
        if ws {
            if saw_word {
                lemma_put_items_is_sound(items, j, Some(i), true, width, f);
            } else {
                lemma_put_items_is_sound(
                    items,
                    j,
                    pending,
                    false,
                    width,
                    put_whitespace(items, i, j, width, f),
                );
            }
        } else if total(items, i, j) > width {
            lemma_put_items_is_sound(
                items,
                j,
                None,
                true,
                width,
                put_long_word(items, i, i, j, width, f.flush().begin(i, 0)),
            );
        } else {
            lemma_put_items_is_sound(
                items,
                j,
                None,
                true,
                width,
                put_word(items, pending, i, j, width, f),
            );
        }
    }
}

proof fn lemma_wrapped_is_good(items: Seq<WrapItem>, requested: nat)
    requires
        items.len() <= usize::MAX,
    ensures
        good_rows(items, wrapped(items, requested), items.len() as int, effective(requested)),
        wrapped(items, requested).len() > 0,
{
    let width = effective(requested);
    lemma_fresh_is_sound(items, width);
    lemma_put_items_is_sound(items, 0, None, false, width, fresh());
    let (g, pending) = put_items(items, 0, None, false, width, fresh());
    let n = items.len() as int;
    let f = filled(items, width);
    if pending is Some {
        let p = pending->0;
        assert(items[p].breakable);
        lemma_whitespace_is_good(items, p, n, width, g);
    }
    assert(good_fill(items, f, n, width));
    lemma_new_row(items, f, n, n, width);
    assert(good_rows(items, f.flush().begin(n, 0).rows, n, width));
    if f.rows.len() == 0 && !f.visible() {
        lemma_total_nonneg(items, f.start, f.end);
        let rows = wrapped(items, requested);
        assert(rows =~= seq![f.row()]);
        assert forall|x: int|
            0 <= x < n && !(#[trigger] items[x]).breakable && items[x].width
                > 0 implies displayed(rows, x) by {
            assert(displayed(f.rows, x) || f.start <= x);
            if f.used == 0 && f.start <= x {
                lemma_total_zero(items, f.start, f.end, x);
            }
        }
    }
}

/// End of what a row that begins at `s` shows first: the item that takes
/// cells, or its whole word where the row begins none in the middle.
pub open spec fn unit_end(items: Seq<WrapItem>, s: int) -> int {
    let x = skip_zero(items, s, items.len() as int);
    if x < items.len() && !items[x].breakable && !inside_word(items, s) {
        run_end(items, x, false)
    } else {
        x + 1
    }
}

/// Whether `row` could not have shown what the row that begins at `s` shows
/// first.
pub open spec fn is_full(items: Seq<WrapItem>, row: WrapRow, s: int, width: int) -> bool {
    skip_zero(items, s, items.len() as int) < items.len() ==> row.indent + total(
        items,
        row.start as int,
        unit_end(items, s),
    ) > width
}

/// Whether each finished row was full when the next one began.
spec fn is_tight(items: Seq<WrapItem>, f: Fill, width: int) -> bool {
    &&& forall|k: int|
        0 <= k < f.rows.len() - 1 ==> is_full(
            items,
            #[trigger] f.rows[k],
            f.rows[k + 1].start as int,
            width,
        )
    &&& f.rows.len() > 0 ==> is_full(items, f.rows.last(), f.start, width)
}

proof fn lemma_total_grows(items: Seq<WrapItem>, i: int, m: int, j: int)
    requires
        i <= m <= j,
    ensures
        total(items, i, m) <= total(items, i, j),
{
    lemma_total_split(items, i, m, j);
}

/// The unit at `s` reaches past the first item with cells.
proof fn lemma_unit(items: Seq<WrapItem>, s: int)
    requires
        0 <= s <= items.len(),
    ensures
        ({
            let x = skip_zero(items, s, items.len() as int);
            &&& s <= x <= items.len()
            &&& forall|y: int| s <= y < x ==> (#[trigger] items[y]).width == 0
            &&& x < items.len() ==> items[x].width > 0
            &&& x < unit_end(items, s)
        }),
{
    lemma_skip_zero(items, s, s, items.len() as int);
    let x = skip_zero(items, s, items.len() as int);
    if x < items.len() && !items[x].breakable {
        lemma_run_end(items, x, false);
    }
}

proof fn lemma_skip_zero_from(items: Seq<WrapItem>, s: int, t: int)
    requires
        0 <= s <= t <= skip_zero(items, s, items.len() as int),
        s <= items.len(),
    ensures
        skip_zero(items, t, items.len() as int) == skip_zero(items, s, items.len() as int),
    decreases t - s,
{
    if s < t {
        lemma_skip_zero(items, s, s, items.len() as int);
        lemma_skip_zero_from(items, s + 1, t);
    }
}

/// A row that was full at `s` is full at a later start, past nothing but
/// whitespace and items without cells.
proof fn lemma_full_later(items: Seq<WrapItem>, row: WrapRow, s: int, t: int, width: int)
    requires
        is_full(items, row, s, width),
        row.start <= s <= t <= items.len(),
        !inside_word(items, t),
        forall|x: int| s <= x < t ==> (#[trigger] items[x]).breakable || items[x].width == 0,
    ensures
        is_full(items, row, t, width),
{
    lemma_unit(items, s);
    lemma_unit(items, t);
    let x = skip_zero(items, s, items.len() as int);
    let y = skip_zero(items, t, items.len() as int);
    if y < items.len() {
        if x < t {
            assert(items[x].breakable);
            assert(unit_end(items, s) == x + 1);
        } else {
            lemma_skip_zero_from(items, s, t);
            if !items[x].breakable {
                lemma_run_end(items, x, false);
            }
        }
        lemma_total_grows(items, row.start as int, unit_end(items, s), unit_end(items, t));
    }
}

/// Closing the open row and starting another at `s` keeps a layout tight.
proof fn lemma_new_row_is_tight(items: Seq<WrapItem>, f: Fill, e: int, s: int, width: int)
    requires
        good_fill(items, f, e, width),
        is_tight(items, f, width),
        e <= s <= items.len() <= usize::MAX,
        forall|x: int| e <= x < s ==> (#[trigger] items[x]).breakable,
        !inside_word(items, s),
        f.visible() ==> is_full(items, f.row(), s, width),
    ensures
        is_tight(items, f.flush().begin(s, 0), width),
{
    let rows = f.flush().rows;
    if f.visible() {
        assert forall|k: int| 0 <= k < rows.len() - 1 implies is_full(
            items,
            #[trigger] rows[k],
            rows[k + 1].start as int,
            width,
        ) by {
            assert(rows[k] == f.rows[k]);
            if k + 1 < f.rows.len() {
                assert(rows[k + 1] == f.rows[k + 1]);
            }
        }
    } else if f.rows.len() > 0 {
        let last = f.rows.last();
        assert(f.rows[f.rows.len() - 1] == last);
        lemma_total_nonneg(items, f.start, f.end);
        assert forall|x: int| f.start <= x < s implies (#[trigger] items[x]).breakable
            || items[x].width == 0 by {
            if x < e {
                lemma_total_zero(items, f.start, f.end, x);
            }
        }
        lemma_full_later(items, last, f.start, s, width);
    }
}

proof fn lemma_whitespace_is_tight(
    items: Seq<WrapItem>,
    pos: int,
    end: int,
    width: int,
    f: Fill,
)
    requires
        0 <= pos <= end <= items.len() <= usize::MAX,
        forall|x: int| pos <= x < end ==> (#[trigger] items[x]).breakable,
        good_fill(items, f, pos, width),
        is_tight(items, f, width),
        !inside_word(items, pos),
        width >= 1,
    ensures
        is_tight(items, put_whitespace(items, pos, end, width, f), width),
    decreases end - pos,
{
    if pos < end {
        let w = items[pos].width as int;
        let crowded = f.end > f.start && f.used + w > monus(width, f.indent);
        let g = if crowded {
            f.flush().begin(pos, 0)
        } else {
            f
        };
        assert(items[pos].breakable);
        if crowded {
            lemma_unit(items, pos);
            let u = unit_end(items, pos);
            assert(total(items, f.start, pos + 1) == total(items, f.start, pos) + w);
            lemma_total_grows(items, f.start, pos + 1, u);
            lemma_new_row_is_tight(items, f, pos, pos, width);
        }
        let h = g.append(pos + 1, w);
        lemma_whitespace_is_good(items, pos, pos + 1, width, f);
        assert(put_whitespace(items, pos + 1, pos + 1, width, h) == h);
        assert(put_whitespace(items, pos, pos + 1, width, f) == h) by {
            reveal_with_fuel(put_whitespace, 2);
        }
        assert(!inside_word(items, pos + 1));
        lemma_whitespace_is_tight(items, pos + 1, end, width, h);
    }
}

/// The row of a chunk is full: what is left of the word does not fit on it.
proof fn lemma_chunk_is_full(
    items: Seq<WrapItem>,
    pos: int,
    word_start: int,
    word_end: int,
    width: int,
)
    requires
        0 <= word_start <= pos < word_end <= items.len() <= usize::MAX,
        width >= 1,
        forall|x: int| word_start <= x < word_end ==> !(#[trigger] items[x]).breakable,
    ensures
        ({
            let end = chunk(items, pos, word_start, word_end, width).0;
            let indent = row_indent(items, pos, word_start, word_end, width);
            let row = WrapRow { start: pos as usize, end: end as usize, indent: indent as usize };
            end < word_end ==> is_full(items, row, end, width)
        }),
{
    let n = items.len() as int;
    let base = chunk_indent(items, pos, word_start, width);
    let capacity = monus(width, base);
    lemma_chunk(items, pos, word_start, word_end, width);
    lemma_chunk_fill(items, pos, pos, 0, word_end, capacity);
    let (reached, cells) = chunk_fill(items, pos, pos, 0, word_end, capacity);
    lemma_skip_zero(items, pos, reached, word_end);
    let (end, used) = chunk(items, pos, word_start, word_end, width);
    let indent = row_indent(items, pos, word_start, word_end, width);
    lemma_total_nonneg(items, pos, reached);
    if end < word_end {
        assert(!items[end - 1].breakable && !items[end].breakable);
        assert(inside_word(items, end));
        lemma_unit(items, end);
        let x = skip_zero(items, end, n);
        if x < n {
            let u = unit_end(items, end);
            lemma_total_split(items, pos, end, x);
            assert(total(items, pos, x + 1) == total(items, pos, x) + items[x].width);
            lemma_total_grows(items, pos, x + 1, u);
            if cells == 0 {
                assert(indent + used >= width);
            } else if cells < capacity {
                assert(items[reached].width > 0);
                assert(skip_zero(items, reached, word_end) == reached);
                assert(x == end);
                assert(indent == base);
            } else {
                assert(indent + used >= width);
            }
        }
    }
}

proof fn lemma_long_word_is_tight(
    items: Seq<WrapItem>,
    pos: int,
    word_start: int,
    word_end: int,
    width: int,
    f: Fill,
)
    requires
        0 <= word_start <= pos < word_end <= items.len() <= usize::MAX,
        width >= 1,
        forall|x: int| word_start <= x < word_end ==> !(#[trigger] items[x]).breakable,
        is_tight(items, (Fill { start: pos, ..f }), width),
    ensures
        is_tight(items, put_long_word(items, pos, word_start, word_end, width, f), width),
    decreases word_end - pos,
{
    lemma_chunk(items, pos, word_start, word_end, width);
    lemma_chunk_is_full(items, pos, word_start, word_end, width);
    let indent = row_indent(items, pos, word_start, word_end, width);
    let (end, used) = chunk(items, pos, word_start, word_end, width);
    if end < word_end {
        let row = WrapRow { start: pos as usize, end: end as usize, indent: indent as usize };
        let next = Fill { rows: f.rows.push(row), ..f };
        assert forall|k: int| 0 <= k < next.rows.len() - 1 implies is_full(
            items,
            #[trigger] next.rows[k],
            next.rows[k + 1].start as int,
            width,
        ) by {
            assert(next.rows[k] == f.rows[k]);
            if k + 1 < f.rows.len() {
                assert(next.rows[k + 1] == f.rows[k + 1]);
            }
        }
        lemma_long_word_is_tight(items, end, word_start, word_end, width, next);
    }
}

proof fn lemma_same_run(items: Seq<WrapItem>, i: int, x: int)
    requires
        0 <= i <= x < run_end(items, i, false),
        i <= items.len(),
    ensures
        run_end(items, x, false) == run_end(items, i, false),
    decreases x - i,
{
    lemma_run_end(items, i, false);
    if i < x {
        lemma_same_run(items, i + 1, x);
    }
}

proof fn lemma_step_is_tight(
    items: Seq<WrapItem>,
    f: Fill,
    pending: Option<int>,
    saw_word: bool,
    i: int,
    width: int,
)
    requires
        sound(items, f, pending, saw_word, i, width),
        is_tight(items, f, width),
        i < items.len() <= usize::MAX,
        width >= 1,
    ensures
        ({
            let ws = items[i].breakable;
            let j = run_end(items, i, ws);
            if ws {
                !saw_word ==> is_tight(items, put_whitespace(items, i, j, width, f), width)
            } else if total(items, i, j) > width {
                is_tight(
                    items,
                    put_long_word(items, i, i, j, width, f.flush().begin(i, 0)),
                    width,
                )
            } else {
                is_tight(items, put_word(items, pending, i, j, width, f), width)
            }
        }),
{
    let ws = items[i].breakable;
    let j = run_end(items, i, ws);
    lemma_run_end(items, i, ws);
    let e = match pending {
        Some(p) => p,
        None => i,
    };
    if ws {
        if !saw_word {
            lemma_whitespace_is_tight(items, i, j, width, f);
        }
    } else {
        lemma_unit(items, i);
        let x = skip_zero(items, i, items.len() as int);
        let u = unit_end(items, i);
        if x < j {
            lemma_same_run(items, i, x);
        }
        assert(x < items.len() ==> j <= u);
        lemma_total_split(items, f.start, e, i);
        lemma_total_split(items, f.start, i, j);
        let g = f.flush().begin(i, 0);
        if total(items, i, j) > width {
            if x < items.len() {
                lemma_total_grows(items, f.start, j, u);
            }
            assert(f.visible() ==> is_full(items, f.row(), i, width));
            lemma_new_row_is_tight(items, f, e, i, width);
            lemma_long_word_is_tight(items, i, i, j, width, g);
        } else {
            let word = total(items, i, j);
            let gap = match pending {
                Some(p) => total(items, p, i),
                None => 0,
            };
            if f.used + gap + word > monus(width, f.indent) {
                if x < items.len() {
                    lemma_total_grows(items, f.start, j, u);
                }
                assert(f.visible() ==> is_full(items, f.row(), i, width));
                lemma_new_row_is_tight(items, f, e, i, width);
            }
        }
    }
}

proof fn lemma_put_items_is_tight(
    items: Seq<WrapItem>,
    i: int,
    pending: Option<int>,
    saw_word: bool,
    width: int,
    f: Fill,
)
    requires
        sound(items, f, pending, saw_word, i, width),
        is_tight(items, f, width),
        items.len() <= usize::MAX,
        width >= 1,
    ensures
        is_tight(items, put_items(items, i, pending, saw_word, width, f).0, width),
    decreases items.len() - i,
{
    if i < items.len() {
        lemma_step_is_sound(items, f, pending, saw_word, i, width);
        lemma_step_is_tight(items, f, pending, saw_word, i, width);
        let ws = items[i].breakable;
        let j = run_end(items, i, ws);
        lemma_run_end(items, i, ws);
        if ws {
            if saw_word {
                lemma_put_items_is_tight(items, j, Some(i), true, width, f);
            } else {
                lemma_put_items_is_tight(
                    items,
                    j,
                    pending,
                    false,
                    width,
                    put_whitespace(items, i, j, width, f),
                );
            }
        } else if total(items, i, j) > width {
            lemma_put_items_is_tight(
                items,
                j,
                None,
                true,
                width,
                put_long_word(items, i, i, j, width, f.flush().begin(i, 0)),
            );
        } else {
            lemma_put_items_is_tight(
                items,
                j,
                None,
                true,
                width,
                put_word(items, pending, i, j, width, f),
            );
        }
    }
}

/// A row never breaks early: what the next row shows first, a whole word where
/// no word is split there, would not have fit behind it.
pub proof fn rows_never_break_early(items: Seq<WrapItem>, requested: nat, k: int)
    requires
        items.len() <= usize::MAX,
        0 <= k < wrapped(items, requested).len() - 1,
    ensures
        is_full(
            items,
            wrapped(items, requested)[k],
            wrapped(items, requested)[k + 1].start as int,
            effective(requested),
        ),
{
    let width = effective(requested);
    let n = items.len() as int;
    lemma_fresh_is_sound(items, width);
    assert(is_tight(items, fresh(), width));
    lemma_put_items_is_sound(items, 0, None, false, width, fresh());
    lemma_put_items_is_tight(items, 0, None, false, width, fresh());
    let (g, pending) = put_items(items, 0, None, false, width, fresh());
    let f = filled(items, width);
    if pending is Some {
        let p = pending->0;
        assert(items[p].breakable);
        lemma_whitespace_is_good(items, p, n, width, g);
        lemma_whitespace_is_tight(items, p, n, width, g);
    }
    assert(good_fill(items, f, n, width));
    let rows = wrapped(items, requested);
    if k < f.rows.len() {
        assert(rows[k] == f.rows[k]);
        if k + 1 < f.rows.len() {
            assert(rows[k + 1] == f.rows[k + 1]);
        }
    }
}

/// Between two rows lies only whitespace, or what takes no cells.
pub proof fn gaps_hold_only_whitespace(items: Seq<WrapItem>, requested: nat, k: int, x: int)
    requires
        items.len() <= usize::MAX,
        0 <= k < wrapped(items, requested).len() - 1,
        wrapped(items, requested)[k].end <= x < wrapped(items, requested)[k + 1].start,
    ensures
        items[x].breakable || items[x].width == 0,
{
    lemma_wrapped_is_good(items, requested);
    let rows = wrapped(items, requested);
    if !items[x].breakable && items[x].width > 0 {
        assert(displayed(rows, x));
        let m = choose|m: int|
            0 <= m < rows.len() && (#[trigger] rows[m]).start <= x < rows[m].end;
        if m < k {
            assert(rows[m].end <= rows[k].start);
        } else if m > k + 1 {
            assert(rows[k + 1].end <= rows[m].start);
        }
    }
}

/// Wrapping always yields a row, even for nothing.
pub proof fn wrapping_yields_a_row(items: Seq<WrapItem>, requested: nat)
    requires
        items.len() <= usize::MAX,
    ensures
        wrapped(items, requested).len() > 0,
{
    lemma_wrapped_is_good(items, requested);
}

/// A row stays within the container, its indent included, unless a single
/// item on it is wider than the whole container.
pub proof fn rows_fit_the_container(items: Seq<WrapItem>, requested: nat, k: int)
    requires
        items.len() <= usize::MAX,
        0 <= k < wrapped(items, requested).len(),
    ensures
        ({
            let row = wrapped(items, requested)[k];
            let width = effective(requested);
            row.indent + total(items, row.start as int, row.end as int) <= width || (row.indent
                == 0 && lone_wide_item(items, row.start as int, row.end as int, width))
        }),
{
    lemma_wrapped_is_good(items, requested);
}

/// Rows follow one another over the items without overlapping.
pub proof fn rows_follow_one_another(items: Seq<WrapItem>, requested: nat, k: int, l: int)
    requires
        items.len() <= usize::MAX,
        0 <= k < l < wrapped(items, requested).len(),
    ensures
        wrapped(items, requested)[k].start <= wrapped(items, requested)[k].end
            <= wrapped(items, requested)[l].start <= wrapped(items, requested)[l].end
            <= items.len(),
{
    lemma_wrapped_is_good(items, requested);
}

/// Only whitespace, or an item without cells, is ever left off every row.
pub proof fn visible_word_items_are_displayed(items: Seq<WrapItem>, requested: nat, x: int)
    requires
        items.len() <= usize::MAX,
        0 <= x < items.len(),
        !items[x].breakable,
        items[x].width > 0,
    ensures
        displayed(wrapped(items, requested), x),
{
    lemma_wrapped_is_good(items, requested);
}

/// A row begins or ends strictly inside a word only where the word is wider
/// than the container.
pub proof fn only_over_wide_words_are_split(items: Seq<WrapItem>, requested: nat, k: int)
    requires
        items.len() <= usize::MAX,
        0 <= k < wrapped(items, requested).len(),
    ensures
        ({
            let row = wrapped(items, requested)[k];
            let width = effective(requested);
            &&& inside_word(items, row.start as int) ==> inside_wide_word(
                items,
                row.start as int,
                width,
            )
            &&& inside_word(items, row.end as int) ==> inside_wide_word(
                items,
                row.end as int,
                width,
            )
        }),
{
    lemma_wrapped_is_good(items, requested);
}

/// Only a continuation of a split word is indented, by at most two cells.
pub proof fn only_continuations_are_indented(items: Seq<WrapItem>, requested: nat, k: int)
    requires
        items.len() <= usize::MAX,
        0 <= k < wrapped(items, requested).len(),
    ensures
        wrapped(items, requested)[k].indent <= LONG_WORD_INDENT,
        wrapped(items, requested)[k].indent > 0 ==> inside_word(
            items,
            wrapped(items, requested)[k].start as int,
        ),
{
    lemma_wrapped_is_good(items, requested);
}

/// Every row covers items that exist.
pub proof fn rows_cover_items(items: Seq<WrapItem>, requested: nat, k: int)
    requires
        items.len() <= usize::MAX,
        0 <= k < wrapped(items, requested).len(),
    ensures
        wrapped(items, requested)[k].start <= wrapped(items, requested)[k].end <= items.len(),
{
    lemma_wrapped_is_good(items, requested);
}

/// The cells and break class of each grapheme cluster: a cluster is a
/// soft-wrap point when its first character is breakable whitespace.
pub open spec fn measured(parts: Seq<Seq<char>>) -> Seq<WrapItem> {
    Seq::new(
        parts.len(),
        |i: int|
            WrapItem {
                width: cells::text_width(parts[i]) as usize,
                breakable: parts[i].len() > 0 && breakable(parts[i][0]),
            },
    )
}

/// Measures grapheme clusters for wrapping.
pub fn measure(parts: &Vec<String>) -> (r: Vec<WrapItem>)
    ensures
        r@ == measured(text::texts(parts@)),
{
    let mut r: Vec<WrapItem> = Vec::new();
    let mut i: usize = 0;
    while i < parts.len()
        invariant
            i <= parts@.len(),
            r@ == measured(text::texts(parts@)).take(i as int),
        decreases parts@.len() - i,
    {
        let part = parts[i].as_str();
        let item = WrapItem {
            width: cells::width_of(part),
            breakable: !part.is_empty() && is_breakable_whitespace(part.get_char(0)),
        };
        r.push(item);
        proof {
            let all = measured(text::texts(parts@));
            assert(text::texts(parts@)[i as int] == parts@[i as int]@);
            assert(all.take(i + 1) =~= all.take(i as int).push(all[i as int]));
        }
        i += 1;
    }
    proof {
        let all = measured(text::texts(parts@));
        assert(all.take(all.len() as int) =~= all);
    }
    r
}

} // verus!
