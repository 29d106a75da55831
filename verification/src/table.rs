//! Fitting rendered Markdown tables, and whole documents, into a pane.

use crate::cells;
use crate::markdown;
use crate::markdown::{leading_structural_prefix, wrap_styled_line_indented, Shown, StructuralPrefix, StyledRow};
use crate::styling;
use crate::styling::{extend_spans, Ink, Line, Span, Strip, TextStyle};
use crate::text;
use vstd::prelude::*;
use vstd::string::*;

verus! {

/// The content width of each column, read off the segments of a top border.
pub open spec fn border_widths(segments: Seq<Seq<char>>, n: int) -> Option<Seq<usize>>
    decreases n,
{
    if n <= 0 {
        Some(Seq::empty())
    } else {
        let w = cells::text_width(segments[n - 1]);
        match border_widths(segments, n - 1) {
            None => None,
            Some(before) => if w < 2 {
                None
            } else {
                Some(before.push((w - 2) as usize))
            },
        }
    }
}

/// The content widths of the columns of a table with this top border.
pub open spec fn column_widths(top: Seq<char>) -> Option<Seq<usize>> {
    match text::strip_prefix(top, "┌"@) {
        None => None,
        Some(rest) => match text::strip_suffix(rest, "┐"@) {
            None => None,
            Some(inner) => {
                let segments = text::split(inner, '┬');
                border_widths(segments, segments.len() as int)
            },
        },
    }
}

fn table_column_widths(top_border: &str) -> (r: Option<Vec<usize>>)
    ensures
        r is Some == column_widths(top_border@) is Some,
        r matches Some(v) ==> v@ == column_widths(top_border@)->0 && v@.len() > 0,
{
    match text::without_prefix(top_border, "┌") {
        None => None,
        Some(rest) => match text::without_suffix(rest.as_str(), "┐") {
            None => None,
            Some(inner) => {
                let segments = text::split_on(inner.as_str(), '┬');
                let ghost all = text::texts(segments@);
                let mut widths: Vec<usize> = Vec::new();
                let mut i: usize = 0;
                proof {
                    assert(all.len() == segments@.len());
                }
                while i < segments.len()
                    invariant
                        i <= segments@.len(),
                        all == text::texts(segments@),
                        all.len() == segments@.len(),
                        column_widths(top_border@) == border_widths(all, all.len() as int),
                        widths@.len() == i,
                        border_widths(all, i as int) == Some(widths@),
                    decreases segments@.len() - i,
                {
                    let w: usize = cells::width_of(segments[i].as_str());
                    proof {
                        assert(all[i as int] == segments@[i as int]@);
                    }
                    if w < 2 {
                        proof {
                            lemma_no_widths(all, i as int, all.len() as int);
                        }
                        return None;
                    }
                    widths.push(w - 2);
                    i += 1;
                }
                Some(widths)
            },
        },
    }
}

proof fn lemma_no_widths(segments: Seq<Seq<char>>, i: int, n: int)
    requires
        0 <= i < n <= segments.len(),
        cells::text_width(segments[i]) < 2,
    ensures
        border_widths(segments, n) is None,
    decreases n,
{
    if i < n - 1 {
        lemma_no_widths(segments, i, n - 1);
    }
}

/// Sum of the first `n` widths.
pub open spec fn sum(widths: Seq<usize>, n: int) -> int
    decreases n,
{
    if n <= 0 {
        0
    } else {
        sum(widths, n - 1) + widths[n - 1]
    }
}

proof fn lemma_sum_grows(widths: Seq<usize>, m: int, n: int)
    requires
        0 <= m <= n <= widths.len(),
    ensures
        0 <= sum(widths, m) <= sum(widths, n),
    decreases n,
{
    if m < n {
        lemma_sum_grows(widths, m, n - 1);
    } else if n > 0 {
        lemma_sum_grows(widths, n - 1, n - 1);
    }
}

/// Whether the widths add up to at most `limit`.
fn fits(widths: &Vec<usize>, limit: usize) -> (r: bool)
    ensures
        r == (sum(widths@, widths@.len() as int) <= limit),
{
    let mut used: usize = 0;
    let mut i: usize = 0;
    while i < widths.len()
        invariant
            i <= widths@.len(),
            used == sum(widths@, i as int),
            used <= limit,
        decreases widths@.len() - i,
    {
        if widths[i] > limit - used {
            proof {
                lemma_sum_grows(widths@, i + 1, widths@.len() as int);
            }
            return false;
        }
        used = used + widths[i];
        i += 1;
    }
    true
}

/// Hands out `remaining` cells one by one, round after round, to the columns
/// from `i` on that are narrower than they would like. `advanced` tells
/// whether this round has handed out any.
pub open spec fn grown(
    widths: Seq<usize>,
    desired: Seq<usize>,
    i: int,
    remaining: int,
    advanced: bool,
) -> Seq<usize>
    decreases
            remaining,
            (if advanced {
                1int
            } else {
                0int
            }),
            desired.len() - i,
{
    if remaining <= 0 || widths.len() != desired.len() || i < 0 {
        widths
    } else if i >= desired.len() {
        if advanced {
            grown(widths, desired, 0, remaining, false)
        } else {
            widths
        }
    } else if widths[i] < desired[i] {
        grown(widths.update(i, (widths[i] + 1) as usize), desired, i + 1, remaining - 1, true)
    } else {
        grown(widths, desired, i + 1, remaining, advanced)
    }
}

/// The widths the columns get when `available` cells are to be shared: what
/// they would like if that fits, otherwise one cell each and the rest handed
/// out evenly.
pub open spec fn constrained(desired: Seq<usize>, available: int) -> Seq<usize> {
    if sum(desired, desired.len() as int) <= available {
        desired
    } else {
        grown(
            Seq::new(desired.len(), |i: int| 1usize),
            desired,
            0,
            available - desired.len(),
            false,
        )
    }
}

/// Shares `available` cells among columns that would like `desired` cells.
pub fn constrain_column_widths(desired: &Vec<usize>, available: usize) -> (r: Vec<usize>)
    ensures
        r@ == constrained(desired@, available as int),
{
    if fits(desired, available) {
        let r = desired.clone();
        proof {
            assert(r@ =~= desired@);
        }
        return r;
    }
    let n: usize = desired.len();
    let mut widths: Vec<usize> = Vec::new();
    let mut k: usize = 0;
    while k < n
        invariant
            k <= n,
            n == desired@.len(),
            widths@ == Seq::new(k as nat, |i: int| 1usize),
        decreases n - k,
    {
        widths.push(1);
        k += 1;
        proof {
            assert(widths@ =~= Seq::new(k as nat, |i: int| 1usize));
        }
    }
    let mut remaining: usize = available.saturating_sub(n);
    let mut i: usize = 0;
    let mut advanced = false;
    while remaining > 0
        invariant
            n == desired@.len(),
            widths@.len() == n,
            i <= n,
            grown(widths@, desired@, i as int, remaining as int, advanced) == constrained(
                desired@,
                available as int,
            ),
        decreases
                remaining,
                (if advanced {
                    1int
                } else {
                    0int
                }),
                n - i,
    {
        if i == n {
            if !advanced {
                return widths;
            }
            i = 0;
            advanced = false;
        } else if widths[i] < desired[i] {
            widths[i] = widths[i] + 1;
            remaining -= 1;
            advanced = true;
            i += 1;
        } else {
            i += 1;
        }
    }
    widths
}

/// What holds of column widths while cells are handed out.
spec fn sharing(widths: Seq<usize>, desired: Seq<usize>) -> bool {
    &&& widths.len() == desired.len()
    &&& forall|i: int|
        0 <= i < widths.len() ==> 1 <= (#[trigger] widths[i]) && (widths[i] <= 1 || widths[i]
            <= desired[i])
}

proof fn lemma_sum_update(widths: Seq<usize>, i: int, w: usize, n: int)
    requires
        0 <= i < widths.len(),
        0 <= n <= widths.len(),
    ensures
        sum(widths.update(i, w), n) == sum(widths, n) + (if i < n {
            w - widths[i]
        } else {
            0
        }),
    decreases n,
{
    if n > 0 {
        lemma_sum_update(widths, i, w, n - 1);
    }
}

proof fn lemma_grown(
    widths: Seq<usize>,
    desired: Seq<usize>,
    i: int,
    remaining: int,
    advanced: bool,
)
    requires
        sharing(widths, desired),
        0 <= i <= desired.len(),
        remaining >= 0,
        !advanced ==> forall|k: int| 0 <= k < i ==> (#[trigger] widths[k]) >= desired[k],
    ensures
        ({
            let r = grown(widths, desired, i, remaining, advanced);
            let n = desired.len() as int;
            &&& sharing(r, desired)
            &&& sum(r, n) <= sum(widths, n) + remaining
            &&& sum(r, n) < sum(widths, n) + remaining ==> forall|k: int|
                0 <= k < n ==> (#[trigger] r[k]) >= desired[k]
        }),
    decreases
            remaining,
            (if advanced {
                1int
            } else {
                0int
            }),
            desired.len() - i,
{
    if remaining > 0 {
        if i >= desired.len() {
            if advanced {
                lemma_grown(widths, desired, 0, remaining, false);
            }
        } else if widths[i] < desired[i] {
            let next = widths.update(i, (widths[i] + 1) as usize);
            lemma_sum_update(widths, i, (widths[i] + 1) as usize, desired.len() as int);
            lemma_grown(next, desired, i + 1, remaining - 1, true);
        } else {
            lemma_grown(widths, desired, i + 1, remaining, advanced);
        }
    }
}

proof fn lemma_sum_ones(n: int, m: int)
    requires
        0 <= m <= n,
    ensures
        sum(Seq::new(n as nat, |i: int| 1usize), m) == m,
    decreases m,
{
    if m > 0 {
        lemma_sum_ones(n, m - 1);
    }
}

proof fn lemma_sum_bounds(a: Seq<usize>, b: Seq<usize>, n: int)
    requires
        0 <= n <= a.len(),
        n <= b.len(),
        forall|k: int| 0 <= k < n ==> (#[trigger] a[k]) >= b[k],
    ensures
        sum(a, n) >= sum(b, n),
    decreases n,
{
    if n > 0 {
        lemma_sum_bounds(a, b, n - 1);
    }
}

/// Columns that do not fit share exactly the cells there are; every column
/// gets at least one, and none more than it asked for.
pub proof fn columns_share_the_pane(desired: Seq<usize>, available: int)
    requires
        desired.len() <= available < sum(desired, desired.len() as int),
    ensures
        constrained(desired, available).len() == desired.len(),
        sum(constrained(desired, available), desired.len() as int) == available,
        forall|i: int|
            0 <= i < desired.len() ==> 1 <= (#[trigger] constrained(desired, available)[i]) && (
            constrained(desired, available)[i] == 1 || constrained(desired, available)[i]
                <= desired[i]),
{
    let n = desired.len() as int;
    let ones = Seq::new(desired.len(), |i: int| 1usize);
    lemma_sum_ones(n, n);
    lemma_grown(ones, desired, 0, available - n, false);
    let r = constrained(desired, available);
    if sum(r, n) < available {
        lemma_sum_bounds(r, desired, n);
    }
}

/// What a column gets of a share: what it asked for if that is less, and at
/// least one cell.
pub open spec fn portion(desired: int, share: int) -> int {
    if desired <= 1 {
        1
    } else if desired <= share {
        desired
    } else {
        share
    }
}

/// Whether the columns before `i` have a share of `share + 1` cells and the
/// others one of `share`.
pub open spec fn shared_out(widths: Seq<usize>, desired: Seq<usize>, i: int, share: int) -> bool {
    &&& widths.len() == desired.len()
    &&& 0 <= i <= desired.len()
    &&& 1 <= share
    &&& forall|k: int|
        0 <= k < widths.len() ==> (#[trigger] widths[k]) == portion(
            desired[k] as int,
            if k < i {
                share + 1
            } else {
                share
            },
        )
}

proof fn lemma_shared_out(
    widths: Seq<usize>,
    desired: Seq<usize>,
    i: int,
    remaining: int,
    advanced: bool,
    share: int,
) -> (r: (int, int))
    requires
        shared_out(widths, desired, i, share),
    ensures
        shared_out(grown(widths, desired, i, remaining, advanced), desired, r.0, r.1),
    decreases
            remaining,
            (if advanced {
                1int
            } else {
                0int
            }),
            desired.len() - i,
{
    if remaining <= 0 {
        (i, share)
    } else if i >= desired.len() {
        if advanced {
            assert(shared_out(widths, desired, 0, share + 1));
            lemma_shared_out(widths, desired, 0, remaining, false, share + 1)
        } else {
            (i, share)
        }
    } else if widths[i] < desired[i] {
        let next = widths.update(i, (widths[i] + 1) as usize);
        assert(shared_out(next, desired, i + 1, share));
        lemma_shared_out(next, desired, i + 1, remaining - 1, true, share)
    } else {
        assert(shared_out(widths, desired, i + 1, share));
        lemma_shared_out(widths, desired, i + 1, remaining, advanced, share)
    }
}

/// Columns that do not fit share evenly: each gets what it asked for or the
/// common share, to which the first columns may have one cell more.
pub proof fn columns_share_evenly(desired: Seq<usize>, available: int)
    requires
        available < sum(desired, desired.len() as int),
    ensures
        exists|i: int, share: int|
            #[trigger] shared_out(constrained(desired, available), desired, i, share),
{
    let ones = Seq::new(desired.len(), |i: int| 1usize);
    assert(shared_out(ones, desired, 0, 1));
    let (i, share) = lemma_shared_out(ones, desired, 0, available - desired.len(), false, 1);
    assert(shared_out(constrained(desired, available), desired, i, share));
}

/// One border row of a table.
pub open spec fn border_text(
    left: char,
    mid: char,
    right: char,
    widths: Seq<usize>,
    n: int,
) -> Seq<char>
    decreases n,
{
    if n <= 0 {
        seq![left]
    } else {
        (border_text(left, mid, right, widths, n - 1) + text::repeated(
            '─',
            (widths[n - 1] + 2) as nat,
        )).push(
            if n == widths.len() {
                right
            } else {
                mid
            },
        )
    }
}

pub open spec fn border_strip(
    left: char,
    mid: char,
    right: char,
    widths: Seq<usize>,
    style: TextStyle,
) -> Strip {
    Strip::of(
        seq![Ink { text: border_text(left, mid, right, widths, widths.len() as int), style }],
    )
}

fn table_border_line(left: char, mid: char, right: char, widths: &Vec<usize>, style: TextStyle) -> (r:
    Line)
    requires
        forall|i: int| 0 <= i < widths@.len() ==> (#[trigger] widths@[i]) <= usize::MAX - 2,
    ensures
        r@ == border_strip(left, mid, right, widths@, style),
{
    let mut border = String::new();
    border.push(left);
    let mut i: usize = 0;
    proof {
        assert(border@ =~= seq![left]);
    }
    while i < widths.len()
        invariant
            i <= widths@.len(),
            forall|k: int| 0 <= k < widths@.len() ==> (#[trigger] widths@[k]) <= usize::MAX - 2,
            border@ == border_text(left, mid, right, widths@, i as int),
        decreases widths@.len() - i,
    {
        border.append(text::repeat('─', widths[i] + 2).as_str());
        border.push(
            if i + 1 == widths.len() {
                right
            } else {
                mid
            },
        );
        i += 1;
    }
    let mut spans: Vec<Span> = Vec::new();
    spans.push(Span::styled(border, style));
    proof {
        assert(styling::inks(spans@) =~= seq![
            Ink { text: border_text(left, mid, right, widths@, widths@.len() as int), style },
        ]);
    }
    Line::from_spans(spans)
}

/// Index of the first span from `i` on that is not blank.
pub open spec fn first_inked(spans: Seq<Ink>, i: int) -> int
    decreases spans.len() - i,
{
    if 0 <= i < spans.len() && text::is_blank(spans[i].text) {
        first_inked(spans, i + 1)
    } else {
        i
    }
}

/// Index behind the last span before `n` that is not blank, at least `lo`.
pub open spec fn last_inked(spans: Seq<Ink>, lo: int, n: int) -> int
    decreases n - lo,
{
    if lo < n <= spans.len() && text::is_blank(spans[n - 1].text) {
        last_inked(spans, lo, n - 1)
    } else {
        n
    }
}

/// The spans of a cell without blank spans and space around its content.
pub open spec fn trimmed_cell(spans: Seq<Ink>) -> Seq<Ink> {
    let lo = first_inked(spans, 0);
    let hi = last_inked(spans, lo, spans.len() as int);
    let inner = spans.subrange(lo, hi);
    if inner.len() == 0 {
        inner
    } else {
        let first = Ink { text: text::trim_start(inner[0].text), ..inner[0] };
        let opened = inner.update(0, first);
        let last = Ink { text: text::trim_end(opened.last().text), ..opened.last() };
        opened.update(opened.len() - 1, last)
    }
}

proof fn lemma_inked(spans: Seq<Ink>, i: int)
    requires
        0 <= i <= spans.len(),
    ensures
        i <= first_inked(spans, i) <= spans.len(),
    decreases spans.len() - i,
{
    if i < spans.len() && text::is_blank(spans[i].text) {
        lemma_inked(spans, i + 1);
    }
}

fn trim_cell_spans(spans: &Vec<Span>) -> (r: Vec<Span>)
    ensures
        styling::inks(r@) == trimmed_cell(styling::inks(spans@)),
{
    let ghost all = styling::inks(spans@);
    let mut lo: usize = 0;
    proof {
        assert(all.len() == spans@.len());
    }
    while lo < spans.len() && text::blank(spans[lo].content.as_str())
        invariant
            lo <= spans@.len(),
            all == styling::inks(spans@),
            all.len() == spans@.len(),
            first_inked(all, 0) == first_inked(all, lo as int),
            forall|k: int| 0 <= k < all.len() ==> all[k] == (#[trigger] spans@[k])@,
        decreases spans@.len() - lo,
    {
        lo += 1;
    }
    let mut hi: usize = spans.len();
    while lo < hi && text::blank(spans[hi - 1].content.as_str())
        invariant
            lo <= hi <= spans@.len(),
            all == styling::inks(spans@),
            all.len() == spans@.len(),
            last_inked(all, lo as int, spans@.len() as int) == last_inked(
                all,
                lo as int,
                hi as int,
            ),
            forall|k: int| 0 <= k < all.len() ==> all[k] == (#[trigger] spans@[k])@,
        decreases hi,
    {
        hi -= 1;
    }
    let ghost inner = all.subrange(lo as int, hi as int);
    let mut r: Vec<Span> = Vec::new();
    let mut i: usize = lo;
    proof {
        assert(styling::inks(r@) =~= inner.take(0));
    }
    while i < hi
        invariant
            lo <= i <= hi <= spans@.len(),
            all == styling::inks(spans@),
            all.len() == spans@.len(),
            inner == all.subrange(lo as int, hi as int),
            styling::inks(r@) == inner.take(i - lo),
            r@.len() == i - lo,
        decreases hi - i,
    {
        let ghost before = r@;
        r.push(spans[i].copy());
        proof {
            assert(all[i as int] == spans@[i as int]@);
            assert(inner.take(i - lo + 1) =~= inner.take(i - lo).push(inner[i - lo]));
            assert(styling::inks(r@) =~= styling::inks(before).push(inner[i - lo]));
        }
        i += 1;
    }
    proof {
        assert(inner.take(inner.len() as int) =~= inner);
    }
    let n: usize = r.len();
    if n > 0 {
        let ghost before = r@;
        let first = text::trimmed_start(r[0].content.as_str());
        let ghost opened = inner.update(
            0,
            Ink { text: text::trim_start(inner[0].text), ..inner[0] },
        );
        proof {
            assert(inner[0] == before[0]@);
        }
        r[0].content = first;
        proof {
            assert(styling::inks(r@) =~= opened);
            assert(opened.last() == r@[n - 1]@);
        }
        let ghost mid = r@;
        let last = text::trimmed_end(r[n - 1].content.as_str());
        r[n - 1].content = last;
        proof {
            assert(styling::inks(r@) =~= trimmed_cell(all));
        }
    }
    r
}

/// The cells read so far off a table row, the one being read, and whether
/// the first border has been passed.
pub struct Reading {
    pub cells: Seq<Seq<Ink>>,
    pub cell: Seq<Ink>,
    pub inside: bool,
}

/// The cells of the first `n` spans of a row; borders stand between them.
pub open spec fn read_cells(line: Strip, n: int) -> Reading
    decreases n,
{
    if n <= 0 {
        Reading { cells: Seq::empty(), cell: Seq::empty(), inside: false }
    } else {
        let before = read_cells(line, n - 1);
        let span = line.spans[n - 1];
        if span.text == "│"@ {
            Reading {
                cells: if before.inside {
                    before.cells.push(trimmed_cell(before.cell))
                } else {
                    before.cells
                },
                cell: if before.inside {
                    Seq::empty()
                } else {
                    before.cell
                },
                inside: true,
            }
        } else if before.inside {
            Reading {
                cell: before.cell.push(
                    Ink { text: span.text, style: line.style.under(span.style) },
                ),
                ..before
            }
        } else {
            before
        }
    }
}

/// The style of the row's borders: that of the first one.
pub open spec fn row_border_style(line: Strip, base: TextStyle, i: int) -> TextStyle
    decreases line.spans.len() - i,
{
    if i < 0 || i >= line.spans.len() {
        base.under(line.style)
    } else if line.spans[i].text == "│"@ {
        base.under(line.style).under(line.spans[i].style)
    } else {
        row_border_style(line, base, i + 1)
    }
}

/// The display rows of the first `n` cells; `None` when one cannot be wrapped.
pub open spec fn wrapped_cells(
    parts: Seq<Seq<Ink>>,
    widths: Seq<usize>,
    base: TextStyle,
    n: int,
) -> Option<Seq<Seq<Shown>>>
    decreases n,
{
    if n <= 0 {
        Some(Seq::empty())
    } else {
        match wrapped_cells(parts, widths, base, n - 1) {
            None => None,
            Some(before) => match markdown::wrapped_line(
                Strip::of(parts[n - 1]),
                widths[n - 1] as int,
                base,
                0,
            ) {
                None => None,
                Some(rows) => Some(before.push(rows)),
            },
        }
    }
}

/// Display rows of the tallest of the first `n` cells.
pub open spec fn tallest(cells: Seq<Seq<Shown>>, n: int) -> int
    decreases n,
{
    if n <= 0 {
        0
    } else {
        let before = tallest(cells, n - 1);
        if cells[n - 1].len() > before {
            cells[n - 1].len() as int
        } else {
            before
        }
    }
}

/// An unstyled span.
pub open spec fn raw(s: Seq<char>) -> Ink {
    Ink { text: s, style: TextStyle::bare() }
}

/// What one cell shows on display row `row`, padded to its column.
pub open spec fn cell_spans(cell: Seq<Shown>, width: usize, row: int) -> Seq<Ink> {
    if row < cell.len() {
        let line = cell[row].line;
        let pad = if line.width() < width {
            (width - line.width()) as nat
        } else {
            0
        };
        line.spans.push(raw(text::repeated(' ', pad)))
    } else {
        seq![raw(text::repeated(' ', width as nat))]
    }
}

/// Display row `row` of the first `n` columns.
pub open spec fn joined_cells(
    cells: Seq<Seq<Shown>>,
    widths: Seq<usize>,
    border: TextStyle,
    row: int,
    n: int,
) -> Seq<Ink>
    decreases n,
{
    let bar = Ink { text: "│"@, style: border };
    if n <= 0 {
        seq![bar]
    } else {
        joined_cells(cells, widths, border, row, n - 1).push(raw(" "@)) + cell_spans(
            cells[n - 1],
            widths[n - 1],
            row,
        ).push(raw(" "@)).push(bar)
    }
}

/// The display rows of a table row. The outer `None`: a cell cannot be
/// wrapped. The inner one: the row has not as many cells as columns.
pub open spec fn wrapped_row(line: Strip, widths: Seq<usize>, base: TextStyle) -> Option<
    Option<Seq<Strip>>,
> {
    let parts = read_cells(line, line.spans.len() as int).cells;
    if parts.len() != widths.len() {
        Some(None)
    } else {
        match wrapped_cells(parts, widths, base, parts.len() as int) {
            None => None,
            Some(cells) => {
                let border = row_border_style(line, base, 0);
                let height = if cells.len() == 0 {
                    1
                } else {
                    tallest(cells, cells.len() as int)
                };
                Some(
                    Some(
                        Seq::new(
                            height as nat,
                            |row: int|
                                Strip::of(
                                    joined_cells(
                                        cells,
                                        widths,
                                        border,
                                        row,
                                        widths.len() as int,
                                    ),
                                ),
                        ),
                    ),
                )
            },
        }
    }
}

/// The values of a list of span lists.
pub open spec fn ink_lists(v: Seq<Vec<Span>>) -> Seq<Seq<Ink>> {
    v.map_values(|s: Vec<Span>| styling::inks(s@))
}

/// The values of a list of row lists.
pub open spec fn shown_lists(v: Seq<Vec<StyledRow>>) -> Seq<Seq<Shown>> {
    v.map_values(|s: Vec<StyledRow>| markdown::shown_of(s@))
}

fn border_style_of(line: &Line, base: TextStyle) -> (r: TextStyle)
    ensures
        r == row_border_style(line@, base, 0),
{
    let mut i: usize = 0;
    let under = base.patch(line.style);
    proof {
        assert(line@.spans.len() == line.spans@.len());
    }
    while i < line.spans.len()
        invariant
            i <= line.spans@.len(),
            line@.spans.len() == line.spans@.len(),
            under == base.under(line.style),
            row_border_style(line@, base, 0) == row_border_style(line@, base, i as int),
        decreases line.spans@.len() - i,
    {
        proof {
            assert(line@.spans[i as int] == line.spans@[i as int]@);
        }
        if text::same(line.spans[i].content.as_str(), "│") {
            return under.patch(line.spans[i].style);
        }
        i += 1;
    }
    under
}

fn cells_of(line: &Line) -> (r: Vec<Vec<Span>>)
    ensures
        ink_lists(r@) == read_cells(line@, line@.spans.len() as int).cells,
{
    let mut cells: Vec<Vec<Span>> = Vec::new();
    let mut cell: Vec<Span> = Vec::new();
    let mut inside = false;
    let mut i: usize = 0;
    proof {
        assert(line@.spans.len() == line.spans@.len());
        assert(ink_lists(cells@) =~= Seq::empty());
        assert(styling::inks(cell@) =~= Seq::empty());
    }
    while i < line.spans.len()
        invariant
            i <= line.spans@.len(),
            line@.spans.len() == line.spans@.len(),
            ink_lists(cells@) == read_cells(line@, i as int).cells,
            styling::inks(cell@) == read_cells(line@, i as int).cell,
            inside == read_cells(line@, i as int).inside,
        decreases line.spans@.len() - i,
    {
        let ghost done = cells@;
        let ghost open = cell@;
        proof {
            assert(line@.spans[i as int] == line.spans@[i as int]@);
        }
        if text::same(line.spans[i].content.as_str(), "│") {
            if inside {
                let trimmed = trim_cell_spans(&cell);
                let ghost inks = styling::inks(trimmed@);
                cells.push(trimmed);
                cell = Vec::new();
                proof {
                    assert(ink_lists(cells@) =~= ink_lists(done).push(inks));
                    assert(styling::inks(cell@) =~= Seq::empty());
                }
            }
            inside = true;
        } else if inside {
            let span = Span::styled(
                line.spans[i].content.clone(),
                line.style.patch(line.spans[i].style),
            );
            let ghost ink = span@;
            cell.push(span);
            proof {
                assert(styling::inks(cell@) =~= styling::inks(open).push(ink));
            }
        }
        i += 1;
    }
    cells
}

proof fn lemma_no_cells(parts: Seq<Seq<Ink>>, widths: Seq<usize>, base: TextStyle, i: int, n: int)
    requires
        0 <= i <= n,
        wrapped_cells(parts, widths, base, i) is None,
    ensures
        wrapped_cells(parts, widths, base, n) is None,
    decreases n,
{
    if i < n {
        lemma_no_cells(parts, widths, base, i, n - 1);
    }
}

fn wrap_cells(parts: &Vec<Vec<Span>>, widths: &Vec<usize>, base: TextStyle) -> (r: Option<
    Vec<Vec<StyledRow>>,
>)
    requires
        parts@.len() == widths@.len(),
    ensures
        ({
            let all = wrapped_cells(ink_lists(parts@), widths@, base, parts@.len() as int);
            &&& r is Some == all is Some
            &&& r matches Some(v) ==> shown_lists(v@) == all->0 && v@.len() == parts@.len()
        }),
{
    let ghost all = ink_lists(parts@);
    let mut r: Vec<Vec<StyledRow>> = Vec::new();
    let mut i: usize = 0;
    proof {
        assert(shown_lists(r@) =~= Seq::empty());
    }
    while i < parts.len()
        invariant
            i <= parts@.len(),
            parts@.len() == widths@.len(),
            all == ink_lists(parts@),
            r@.len() == i,
            wrapped_cells(all, widths@, base, i as int) == Some(shown_lists(r@)),
        decreases parts@.len() - i,
    {
        let mut spans: Vec<Span> = Vec::new();
        extend_spans(&mut spans, &parts[i]);
        proof {
            assert(all[i as int] == styling::inks(parts@[i as int]@));
            assert(styling::inks(spans@) =~= all[i as int]);
        }
        let line = Line::from_spans(spans);
        match wrap_styled_line_indented(&line, widths[i], base, 0) {
            None => {
                proof {
                    lemma_no_cells(all, widths@, base, i + 1, parts@.len() as int);
                }
                return None;
            },
            Some(rows) => {
                let ghost before = r@;
                let ghost shown = markdown::shown_of(rows@);
                r.push(rows);
                proof {
                    assert(shown_lists(r@) =~= shown_lists(before).push(shown));
                }
            },
        }
        i += 1;
    }
    Some(r)
}

fn height_of(cells: &Vec<Vec<StyledRow>>) -> (r: usize)
    ensures
        r == tallest(shown_lists(cells@), cells@.len() as int),
{
    let ghost all = shown_lists(cells@);
    let mut r: usize = 0;
    let mut i: usize = 0;
    while i < cells.len()
        invariant
            i <= cells@.len(),
            all == shown_lists(cells@),
            r == tallest(all, i as int),
        decreases cells@.len() - i,
    {
        proof {
            assert(all[i as int] == markdown::shown_of(cells@[i as int]@));
            assert(all[i as int].len() == cells@[i as int]@.len());
        }
        if cells[i].len() > r {
            r = cells[i].len();
        }
        i += 1;
    }
    r
}

fn push_span(spans: &mut Vec<Span>, span: Span)
    ensures
        styling::inks(final(spans)@) == styling::inks(old(spans)@).push(span@),
{
    let ghost before = spans@;
    let ghost ink = span@;
    spans.push(span);
    proof {
        assert(styling::inks(spans@) =~= styling::inks(before).push(ink));
    }
}

fn join_row(cells: &Vec<Vec<StyledRow>>, widths: &Vec<usize>, border: TextStyle, row: usize) -> (r:
    Line)
    requires
        cells@.len() == widths@.len(),
    ensures
        r@ == Strip::of(
            joined_cells(
                shown_lists(cells@),
                widths@,
                border,
                row as int,
                widths@.len() as int,
            ),
        ),
{
    let ghost all = shown_lists(cells@);
    let mut spans: Vec<Span> = Vec::new();
    proof {
        assert(styling::inks(spans@) =~= Seq::empty());
    }
    push_span(&mut spans, Span::styled("│".to_owned(), border));
    proof {
        assert(styling::inks(spans@) =~= seq![Ink { text: "│"@, style: border }]);
    }
    let mut i: usize = 0;
    while i < widths.len()
        invariant
            i <= widths@.len(),
            cells@.len() == widths@.len(),
            all == shown_lists(cells@),
            styling::inks(spans@) == joined_cells(all, widths@, border, row as int, i as int),
        decreases widths@.len() - i,
    {
        let ghost before = styling::inks(spans@);
        let ghost part = cell_spans(all[i as int], widths@[i as int], row as int);
        proof {
            assert(all[i as int] == markdown::shown_of(cells@[i as int]@));
            assert(all[i as int].len() == cells@[i as int]@.len());
        }
        push_span(&mut spans, Span::raw(" ".to_owned()));
        if row < cells[i].len() {
            let line = &cells[i][row].line;
            proof {
                assert(all[i as int][row as int] == cells@[i as int]@[row as int]@);
            }
            extend_spans(&mut spans, &line.spans);
            let pad: usize = widths[i].saturating_sub(line.width());
            push_span(&mut spans, Span::raw(text::repeat(' ', pad)));
        } else {
            push_span(&mut spans, Span::raw(text::repeat(' ', widths[i])));
        }
        proof {
            assert(styling::inks(spans@) =~= before.push(raw(" "@)) + part);
        }
        push_span(&mut spans, Span::raw(" ".to_owned()));
        push_span(&mut spans, Span::styled("│".to_owned(), border));
        proof {
            assert(styling::inks(spans@) =~= before.push(raw(" "@)) + part.push(raw(" "@)).push(
                Ink { text: "│"@, style: border },
            ));
        }
        i += 1;
    }
    Line::from_spans(spans)
}

fn wrap_table_row(line: &Line, widths: &Vec<usize>, base: TextStyle) -> (r: Option<Option<Vec<Line>>>)
    ensures
        ({
            let want = wrapped_row(line@, widths@, base);
            &&& r is Some == want is Some
            &&& r matches Some(rows) ==> rows is Some == want->0 is Some && (rows matches Some(
                v,
            ) ==> styling::strips(v@) == want->0->0)
        }),
{
    let parts = cells_of(line);
    proof {
        assert(ink_lists(parts@).len() == parts@.len());
    }
    if parts.len() != widths.len() {
        return Some(None);
    }
    let border = border_style_of(line, base);
    match wrap_cells(&parts, widths, base) {
        None => None,
        Some(cells) => {
            let height: usize = if cells.len() == 0 {
                1
            } else {
                height_of(&cells)
            };
            let ghost want = wrapped_row(line@, widths@, base)->0->0;
            let mut rows: Vec<Line> = Vec::new();
            let mut row: usize = 0;
            proof {
                assert(styling::strips(rows@) =~= want.take(0));
            }
            while row < height
                invariant
                    row <= height,
                    height == want.len(),
                    cells@.len() == widths@.len(),
                    forall|k: int|
                        0 <= k < height ==> #[trigger] want[k] == Strip::of(
                            joined_cells(
                                shown_lists(cells@),
                                widths@,
                                border,
                                k,
                                widths@.len() as int,
                            ),
                        ),
                    styling::strips(rows@) == want.take(row as int),
                decreases height - row,
            {
                let ghost before = rows@;
                rows.push(join_row(&cells, widths, border, row));
                proof {
                    assert(want.take(row + 1) =~= want.take(row as int).push(want[row as int]));
                    assert(styling::strips(rows@) =~= styling::strips(before).push(want[row as int]));
                }
                row += 1;
            }
            proof {
                assert(want.take(want.len() as int) =~= want);
            }
            Some(Some(rows))
        },
    }
}

/// A line in its own style laid on `base`, without a style of its own.
pub open spec fn restyled(line: Strip, base: TextStyle) -> Strip {
    Strip::of(
        Seq::new(
            line.spans.len(),
            |i: int|
                Ink {
                    text: line.spans[i].text,
                    style: base.under(line.style).under(line.spans[i].style),
                },
        ),
    )
}

fn restyle(line: &Line, base: TextStyle) -> (r: Line)
    ensures
        r@ == restyled(line@, base),
{
    let under = base.patch(line.style);
    let ghost want = restyled(line@, base).spans;
    let mut spans: Vec<Span> = Vec::new();
    let mut i: usize = 0;
    proof {
        assert(line@.spans.len() == line.spans@.len());
        assert(styling::inks(spans@) =~= want.take(0));
    }
    while i < line.spans.len()
        invariant
            i <= line.spans@.len(),
            want == restyled(line@, base).spans,
            want.len() == line.spans@.len(),
            under == base.under(line.style),
            styling::inks(spans@) == want.take(i as int),
        decreases line.spans@.len() - i,
    {
        proof {
            assert(line@.spans[i as int] == line.spans@[i as int]@);
            assert(want.take(i + 1) =~= want.take(i as int).push(want[i as int]));
        }
        push_span(
            &mut spans,
            Span::styled(line.spans[i].content.clone(), under.patch(line.spans[i].style)),
        );
        i += 1;
    }
    proof {
        assert(want.take(want.len() as int) =~= want);
    }
    Line::from_spans(spans)
}

/// The style of a border row: that of its first span.
pub open spec fn edge_style(line: Strip, base: TextStyle) -> TextStyle {
    if line.spans.len() == 0 {
        base.under(line.style)
    } else {
        base.under(line.style).under(line.spans[0].style)
    }
}

/// The rows of a table line in columns of the given widths: a border is
/// redrawn, a row of cells is wrapped. As in [`wrapped_row`] otherwise.
pub open spec fn fitted_line(line: Strip, widths: Seq<usize>, base: TextStyle) -> Option<
    Option<Seq<Strip>>,
> {
    let content = line.text();
    let style = edge_style(line, base);
    if content.len() == 0 {
        Some(None)
    } else if content[0] == '┌' {
        Some(Some(seq![border_strip('┌', '┬', '┐', widths, style)]))
    } else if content[0] == '├' {
        Some(Some(seq![border_strip('├', '┼', '┤', widths, style)]))
    } else if content[0] == '└' {
        Some(Some(seq![border_strip('└', '┴', '┘', widths, style)]))
    } else if content[0] == '│' {
        wrapped_row(line, widths, base)
    } else {
        Some(None)
    }
}

/// `before` followed by the rows of `more`, unless those are missing.
pub open spec fn followed(before: Seq<Strip>, more: Option<Option<Seq<Strip>>>) -> Option<
    Option<Seq<Strip>>,
> {
    match more {
        None => None,
        Some(None) => Some(None),
        Some(Some(rows)) => Some(Some(before + rows)),
    }
}

/// The rows of the table lines from `i` on. The first line that has none
/// decides.
pub open spec fn fitted_lines(
    table: Seq<Strip>,
    i: int,
    widths: Seq<usize>,
    base: TextStyle,
) -> Option<Option<Seq<Strip>>>
    decreases table.len() - i,
{
    if i < 0 || i >= table.len() {
        Some(Some(Seq::empty()))
    } else {
        match fitted_line(table[i], widths, base) {
            None => None,
            Some(None) => Some(None),
            Some(Some(rows)) => followed(rows, fitted_lines(table, i + 1, widths, base)),
        }
    }
}

/// The cells left for content in a table of `n` columns.
pub open spec fn table_room(width: int, n: int) -> int {
    width - (n * 3 + 1)
}

/// A rendered table fitted into `width` cells. The inner `None`: it is not a
/// table that can be fitted.
pub open spec fn fitted_table(table: Seq<Strip>, width: int, base: TextStyle) -> Option<
    Option<Seq<Strip>>,
> {
    if table.len() == 0 {
        Some(None)
    } else {
        match column_widths(table[0].text()) {
            None => Some(None),
            Some(desired) => {
                let room = table_room(width, desired.len() as int);
                if room < desired.len() {
                    Some(None)
                } else if sum(desired, desired.len() as int) <= room {
                    Some(
                        Some(Seq::new(table.len(), |i: int| restyled(table[i], base))),
                    )
                } else {
                    fitted_lines(table, 0, constrained(desired, room), base)
                }
            },
        }
    }
}

fn one_line(line: Line) -> (r: Vec<Line>)
    ensures
        styling::strips(r@) == seq![line@],
{
    let mut r: Vec<Line> = Vec::new();
    let ghost strip = line@;
    r.push(line);
    proof {
        assert(styling::strips(r@) =~= seq![strip]);
    }
    r
}

fn fit_line(line: &Line, widths: &Vec<usize>, base: TextStyle) -> (r: Option<Option<Vec<Line>>>)
    requires
        forall|i: int| 0 <= i < widths@.len() ==> (#[trigger] widths@[i]) <= usize::MAX - 2,
    ensures
        ({
            let want = fitted_line(line@, widths@, base);
            &&& r is Some == want is Some
            &&& r matches Some(rows) ==> rows is Some == want->0 is Some && (rows matches Some(
                v,
            ) ==> styling::strips(v@) == want->0->0)
        }),
{
    let content = line.plain_text();
    let under = base.patch(line.style);
    proof {
        assert(line@.spans.len() == line.spans@.len());
    }
    let style = if line.spans.len() == 0 {
        under
    } else {
        proof {
            assert(line@.spans[0] == line.spans@[0]@);
        }
        under.patch(line.spans[0].style)
    };
    if content.as_str().is_empty() {
        return Some(None);
    }
    let first = content.as_str().get_char(0);
    if first == '┌' {
        Some(Some(one_line(table_border_line('┌', '┬', '┐', widths, style))))
    } else if first == '├' {
        Some(Some(one_line(table_border_line('├', '┼', '┤', widths, style))))
    } else if first == '└' {
        Some(Some(one_line(table_border_line('└', '┴', '┘', widths, style))))
    } else if first == '│' {
        wrap_table_row(line, widths, base)
    } else {
        Some(None)
    }
}

fn append_lines(to: &mut Vec<Line>, more: Vec<Line>)
    ensures
        styling::strips(final(to)@) == styling::strips(old(to)@) + styling::strips(more@),
{
    let mut rest = more;
    let ghost before = to@;
    let ghost added = rest@;
    to.append(&mut rest);
    proof {
        assert(styling::strips(to@) =~= styling::strips(before) + styling::strips(added));
    }
}

fn fit_lines(
    table: &Vec<Line>,
    from: usize,
    to: usize,
    widths: &Vec<usize>,
    base: TextStyle,
) -> (r: Option<Option<Vec<Line>>>)
    requires
        from <= to <= table@.len(),
        forall|i: int| 0 <= i < widths@.len() ==> (#[trigger] widths@[i]) <= usize::MAX - 2,
    ensures
        ({
            let part = styling::strips(table@).subrange(from as int, to as int);
            let want = fitted_lines(part, 0, widths@, base);
            &&& r is Some == want is Some
            &&& r matches Some(rows) ==> rows is Some == want->0 is Some && (rows matches Some(
                v,
            ) ==> styling::strips(v@) == want->0->0)
        }),
{
    let ghost part = styling::strips(table@).subrange(from as int, to as int);
    let ghost want = fitted_lines(part, 0, widths@, base);
    let mut out: Vec<Line> = Vec::new();
    let mut i: usize = from;
    proof {
        assert(styling::strips(out@) =~= Seq::empty());
        if let Some(Some(rows)) = want {
            assert(Seq::empty() + rows =~= rows);
        }
    }
    while i < to
        invariant
            from <= i <= to <= table@.len(),
            forall|k: int| 0 <= k < widths@.len() ==> (#[trigger] widths@[k]) <= usize::MAX - 2,
            part == styling::strips(table@).subrange(from as int, to as int),
            want == fitted_lines(part, 0, widths@, base),
            want == followed(styling::strips(out@), fitted_lines(part, i - from, widths@, base)),
        decreases to - i,
    {
        proof {
            assert(part[i - from] == table@[i as int]@);
        }
        match fit_line(&table[i], widths, base) {
            None => {
                return None;
            },
            Some(None) => {
                return Some(None);
            },
            Some(Some(rows)) => {
                let ghost before = styling::strips(out@);
                let ghost added = styling::strips(rows@);
                append_lines(&mut out, rows);
                proof {
                    let rest = fitted_lines(part, i - from + 1, widths@, base);
                    if let Some(Some(tail)) = rest {
                        assert(before + (added + tail) =~= (before + added) + tail);
                    }
                }
            },
        }
        i += 1;
    }
    proof {
        assert(styling::strips(out@) + Seq::empty() =~= styling::strips(out@));
    }
    Some(Some(out))
}

fn restyle_all(table: &Vec<Line>, from: usize, to: usize, base: TextStyle) -> (r: Vec<Line>)
    requires
        from <= to <= table@.len(),
    ensures
        ({
            let part = styling::strips(table@).subrange(from as int, to as int);
            styling::strips(r@) == Seq::new(part.len(), |i: int| restyled(part[i], base))
        }),
{
    let ghost part = styling::strips(table@).subrange(from as int, to as int);
    let ghost want = Seq::new(part.len(), |i: int| restyled(part[i], base));
    let mut r: Vec<Line> = Vec::new();
    let mut i: usize = from;
    proof {
        assert(styling::strips(r@) =~= want.take(0));
    }
    while i < to
        invariant
            from <= i <= to <= table@.len(),
            part == styling::strips(table@).subrange(from as int, to as int),
            want == Seq::new(part.len(), |i: int| restyled(part[i], base)),
            styling::strips(r@) == want.take(i - from),
        decreases to - i,
    {
        let ghost before = r@;
        r.push(restyle(&table[i], base));
        proof {
            assert(part[i - from] == table@[i as int]@);
            assert(want.take(i - from + 1) =~= want.take(i - from).push(want[i - from]));
            assert(styling::strips(r@) =~= styling::strips(before).push(want[i - from]));
        }
        i += 1;
    }
    proof {
        assert(want.take(want.len() as int) =~= want);
    }
    r
}

proof fn lemma_width_bound(widths: Seq<usize>, n: int, i: int)
    requires
        0 <= i < n <= widths.len(),
    ensures
        widths[i] <= sum(widths, n),
{
    lemma_sum_grows(widths, i + 1, n);
    lemma_sum_grows(widths, 0, i);
}

/// Fits the rendered table `table[from..to]` into `width` cells.
fn wrap_markdown_table(
    table: &Vec<Line>,
    from: usize,
    to: usize,
    width: usize,
    base: TextStyle,
) -> (r: Option<Option<Vec<Line>>>)
    requires
        from <= to <= table@.len(),
    ensures
        ({
            let part = styling::strips(table@).subrange(from as int, to as int);
            let want = fitted_table(part, width as int, base);
            &&& r is Some == want is Some
            &&& r matches Some(rows) ==> rows is Some == want->0 is Some && (rows matches Some(
                v,
            ) ==> styling::strips(v@) == want->0->0)
        }),
{
    if from == to {
        return Some(None);
    }
    let ghost part = styling::strips(table@).subrange(from as int, to as int);
    proof {
        assert(part[0] == table@[from as int]@);
    }
    let top = table[from].plain_text();
    match table_column_widths(top.as_str()) {
        None => Some(None),
        Some(desired) => {
            let n: usize = desired.len();
            if width < 1 || n > (width - 1) / 3 {
                return Some(None);
            }
            let room: usize = width - (n * 3 + 1);
            if room < n {
                return Some(None);
            }
            if fits(&desired, room) {
                return Some(Some(restyle_all(table, from, to, base)));
            }
            let widths = constrain_column_widths(&desired, room);
            proof {
                columns_share_the_pane(desired@, room as int);
                assert forall|i: int| 0 <= i < widths@.len() implies (#[trigger] widths@[i])
                    <= usize::MAX - 2 by {
                    lemma_width_bound(widths@, n as int, i);
                }
            }
            fit_lines(table, from, to, &widths, base)
        },
    }
}

/// Index behind the table that begins at line `i`: its first bottom border
/// from `j` on is its last line.
pub open spec fn table_end(lines: Seq<Strip>, j: int) -> int
    decreases lines.len() - j,
{
    if j < 0 || j >= lines.len() {
        lines.len() as int
    } else if text::starts_with(lines[j].text(), "└"@) {
        j + 1
    } else {
        table_end(lines, j + 1)
    }
}

/// `before` followed by the rows of `more`, if there are any.
pub open spec fn then_rows(before: Seq<Shown>, more: Option<Seq<Shown>>) -> Option<Seq<Shown>> {
    match more {
        None => None,
        Some(rows) => Some(before + rows),
    }
}

/// The display rows of the lines `lines[i..n]`, none indented.
pub open spec fn plain_rows(
    lines: Seq<Strip>,
    i: int,
    n: int,
    width: int,
    base: TextStyle,
) -> Option<Seq<Shown>>
    decreases n - i,
{
    if i >= n {
        Some(Seq::empty())
    } else {
        match markdown::wrapped_line(lines[i], width, base, 0) {
            None => None,
            Some(rows) => then_rows(rows, plain_rows(lines, i + 1, n, width, base)),
        }
    }
}

/// Rows without synthetic indentation.
pub open spec fn flush(lines: Seq<Strip>) -> Seq<Shown> {
    Seq::new(lines.len(), |i: int| Shown { line: lines[i], indent: 0 })
}

/// The rows of the block that begins at line `i`, the hang that later
/// continuation lines get, and the line behind the block. `hang` is that of
/// the innermost item seen so far.
#[verifier::opaque]
pub open spec fn block_rows(
    lines: Seq<Strip>,
    i: int,
    hang: Option<int>,
    width: int,
    base: TextStyle,
) -> (Option<Seq<Shown>>, Option<int>, int) {
    let line = lines[i];
    if text::starts_with(line.text(), "┌"@) {
        let end = table_end(lines, i + 1);
        let table = lines.subrange(i, end);
        let plain = plain_rows(lines, i, end, width, base);
        if text::starts_with(table.last().text(), "└"@) {
            match fitted_table(table, width, base) {
                None => (None, hang, end),
                Some(Some(rows)) => (Some(flush(rows)), None, end),
                Some(None) => (plain, hang, end),
            }
        } else {
            (plain, hang, end)
        }
    } else if line.spans.len() == 0 {
        (markdown::wrapped_line(line, width, base, 0), None, i + 1)
    } else {
        match markdown::line_prefix(line) {
            Some(p) => (
                markdown::wrapped_line(line, width, base, 0),
                if p is Hang && p.cells() < width {
                    Some(p.cells() as int)
                } else {
                    None
                },
                i + 1,
            ),
            None => (
                markdown::wrapped_line(
                    line,
                    width,
                    base,
                    match hang {
                        Some(h) => h,
                        None => 0,
                    },
                ),
                hang,
                i + 1,
            ),
        }
    }
}

/// The display rows of the rendered lines from `i` on; `None` when a line has
/// a prefix with more clusters than the line.
pub open spec fn document_rows(
    lines: Seq<Strip>,
    i: int,
    hang: Option<int>,
    width: int,
    base: TextStyle,
) -> Option<Seq<Shown>>
    decreases lines.len() - i,
{
    if i < 0 || i >= lines.len() {
        Some(Seq::empty())
    } else {
        let (rows, next_hang, next) = block_rows(lines, i, hang, width, base);
        match rows {
            None => None,
            Some(rows) => if next <= i || next > lines.len() {
                None
            } else {
                then_rows(rows, document_rows(lines, next, next_hang, width, base))
            },
        }
    }
}

proof fn lemma_table_end(lines: Seq<Strip>, j: int)
    requires
        0 <= j <= lines.len(),
    ensures
        j <= table_end(lines, j) <= lines.len(),
    decreases lines.len() - j,
{
    if j < lines.len() && !text::starts_with(lines[j].text(), "└"@) {
        lemma_table_end(lines, j + 1);
    }
}

fn starts_line(line: &Line, mark: &str) -> (r: bool)
    ensures
        r == text::starts_with(line@.text(), mark@),
{
    let content = line.plain_text();
    text::has_prefix(content.as_str(), mark)
}

fn find_table_end(lines: &Vec<Line>, from: usize) -> (r: usize)
    requires
        from <= lines@.len(),
    ensures
        r == table_end(styling::strips(lines@), from as int),
        from <= r <= lines@.len(),
{
    let ghost all = styling::strips(lines@);
    let mut j: usize = from;
    proof {
        assert(all.len() == lines@.len());
    }
    while j < lines.len()
        invariant
            from <= j <= lines@.len(),
            all == styling::strips(lines@),
            all.len() == lines@.len(),
            table_end(all, from as int) == table_end(all, j as int),
        decreases lines@.len() - j,
    {
        proof {
            assert(all[j as int] == lines@[j as int]@);
        }
        if starts_line(&lines[j], "└") {
            return j + 1;
        }
        j += 1;
    }
    j
}

fn append_rows(to: &mut Vec<StyledRow>, more: Vec<StyledRow>)
    ensures
        markdown::shown_of(final(to)@) == markdown::shown_of(old(to)@) + markdown::shown_of(more@),
{
    let mut rest = more;
    let ghost before = to@;
    let ghost added = rest@;
    to.append(&mut rest);
    proof {
        assert(markdown::shown_of(to@) =~= markdown::shown_of(before) + markdown::shown_of(added));
    }
}

fn wrap_plain(lines: &Vec<Line>, from: usize, to: usize, width: usize, base: TextStyle) -> (r: Option<
    Vec<StyledRow>,
>)
    requires
        from <= to <= lines@.len(),
    ensures
        ({
            let want = plain_rows(
                styling::strips(lines@),
                from as int,
                to as int,
                width as int,
                base,
            );
            &&& r is Some == want is Some
            &&& r matches Some(v) ==> markdown::shown_of(v@) == want->0
        }),
{
    let ghost all = styling::strips(lines@);
    let ghost want = plain_rows(all, from as int, to as int, width as int, base);
    let mut out: Vec<StyledRow> = Vec::new();
    let mut i: usize = from;
    proof {
        assert(markdown::shown_of(out@) =~= Seq::empty());
        if let Some(rows) = want {
            assert(Seq::empty() + rows =~= rows);
        }
    }
    while i < to
        invariant
            from <= i <= to <= lines@.len(),
            all == styling::strips(lines@),
            want == plain_rows(all, from as int, to as int, width as int, base),
            want == then_rows(
                markdown::shown_of(out@),
                plain_rows(all, i as int, to as int, width as int, base),
            ),
        decreases to - i,
    {
        proof {
            assert(all[i as int] == lines@[i as int]@);
        }
        match wrap_styled_line_indented(&lines[i], width, base, 0) {
            None => {
                return None;
            },
            Some(rows) => {
                let ghost before = markdown::shown_of(out@);
                let ghost added = markdown::shown_of(rows@);
                append_rows(&mut out, rows);
                proof {
                    if let Some(tail) = plain_rows(all, i + 1, to as int, width as int, base) {
                        assert(before + (added + tail) =~= (before + added) + tail);
                    }
                }
            },
        }
        i += 1;
    }
    proof {
        assert(markdown::shown_of(out@) + Seq::empty() =~= markdown::shown_of(out@));
    }
    Some(out)
}

fn flush_rows(lines: Vec<Line>) -> (r: Vec<StyledRow>)
    ensures
        markdown::shown_of(r@) == flush(styling::strips(lines@)),
{
    let ghost want = flush(styling::strips(lines@));
    let mut r: Vec<StyledRow> = Vec::new();
    let mut i: usize = 0;
    proof {
        assert(styling::strips(lines@).len() == lines@.len());
        assert(markdown::shown_of(r@) =~= want.take(0));
    }
    while i < lines.len()
        invariant
            i <= lines@.len(),
            want == flush(styling::strips(lines@)),
            want.len() == lines@.len(),
            markdown::shown_of(r@) == want.take(i as int),
        decreases lines@.len() - i,
    {
        let ghost before = r@;
        r.push(StyledRow { line: lines[i].copy(), indent: 0 });
        proof {
            assert(styling::strips(lines@)[i as int] == lines@[i as int]@);
            assert(want.take(i + 1) =~= want.take(i as int).push(want[i as int]));
            assert(markdown::shown_of(r@) =~= markdown::shown_of(before).push(want[i as int]));
        }
        i += 1;
    }
    proof {
        assert(want.take(want.len() as int) =~= want);
    }
    r
}

/// A hang as a mathematical value.
pub open spec fn hang_of(hang: Option<usize>) -> Option<int> {
    match hang {
        Some(h) => Some(h as int),
        None => None,
    }
}

/// Wraps the table that begins at line `i`.
fn wrap_table_block(
    lines: &Vec<Line>,
    i: usize,
    hang: Option<usize>,
    width: usize,
    base: TextStyle,
) -> (r: (Option<Vec<StyledRow>>, Option<usize>, usize))
    requires
        i < lines@.len(),
        text::starts_with(lines@[i as int]@.text(), "┌"@),
    ensures
        ({
            let want = block_rows(
                styling::strips(lines@),
                i as int,
                hang_of(hang),
                width as int,
                base,
            );
            &&& r.0 is Some == want.0 is Some
            &&& r.0 matches Some(rows) ==> markdown::shown_of(rows@) == want.0->0
            &&& hang_of(r.1) == want.1
            &&& r.2 == want.2
            &&& i < r.2 <= lines@.len()
        }),
{
    let ghost all = styling::strips(lines@);
    let count: usize = lines.len();
    proof {
        reveal(block_rows);
    }
    let end = find_table_end(lines, i + 1);
    let ghost table = all.subrange(i as int, end as int);
    proof {
        assert(all[i as int] == lines@[i as int]@);
        assert(table.last() == lines@[end - 1]@);
    }
    if starts_line(&lines[end - 1], "└") {
        match wrap_markdown_table(lines, i, end, width, base) {
            None => {
                return (None, hang, end);
            },
            Some(Some(rows)) => {
                return (Some(flush_rows(rows)), None, end);
            },
            Some(None) => {},
        }
    }
    (wrap_plain(lines, i, end, width, base), hang, end)
}

/// Wraps the block that begins at line `i`.
fn wrap_block(
    lines: &Vec<Line>,
    i: usize,
    hang: Option<usize>,
    width: usize,
    base: TextStyle,
) -> (r: (Option<Vec<StyledRow>>, Option<usize>, usize))
    requires
        i < lines@.len(),
    ensures
        ({
            let want = block_rows(
                styling::strips(lines@),
                i as int,
                hang_of(hang),
                width as int,
                base,
            );
            &&& r.0 is Some == want.0 is Some
            &&& r.0 matches Some(rows) ==> markdown::shown_of(rows@) == want.0->0
            &&& hang_of(r.1) == want.1
            &&& r.2 == want.2
            &&& i < r.2 <= lines@.len()
        }),
{
    let line = &lines[i];
    let count: usize = lines.len();
    proof {
        reveal(block_rows);
        assert(styling::strips(lines@)[i as int] == lines@[i as int]@);
        assert(line@.spans.len() == line.spans@.len());
    }
    if starts_line(line, "┌") {
        return wrap_table_block(lines, i, hang, width, base);
    }
    if line.spans.len() == 0 {
        return (wrap_styled_line_indented(line, width, base, 0), None, i + 1);
    }
    match leading_structural_prefix(line) {
        Some(p) => {
            let hangs = match p {
                StructuralPrefix::Repeat { .. } => false,
                StructuralPrefix::Hang { .. } => true,
            };
            let next = if hangs && p.width() < width {
                Some(p.width())
            } else {
                None
            };
            (wrap_styled_line_indented(line, width, base, 0), next, i + 1)
        },
        None => {
            let indent: usize = match hang {
                Some(h) => h,
                None => 0,
            };
            (wrap_styled_line_indented(line, width, base, indent), hang, i + 1)
        },
    }
}

/// Wraps rendered Markdown lines into display rows of `width` cells, each
/// with its synthetic continuation indent. Tables are fitted into the pane;
/// continuation lines of an item hang beneath its content. `None` when a line
/// has a prefix with more clusters than the line.
pub fn wrap_markdown_lines(lines: &Vec<Line>, width: usize, base: TextStyle) -> (r: Option<
    Vec<StyledRow>,
>)
    ensures
        ({
            let want = document_rows(styling::strips(lines@), 0, None, width as int, base);
            &&& r is Some == want is Some
            &&& r matches Some(rows) ==> markdown::shown_of(rows@) == want->0
        }),
{
    let ghost all = styling::strips(lines@);
    let ghost want = document_rows(all, 0, None, width as int, base);
    let mut out: Vec<StyledRow> = Vec::new();
    let mut hang: Option<usize> = None;
    let mut i: usize = 0;
    proof {
        assert(all.len() == lines@.len());
        assert(markdown::shown_of(out@) =~= Seq::empty());
        if let Some(rows) = want {
            assert(Seq::empty() + rows =~= rows);
        }
    }
    while i < lines.len()
        invariant
            i <= lines@.len(),
            all == styling::strips(lines@),
            all.len() == lines@.len(),
            want == document_rows(all, 0, None, width as int, base),
            want == then_rows(
                markdown::shown_of(out@),
                document_rows(all, i as int, hang_of(hang), width as int, base),
            ),
        decreases lines@.len() - i,
    {
        let (rows, next_hang, next) = wrap_block(lines, i, hang, width, base);
        match rows {
            None => {
                return None;
            },
            Some(rows) => {
                let ghost before = markdown::shown_of(out@);
                let ghost added = markdown::shown_of(rows@);
                append_rows(&mut out, rows);
                proof {
                    if let Some(tail) = document_rows(
                        all,
                        next as int,
                        hang_of(next_hang),
                        width as int,
                        base,
                    ) {
                        assert(before + (added + tail) =~= (before + added) + tail);
                    }
                }
            },
        }
        hang = next_hang;
        i = next;
    }
    proof {
        assert(markdown::shown_of(out@) + Seq::empty() =~= markdown::shown_of(out@));
    }
    Some(out)
}

/// The text of rendered lines on one line, white space squeezed.
pub open spec fn preview_text(lines: Seq<Strip>) -> Seq<char> {
    text::squash(text::join(lines.map_values(|l: Strip| l.text()), "\n"@))
}

/// The one-line preview of rendered Markdown.
pub fn markdown_preview(lines: &Vec<Line>) -> (r: String)
    ensures
        r@ == preview_text(styling::strips(lines@)),
{
    let ghost want = styling::strips(lines@).map_values(|l: Strip| l.text());
    let mut parts: Vec<String> = Vec::new();
    let mut i: usize = 0;
    proof {
        assert(text::texts(parts@) =~= want.take(0));
    }
    while i < lines.len()
        invariant
            i <= lines@.len(),
            want == styling::strips(lines@).map_values(|l: Strip| l.text()),
            want.len() == lines@.len(),
            text::texts(parts@) == want.take(i as int),
        decreases lines@.len() - i,
    {
        let ghost before = parts@;
        parts.push(lines[i].plain_text());
        proof {
            assert(want[i as int] == lines@[i as int]@.text());
            assert(want.take(i + 1) =~= want.take(i as int).push(want[i as int]));
            assert(text::texts(parts@) =~= text::texts(before).push(want[i as int]));
        }
        i += 1;
    }
    proof {
        assert(want.take(want.len() as int) =~= want);
    }
    text::squashed(text::joined(&parts, "\n").as_str())
}

} // verus!
