//! Styled text as plain values.

use crate::cells;
use crate::cells::grapheme_cells;
use crate::selection::CellPos;
use crate::text;
use vstd::prelude::*;
use vstd::string::*;

verus! {

/// A terminal color.
#[derive(Clone, Copy, Debug, PartialEq, Eq, Structural)]
pub enum Color {
    Reset,
    Black,
    Red,
    Green,
    Yellow,
    Blue,
    Magenta,
    Cyan,
    Gray,
    DarkGray,
    LightRed,
    LightGreen,
    LightYellow,
    LightBlue,
    LightMagenta,
    LightCyan,
    White,
    Rgb(u8, u8, u8),
    Indexed(u8),
}

/// Emphasis bits of a [`TextStyle`].
pub const BOLD: u16 = 1;

pub const DIM: u16 = 2;

pub const ITALIC: u16 = 4;

pub const UNDERLINED: u16 = 8;

pub const REVERSED: u16 = 64;

/// The colors and emphasis of a piece of text. What is `None` is inherited;
/// `sub_modifier` takes away emphasis inherited from below.
#[derive(Clone, Copy, Debug, PartialEq, Eq, Structural)]
pub struct TextStyle {
    pub fg: Option<Color>,
    pub bg: Option<Color>,
    pub underline_color: Option<Color>,
    pub add_modifier: u16,
    pub sub_modifier: u16,
}

/// The accent color of the interface.
pub open spec fn accent_color() -> Color {
    Color::Rgb(105, 210, 190)
}

/// The color of ambient detail.
pub open spec fn dim_color() -> Color {
    Color::Rgb(112, 118, 128)
}

/// The background of panels and of code.
pub open spec fn panel_color() -> Color {
    Color::Rgb(31, 35, 41)
}

pub fn accent() -> (r: Color)
    ensures
        r == accent_color(),
{
    Color::Rgb(105, 210, 190)
}

pub fn dim() -> (r: Color)
    ensures
        r == dim_color(),
{
    Color::Rgb(112, 118, 128)
}

pub fn panel() -> (r: Color)
    ensures
        r == panel_color(),
{
    Color::Rgb(31, 35, 41)
}

/// The first of two colors that is given.
pub open spec fn color_or(a: Option<Color>, b: Option<Color>) -> Option<Color> {
    match a {
        Some(c) => Some(c),
        None => b,
    }
}

fn first_color(a: Option<Color>, b: Option<Color>) -> (r: Option<Color>)
    ensures
        r == color_or(a, b),
{
    match a {
        Some(c) => Some(c),
        None => b,
    }
}

impl TextStyle {
    /// The style that changes nothing.
    pub open spec fn bare() -> TextStyle {
        TextStyle {
            fg: None,
            bg: None,
            underline_color: None,
            add_modifier: 0,
            sub_modifier: 0,
        }
    }

    /// Foreground `color` and nothing else.
    pub open spec fn ink(color: Color) -> TextStyle {
        TextStyle { fg: Some(color), ..TextStyle::bare() }
    }

    /// The style with the emphasis `bits` added.
    pub open spec fn with(self, bits: u16) -> TextStyle {
        TextStyle {
            add_modifier: self.add_modifier | bits,
            sub_modifier: self.sub_modifier & !bits,
            ..self
        }
    }

    /// The style `over` laid on this one.
    pub open spec fn under(self, over: TextStyle) -> TextStyle {
        TextStyle {
            fg: color_or(over.fg, self.fg),
            bg: color_or(over.bg, self.bg),
            underline_color: color_or(over.underline_color, self.underline_color),
            add_modifier: (self.add_modifier & !over.sub_modifier) | over.add_modifier,
            sub_modifier: (self.sub_modifier & !over.add_modifier) | over.sub_modifier,
        }
    }

    pub fn plain() -> (r: TextStyle)
        ensures
            r == TextStyle::bare(),
    {
        TextStyle { fg: None, bg: None, underline_color: None, add_modifier: 0, sub_modifier: 0 }
    }

    pub fn fg(color: Color) -> (r: TextStyle)
        ensures
            r == TextStyle::ink(color),
    {
        let mut r = TextStyle::plain();
        r.fg = Some(color);
        r
    }

    pub fn add_modifier(self, bits: u16) -> (r: TextStyle)
        ensures
            r == self.with(bits),
    {
        TextStyle {
            fg: self.fg,
            bg: self.bg,
            underline_color: self.underline_color,
            add_modifier: self.add_modifier | bits,
            sub_modifier: self.sub_modifier & !bits,
        }
    }

    pub fn patch(self, over: TextStyle) -> (r: TextStyle)
        ensures
            r == self.under(over),
    {
        TextStyle {
            fg: first_color(over.fg, self.fg),
            bg: first_color(over.bg, self.bg),
            underline_color: first_color(over.underline_color, self.underline_color),
            add_modifier: (self.add_modifier & !over.sub_modifier) | over.add_modifier,
            sub_modifier: (self.sub_modifier & !over.add_modifier) | over.sub_modifier,
        }
    }
}

/// A piece of text in one style.
#[derive(Clone, Debug, PartialEq, Eq)]
pub struct Span {
    pub content: String,
    pub style: TextStyle,
}

/// The value of a [`Span`].
pub struct Ink {
    pub text: Seq<char>,
    pub style: TextStyle,
}

impl View for Span {
    type V = Ink;

    open spec fn view(&self) -> Ink {
        Ink { text: self.content@, style: self.style }
    }
}

/// The values of a list of spans.
pub open spec fn inks(v: Seq<Span>) -> Seq<Ink> {
    v.map_values(|s: Span| s@)
}

/// A row of styled text.
#[derive(Clone, Debug, PartialEq, Eq)]
pub struct Line {
    pub style: TextStyle,
    pub spans: Vec<Span>,
}

/// The value of a [`Line`].
pub struct Strip {
    pub style: TextStyle,
    pub spans: Seq<Ink>,
}

impl View for Line {
    type V = Strip;

    open spec fn view(&self) -> Strip {
        Strip { style: self.style, spans: inks(self.spans@) }
    }
}

/// The values of a list of lines.
pub open spec fn strips(v: Seq<Line>) -> Seq<Strip> {
    v.map_values(|l: Line| l@)
}

/// The characters of the first `n` spans.
pub open spec fn ink_text(spans: Seq<Ink>, n: int) -> Seq<char>
    decreases n,
{
    if n <= 0 {
        Seq::empty()
    } else {
        ink_text(spans, n - 1) + spans[n - 1].text
    }
}

/// Cells the first `n` spans take.
pub open spec fn ink_width(spans: Seq<Ink>, n: int) -> nat
    decreases n,
{
    if n <= 0 {
        0
    } else {
        cells::sat_add(ink_width(spans, n - 1), cells::text_width(spans[n - 1].text))
    }
}

impl Strip {
    /// An empty row.
    pub open spec fn blank() -> Strip {
        Strip { style: TextStyle::bare(), spans: Seq::empty() }
    }

    /// A row of the given spans.
    pub open spec fn of(spans: Seq<Ink>) -> Strip {
        Strip { style: TextStyle::bare(), spans }
    }

    /// The characters of the row.
    pub open spec fn text(self) -> Seq<char> {
        ink_text(self.spans, self.spans.len() as int)
    }

    /// Cells the row takes.
    pub open spec fn width(self) -> nat {
        ink_width(self.spans, self.spans.len() as int)
    }
}

impl Span {
    pub fn styled(content: String, style: TextStyle) -> (r: Span)
        ensures
            r@ == (Ink { text: content@, style }),
    {
        Span { content, style }
    }

    pub fn raw(content: String) -> (r: Span)
        ensures
            r@ == (Ink { text: content@, style: TextStyle::bare() }),
    {
        Span { content, style: TextStyle::plain() }
    }

    pub fn copy(&self) -> (r: Span)
        ensures
            r@ == self@,
    {
        Span { content: self.content.clone(), style: self.style }
    }
}

/// Appends copies of `spans[from..]` to `to`.
pub fn extend_spans(to: &mut Vec<Span>, spans: &Vec<Span>)
    ensures
        inks(final(to)@) == inks(old(to)@) + inks(spans@),
{
    let mut i: usize = 0;
    proof {
        assert(inks(spans@).take(0) =~= Seq::empty());
        assert(inks(to@) =~= inks(old(to)@) + inks(spans@).take(0));
    }
    while i < spans.len()
        invariant
            i <= spans@.len(),
            inks(to@) == inks(old(to)@) + inks(spans@).take(i as int),
        decreases spans@.len() - i,
    {
        let ghost before = to@;
        to.push(spans[i].copy());
        proof {
            assert(inks(to@) =~= inks(before).push(spans@[i as int]@));
            assert(inks(spans@).take(i + 1) =~= inks(spans@).take(i as int).push(
                spans@[i as int]@,
            ));
            assert(inks(to@) =~= inks(old(to)@) + inks(spans@).take(i + 1));
        }
        i += 1;
    }
    proof {
        assert(inks(spans@).take(spans@.len() as int) =~= inks(spans@));
    }
}

impl Line {
    pub fn blank() -> (r: Line)
        ensures
            r@ == Strip::blank(),
    {
        let r = Line { style: TextStyle::plain(), spans: Vec::new() };
        proof {
            assert(inks(r.spans@) =~= Seq::empty());
        }
        r
    }

    pub fn from_spans(spans: Vec<Span>) -> (r: Line)
        ensures
            r@ == Strip::of(inks(spans@)),
    {
        Line { style: TextStyle::plain(), spans }
    }

    pub fn copy(&self) -> (r: Line)
        ensures
            r@ == self@,
    {
        let mut spans: Vec<Span> = Vec::new();
        extend_spans(&mut spans, &self.spans);
        proof {
            assert(inks(spans@) =~= inks(self.spans@));
        }
        Line { style: self.style, spans }
    }

    /// The characters of the row, without styles.
    pub fn plain_text(&self) -> (r: String)
        ensures
            r@ == self@.text(),
    {
        let mut r = String::new();
        let mut i: usize = 0;
        proof {
            assert(inks(self.spans@).len() == self.spans@.len());
        }
        while i < self.spans.len()
            invariant
                i <= self.spans@.len(),
                r@ == ink_text(inks(self.spans@), i as int),
            decreases self.spans@.len() - i,
        {
            proof {
                assert(inks(self.spans@)[i as int] == self.spans@[i as int]@);
            }
            r.append(self.spans[i].content.as_str());
            i += 1;
        }
        r
    }

    /// Cells the row takes.
    pub fn width(&self) -> (r: usize)
        ensures
            r == self@.width(),
    {
        let mut r: usize = 0;
        let mut i: usize = 0;
        proof {
            assert(inks(self.spans@).len() == self.spans@.len());
        }
        while i < self.spans.len()
            invariant
                i <= self.spans@.len(),
                r == ink_width(inks(self.spans@), i as int),
            decreases self.spans@.len() - i,
        {
            proof {
                assert(inks(self.spans@)[i as int] == self.spans@[i as int]@);
            }
            r = r.saturating_add(cells::width_of(self.spans[i].content.as_str()));
            i += 1;
        }
        r
    }
}

/// Adds the span `ink`, joined to the last one when they share a style.
pub open spec fn put(spans: Seq<Ink>, ink: Ink) -> Seq<Ink> {
    if spans.len() > 0 && spans.last().style == ink.style {
        spans.drop_last().push(Ink { text: spans.last().text + ink.text, style: ink.style })
    } else {
        spans.push(ink)
    }
}

/// The spans of the clusters `items[lo..hi]`; adjacent ones in one style join.
pub open spec fn coalesced(items: Seq<Ink>, lo: int, hi: int) -> Seq<Ink>
    decreases hi - lo,
{
    if hi <= lo {
        Seq::empty()
    } else {
        put(coalesced(items, lo, hi - 1), items[hi - 1])
    }
}

/// Rebuilds styled spans from the clusters `items[lo..hi]`, joining adjacent
/// ones that share a style.
pub fn styled_graphemes(items: &Vec<Span>, lo: usize, hi: usize) -> (r: Vec<Span>)
    requires
        lo <= hi <= items@.len(),
    ensures
        inks(r@) == coalesced(inks(items@), lo as int, hi as int),
{
    let mut r: Vec<Span> = Vec::new();
    let mut i: usize = lo;
    proof {
        assert(inks(r@) =~= Seq::empty());
    }
    while i < hi
        invariant
            lo <= i <= hi <= items@.len(),
            inks(r@) == coalesced(inks(items@), lo as int, i as int),
        decreases hi - i,
    {
        let ghost before = r@;
        let ghost ink = items@[i as int]@;
        let n: usize = r.len();
        proof {
            assert(inks(items@)[i as int] == ink);
            assert(inks(before).len() == before.len());
            if n > 0 {
                assert(inks(before)[n - 1] == before[n - 1]@);
            }
        }
        if n > 0 && r[n - 1].style == items[i].style {
            r[n - 1].content.append(items[i].content.as_str());
            proof {
                assert(inks(r@) =~= put(inks(before), ink));
            }
        } else {
            r.push(items[i].copy());
            proof {
                assert(inks(r@) =~= put(inks(before), ink));
            }
        }
        i += 1;
    }
    r
}

/// The columns of row `row` that a selection covers.
pub open spec fn covered(start: CellPos, end: CellPos, row: int) -> (int, int) {
    (
        if row == start.row {
            start.col as int
        } else {
            0
        },
        if row == end.row {
            end.col as int
        } else {
            usize::MAX as int
        },
    )
}

/// Whether cluster `i` overlaps the columns `from..=to`, when the first
/// cluster begins at column `at`.
pub open spec fn picked(parts: Seq<Seq<char>>, at: nat, i: int, from: int, to: int) -> bool {
    cells::cell_offset(parts, at, i) <= to && cells::cell_offset(parts, at, i + 1) > from
}

/// The style of selected text.
pub open spec fn shown(style: TextStyle, selected: bool) -> TextStyle {
    if selected {
        style.with(REVERSED)
    } else {
        style
    }
}

/// The runs of equally selected clusters among the first `n` of a span.
pub open spec fn runs(
    parts: Seq<Seq<char>>,
    at: nat,
    n: int,
    from: int,
    to: int,
    style: TextStyle,
) -> Seq<Ink>
    decreases n,
{
    if n <= 0 {
        Seq::empty()
    } else {
        let before = runs(parts, at, n - 1, from, to, style);
        let now = picked(parts, at, n - 1, from, to);
        if n > 1 && picked(parts, at, n - 2, from, to) == now {
            before.drop_last().push(
                Ink { text: before.last().text + parts[n - 1], ..before.last() },
            )
        } else {
            before.push(Ink { text: parts[n - 1], style: shown(style, now) })
        }
    }
}

/// Column at which span `n` begins.
pub open spec fn span_start(spans: Seq<Ink>, n: int) -> nat
    decreases n,
{
    if n <= 0 {
        0
    } else {
        let parts = cells::clusters(spans[n - 1].text);
        cells::cell_offset(parts, span_start(spans, n - 1), parts.len() as int)
    }
}

/// The first `n` spans split into selected and unselected runs.
pub open spec fn split_runs(spans: Seq<Ink>, n: int, from: int, to: int) -> Seq<Ink>
    decreases n,
{
    if n <= 0 {
        Seq::empty()
    } else {
        let parts = cells::clusters(spans[n - 1].text);
        split_runs(spans, n - 1, from, to) + runs(
            parts,
            span_start(spans, n - 1),
            parts.len() as int,
            from,
            to,
            spans[n - 1].style,
        )
    }
}

/// The row as shown while `selection` covers cells of the viewport.
pub open spec fn selected_strip(
    line: Strip,
    row: int,
    selection: Option<(CellPos, CellPos)>,
) -> Strip {
    match selection {
        None => line,
        Some((start, end)) => if row < start.row || row > end.row {
            line
        } else {
            let (from, to) = covered(start, end, row);
            Strip { spans: split_runs(line.spans, line.spans.len() as int, from, to), ..line }
        },
    }
}

proof fn lemma_runs_nonempty(
    parts: Seq<Seq<char>>,
    at: nat,
    n: int,
    from: int,
    to: int,
    style: TextStyle,
)
    requires
        n >= 1,
    ensures
        runs(parts, at, n, from, to, style).len() > 0,
    decreases n,
{
    if n > 1 {
        lemma_runs_nonempty(parts, at, n - 1, from, to, style);
    }
}

/// Splits one span into selected and unselected runs and returns the column
/// behind it.
fn push_runs(out: &mut Vec<Span>, span: &Span, cell: usize, from: usize, to: usize) -> (r: usize)
    ensures
        ({
            let parts = cells::clusters(span.content@);
            &&& inks(final(out)@) == inks(old(out)@) + runs(
                parts,
                cell as nat,
                parts.len() as int,
                from as int,
                to as int,
                span.style,
            )
            &&& r == cells::cell_offset(parts, cell as nat, parts.len() as int)
        }),
{
    let pieces = grapheme_cells(span.content.as_str(), cell);
    let ghost parts = cells::clusters(span.content@);
    let mut end: usize = cell;
    let mut last: bool = false;
    let mut i: usize = 0;
    proof {
        assert(inks(out@) =~= inks(old(out)@) + runs(
            parts,
            cell as nat,
            0,
            from as int,
            to as int,
            span.style,
        ));
    }
    while i < pieces.len()
        invariant
            i <= pieces@.len(),
            pieces@.len() == parts.len(),
            parts == cells::clusters(span.content@),
            forall|k: int| 0 <= k < pieces@.len() ==> (#[trigger] pieces@[k]).text@ == parts[k]
                && pieces@[k].start == cells::cell_offset(parts, cell as nat, k) && pieces@[k].end
                == cells::cell_offset(parts, cell as nat, k + 1),
            end == cells::cell_offset(parts, cell as nat, i as int),
            i > 0 ==> last == picked(parts, cell as nat, i - 1, from as int, to as int),
            inks(out@) == inks(old(out)@) + runs(
                parts,
                cell as nat,
                i as int,
                from as int,
                to as int,
                span.style,
            ),
        decreases pieces@.len() - i,
    {
        let now = pieces[i].start <= to && pieces[i].end > from;
        let ghost before = out@;
        let ghost done = runs(parts, cell as nat, i as int, from as int, to as int, span.style);
        let n: usize = out.len();
        proof {
            assert(now == picked(parts, cell as nat, i as int, from as int, to as int));
            assert(inks(before).len() == before.len());
            if i > 0 {
                lemma_runs_nonempty(
                    parts,
                    cell as nat,
                    i as int,
                    from as int,
                    to as int,
                    span.style,
                );
                assert(inks(before).last() == done.last());
                assert(inks(before)[n - 1] == before[n - 1]@);
            }
        }
        let ghost next = runs(
            parts,
            cell as nat,
            i + 1,
            from as int,
            to as int,
            span.style,
        );
        if i > 0 && last == now {
            out[n - 1].content.append(pieces[i].text.as_str());
            proof {
                let joined = Ink { text: done.last().text + parts[i as int], ..done.last() };
                assert(next == done.drop_last().push(joined));
                assert(out@[n - 1]@ == joined);
                assert(inks(out@) =~= inks(before).update(n - 1, joined));
                assert(inks(out@) =~= inks(old(out)@) + next);
            }
        } else {
            let style = if now {
                span.style.add_modifier(REVERSED)
            } else {
                span.style
            };
            let run = Span::styled(pieces[i].text.clone(), style);
            let ghost ink = run@;
            out.push(run);
            proof {
                assert(next == done.push(ink));
                assert(inks(out@) =~= inks(before).push(ink));
                assert(inks(out@) =~= inks(old(out)@) + next);
            }
        }
        last = now;
        end = pieces[i].end;
        i += 1;
    }
    end
}

/// Reverses the cells of `line` that a drag selection covers. `row` is the
/// line's row in the viewport; `selection` is in reading order.
pub fn apply_selection_style(
    line: &Line,
    row: usize,
    selection: Option<(CellPos, CellPos)>,
) -> (r: Line)
    ensures
        r@ == selected_strip(line@, row as int, selection),
{
    match selection {
        None => line.copy(),
        Some((start, end)) => {
            if row < start.row || row > end.row {
                return line.copy();
            }
            let from: usize = if row == start.row {
                start.col
            } else {
                0
            };
            let to: usize = if row == end.row {
                end.col
            } else {
                usize::MAX
            };
            let mut spans: Vec<Span> = Vec::new();
            let mut cell: usize = 0;
            let mut i: usize = 0;
            proof {
                assert(inks(line.spans@).len() == line.spans@.len());
                assert(inks(spans@) =~= Seq::empty());
            }
            while i < line.spans.len()
                invariant
                    i <= line.spans@.len(),
                    inks(spans@) == split_runs(
                        inks(line.spans@),
                        i as int,
                        from as int,
                        to as int,
                    ),
                    cell == span_start(inks(line.spans@), i as int),
                decreases line.spans@.len() - i,
            {
                proof {
                    assert(inks(line.spans@)[i as int] == line.spans@[i as int]@);
                }
                cell = push_runs(&mut spans, &line.spans[i], cell, from, to);
                i += 1;
            }
            Line { style: line.style, spans }
        },
    }
}

/// The characters of the runs among the first `n` clusters.
proof fn lemma_runs_text(
    parts: Seq<Seq<char>>,
    at: nat,
    n: int,
    from: int,
    to: int,
    style: TextStyle,
)
    requires
        0 <= n <= parts.len(),
    ensures
        ({
            let r = runs(parts, at, n, from, to, style);
            ink_text(r, r.len() as int) == cells::concat_all(parts.take(n))
        }),
    decreases n,
{
    let r = runs(parts, at, n, from, to, style);
    if n > 0 {
        lemma_runs_text(parts, at, n - 1, from, to, style);
        let before = runs(parts, at, n - 1, from, to, style);
        assert(parts.take(n).drop_last() =~= parts.take(n - 1));
        if n > 1 {
            lemma_runs_nonempty(parts, at, n - 1, from, to, style);
        }
        lemma_ink_text_prefix(before, r, r.len() - 1);
        if n > 1 && picked(parts, at, n - 2, from, to) == picked(parts, at, n - 1, from, to) {
            assert(r.len() == before.len());
            assert(ink_text(before, before.len() as int) == ink_text(before, before.len() - 1)
                + before.last().text);
            assert((ink_text(before, before.len() - 1) + before.last().text) + parts[n - 1]
                =~= ink_text(before, before.len() - 1) + (before.last().text + parts[n - 1]));
        }
    } else {
        assert(parts.take(0) =~= Seq::empty());
    }
}

pub proof fn lemma_ink_text_prefix(a: Seq<Ink>, b: Seq<Ink>, n: int)
    requires
        0 <= n <= a.len(),
        n <= b.len(),
        forall|i: int| 0 <= i < n ==> a[i] == b[i],
    ensures
        ink_text(a, n) == ink_text(b, n),
    decreases n,
{
    if n > 0 {
        lemma_ink_text_prefix(a, b, n - 1);
    }
}

pub proof fn lemma_ink_text_add(a: Seq<Ink>, b: Seq<Ink>, n: int)
    requires
        0 <= n <= b.len(),
    ensures
        ink_text(a + b, a.len() + n) == ink_text(a, a.len() as int) + ink_text(b, n),
    decreases n,
{
    if n > 0 {
        lemma_ink_text_add(a, b, n - 1);
        assert((a + b)[a.len() + n - 1] == b[n - 1]);
        assert((ink_text(a, a.len() as int) + ink_text(b, n - 1)) + b[n - 1].text =~= ink_text(
            a,
            a.len() as int,
        ) + (ink_text(b, n - 1) + b[n - 1].text));
    } else {
        lemma_ink_text_prefix(a + b, a, a.len() as int);
        assert(ink_text(a, a.len() as int) + ink_text(b, 0) =~= ink_text(a, a.len() as int));
    }
}

/// Highlighting a selection never changes the characters of a row: it only
/// restyles them.
pub proof fn highlighting_keeps_the_text(
    line: Strip,
    row: int,
    selection: Option<(CellPos, CellPos)>,
)
    requires
        forall|i: int| 0 <= i < line.spans.len() ==> cells::concat_all(
            cells::clusters((#[trigger] line.spans[i]).text),
        ) == line.spans[i].text,
    ensures
        selected_strip(line, row, selection).text() == line.text(),
{
    if let Some((start, end)) = selection {
        let (from, to) = covered(start, end, row);
        lemma_split_text(line.spans, line.spans.len() as int, from, to);
    }
}

proof fn lemma_split_text(spans: Seq<Ink>, n: int, from: int, to: int)
    requires
        0 <= n <= spans.len(),
        forall|i: int| 0 <= i < spans.len() ==> cells::concat_all(
            cells::clusters((#[trigger] spans[i]).text),
        ) == spans[i].text,
    ensures
        ({
            let r = split_runs(spans, n, from, to);
            ink_text(r, r.len() as int) == ink_text(spans, n)
        }),
    decreases n,
{
    if n > 0 {
        lemma_split_text(spans, n - 1, from, to);
        let parts = cells::clusters(spans[n - 1].text);
        let before = split_runs(spans, n - 1, from, to);
        let more = runs(
            parts,
            span_start(spans, n - 1),
            parts.len() as int,
            from,
            to,
            spans[n - 1].style,
        );
        lemma_runs_text(
            parts,
            span_start(spans, n - 1),
            parts.len() as int,
            from,
            to,
            spans[n - 1].style,
        );
        assert(parts.take(parts.len() as int) =~= parts);
        lemma_ink_text_add(before, more, more.len() as int);
    }
}

} // verus!
