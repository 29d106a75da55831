//! What the rows of rendered Markdown show of its lines and tables.

use crate::cells;
use crate::markdown;
use crate::markdown::{Mark, Shown, StructuralPrefix};
use crate::styling;
use crate::styling::{Ink, Strip, TextStyle};
use crate::table;
use crate::text;
use crate::text_laws;
use crate::text_wrap;
use vstd::prelude::*;

verus! {

/// The characters of a list of spans.
pub open spec fn spelled(spans: Seq<Ink>) -> Seq<char> {
    styling::ink_text(spans, spans.len() as int)
}

pub proof fn lemma_spelled_add(a: Seq<Ink>, b: Seq<Ink>)
    ensures
        spelled(a + b) == spelled(a) + spelled(b),
{
    styling::lemma_ink_text_add(a, b, b.len() as int);
}

proof fn lemma_spelled_one(ink: Ink)
    ensures
        spelled(seq![ink]) == ink.text,
{
    assert(styling::ink_text(seq![ink], 0) =~= Seq::empty());
    assert(Seq::<char>::empty() + ink.text =~= ink.text);
}

proof fn lemma_spelled_put(spans: Seq<Ink>, ink: Ink)
    ensures
        spelled(styling::put(spans, ink)) == spelled(spans) + ink.text,
{
    if spans.len() > 0 && spans.last().style == ink.style {
        let joined = Ink { text: spans.last().text + ink.text, style: ink.style };
        lemma_spelled_add(spans.drop_last(), seq![joined]);
        lemma_spelled_add(spans.drop_last(), seq![spans.last()]);
        lemma_spelled_one(joined);
        lemma_spelled_one(spans.last());
        assert(spans.drop_last().push(joined) =~= spans.drop_last() + seq![joined]);
        assert(spans =~= spans.drop_last() + seq![spans.last()]);
        assert(spelled(spans.drop_last()) + (spans.last().text + ink.text) =~= spelled(
            spans.drop_last(),
        ) + spans.last().text + ink.text);
    } else {
        lemma_spelled_add(spans, seq![ink]);
        lemma_spelled_one(ink);
        assert(spans.push(ink) =~= spans + seq![ink]);
    }
}

/// Joining neighbours of one style changes no character.
pub proof fn joining_styles_keeps_the_text(items: Seq<Ink>, lo: int, hi: int)
    requires
        0 <= lo <= hi <= items.len(),
    ensures
        spelled(styling::coalesced(items, lo, hi)) == spelled(items.subrange(lo, hi)),
    decreases hi - lo,
{
    if lo < hi {
        joining_styles_keeps_the_text(items, lo, hi - 1);
        lemma_spelled_put(styling::coalesced(items, lo, hi - 1), items[hi - 1]);
        assert(items.subrange(lo, hi) =~= items.subrange(lo, hi - 1) + seq![items[hi - 1]]);
        lemma_spelled_add(items.subrange(lo, hi - 1), seq![items[hi - 1]]);
        lemma_spelled_one(items[hi - 1]);
    } else {
        assert(items.subrange(lo, hi) =~= Seq::empty());
    }
}

/// Whether some span shows `ink`: its text within a span of its style.
pub open spec fn shows_ink(spans: Seq<Ink>, ink: Ink) -> bool {
    exists|i: int|
        0 <= i < spans.len() && (#[trigger] spans[i]).style == ink.style && text::contains(
            spans[i].text,
            ink.text,
        )
}

proof fn lemma_put_shows(spans: Seq<Ink>, ink: Ink, seen: Ink)
    ensures
        shows_ink(styling::put(spans, ink), ink),
        shows_ink(spans, seen) ==> shows_ink(styling::put(spans, ink), seen),
{
    let after = styling::put(spans, ink);
    let last = after.len() - 1;
    if spans.len() > 0 && spans.last().style == ink.style {
        text_laws::containing_is_having_inside(
            spans.last().text,
            ink.text,
            Seq::<char>::empty(),
        );
        assert(spans.last().text + ink.text + Seq::<char>::empty() =~= spans.last().text
            + ink.text);
    } else {
        text_laws::containing_is_having_inside(
            Seq::<char>::empty(),
            ink.text,
            Seq::<char>::empty(),
        );
        assert(Seq::<char>::empty() + ink.text + Seq::<char>::empty() =~= ink.text);
    }
    assert(after[last].style == ink.style && text::contains(after[last].text, ink.text));
    if shows_ink(spans, seen) {
        let i = choose|i: int|
            0 <= i < spans.len() && (#[trigger] spans[i]).style == seen.style && text::contains(
                spans[i].text,
                seen.text,
            );
        if i < spans.len() - 1 || !(spans.len() > 0 && spans.last().style == ink.style) {
            assert(after[i] == spans[i]);
        } else {
            let (a, b) = text_laws::contained_texts_have_surroundings(spans[i].text, seen.text);
            text_laws::containing_is_having_inside(a, seen.text, b + ink.text);
            assert(a + seen.text + (b + ink.text) =~= spans[i].text + ink.text);
            assert(after[last].style == seen.style);
            assert(text::contains(after[last].text, seen.text));
        }
    }
}

/// Joining neighbours of one style keeps every cluster in its style.
pub proof fn joining_keeps_every_cluster(items: Seq<Ink>, lo: int, hi: int, x: int)
    requires
        0 <= lo <= x < hi <= items.len(),
    ensures
        shows_ink(styling::coalesced(items, lo, hi), items[x]),
    decreases hi - lo,
{
    lemma_put_shows(styling::coalesced(items, lo, hi - 1), items[hi - 1], items[x]);
    if x < hi - 1 {
        joining_keeps_every_cluster(items, lo, hi - 1, x);
    }
}

pub proof fn lemma_more_shows(a: Seq<Ink>, b: Seq<Ink>, ink: Ink)
    requires
        shows_ink(a, ink) || shows_ink(b, ink),
    ensures
        shows_ink(a + b, ink),
{
    if shows_ink(a, ink) {
        let i = choose|i: int|
            0 <= i < a.len() && (#[trigger] a[i]).style == ink.style && text::contains(
                a[i].text,
                ink.text,
            );
        assert((a + b)[i] == a[i]);
    } else {
        let i = choose|i: int|
            0 <= i < b.len() && (#[trigger] b[i]).style == ink.style && text::contains(
                b[i].text,
                ink.text,
            );
        assert((a + b)[a.len() + i] == b[i]);
    }
}

/// Nothing that can be seen is lost when a line is wrapped: each of its
/// clusters is on some row, in its style, unless it is whitespace at which
/// the line may break or takes no cells. What precedes the content of an item
/// is on the first row.
pub proof fn wrapped_lines_show_every_word(
    line: Strip,
    width: int,
    base: TextStyle,
    indent: int,
    x: int,
)
    requires
        width > 0,
        line.text().len() > 0,
        markdown::wrapped_line(line, width, base, indent) is Some,
        cells::clusters(line.text()).len() <= usize::MAX,
        0 <= x < cells::clusters(line.text()).len(),
        ({
            let item = markdown::styled_items(markdown::cluster_inks(line, base))[x];
            !item.breakable && item.width > 0
        }),
    ensures
        ({
            let rows = markdown::wrapped_line(line, width, base, indent)->0;
            exists|k: int|
                0 <= k < rows.len() && shows_ink(
                    (#[trigger] rows[k]).line.spans,
                    markdown::cluster_inks(line, base)[x],
                )
        }),
{
    let items = markdown::cluster_inks(line, base);
    let prefix = markdown::attached_prefix(line, width);
    let parts = markdown::prefix_parts(prefix);
    let content = items.skip(parts);
    let measured = markdown::styled_items(content);
    let rows = markdown::content_rows(items, width, indent, prefix);
    let shown = markdown::shown_rows(items, prefix, width, indent);
    let room = markdown::content_cells(width, indent, prefix);
    let all = markdown::wrapped_line(line, width, base, indent)->0;
    assert(all == shown);
    assert(shown.len() == rows.len());
    if x < parts {
        text_wrap::wrapping_yields_a_row(measured, room);
        joining_keeps_every_cluster(items, 0, parts, x);
        let lead = markdown::row_lead(items, prefix, 0);
        lemma_more_shows(markdown::gap(indent), lead, items[x]);
        lemma_more_shows(
            markdown::gap(indent) + lead,
            markdown::gap(rows[0].indent as int),
            items[x],
        );
        lemma_more_shows(
            markdown::gap(indent) + lead + markdown::gap(rows[0].indent as int),
            styling::coalesced(content, rows[0].start as int, rows[0].end as int),
            items[x],
        );
        assert(shown[0].line.spans == markdown::gap(indent) + lead + markdown::gap(
            rows[0].indent as int,
        ) + styling::coalesced(content, rows[0].start as int, rows[0].end as int));
        assert(shows_ink(all[0].line.spans, items[x]));
    } else {
        let y = x - parts;
        assert(content[y] == items[x]);
        assert(measured[y] == markdown::styled_items(items)[x]);
        text_wrap::visible_word_items_are_displayed(measured, room, y);
        let k = choose|k: int| 0 <= k < rows.len() && (#[trigger] rows[k]).start <= y < rows[k].end;
        text_wrap::rows_cover_items(measured, room, k);
        joining_keeps_every_cluster(content, rows[k].start as int, rows[k].end as int, y);
        let before = markdown::gap(indent) + markdown::row_lead(items, prefix, k) + markdown::gap(
            rows[k].indent as int,
        );
        lemma_more_shows(
            before,
            styling::coalesced(content, rows[k].start as int, rows[k].end as int),
            items[x],
        );
        assert(shown[k].line.spans == before + styling::coalesced(
            content,
            rows[k].start as int,
            rows[k].end as int,
        ));
        assert(shows_ink(all[k].line.spans, items[x]));
    }
}

proof fn lemma_gap(n: int)
    ensures
        spelled(markdown::gap(n)) == text::repeated(
            ' ',
            if n > 0 {
                n as nat
            } else {
                0
            },
        ),
{
    if n > 0 {
        lemma_spelled_one(Ink { text: text::repeated(' ', n as nat), style: TextStyle::bare() });
    } else {
        assert(text::repeated(' ', 0) =~= Seq::empty());
    }
}

/// Rows add nothing to a line but spaces: each row is the indent, what
/// precedes the content of an item (on its later rows, as much space unless
/// it is a quotation), the indent of a split word, and consecutive clusters.
pub proof fn rows_add_only_spaces(
    items: Seq<Ink>,
    prefix: Option<StructuralPrefix>,
    width: int,
    indent: int,
    k: int,
)
    requires
        markdown::prefix_parts(prefix) <= items.len() <= usize::MAX,
        0 <= indent,
        0 <= k < markdown::content_rows(items, width, indent, prefix).len(),
    ensures
        ({
            let row = markdown::content_rows(items, width, indent, prefix)[k];
            let parts = markdown::prefix_parts(prefix);
            let shown = markdown::shown_rows(items, prefix, width, indent)[k].line.text();
            let lead = match prefix {
                None => Seq::empty(),
                Some(p) => if k == 0 || p is Repeat {
                    spelled(items.subrange(0, parts))
                } else if parts > 0 {
                    text::repeated(' ', p.cells() as nat)
                } else {
                    Seq::empty()
                },
            };
            shown == text::repeated(' ', indent as nat) + lead + text::repeated(
                ' ',
                row.indent as nat,
            ) + spelled(items.subrange(parts + row.start, parts + row.end))
        }),
{
    let row = markdown::content_rows(items, width, indent, prefix)[k];
    let parts = markdown::prefix_parts(prefix);
    let content = items.skip(parts);
    text_wrap::rows_cover_items(
        markdown::styled_items(content),
        markdown::content_cells(width, indent, prefix),
        k,
    );
    let lead = markdown::row_lead(items, prefix, k);
    let tail = styling::coalesced(content, row.start as int, row.end as int);
    lemma_gap(indent);
    lemma_gap(row.indent as int);
    joining_styles_keeps_the_text(content, row.start as int, row.end as int);
    assert(content.subrange(row.start as int, row.end as int) =~= items.subrange(
        parts + row.start,
        parts + row.end,
    ));
    if let Some(p) = prefix {
        if k == 0 || p is Repeat {
            joining_styles_keeps_the_text(items, 0, parts);
        } else if parts > 0 {
            lemma_gap(p.cells() as int);
            assert(text::repeated(' ', 0) =~= Seq::empty());
        }
    }
    lemma_spelled_add(markdown::gap(indent), lead);
    lemma_spelled_add(markdown::gap(indent) + lead, markdown::gap(row.indent as int));
    lemma_spelled_add(
        markdown::gap(indent) + lead + markdown::gap(row.indent as int),
        tail,
    );
}

proof fn lemma_char_style(spans: Seq<Ink>, n: int, under: TextStyle, j: int, at: int)
    requires
        0 <= j < n <= spans.len(),
        styling::ink_text(spans, j).len() <= at < styling::ink_text(spans, j + 1).len(),
    ensures
        markdown::char_styles(spans, n, under).len() == styling::ink_text(spans, n).len(),
        at < styling::ink_text(spans, n).len(),
        markdown::char_styles(spans, n, under)[at] == under.under(spans[j].style),
    decreases n,
{
    lemma_char_styles_len(spans, n, under);
    if j < n - 1 {
        lemma_char_style(spans, n - 1, under, j, at);
        lemma_char_styles_len(spans, n - 1, under);
    } else {
        lemma_char_styles_len(spans, n - 1, under);
    }
}

proof fn lemma_char_styles_len(spans: Seq<Ink>, n: int, under: TextStyle)
    requires
        0 <= n <= spans.len(),
    ensures
        markdown::char_styles(spans, n, under).len() == styling::ink_text(spans, n).len(),
    decreases n,
{
    if n > 0 {
        lemma_char_styles_len(spans, n - 1, under);
    }
}

/// A cluster has the style of the span in which it begins, laid on that of
/// the line and of what is below it.
pub proof fn clusters_keep_the_style_of_their_span(line: Strip, base: TextStyle, x: int, j: int)
    requires
        0 <= x < cells::clusters(line.text()).len(),
        0 <= j < line.spans.len(),
        styling::ink_text(line.spans, j).len() <= markdown::chars_before(
            cells::clusters(line.text()),
            x,
        ) < styling::ink_text(line.spans, j + 1).len(),
    ensures
        markdown::cluster_inks(line, base)[x].text == cells::clusters(line.text())[x],
        markdown::cluster_inks(line, base)[x].style == base.under(line.style).under(
            line.spans[j].style,
        ),
{
    lemma_char_style(
        line.spans,
        line.spans.len() as int,
        base.under(line.style),
        j,
        markdown::chars_before(cells::clusters(line.text()), x),
    );
}

/// A style laid on another wins where it says something, and emphasis adds up
/// unless it is taken away.
pub proof fn upper_styles_win(lower: TextStyle, upper: TextStyle)
    ensures
        upper.fg is Some ==> lower.under(upper).fg == upper.fg,
        upper.fg is None ==> lower.under(upper).fg == lower.fg,
        upper.bg is Some ==> lower.under(upper).bg == upper.bg,
        upper.bg is None ==> lower.under(upper).bg == lower.bg,
        upper.underline_color is Some ==> lower.under(upper).underline_color
            == upper.underline_color,
        upper.underline_color is None ==> lower.under(upper).underline_color
            == lower.underline_color,
        upper.sub_modifier == 0 ==> lower.under(upper).add_modifier == lower.add_modifier
            | upper.add_modifier,
        lower.under(upper).add_modifier & upper.add_modifier == upper.add_modifier,
{
    let a = lower.add_modifier;
    let b = upper.add_modifier;
    let c = upper.sub_modifier;
    assert(((a & !c) | b) & b == b) by (bit_vector);
    if c == 0 {
        assert(a & !0u16 == a) by (bit_vector);
    }
}

proof fn lemma_tallest(cells: Seq<Seq<Shown>>, n: int)
    requires
        0 <= n <= cells.len(),
    ensures
        forall|c: int| 0 <= c < n ==> (#[trigger] cells[c]).len() <= table::tallest(cells, n),
        n > 0 && table::tallest(cells, n) > 0 ==> exists|c: int|
            0 <= c < n && (#[trigger] cells[c]).len() == table::tallest(cells, n),
        table::tallest(cells, n) >= 0,
    decreases n,
{
    if n > 0 {
        lemma_tallest(cells, n - 1);
        if cells[n - 1].len() > table::tallest(cells, n - 1) {
            assert(cells[n - 1].len() == table::tallest(cells, n));
        }
    }
}

/// Whether `part` stands somewhere in `all`, as it is.
pub open spec fn holds_spans(all: Seq<Ink>, part: Seq<Ink>) -> bool {
    exists|o: int| spans_at(all, part, o)
}

pub open spec fn spans_at(all: Seq<Ink>, part: Seq<Ink>, o: int) -> bool {
    0 <= o && o + part.len() <= all.len() && all.subrange(o, (o + part.len()) as int) == part
}

proof fn lemma_holds_inside(a: Seq<Ink>, part: Seq<Ink>, b: Seq<Ink>)
    ensures
        holds_spans(a + part + b, part),
{
    let all = a + part + b;
    assert(all.subrange(a.len() as int, (a.len() + part.len()) as int) =~= part);
    assert(spans_at(all, part, a.len() as int));
}

proof fn lemma_holds_more(all: Seq<Ink>, part: Seq<Ink>, b: Seq<Ink>)
    requires
        holds_spans(all, part),
    ensures
        holds_spans(all + b, part),
{
    let o = choose|o: int| spans_at(all, part, o);
    assert((all + b).subrange(o, (o + part.len()) as int) =~= part);
    assert(spans_at(all + b, part, o));
}

proof fn lemma_joined_holds(
    cells: Seq<Seq<Shown>>,
    widths: Seq<usize>,
    border: TextStyle,
    row: int,
    n: int,
    c: int,
)
    requires
        0 <= c < n <= cells.len(),
        cells.len() == widths.len(),
        0 <= row < cells[c].len(),
    ensures
        holds_spans(table::joined_cells(cells, widths, border, row, n), cells[c][row].line.spans),
    decreases n,
{
    let bar = Ink { text: "│"@, style: border };
    let before = table::joined_cells(cells, widths, border, row, n - 1);
    let cell = table::cell_spans(cells[n - 1], widths[n - 1], row);
    let space = table::raw(" "@);
    let all = table::joined_cells(cells, widths, border, row, n);
    if c == n - 1 {
        let line = cells[c][row].line.spans;
        let tail = cell.skip(line.len() as int).push(space).push(bar);
        lemma_holds_inside(before.push(space), line, tail);
        assert(all =~= before.push(space) + line + tail);
    } else {
        lemma_joined_holds(cells, widths, border, row, n - 1, c);
        let tail = seq![space] + cell.push(space).push(bar);
        lemma_holds_more(before, cells[c][row].line.spans, tail);
        assert(all =~= before + tail);
    }
}

/// The wrapped cells of a table row, one per column.
proof fn lemma_wrapped_cells(parts: Seq<Seq<Ink>>, widths: Seq<usize>, base: TextStyle, n: int)
    requires
        0 <= n <= parts.len(),
        table::wrapped_cells(parts, widths, base, n) is Some,
    ensures
        ({
            let cells = table::wrapped_cells(parts, widths, base, n)->0;
            &&& cells.len() == n
            &&& forall|c: int|
                0 <= c < n ==> markdown::wrapped_line(
                    Strip::of(parts[c]),
                    widths[c] as int,
                    base,
                    0,
                ) == Some(#[trigger] cells[c])
        }),
    decreases n,
{
    if n > 0 {
        lemma_wrapped_cells(parts, widths, base, n - 1);
    }
}

/// A table row grows to as many display rows as its tallest cell needs, so
/// that every row of every wrapped cell is shown, side by side with those of
/// the other columns; and to no more.
pub proof fn table_rows_show_every_cell(
    line: Strip,
    widths: Seq<usize>,
    base: TextStyle,
    c: int,
    k: int,
)
    requires
        table::wrapped_row(line, widths, base) matches Some(Some(_)),
        0 <= c < widths.len(),
        ({
            let cell = table::read_cells(line, line.spans.len() as int).cells[c];
            let wrapped = markdown::wrapped_line(Strip::of(cell), widths[c] as int, base, 0);
            wrapped is Some ==> 0 <= k < wrapped->0.len()
        }),
    ensures
        ({
            let rows = table::wrapped_row(line, widths, base)->0->0;
            let cell = table::read_cells(line, line.spans.len() as int).cells[c];
            let wrapped = markdown::wrapped_line(Strip::of(cell), widths[c] as int, base, 0);
            &&& wrapped is Some
            &&& rows.len() >= wrapped->0.len()
            &&& holds_spans(rows[k].spans, wrapped->0[k].line.spans)
            &&& text::contains(rows[k].text(), wrapped->0[k].line.text())
        }),
{
    let parts = table::read_cells(line, line.spans.len() as int).cells;
    let cells = table::wrapped_cells(parts, widths, base, parts.len() as int)->0;
    lemma_wrapped_cells(parts, widths, base, parts.len() as int);
    lemma_tallest(cells, cells.len() as int);
    assert(cells[c].len() <= table::tallest(cells, cells.len() as int));
    let rows = table::wrapped_row(line, widths, base)->0->0;
    let border = table::row_border_style(line, base, 0);
    lemma_joined_holds(cells, widths, border, k, widths.len() as int, c);
    lemma_holding_contains(rows[k].spans, cells[c][k].line.spans);
}

/// A table row takes no more display rows than its tallest cell.
pub proof fn table_rows_are_as_tall_as_a_cell(line: Strip, widths: Seq<usize>, base: TextStyle)
    requires
        table::wrapped_row(line, widths, base) matches Some(Some(_)),
        widths.len() > 0,
    ensures
        ({
            let rows = table::wrapped_row(line, widths, base)->0->0;
            let parts = table::read_cells(line, line.spans.len() as int).cells;
            rows.len() == 0 || exists|c: int|
                0 <= c < parts.len() && markdown::wrapped_line(
                    Strip::of(#[trigger] parts[c]),
                    widths[c] as int,
                    base,
                    0,
                )->0.len() == rows.len()
        }),
{
    let parts = table::read_cells(line, line.spans.len() as int).cells;
    let cells = table::wrapped_cells(parts, widths, base, parts.len() as int)->0;
    lemma_wrapped_cells(parts, widths, base, parts.len() as int);
    lemma_tallest(cells, cells.len() as int);
    let rows = table::wrapped_row(line, widths, base)->0->0;
    if rows.len() > 0 {
        let c = choose|c: int|
            0 <= c < cells.len() && (#[trigger] cells[c]).len() == table::tallest(
                cells,
                cells.len() as int,
            );
        assert(markdown::wrapped_line(Strip::of(parts[c]), widths[c] as int, base, 0)->0
            == cells[c]);
    }
}

pub proof fn lemma_holding_contains(all: Seq<Ink>, part: Seq<Ink>)
    requires
        holds_spans(all, part),
    ensures
        text::contains(spelled(all), spelled(part)),
{
    let o = choose|o: int| spans_at(all, part, o);
    let a = all.take(o);
    let b = all.skip(o + part.len());
    assert(all =~= a + part + b);
    lemma_spelled_add(a, part);
    lemma_spelled_add(a + part, b);
    text_laws::containing_is_having_inside(spelled(a), spelled(part), spelled(b));
}

/// How many of the first `n` spans are borders.
pub open spec fn borders(line: Strip, n: int) -> int
    decreases n,
{
    if n <= 0 {
        0
    } else {
        borders(line, n - 1) + if line.spans[n - 1].text == "│"@ {
            1int
        } else {
            0
        }
    }
}

proof fn lemma_borders(line: Strip, m: int, n: int)
    requires
        m <= n,
    ensures
        0 <= borders(line, m) <= borders(line, n),
    decreases n - m, n,
{
    if m < n {
        lemma_borders(line, m, n - 1);
    } else if n > 0 {
        lemma_borders(line, n - 1, n - 1);
    }
}

/// Whether some span spells `s`, up to whitespace around it.
pub open spec fn has_piece(spans: Seq<Ink>, s: Seq<char>) -> bool {
    exists|i: int| 0 <= i < spans.len() && text::trim((#[trigger] spans[i]).text) == text::trim(s)
}

/// Reading a table row: as many cells as borders behind the first one, and
/// what stands between two borders is in the cell between them.
proof fn lemma_read_cells(line: Strip, n: int, x: int)
    requires
        0 <= n <= line.spans.len(),
        0 <= x,
        x < n ==> line.spans[x].text != "│"@ && borders(line, x) > 0 && !text::is_blank(
            line.spans[x].text,
        ),
    ensures
        ({
            let r = table::read_cells(line, n);
            let b = borders(line, x);
            &&& r.inside == (borders(line, n) > 0)
            &&& r.cells.len() == if borders(line, n) > 0 {
                borders(line, n) - 1
            } else {
                0
            }
            &&& x < n ==> if borders(line, n) == b {
                exists|i: int|
                    0 <= i < r.cell.len() && (#[trigger] r.cell[i]).text == line.spans[x].text
            } else {
                0 <= b - 1 < r.cells.len() && has_piece(r.cells[b - 1], line.spans[x].text)
            }
        }),
    decreases n,
{
    lemma_borders(line, 0, n);
    if n > 0 {
        lemma_borders(line, 0, n - 1);
        lemma_read_cells(line, n - 1, x);
        let before = table::read_cells(line, n - 1);
        let after = table::read_cells(line, n);
        let b = borders(line, x);
        if x < n {
            lemma_borders(line, x, n - 1);
        }
        if x < n - 1 {
            if borders(line, n - 1) == b {
                let i = choose|i: int|
                    0 <= i < before.cell.len() && (#[trigger] before.cell[i]).text
                        == line.spans[x].text;
                if line.spans[n - 1].text == "│"@ {
                    lemma_trimmed_cell(before.cell, i);
                    assert(after.cells[b - 1] == table::trimmed_cell(before.cell));
                } else {
                    assert(after.cell[i] == before.cell[i]);
                }
            } else {
                assert(after.cells[b - 1] == before.cells[b - 1]);
            }
        } else if x == n - 1 {
            assert(after.cell[before.cell.len() as int].text == line.spans[x].text);
        }
    }
}

proof fn lemma_first_inked(spans: Seq<Ink>, i: int, x: int)
    requires
        0 <= i <= x < spans.len(),
        !text::is_blank(spans[x].text),
    ensures
        i <= table::first_inked(spans, i) <= x,
    decreases spans.len() - i,
{
    if text::is_blank(spans[i].text) {
        lemma_first_inked(spans, i + 1, x);
    }
}

proof fn lemma_last_inked(spans: Seq<Ink>, lo: int, n: int, x: int)
    requires
        0 <= lo <= x < n <= spans.len(),
        !text::is_blank(spans[x].text),
    ensures
        x < table::last_inked(spans, lo, n) <= n,
    decreases n - lo,
{
    if text::is_blank(spans[n - 1].text) {
        lemma_last_inked(spans, lo, n - 1, x);
    }
}

proof fn lemma_trim_ends(s: Seq<char>)
    ensures
        text::trim(text::trim_start(s)) == text::trim(s),
        text::trim(text::trim_end(s)) == text::trim(s),
{
    let i = text::span(s, 0, true);
    text::lemma_span(s, 0, true);
    let t = text::trim_start(s);
    if i < s.len() {
        assert(t[0] == s[i]);
        assert(text::span(t, 0, true) == 0);
    } else {
        assert(t.len() == 0);
    }
    assert(t.skip(0) =~= t);
    assert(text::trim_start(t) =~= t);
    let e = text::trim_end(s);
    let n = text::rspan(s, s.len() as int, true);
    text::lemma_rspan(s, s.len() as int, true);
    let (a, b) = text_laws::trimming_removes_outer_whitespace(s);
    let (c, d) = text_laws::trimming_removes_outer_whitespace(e);
    if a < b {
        assert(n >= b) by {
            if n < b {
                assert(text::is_space(s[b - 1]) == true);
            }
        }
        assert(n == b) by {
            if n > b {
                assert(!text::is_space(s[n - 1]));
            }
        }
        assert(e[a] == s[a] && e[b - 1] == s[b - 1]);
        assert(c == a) by {
            if c < a {
                if c < d {
                    assert(!text::is_space(e[c]) && e[c] == s[c]);
                } else {
                    assert(text::is_space(e[a]));
                }
            } else if c > a {
                assert(text::is_space(e[a]));
            }
        }
        assert(d == b) by {
            if d < b {
                assert(text::is_space(e[b - 1]));
            }
        }
        assert(e.subrange(c, d) =~= s.subrange(a, b));
    } else {
        assert forall|k: int| 0 <= k < e.len() implies text::is_space(#[trigger] e[k]) by {
            assert(e[k] == s[k]);
        }
        assert(c == d) by {
            if c < d {
                assert(!text::is_space(e[c]));
            }
        }
        assert(e.subrange(c, d) =~= s.subrange(a, b));
    }
}

proof fn lemma_trimmed_cell(spans: Seq<Ink>, x: int)
    requires
        0 <= x < spans.len(),
        !text::is_blank(spans[x].text),
    ensures
        has_piece(table::trimmed_cell(spans), spans[x].text),
{
    let lo = table::first_inked(spans, 0);
    lemma_first_inked(spans, 0, x);
    let hi = table::last_inked(spans, lo, spans.len() as int);
    lemma_last_inked(spans, lo, spans.len() as int, x);
    let inner = spans.subrange(lo, hi);
    let y = x - lo;
    assert(inner[y] == spans[x]);
    let s = spans[x].text;
    lemma_trim_ends(s);
    lemma_trim_ends(text::trim_start(s));
    let done = table::trimmed_cell(spans);
    assert(text::trim(done[y].text) == text::trim(s));
}

/// No cell of a table row is lost: a row has one cell between any two
/// neighbouring borders, and what stands between them is in that cell.
pub proof fn table_rows_are_read_cell_by_cell(line: Strip, x: int)
    requires
        0 <= x < line.spans.len(),
        line.spans[x].text != "│"@,
        !text::is_blank(line.spans[x].text),
        borders(line, x) > 0,
        borders(line, x) < borders(line, line.spans.len() as int),
    ensures
        ({
            let cells = table::read_cells(line, line.spans.len() as int).cells;
            &&& cells.len() == borders(line, line.spans.len() as int) - 1
            &&& has_piece(cells[borders(line, x) - 1], line.spans[x].text)
        }),
{
    lemma_read_cells(line, line.spans.len() as int, x);
}

/// Whether the rows of a part stand, in order and unbroken, among all rows.
pub open spec fn holds_rows(all: Seq<Shown>, part: Seq<Shown>) -> bool {
    exists|o: int| rows_at(all, part, o)
}

pub open spec fn rows_at(all: Seq<Shown>, part: Seq<Shown>, o: int) -> bool {
    0 <= o && o + part.len() <= all.len() && all.subrange(o, (o + part.len()) as int) == part
}

proof fn lemma_rows_later(before: Seq<Shown>, rest: Seq<Shown>, part: Seq<Shown>)
    requires
        holds_rows(rest, part),
    ensures
        holds_rows(before + rest, part),
{
    let o = choose|o: int| rows_at(rest, part, o);
    let all = before + rest;
    let at = before.len() + o;
    assert(all.subrange(at, at + part.len()) =~= rest.subrange(o, o + part.len()));
    assert(rows_at(all, part, at));
}

proof fn lemma_rows_first(part: Seq<Shown>, rest: Seq<Shown>)
    ensures
        holds_rows(part + rest, part),
{
    assert((part + rest).subrange(0, part.len() as int) =~= part);
    assert(rows_at(part + rest, part, 0));
}

/// Whether a line begins a table.
pub open spec fn opens_table(line: Strip) -> bool {
    line.text().len() > 0 && line.text()[0] == '┌'
}

proof fn lemma_opens(line: Strip)
    ensures
        opens_table(line) == text::starts_with(line.text(), "┌"@),
{
    reveal_strlit("┌");
    let s = line.text();
    if opens_table(line) {
        assert(s.take(1) =~= "┌"@);
    }
    if text::starts_with(s, "┌"@) {
        assert(s.take(1)[0] == "┌"@[0]);
    }
}

/// Every line of prose, lists and quotations is shown: its wrapped rows stand
/// in the document one after another, behind some indent.
pub proof fn documents_show_every_line(
    lines: Seq<Strip>,
    from: int,
    hang: Option<int>,
    width: int,
    base: TextStyle,
    i: int,
)
    requires
        0 <= from <= i < lines.len(),
        forall|j: int| from <= j <= i ==> !opens_table(#[trigger] lines[j]),
        table::document_rows(lines, from, hang, width, base) is Some,
    ensures
        exists|indent: int| is_shown_behind(
            table::document_rows(lines, from, hang, width, base)->0,
            lines[i],
            width,
            base,
            indent,
        ),
    decreases i - from,
{
    reveal(table::block_rows);
    lemma_opens(lines[from]);
    let (rows, next_hang, next) = table::block_rows(lines, from, hang, width, base);
    let all = table::document_rows(lines, from, hang, width, base)->0;
    let rest = table::document_rows(lines, next, next_hang, width, base)->0;
    assert(next == from + 1);
    assert(all == rows->0 + rest);
    if i == from {
        lemma_rows_first(rows->0, rest);
        let indent = if lines[from].spans.len() == 0 || markdown::line_prefix(lines[from])
            is Some {
            0
        } else {
            match hang {
                Some(h) => h,
                None => 0,
            }
        };
        assert(is_shown_behind(all, lines[i], width, base, indent));
    } else {
        documents_show_every_line(lines, next, next_hang, width, base, i);
        let indent = choose|indent: int| is_shown_behind(rest, lines[i], width, base, indent);
        lemma_rows_later(
            rows->0,
            rest,
            markdown::wrapped_line(lines[i], width, base, indent)->0,
        );
        assert(is_shown_behind(all, lines[i], width, base, indent));
    }
}

/// Whether the rows of a line behind `indent` cells stand among all rows.
pub open spec fn is_shown_behind(
    all: Seq<Shown>,
    line: Strip,
    width: int,
    base: TextStyle,
    indent: int,
) -> bool {
    markdown::wrapped_line(line, width, base, indent) matches Some(rows) && holds_rows(all, rows)
}

proof fn lemma_fitted_lines(table: Seq<Strip>, i: int, widths: Seq<usize>, base: TextStyle, x: int)
    requires
        0 <= i <= x < table.len(),
        table::fitted_lines(table, i, widths, base) matches Some(Some(_)),
    ensures
        table::fitted_line(table[x], widths, base) matches Some(Some(_)),
        strips_within(
            table::fitted_lines(table, i, widths, base)->0->0,
            table::fitted_line(table[x], widths, base)->0->0,
        ),
    decreases x - i,
{
    let first = table::fitted_line(table[i], widths, base)->0->0;
    let rest = table::fitted_lines(table, i + 1, widths, base)->0->0;
    let all = table::fitted_lines(table, i, widths, base)->0->0;
    assert(all == first + rest);
    if x == i {
        assert(all.subrange(0, first.len() as int) =~= first);
        assert(strips_at(all, first, 0));
    } else {
        lemma_fitted_lines(table, i + 1, widths, base, x);
        let part = table::fitted_line(table[x], widths, base)->0->0;
        let o = choose|o: int| strips_at(rest, part, o);
        let at = first.len() + o;
        assert(all.subrange(at, at + part.len()) =~= rest.subrange(o, o + part.len()));
        assert(strips_at(all, part, at));
    }
}

/// Whether the rows of a part stand, in order and unbroken, among all rows.
pub open spec fn strips_within(all: Seq<Strip>, part: Seq<Strip>) -> bool {
    exists|o: int| strips_at(all, part, o)
}

pub open spec fn strips_at(all: Seq<Strip>, part: Seq<Strip>, o: int) -> bool {
    0 <= o && o + part.len() <= all.len() && all.subrange(o, (o + part.len()) as int) == part
}

/// A fitted table shows each of its rows: the display rows of every row of
/// cells stand in it, and every cell on them. One that fits as it is keeps the
/// text of each of its lines.
pub proof fn fitted_tables_show_every_row(
    table: Seq<Strip>,
    width: int,
    base: TextStyle,
    x: int,
    c: int,
    k: int,
)
    requires
        table::fitted_table(table, width, base) matches Some(Some(_)),
        0 <= x < table.len(),
        table[x].text().len() > 0,
        table[x].text()[0] == '│',
    ensures
        ({
            let rows = table::fitted_table(table, width, base)->0->0;
            let desired = table::column_widths(table[0].text())->0;
            let room = width - (3 * desired.len() + 1);
            if table::sum(desired, desired.len() as int) <= room {
                rows.len() == table.len() && rows[x].text() == table[x].text()
            } else {
                let widths = table::constrained(desired, room);
                let part = table::wrapped_row(table[x], widths, base)->0->0;
                &&& table::wrapped_row(table[x], widths, base) matches Some(Some(_))
                &&& strips_within(rows, part)
            }
        }),
{
    let desired = table::column_widths(table[0].text())->0;
    let room = table::table_room(width, desired.len() as int);
    if table::sum(desired, desired.len() as int) <= room {
        lemma_restyled_text(table[x], base);
    } else {
        lemma_fitted_lines(table, 0, table::constrained(desired, room), base, x);
    }
}

proof fn lemma_restyled_text(line: Strip, base: TextStyle)
    ensures
        table::restyled(line, base).text() == line.text(),
{
    lemma_restyled_prefix(line, base, line.spans.len() as int);
}

proof fn lemma_restyled_prefix(line: Strip, base: TextStyle, n: int)
    requires
        0 <= n <= line.spans.len(),
    ensures
        styling::ink_text(table::restyled(line, base).spans, n) == styling::ink_text(line.spans, n),
    decreases n,
{
    if n > 0 {
        lemma_restyled_prefix(line, base, n - 1);
    }
}

/// A rendered item begins with its marker, which the following rows hang
/// behind: a bullet, or a number with a period, and a space.
pub proof fn items_hang_behind_their_marker(line: Strip, lead: nat, marker: Seq<char>)
    requires
        line.spans.len() > 0,
        line.spans[0].text == text::repeated(' ', lead) + marker + " "@,
        line.spans.len() > 1 ==> !markdown::is_checkbox(line.spans[1].text),
        marker == "-"@ || marker == "*"@ || marker == "+"@ || (marker.len() > 1 && marker.last()
            == '.' && text::all_digits(marker.drop_last())),
    ensures
        markdown::line_prefix(line) == Some(
            StructuralPrefix::Hang {
                width: cells::text_width(line.spans[0].text) as usize,
                count: cells::clusters(line.spans[0].text).len() as usize,
            },
        ),
{
    reveal_strlit(" ");
    reveal_strlit("-");
    reveal_strlit("*");
    reveal_strlit("+");
    reveal_strlit(".");
    reveal_strlit(">");
    let first = line.spans[0].text;
    let n = marker.len() as int;
    assert(!text::is_space(marker[0])) by {
        if marker.last() == '.' && marker.len() > 1 {
            assert(text::is_digit(marker.drop_last()[0]));
        }
    }
    assert(!text::is_space(marker[n - 1]));
    lemma_lead(first, lead as int, marker);
    let trimmed = text::trim_start(first);
    assert(trimmed == marker + " "@);
    assert(text::ends_with(trimmed, " "@)) by {
        assert(trimmed.skip(n) =~= " "@);
    }
    assert(cells::drop_trailing(trimmed, n + 1, ' ') == n) by {
        assert(trimmed[n] == ' ');
        assert(trimmed[n - 1] == marker[n - 1]);
        assert(cells::drop_trailing(trimmed, n, ' ') == n);
    }
    assert(trimmed.take(n) =~= marker);
    text_laws::trimmed_texts_stay(marker);
    if !(marker == "-"@ || marker == "*"@ || marker == "+"@) {
        let digits = marker.drop_last();
        assert(marker.skip(n - 1) =~= "."@);
        assert(marker.take(n - 1) =~= digits);
        assert(markdown::is_ordered_marker(marker));
    }
    assert(markdown::is_item_marker(marker));
    assert(first != ">"@) by {
        if first == ">"@ {
            assert(first[first.len() - 1] == ' ');
        }
    }
    assert(markdown::quotes(line.spans, 0) == 0);
}

proof fn lemma_lead(first: Seq<char>, lead: int, marker: Seq<char>)
    requires
        lead >= 0,
        marker.len() > 0,
        !text::is_space(marker[0]),
        first == text::repeated(' ', lead as nat) + marker + " "@,
    ensures
        text::trim_start(first) == marker + " "@,
{
    reveal_strlit(" ");
    assert(first[lead] == marker[0]);
    text::lemma_span_is(first, 0, lead, true);
    assert(first.skip(lead) =~= marker + " "@);
}

/// A quotation repeats its marks: each leading `>` and the space behind them
/// stand before every row of it.
pub proof fn quotations_repeat_their_marks(line: Strip, n: int)
    requires
        0 < n <= line.spans.len(),
        n < usize::MAX,
        forall|i: int| 0 <= i < n ==> (#[trigger] line.spans[i]).text == ">"@,
        n < line.spans.len() ==> line.spans[n].text != ">"@,
    ensures
        markdown::line_prefix(line) == Some(
            StructuralPrefix::Repeat { width: (n + 1) as usize, count: (n + 1) as usize },
        ),
{
    lemma_quotes(line.spans, 0, n);
}

proof fn lemma_quotes(spans: Seq<Ink>, i: int, n: int)
    requires
        0 <= i <= n <= spans.len(),
        forall|k: int| i <= k < n ==> (#[trigger] spans[k]).text == ">"@,
        n < spans.len() ==> spans[n].text != ">"@,
    ensures
        markdown::quotes(spans, i) == n - i,
    decreases n - i,
{
    if i < n {
        lemma_quotes(spans, i + 1, n);
    }
}

proof fn lemma_suffix_comes_off(s: Seq<char>, suffix: Seq<char>)
    ensures
        text::strip_suffix(s + suffix, suffix) == Some(s),
{
    let all = s + suffix;
    assert(all.skip(all.len() - suffix.len()) =~= suffix);
    assert(all.take(all.len() - suffix.len()) =~= s);
}

/// A task is an item whether it is done or not, and nothing else stands in
/// its box; so is a footnote with a label.
pub proof fn tasks_and_footnotes_are_items(state: Seq<char>, label: Seq<char>)
    ensures
        markdown::is_item_marker("- ["@ + state + "]"@) <==> state == seq!['x'] || state
            == seq![' '],
        label.len() > 0 ==> markdown::is_item_marker("["@ + label + "]:"@),
        markdown::is_checkbox("["@ + state + "] "@) <==> state == seq!['x'] || state
            == seq![' '],
        markdown::is_item_marker(seq!['-']),
        markdown::is_item_marker(seq!['*']),
        markdown::is_item_marker(seq!['+']),
        markdown::is_item_marker(seq![':']),
{
    reveal_strlit("- [");
    reveal_strlit("]");
    reveal_strlit("[");
    reveal_strlit("]:");
    reveal_strlit("] ");
    reveal_strlit("x");
    reveal_strlit(" ");
    reveal_strlit("-");
    reveal_strlit("*");
    reveal_strlit("+");
    reveal_strlit(":");
    reveal_strlit(".");
    assert("x"@ =~= seq!['x']);
    assert(" "@ =~= seq![' ']);
    assert("-"@ =~= seq!['-']);
    assert("*"@ =~= seq!['*']);
    assert("+"@ =~= seq!['+']);
    assert(":"@ =~= seq![':']);
    let task = "- ["@ + state + "]"@;
    assert(task =~= "- ["@ + (state + "]"@));
    text_laws::prefixes_come_off("- ["@, state + "]"@);
    lemma_suffix_comes_off(state, "]"@);
    assert(task[0] == '-' && task[1] == ' ' && task.last() == ']');
    assert(task.len() > 3);
    assert(!markdown::is_footnote_marker(task)) by {
        assert(task.take(1)[0] == task[0]);
    }
    assert(!markdown::is_ordered_marker(task)) by {
        assert(task.skip(task.len() - 1)[0] == task.last());
    }
    let note = "["@ + label + "]:"@;
    assert(note =~= "["@ + (label + "]:"@));
    text_laws::prefixes_come_off("["@, label + "]:"@);
    lemma_suffix_comes_off(label, "]:"@);
    let check = "["@ + state + "] "@;
    assert(check =~= "["@ + (state + "] "@));
    text_laws::prefixes_come_off("["@, state + "] "@);
    lemma_suffix_comes_off(state, "] "@);
    assert(check[0] == '[');
    assert(text::span(check, 0, true) == 0);
    assert(check.skip(0) =~= check);
}

/// Where the parser sees a soft break, two spaces make it a hard one: up to
/// the next such place the text is kept, then the spaces follow.
pub proof fn soft_breaks_become_hard(s: Seq<char>, i: int, j: int, breaks: Seq<usize>, k: int)
    requires
        0 <= i <= j <= s.len(),
        0 <= k < breaks.len(),
        breaks[k] == crate::input::byte_offset(s, j),
    ensures
        markdown::hard_broken(s, i, breaks, k) == s.subrange(i, j) + seq![' ', ' ']
            + markdown::hard_broken(s, j, breaks, k + 1),
    decreases j - i,
{
    reveal_strlit("  ");
    assert("  "@ =~= seq![' ', ' ']);
    if i < j {
        lemma_offsets_differ(s, i, j);
        soft_breaks_become_hard(s, i + 1, j, breaks, k);
        assert(s.subrange(i, j) =~= seq![s[i]] + s.subrange(i + 1, j));
        assert(seq![s[i]] + (s.subrange(i + 1, j) + seq![' ', ' '] + markdown::hard_broken(
            s,
            j,
            breaks,
            k + 1,
        )) =~= s.subrange(i, j) + seq![' ', ' '] + markdown::hard_broken(s, j, breaks, k + 1));
    } else {
        assert(s.subrange(i, j) + seq![' ', ' '] =~= seq![' ', ' ']);
    }
}

proof fn lemma_offsets_differ(s: Seq<char>, i: int, j: int)
    requires
        0 <= i < j <= s.len(),
    ensures
        crate::input::byte_offset(s, i) < crate::input::byte_offset(s, j),
{
    let more = s.subrange(i, j);
    assert(s.take(j) =~= s.take(i) + more);
    markdown::lemma_encode_append(s.take(i), more);
    lemma_bytes_of_some(more);
}

proof fn lemma_bytes_of_some(s: Seq<char>)
    requires
        s.len() > 0,
    ensures
        vstd::utf8::encode_utf8(s).len() > 0,
{
    reveal_with_fuel(vstd::utf8::encode_utf8, 2);
}

/// Behind the last soft break the text is kept as it is.
pub proof fn texts_without_breaks_stay(s: Seq<char>, i: int, breaks: Seq<usize>)
    requires
        0 <= i <= s.len(),
    ensures
        markdown::hard_broken(s, i, breaks, breaks.len() as int) == s.skip(i),
    decreases s.len() - i,
{
    if i < s.len() {
        texts_without_breaks_stay(s, i + 1, breaks);
        assert(seq![s[i]] + s.skip(i + 1) =~= s.skip(i));
    } else {
        assert(s.skip(i) =~= Seq::empty());
    }
}

/// The breaks are those of the soft breaks that the parser reports, in order,
/// and no others.
pub proof fn breaks_are_the_soft_ones(events: Seq<(Mark, usize)>, n: int, i: int)
    requires
        0 <= i < n <= events.len(),
    ensures
        ({
            let all = markdown::soft_breaks(events, n);
            let before = markdown::soft_breaks(events, i).len() as int;
            let soft = events[i].0 == Mark::SoftBreak;
            &&& soft ==> before < all.len() && all[before] == events[i].1
            &&& markdown::soft_breaks(events, i + 1).len() == before + if soft {
                1int
            } else {
                0
            }
        }),
    decreases n,
{
    if i < n - 1 {
        breaks_are_the_soft_ones(events, n - 1, i);
    }
}

/// A cell is filled with spaces up to the width of its column, also on the
/// rows below its last line.
pub proof fn cells_fill_their_column(cell: Seq<Shown>, width: usize, row: int)
    requires
        0 <= row,
    ensures
        ({
            let t = spelled(table::cell_spans(cell, width, row));
            &&& row < cell.len() && cell[row].line.width() <= width ==> t == cell[row].line.text()
                + Seq::new((width - cell[row].line.width()) as nat, |i: int| ' ')
            &&& row >= cell.len() ==> t == Seq::new(width as nat, |i: int| ' ')
        }),
{
    let spans = table::cell_spans(cell, width, row);
    if row < cell.len() {
        let line = cell[row].line;
        let pad = table::raw(
            text::repeated(
                ' ',
                if line.width() < width {
                    (width - line.width()) as nat
                } else {
                    0
                },
            ),
        );
        lemma_spelled_add(line.spans, seq![pad]);
        lemma_spelled_one(pad);
        assert(spans =~= line.spans + seq![pad]);
        if line.width() <= width {
            assert(pad.text =~= Seq::new((width - line.width()) as nat, |i: int| ' '));
        }
    } else {
        let pad = table::raw(text::repeated(' ', width as nat));
        lemma_spelled_one(pad);
        assert(spans =~= seq![pad]);
        assert(pad.text =~= Seq::new(width as nat, |i: int| ' '));
    }
}

proof fn lemma_sum_is_span(widths: Seq<usize>, n: int)
    requires
        0 <= n <= widths.len(),
    ensures
        crate::layout_laws::column_at(widths, n) == table::sum(widths, n) + 3 * n,
    decreases n,
{
    if n > 0 {
        lemma_sum_is_span(widths, n - 1);
    }
}

/// The columns and borders of a table that was too wide fill the pane exactly.
pub proof fn fitted_tables_fit_the_pane(desired: Seq<usize>, width: int)
    requires
        desired.len() > 0,
        desired.len() <= table::table_room(width, desired.len() as int) < table::sum(
            desired,
            desired.len() as int,
        ),
    ensures
        ({
            let widths = table::constrained(desired, table::table_room(width, desired.len() as int));
            &&& widths.len() == desired.len()
            &&& crate::layout_laws::column_at(widths, widths.len() as int) + 1 == width
        }),
{
    let room = table::table_room(width, desired.len() as int);
    table::columns_share_the_pane(desired, room);
    let widths = table::constrained(desired, room);
    lemma_sum_is_span(widths, widths.len() as int);
}

/// Lines behind an item hang under its content until a blank line or another
/// marker: what is not an item itself is indented as far as the marker of the
/// item before it reaches.
pub proof fn lines_behind_an_item_hang(
    lines: Seq<Strip>,
    i: int,
    hang: Option<int>,
    width: int,
    base: TextStyle,
)
    requires
        0 <= i < lines.len(),
        !text::starts_with(lines[i].text(), "┌"@),
    ensures
        ({
            let (rows, next, at) = table::block_rows(lines, i, hang, width, base);
            let prefix = markdown::line_prefix(lines[i]);
            &&& at == i + 1
            &&& lines[i].spans.len() == 0 ==> next is None
            &&& lines[i].spans.len() > 0 && prefix is None ==> next == hang && rows
                == markdown::wrapped_line(
                lines[i],
                width,
                base,
                if hang is Some {
                    hang->0
                } else {
                    0
                },
            )
            &&& lines[i].spans.len() > 0 && prefix is Some ==> rows == markdown::wrapped_line(
                lines[i],
                width,
                base,
                0,
            )
            &&& lines[i].spans.len() > 0 && prefix is Some && prefix->0 is Hang
                && prefix->0.cells() < width ==> next == Some(prefix->0.cells() as int)
            &&& lines[i].spans.len() > 0 && prefix is Some && prefix->0 is Repeat ==> next is None
        }),
{
    reveal(table::block_rows);
}

} // verus!
