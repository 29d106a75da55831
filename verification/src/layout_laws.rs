//! Where things stand on the screen: scrolling, stacked areas, margins, the
//! borders of tables and what is left of texts that are cut.

use crate::cells;
use crate::conversation::{ConversationEntry, EntryKind};
use crate::desk;
use crate::desk::{Desk, Focus};
use crate::entry_view;
use crate::markdown::Shown;
use crate::rendering;
use crate::selection;
use crate::selection::Rect;
use crate::shelf;
use crate::styling;
use crate::styling::{Color, Strip, TextStyle};
use crate::table;
use crate::text;
use crate::transcript;
use vstd::prelude::*;

verus! {

proof fn lemma_row_lines(kinds: Seq<EntryKind>, rows: Seq<Seq<Shown>>, i: int, n: int)
    requires
        kinds.len() == rows.len(),
        0 <= i < n <= kinds.len(),
    ensures
        0 <= transcript::range_of(kinds, rows, i).0,
        transcript::range_of(kinds, rows, i).0 + rows[i].len() <= transcript::transcript(
            kinds,
            rows,
            n,
        ).len(),
    decreases n,
{
    if i < n - 1 {
        lemma_row_lines(kinds, rows, i, n - 1);
    }
}

/// Drawing the conversation scrolls to its end while the input has the focus
/// or the end is followed, to a row that was opened, and otherwise as far as
/// shows the row that the keyboard selected; it changes no row.
pub proof fn drawing_scrolls_to_what_is_wanted(
    desk: Desk,
    kinds: Seq<EntryKind>,
    rows: Seq<Seq<Shown>>,
    viewport: int,
    i: int,
)
    requires
        kinds.len() == rows.len(),
        transcript::total_lines(kinds, rows) < usize::MAX - 1,
        1 <= viewport <= transcript::total_lines(kinds, rows),
        0 <= i < kinds.len(),
        rows[i].len() > 0,
    ensures
        ({
            let after = transcript::scrolled(desk, kinds, rows, viewport);
            let total = transcript::total_lines(kinds, rows);
            let start = transcript::range_of(kinds, rows, i).0;
            let reading = desk.focus == Focus::Conversation;
            &&& after.entries == desk.conv.entries && after.selected == desk.conv.selected
            &&& after.reveal is None
            &&& 0 <= after.offset <= total - viewport
            &&& desk.focus == Focus::Input ==> after.offset + viewport == total
            &&& desk.conv.reveal is None && desk.conv.follow ==> after.offset + viewport == total
                && after.follow
            &&& reading && desk.conv.reveal == Some(i) ==> !after.follow && (rows[i].len()
                <= viewport ==> after.offset <= start && start + rows[i].len() <= after.offset
                + viewport)
            &&& reading && desk.conv.reveal is None && !desk.conv.follow && desk.conv.drives
                && desk.conv.selected == Some(i) ==> after.offset <= start < after.offset
                + viewport
            &&& reading && desk.conv.reveal is None && !desk.conv.follow && !desk.conv.drives
                && desk.conv.offset + viewport <= total ==> after.offset == desk.conv.offset
        }),
{
    reveal(transcript::scrolled);
    lemma_row_lines(kinds, rows, i, kinds.len() as int);
    let total = transcript::total_lines(kinds, rows);
    let (start, end) = transcript::range_of(kinds, rows, i);
    if desk.conv.reveal == Some(i) && rows[i].len() <= viewport {
        transcript::revealed_rows_are_visible(start, end, viewport, total);
    }
}

/// Rows look selected only while the conversation has the focus, and then
/// exactly the selected one does.
pub proof fn selection_shows_with_the_focus(desk: Desk, i: int)
    ensures
        transcript::marked(desk) == Some(i) <==> desk.focus == Focus::Conversation
            && desk.conv.selected == Some(i),
{
}

/// A layout serves only the width, the state and the lengths it was made for.
pub proof fn layouts_serve_what_they_were_made_for(
    a: ConversationEntry,
    b: ConversationEntry,
    width: usize,
    other: usize,
    selected: bool,
    later: bool,
)
    requires
        a.layout == b.layout,
        entry_view::is_fresh(a, width, selected),
        entry_view::is_fresh(b, other, later),
    ensures
        width == other,
        selected == later,
        a@.expanded == b@.expanded,
        entry_view::faint(a@, selected) == entry_view::faint(b@, later),
        entry_view::byte_len(a@.title) == entry_view::byte_len(b@.title),
        entry_view::byte_len(a@.body) == entry_view::byte_len(b@.body),
{
}

proof fn lemma_sum(heights: Seq<u16>, i: int, n: int)
    requires
        0 <= i <= n <= heights.len(),
    ensures
        0 <= shelf::sum_of(heights, i) <= shelf::sum_of(heights, n),
        i < n ==> shelf::sum_of(heights, i) + heights[i] <= shelf::sum_of(heights, n),
    decreases n,
{
    if i < n {
        lemma_sum(heights, i, n - 1);
    } else if n > 0 {
        lemma_sum(heights, n - 1, n - 1);
    }
}

/// Stacked areas fill their area from top to bottom without gap or overlap,
/// each at the full width; those above and below have the height they ask
/// for, the one between them what is left.
pub proof fn stacks_fill_their_area(area: Rect, above: Seq<u16>, below: Seq<u16>, i: int)
    requires
        shelf::has_room(area, above, below),
        0 <= i <= above.len() + below.len(),
    ensures
        ({
            let here = shelf::stacked(area, above, below, i);
            let next = shelf::stacked(area, above, below, i + 1);
            &&& here.x == area.x && here.width == area.width
            &&& i == 0 ==> here.y == area.y
            &&& i < above.len() + below.len() ==> next.y == here.y + here.height
            &&& i == above.len() + below.len() ==> here.y + here.height == area.y + area.height
            &&& i < above.len() ==> here.height == above[i]
            &&& i > above.len() ==> here.height == below[i - above.len() - 1]
            &&& i == above.len() ==> here.height >= 1
        }),
{
    let m = above.len() as int;
    let n = below.len() as int;
    lemma_sum(above, 0, m);
    lemma_sum(below, 0, n);
    if i < m {
        lemma_sum(above, i, m);
        lemma_sum(above, i + 1, m);
    } else if i > m {
        let k = i - m - 1;
        lemma_sum(below, k, n);
        lemma_sum(below, k + 1, n);
    }
}

/// An inset takes as many columns off either side as asked, and an area that
/// is too narrow for that keeps its middle.
pub proof fn insets_are_even(area: Rect, cols: u16)
    requires
        area.x + area.width <= u16::MAX,
    ensures
        ({
            let inner = shelf::inset(area, cols);
            let left = inner.x - area.x;
            let right = (area.x + area.width) - (inner.x + inner.width);
            &&& left == right
            &&& 2 * cols <= area.width ==> left == cols
            &&& 2 * cols > area.width ==> inner.width <= 1
            &&& inner.y == area.y && inner.height == area.height
        }),
{
}

/// A border takes the first row of an area, and a frame also a column on
/// either side.
pub proof fn borders_take_their_row(area: Rect)
    requires
        area.x + area.width <= u16::MAX,
        area.y + area.height <= u16::MAX,
        area.width >= 2,
        area.height >= 1,
    ensures
        ({
            let below = shelf::below_border(area);
            let within = shelf::within_frame(area);
            &&& below.y == area.y + 1 && below.y + below.height == area.y + area.height
            &&& below.x == area.x && below.width == area.width
            &&& within.x == area.x + 1 && within.x + within.width + 1 == area.x + area.width
            &&& within.y == area.y + 1 && within.y + within.height == area.y + area.height
        }),
{
}

/// A toast stands in the upper right corner, as wide as its text with a space
/// on either side.
pub proof fn toasts_stand_in_the_corner(area: Rect, content: Seq<char>)
    requires
        area.x + area.width <= u16::MAX,
        area.height >= 1,
        4 <= cells::text_width(" "@ + content + " "@) <= area.width,
    ensures
        ({
            let toast = shelf::toast_rect(area, content);
            &&& toast.width == cells::text_width(" "@ + content + " "@)
            &&& toast.x + toast.width == area.x + area.width
            &&& toast.y == area.y && toast.height == 1
        }),
{
}

/// The line of the folded drawer is the spinner and the summary behind it.
pub proof fn folded_drawers_show_their_summary(summary: Seq<char>, spinner: char)
    ensures
        shelf::summary_line(summary, spinner).text() == seq![' ', spinner, ' '] + summary,
{
    let line = shelf::summary_line(summary, spinner);
    let all = line.spans;
    reveal_strlit(" ");
    assert(styling::ink_text(all, 0) =~= Seq::empty());
    assert(styling::ink_text(all, 1) =~= seq![' ']);
    assert(styling::ink_text(all, 2) =~= seq![' ', spinner, ' ']);
    assert(styling::ink_text(all, 3) =~= seq![' ', spinner, ' '] + summary);
}

proof fn lemma_shortened(s: Seq<char>, width: int)
    ensures
        ({
            let cut = desk::shortened(s, width);
            cut.len() <= s.len() && cut == s.take(cut.len() as int) && (desk::bytes_of(s) < width
                ==> cut == s)
        }),
    decreases s.len(),
{
    if s.len() > 0 && desk::bytes_of(s) >= width {
        lemma_shortened(s.drop_last(), width);
        let cut = desk::shortened(s, width);
        assert(s.drop_last().take(cut.len() as int) =~= s.take(cut.len() as int));
    } else {
        assert(s.take(s.len() as int) =~= s);
    }
}

/// A list of names that does not fit is cut to its beginning with an ellipsis
/// behind it.
pub proof fn cut_lists_keep_their_beginning(s: Seq<char>, width: int) -> (n: int)
    requires
        !text::ends_with(s, "…"@),
        !text::ends_with(desk::shortened(s, width), "…"@),
    ensures
        0 <= n <= s.len(),
        desk::ellipsized(s, width) == s.take(n) + "…"@,
        desk::bytes_of(s) < width ==> n == s.len(),
{
    lemma_shortened(s, width);
    desk::shortened(s, width).len() as int
}

proof fn lemma_named(list: Seq<Seq<char>>, i: int, line: Seq<char>, width: int)
    requires
        0 <= i <= list.len(),
        desk::bytes_of(line) < width,
    ensures
        text::starts_with(desk::named(list, i, line, width), line),
    decreases list.len() - i,
{
    if i < list.len() {
        let name = text::after_last(list[i], '/');
        let piece = if i == 0 {
            name
        } else {
            ", "@ + name
        };
        let all = desk::named(list, i, line, width);
        if desk::bytes_of(line) + desk::bytes_of(piece) > selection::monus(width, 1) {
            lemma_shortened(line, width);
            assert((line + "…"@).take(line.len() as int) =~= line);
            assert(line.take(line.len() as int) =~= line);
        } else {
            crate::markdown::lemma_encode_append(line, piece);
            lemma_named(list, i + 1, line + piece, width);
            let longer = line + piece;
            assert(all.take(longer.len() as int).take(line.len() as int) =~= all.take(
                line.len() as int,
            ));
            assert(longer.take(line.len() as int) =~= line);
        }
    } else {
        assert(line.take(line.len() as int) =~= line);
    }
}

/// The summary of the folded drawer counts the agents that run elsewhere and
/// begins to name them, where there is room.
pub proof fn summaries_count_the_running_agents(d: Desk, width: int)
    requires
        d.others_running().len() > 0,
        ({
            let n = d.others_running().len();
            let count = text::decimal(n) + " "@ + (if n == 1 {
                "agent"@
            } else {
                "agents"@
            }) + " running"@ + " · "@;
            desk::bytes_of(count) < width
        }),
    ensures
        ({
            let n = d.others_running().len();
            let count = text::decimal(n) + " "@ + (if n == 1 {
                "agent"@
            } else {
                "agents"@
            }) + " running"@ + " · "@;
            text::starts_with(d.collapsed_summary(width), count)
        }),
{
    let n = d.others_running().len();
    let prefix = text::decimal(n) + " "@ + (if n == 1 {
        "agent"@
    } else {
        "agents"@
    }) + " running"@;
    crate::markdown::lemma_encode_append(prefix, " · "@);
    lemma_named(d.others_running(), 0, prefix + " · "@, width);
}

/// Texts cut by characters keep their beginning; the ellipsis takes the place
/// of what does not fit.
pub proof fn texts_cut_by_characters_keep_their_beginning(s: Seq<char>, width: nat)
    ensures
        s.len() <= width ==> cells::elided_chars(s, width) == s,
        0 < width < s.len() ==> cells::elided_chars(s, width) == s.take(width - 1) + seq!['…'],
        width == 0 ==> cells::elided_chars(s, width).len() == 0,
{
    if 0 < width < s.len() {
        assert(s.take(width - 1).push('…') =~= s.take(width - 1) + seq!['…']);
    } else if s.len() == 0 {
        assert(cells::elided_chars(s, width) =~= s);
    }
}

/// Where column `k` of a table begins: behind its left border and the columns
/// before, each with a space on either side and a border.
pub open spec fn column_at(widths: Seq<usize>, k: int) -> int
    decreases k,
{
    if k <= 0 {
        0
    } else {
        column_at(widths, k - 1) + widths[k - 1] + 3
    }
}

proof fn lemma_columns(widths: Seq<usize>, k: int, n: int)
    requires
        0 <= k <= n <= widths.len(),
    ensures
        0 <= column_at(widths, k) <= column_at(widths, n),
        k < n ==> column_at(widths, k) + widths[k] + 3 <= column_at(widths, n),
    decreases n,
{
    if k < n {
        lemma_columns(widths, k, n - 1);
    } else if n > 0 {
        lemma_columns(widths, n - 1, n - 1);
    }
}

proof fn lemma_border(left: char, mid: char, right: char, widths: Seq<usize>, n: int, k: int, x: int)
    requires
        0 <= k < n <= widths.len(),
    ensures
        ({
            let b = table::border_text(left, mid, right, widths, n);
            &&& b.len() == column_at(widths, n) + 1
            &&& b[column_at(widths, k)] == if k == 0 {
                left
            } else {
                mid
            }
            &&& column_at(widths, k) < x < column_at(widths, k + 1) ==> b[x] == '─'
            &&& b.last() == if n == widths.len() {
                right
            } else {
                mid
            }
        }),
    decreases n,
{
    let b = table::border_text(left, mid, right, widths, n);
    let before = table::border_text(left, mid, right, widths, n - 1);
    let bar = text::repeated('─', (widths[n - 1] + 2) as nat);
    if n > 1 {
        lemma_border(
            left,
            mid,
            right,
            widths,
            n - 1,
            if k < n - 1 {
                k
            } else {
                n - 2
            },
            x,
        );
    } else {
        assert(before =~= seq![left]);
        assert(column_at(widths, 0) == 0);
    }
    lemma_columns(widths, k, n);
    lemma_columns(widths, k, n - 1);
    assert(b =~= (before + bar).push(
        if n == widths.len() {
            right
        } else {
            mid
        },
    ));
    let at = column_at(widths, k);
    if k < n - 1 {
        lemma_columns(widths, k + 1, n - 1);
        assert(b[at] == before[at]);
        if at < x < column_at(widths, k + 1) {
            assert(b[x] == before[x]);
        }
    } else {
        assert(before.len() == at + 1);
        assert(b[at] == before[at]);
        if at < x < column_at(widths, n) {
            assert(b[x] == bar[x - before.len()]);
        }
    }
}

/// The border of a table meets the borders of its rows: it has a corner at
/// either end, a junction before each further column, and a bar over each
/// column and the spaces beside it.
pub proof fn table_borders_span_their_columns(
    left: char,
    mid: char,
    right: char,
    widths: Seq<usize>,
    style: TextStyle,
    k: int,
    x: int,
)
    requires
        0 <= k < widths.len(),
    ensures
        ({
            let t = table::border_strip(left, mid, right, widths, style).text();
            let n = widths.len() as int;
            &&& t.len() == column_at(widths, n) + 1
            &&& t[0] == left && t[t.len() - 1] == right
            &&& k > 0 ==> t[column_at(widths, k)] == mid
            &&& column_at(widths, k) < x < column_at(widths, k + 1) ==> t[x] == '─'
        }),
{
    let n = widths.len() as int;
    let line = table::border_strip(left, mid, right, widths, style);
    lemma_border(left, mid, right, widths, n, k, x);
    lemma_border(left, mid, right, widths, n, 0, x);
    assert(styling::ink_text(line.spans, 0) =~= Seq::empty());
    assert(styling::ink_text(line.spans, 1) =~= line.spans[0].text);
}

/// The widths of the columns are those that the border spans, without the
/// spaces beside them.
pub proof fn columns_are_read_off_the_border(segments: Seq<Seq<char>>, n: int, k: int)
    requires
        0 <= k < n <= segments.len(),
        forall|i: int|
            0 <= i < n ==> 2 <= cells::text_width(#[trigger] segments[i]) <= usize::MAX,
    ensures
        ({
            let widths = table::border_widths(segments, n);
            &&& widths is Some
            &&& widths->0.len() == n
            &&& widths->0[k] + 2 == cells::text_width(segments[k])
        }),
    decreases n,
{
    assert(2 <= cells::text_width(segments[n - 1]) <= usize::MAX);
    if n > 1 {
        columns_are_read_off_the_border(
            segments,
            n - 1,
            if k < n - 1 {
                k
            } else {
                n - 2
            },
        );
    } else {
        assert(table::border_widths(segments, 0) == Some(Seq::<usize>::empty()));
    }
}

/// A table ends with the first line that begins with a lower left corner.
pub proof fn tables_end_at_their_lower_border(lines: Seq<Strip>, from: int, k: int)
    requires
        0 <= from <= k < lines.len(),
        text::starts_with(lines[k].text(), "└"@),
        forall|i: int|
            from <= i < k ==> !text::starts_with((#[trigger] lines[i]).text(), "└"@),
    ensures
        table::table_end(lines, from) == k + 1,
    decreases k - from,
{
    if from < k {
        assert(!text::starts_with(lines[from].text(), "└"@));
        tables_end_at_their_lower_border(lines, from + 1, k);
    }
}

/// Rendered Markdown is shown as it was rendered: line by line, span by span,
/// each with its text and its emphasis and in the color its name stands for.
pub proof fn rendered_lines_are_shown_as_they_are(source: Seq<char>, i: int, j: int, c: Color)
    requires
        0 <= i < rendering::rendered_markdown(source, rendering::markdown_sheet()).len(),
        0 <= j < rendering::rendered_markdown(
            source,
            rendering::markdown_sheet(),
        )[i].spans.len(),
    ensures
        ({
            let raw = rendering::rendered_markdown(source, rendering::markdown_sheet());
            let shown = rendering::lines_shown(source);
            let span = raw[i].spans[j];
            let ink = shown[i].spans[j];
            &&& shown.len() == raw.len()
            &&& shown[i].spans.len() == raw[i].spans.len()
            &&& ink.text == span.text
            &&& ink.style.add_modifier == span.style.add && ink.style.sub_modifier
                == span.style.sub
            &&& span.style.fg is None ==> ink.style.fg is None
            &&& span.style.bg is None ==> ink.style.bg is None
            &&& span.style.fg == Some(rendering::color_text(c)) ==> ink.style.fg == Some(c)
            &&& span.style.bg == Some(rendering::color_text(c)) ==> ink.style.bg == Some(c)
        }),
{
    rendering::names_stand_for_their_colors(c);
}

/// Emphasis tells what Markdown means: headings are bold, links underlined,
/// quotations in italics, and code has a background; the first levels of
/// headings differ in color.
pub proof fn emphasis_tells_what_is_meant(level: u8)
    ensures
        rendering::heading_tone(level).add_modifier == styling::BOLD,
        rendering::heading_tone(level).bg is None,
        rendering::heading_tone(1).fg != rendering::heading_tone(2).fg,
        level > 2 ==> rendering::heading_tone(level).fg != rendering::heading_tone(1).fg
            && rendering::heading_tone(level).fg != rendering::heading_tone(2).fg,
        rendering::link_tone().add_modifier == styling::UNDERLINED,
        rendering::quote_tone().add_modifier == styling::ITALIC,
        rendering::code_tone().bg == Some(styling::panel_color()),
        rendering::link_tone().bg is None,
        rendering::quote_tone().bg is None,
{
}

} // verus!
