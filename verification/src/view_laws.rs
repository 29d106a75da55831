//! What the conversation pane shows of its rows, and where it shows it.

use crate::cells;
use crate::conversation::{Entry, EntryKind};
use crate::desk::Hitbox;
use crate::entry_view;
use crate::entry_view::TextRow;
use crate::markdown;
use crate::markdown::Shown;
use crate::markdown_laws;
use crate::selection;
use crate::selection::{CellPos, Rect};
use crate::styling;
use crate::styling::{Color, Ink, Strip, TextStyle};
use crate::text;
use crate::text_laws;
use crate::text_wrap;
use crate::transcript;
use vstd::prelude::*;

verus! {

proof fn lemma_lines_at(lines: Seq<Seq<char>>, l: int, n: int, width: nat)
    requires
        0 <= l < n <= lines.len(),
    ensures
        ({
            let at = entry_view::lines_rows(lines, l, width).len() as int;
            let more = entry_view::line_rows(lines[l], width);
            let rows = entry_view::lines_rows(lines, n, width);
            at + more.len() <= rows.len() && rows.subrange(at, at + more.len()) == more
        }),
    decreases n,
{
    let at = entry_view::lines_rows(lines, l, width).len() as int;
    let more = entry_view::line_rows(lines[l], width);
    let rows = entry_view::lines_rows(lines, n, width);
    if l < n - 1 {
        lemma_lines_at(lines, l, n - 1, width);
        let before = entry_view::lines_rows(lines, n - 1, width);
        assert(rows.subrange(at, at + more.len()) =~= before.subrange(at, at + more.len()));
    } else {
        assert(rows.subrange(at, at + more.len()) =~= more);
    }
}

proof fn lemma_concat_holds(parts: Seq<Seq<char>>, x: int)
    requires
        0 <= x < parts.len(),
    ensures
        text::contains(cells::concat_all(parts), parts[x]),
    decreases parts.len(),
{
    let before = cells::concat_all(parts.drop_last());
    if x == parts.len() - 1 {
        text_laws::containing_is_having_inside(before, parts[x], Seq::<char>::empty());
        assert(before + parts[x] + Seq::<char>::empty() =~= cells::concat_all(parts));
    } else {
        lemma_concat_holds(parts.drop_last(), x);
        let (a, b) = text_laws::contained_texts_have_surroundings(before, parts[x]);
        text_laws::containing_is_having_inside(a, parts[x], b + parts.last());
        assert(a + parts[x] + (b + parts.last()) =~= cells::concat_all(parts));
    }
}

/// Whether one of the rows `lo..hi` has `part` in its text.
pub open spec fn row_has(rows: Seq<TextRow>, lo: int, hi: int, part: Seq<char>) -> bool {
    exists|k: int| lo <= k < hi && text::contains((#[trigger] rows[k]).text, part)
}

/// Nothing that can be seen is lost when plain text is wrapped: each cluster
/// of each of its lines is on a row, unless it is whitespace at which the
/// line may break or takes no cells. The rows of a line follow those of the
/// lines before it.
pub proof fn plain_text_shows_every_word(s: Seq<char>, width: nat, l: int, x: int)
    requires
        0 <= l < text::split(s, '\n').len(),
        ({
            let parts = cells::clusters(text::split(s, '\n')[l]);
            &&& parts.len() <= usize::MAX
            &&& 0 <= x < parts.len()
            &&& 0 < cells::text_width(parts[x]) <= usize::MAX
            &&& !(parts[x].len() > 0 && text_wrap::breakable(parts[x][0]))
        }),
    ensures
        ({
            let lines = text::split(s, '\n');
            let lo = entry_view::lines_rows(lines, l, width).len() as int;
            let hi = entry_view::lines_rows(lines, l + 1, width).len() as int;
            &&& lo <= hi <= entry_view::text_rows(s, width).len()
            &&& row_has(
                entry_view::text_rows(s, width),
                lo,
                hi,
                cells::clusters(lines[l])[x],
            )
        }),
{
    let lines = text::split(s, '\n');
    let parts = cells::clusters(lines[l]);
    let items = text_wrap::measured(parts);
    let wrapped = text_wrap::wrapped(items, width);
    let more = entry_view::line_rows(lines[l], width);
    let rows = entry_view::text_rows(s, width);
    let lo = entry_view::lines_rows(lines, l, width).len() as int;
    lemma_lines_at(lines, l, lines.len() as int, width);
    text_wrap::visible_word_items_are_displayed(items, width, x);
    let k = choose|k: int|
        0 <= k < wrapped.len() && (#[trigger] wrapped[k]).start <= x < wrapped[k].end;
    text_wrap::rows_cover_items(items, width, k);
    let taken = parts.subrange(wrapped[k].start as int, wrapped[k].end as int);
    lemma_concat_holds(taken, x - wrapped[k].start);
    let lead = text::repeated(' ', wrapped[k].indent as nat);
    let (a, b) = text_laws::contained_texts_have_surroundings(cells::concat_all(taken), parts[x]);
    text_laws::containing_is_having_inside(lead + a, parts[x], b);
    assert(lead + a + parts[x] + b =~= lead + cells::concat_all(taken));
    assert(more[k].text == lead + cells::concat_all(taken));
    assert(rows[lo + k] == rows.subrange(lo, lo + more.len())[k]);
    assert(text::contains(rows[lo + k].text, parts[x]));
}

/// Wrapping adds nothing to plain text but the spaces before a split word: a
/// row is otherwise made of consecutive clusters of its line.
pub proof fn plain_rows_add_only_spaces(line: Seq<char>, width: nat, k: int) -> (part: (int, int))
    requires
        cells::clusters(line).len() <= usize::MAX,
        0 <= k < entry_view::line_rows(line, width).len(),
    ensures
        0 <= part.0 <= part.1 <= cells::clusters(line).len(),
        ({
            let row = entry_view::line_rows(line, width)[k];
            &&& 0 <= row.indent <= 2
            &&& row.text == Seq::new(row.indent as nat, |i: int| ' ') + cells::concat_all(
                cells::clusters(line).subrange(part.0, part.1),
            )
        }),
{
    let items = text_wrap::measured(cells::clusters(line));
    text_wrap::rows_cover_items(items, width, k);
    text_wrap::only_continuations_are_indented(items, width, k);
    let row = text_wrap::wrapped(items, width)[k];
    assert(text::repeated(' ', row.indent as nat) =~= Seq::new(row.indent as nat, |i: int| ' '));
    (row.start as int, row.end as int)
}

/// The word in front of the title of a row says of what kind it is.
pub open spec fn marker(kind: EntryKind) -> Seq<char> {
    match kind {
        EntryKind::User => seq!['y', 'o', 'u'],
        EntryKind::Assistant => seq!['a', 'g', 'e', 'n', 't'],
        EntryKind::Reasoning => seq!['t', 'h', 'i', 'n', 'k'],
        EntryKind::ToolCall => seq!['c', 'a', 'l', 'l'],
        EntryKind::ToolResult => seq!['r', 'e', 's', 'u', 'l', 't'],
        EntryKind::System => seq!['i', 'n', 'f', 'o'],
        EntryKind::Error => seq!['e', 'r', 'r', 'o', 'r'],
    }
}

proof fn lemma_marker(kind: EntryKind)
    ensures
        entry_view::marker_of(kind).0 == marker(kind),
{
    reveal_strlit("you");
    reveal_strlit("agent");
    reveal_strlit("think");
    reveal_strlit("call");
    reveal_strlit("result");
    reveal_strlit("info");
    reveal_strlit("error");
    assert(entry_view::marker_of(kind).0 =~= marker(kind));
}

proof fn lemma_five(a: Ink, b: Ink, c: Ink, d: Ink, e: Ink)
    ensures
        Strip::of(seq![a, b, c, d, e]).text() == a.text + b.text + c.text + d.text + e.text,
{
    let all = seq![a, b, c, d, e];
    assert(styling::ink_text(all, 0) =~= Seq::empty());
    assert(styling::ink_text(all, 1) =~= a.text);
    assert(styling::ink_text(all, 2) =~= a.text + b.text);
    assert(styling::ink_text(all, 3) =~= a.text + b.text + c.text);
    assert(styling::ink_text(all, 4) =~= a.text + b.text + c.text + d.text);
    assert(styling::ink_text(all, 5) =~= a.text + b.text + c.text + d.text + e.text);
}

/// The header of a row tells whether it is selected, whether it is open, of
/// what kind it is, and its title; a closed row that is no call then shows
/// its text on one line, as far as there is room.
pub proof fn headers_tell_what_a_row_is(
    e: Entry,
    width: int,
    selected: bool,
    rendered: Seq<Strip>,
)
    ensures
        ({
            let t = entry_view::header_row(e, width, selected, rendered).line.text();
            let word = marker(e.kind);
            let title_at = word.len() as int + 4;
            let rest = title_at + e.title.len();
            let room = width - 10 - cells::text_width(e.title);
            let plain = text::squash(e.body);
            &&& t.len() >= rest
            &&& t[0] == if selected {
                '│'
            } else {
                ' '
            }
            &&& t[1] == if e.expanded {
                '▾'
            } else {
                '▸'
            }
            &&& t.subrange(3, 3 + word.len() as int) == word
            &&& t.subrange(title_at, rest) == e.title
            &&& (e.expanded || e.kind == EntryKind::ToolCall) ==> t.len() == rest
            &&& !e.expanded && (e.kind == EntryKind::User || e.kind == EntryKind::ToolResult
                || e.kind == EntryKind::System || e.kind == EntryKind::Error) && plain.len() > 0
                && cells::text_width(plain) <= room ==> t.skip(rest) == seq![' ', ' '] + plain
        }),
{
    let (word, color) = entry_view::marker_of(e.kind);
    let spans = entry_view::header_row(e, width, selected, rendered).line.spans;
    let preview = entry_view::preview_of(e, width, rendered);
    lemma_marker(e.kind);
    lemma_five(spans[0], spans[1], spans[2], spans[3], spans[4]);
    assert(spans =~= seq![spans[0], spans[1], spans[2], spans[3], spans[4]]);
    reveal_strlit("│");
    reveal_strlit(" ");
    reveal_strlit("  ");
    reveal_strlit("");
    reveal_strlit("▾ ");
    reveal_strlit("▸ ");
    let t = entry_view::header_row(e, width, selected, rendered).line.text();
    let bar = spans[0].text;
    let arrow = if e.expanded {
        "▾ "@
    } else {
        "▸ "@
    };
    let tail = spans[3].text + preview;
    assert(bar.len() == 1);
    assert(spans[1].text == arrow + word + " "@);
    assert(t =~= bar + arrow + word + " "@ + e.title + tail);
    assert(t.subrange(3, 3 + word.len() as int) =~= word);
    let title_at = word.len() as int + 4;
    assert(t.subrange(title_at, title_at + e.title.len()) =~= e.title);
    assert(t.skip(title_at + e.title.len()) =~= tail);
    let plain = text::squash(e.body);
    if preview == plain && plain.len() > 0 {
        assert(tail =~= seq![' ', ' '] + plain);
    }
}

/// Opening a row shows its header and all of its text behind the bar and four
/// spaces, row by row; a closed row is its header alone.
pub proof fn open_rows_show_their_text(
    e: Entry,
    width: int,
    selected: bool,
    rendered: Seq<Strip>,
    k: int,
)
    ensures
        ({
            let all = entry_view::entry_rows(e, width, selected, rendered);
            let header = entry_view::header_row(e, width, selected, rendered);
            let cells = if width - 6 < 1 {
                1
            } else {
                width - 6
            };
            let plain = entry_view::text_rows(e.body, cells as nat);
            let lead = seq![
                if selected {
                    '│'
                } else {
                    ' '
                },
            ] + seq![' ', ' ', ' ', ' '];
            &&& !e.expanded ==> all == Some(seq![header])
            &&& e.expanded && e.kind != EntryKind::Assistant && e.kind != EntryKind::Reasoning ==> {
                &&& all is Some
                &&& all->0.len() == plain.len() + 1
                &&& all->0[0] == header
                &&& 0 <= k < plain.len() ==> all->0[k + 1].line.text() == lead + plain[k].text
            }
        }),
{
    let cells = if width - 6 < 1 {
        1
    } else {
        width - 6
    };
    assert(entry_view::body_cells(width) == cells);
    let plain = entry_view::text_rows(e.body, cells as nat);
    if e.expanded && e.kind != EntryKind::Assistant && e.kind != EntryKind::Reasoning && 0 <= k
        < plain.len() {
        let all = entry_view::entry_rows(e, width, selected, rendered)->0;
        let spans = all[k + 1].line.spans;
        reveal_strlit("│");
        reveal_strlit(" ");
        reveal_strlit("    ");
        let lead = seq![
            if selected {
                '│'
            } else {
                ' '
            },
        ] + seq![' ', ' ', ' ', ' '];
        assert(spans.len() == 3);
        assert(styling::ink_text(spans, 0) =~= Seq::empty());
        assert(styling::ink_text(spans, 1) =~= spans[0].text);
        assert(spans[0].text + spans[1].text =~= lead);
        assert(styling::ink_text(spans, 2) =~= lead);
        assert(styling::ink_text(spans, 3) =~= lead + plain[k].text);
    }
}

/// Open rows of Markdown show every row of it behind the bar and four spaces.
pub proof fn open_rows_show_their_markdown(
    e: Entry,
    width: int,
    selected: bool,
    rendered: Seq<Strip>,
    base: TextStyle,
    rows: Seq<Shown>,
    k: int,
)
    requires
        e.expanded,
        e.kind == EntryKind::Assistant || e.kind == EntryKind::Reasoning,
        width >= 7,
        base == entry_view::ambient(TextStyle::ink(Color::Gray), entry_view::faint(e, selected)),
        crate::table::document_rows(rendered, 0, None, width - 6, base) == Some(rows),
        0 <= k < rows.len(),
    ensures
        ({
            let all = entry_view::entry_rows(e, width, selected, rendered);
            &&& all is Some
            &&& all->0.len() == rows.len() + 1
            &&& markdown_laws::holds_spans(all->0[k + 1].line.spans, rows[k].line.spans)
        }),
{
    let all = entry_view::entry_rows(e, width, selected, rendered)->0;
    let part = rows[k].line.spans;
    assert(entry_view::body_cells(width) == width - 6);
    assert(all[k + 1] == entry_view::body_row(selected, part, rows[k].indent));
    assert(all[k + 1].line.spans.subrange(2, 2 + part.len() as int) =~= part);
    assert(markdown_laws::spans_at(all[k + 1].line.spans, part, 2));
}

/// Only what the agent says and thinks is read as Markdown, and only an open
/// row keeps its line breaks in it.
pub proof fn agents_write_markdown(e: Entry)
    ensures
        (e.kind == EntryKind::Assistant || e.kind == EntryKind::Reasoning)
            <==> transcript::markdown_of(e) is Some,
        transcript::markdown_of(e) is Some && !e.expanded ==> transcript::markdown_of(e)->0
            == e.body,
        transcript::markdown_of(e) is Some && e.expanded ==> transcript::markdown_of(e)->0
            == markdown::with_hard_breaks(e.body),
{
}

/// Calls, results and thoughts step back unless they are selected or still
/// being written; nothing else does.
pub proof fn ambient_rows_step_back(e: Entry, selected: bool, style: TextStyle)
    ensures
        selected || e.streaming ==> entry_view::ambient(style, entry_view::faint(e, selected))
            == style,
        e.kind == EntryKind::User || e.kind == EntryKind::Assistant || e.kind == EntryKind::System
            || e.kind == EntryKind::Error ==> entry_view::ambient(
            style,
            entry_view::faint(e, selected),
        ) == style,
        !selected && !e.streaming && (e.kind == EntryKind::ToolCall || e.kind
            == EntryKind::ToolResult || e.kind == EntryKind::Reasoning) ==> entry_view::ambient(
            style,
            entry_view::faint(e, selected),
        ) == style.with(styling::DIM),
{
}

/// Whether a row of this kind is something the user or the agent said.
pub open spec fn is_said(kind: EntryKind) -> bool {
    kind == EntryKind::User || kind == EntryKind::Assistant
}

proof fn lemma_rows_at(kinds: Seq<EntryKind>, rows: Seq<Seq<Shown>>, i: int, n: int)
    requires
        0 <= i < n,
    ensures
        ({
            let at = transcript::range_of(kinds, rows, i).0;
            let all = transcript::transcript(kinds, rows, n);
            let before = transcript::transcript(kinds, rows, i).len() as int;
            &&& 0 <= before <= at
            &&& at + rows[i].len() <= all.len()
            &&& all.subrange(at, at + rows[i].len()) == rows[i]
            &&& all.subrange(before, at) == transcript::gap_before(kinds, i)
        }),
    decreases n,
{
    let at = transcript::range_of(kinds, rows, i).0;
    let all = transcript::transcript(kinds, rows, n);
    let before = transcript::transcript(kinds, rows, i).len() as int;
    if i < n - 1 {
        lemma_rows_at(kinds, rows, i, n - 1);
        let less = transcript::transcript(kinds, rows, n - 1);
        assert(all.subrange(at, at + rows[i].len()) =~= less.subrange(at, at + rows[i].len()));
        assert(all.subrange(before, at) =~= less.subrange(before, at));
    } else {
        assert(all.subrange(at, at + rows[i].len()) =~= rows[i]);
        assert(all.subrange(before, at) =~= transcript::gap_before(kinds, i));
    }
}

/// The conversation shows every row whole, in order: a row stands at its
/// lines, and only one blank line parts it from the row before, where either
/// of them was said.
pub proof fn conversations_show_every_row(kinds: Seq<EntryKind>, rows: Seq<Seq<Shown>>, i: int)
    requires
        kinds.len() == rows.len(),
        0 <= i < kinds.len(),
    ensures
        ({
            let all = transcript::transcript(kinds, rows, kinds.len() as int);
            let (start, end) = transcript::range_of(kinds, rows, i);
            let after = if i == 0 {
                0
            } else {
                transcript::range_of(kinds, rows, i - 1).0 + rows[i - 1].len()
            };
            let parted = is_said(kinds[i]) || (i > 0 && is_said(kinds[i - 1]));
            &&& 0 <= start && start + rows[i].len() <= all.len()
            &&& all.subrange(start, start + rows[i].len()) == rows[i]
            &&& rows[i].len() > 0 ==> end == start + rows[i].len() - 1
            &&& start == after + if parted {
                1int
            } else {
                0
            }
            &&& parted ==> all[after as int].line.text() == Seq::<char>::empty()
            &&& i == kinds.len() - 1 ==> transcript::total_lines(kinds, rows) == start
                + rows[i].len() + if is_said(kinds[i]) {
                1int
            } else {
                0
            }
        }),
{
    let n = kinds.len() as int;
    let all = transcript::transcript(kinds, rows, n);
    let start = transcript::range_of(kinds, rows, i).0;
    lemma_rows_at(kinds, rows, i, n);
    let before = transcript::transcript(kinds, rows, i).len() as int;
    if start > before {
        assert(all.subrange(before, start)[0] == all[before]);
        assert(all[before].line == Strip::blank());
        assert(all[before].line.text() =~= Seq::<char>::empty());
    }
}

/// The window shows the lines from its offset on, one below the other.
pub proof fn windows_show_their_lines(rows: Seq<Shown>, offset: int, viewport: int, k: int)
    requires
        0 <= offset <= rows.len(),
        0 <= viewport,
    ensures
        ({
            let window = transcript::clip(rows, offset, offset + viewport);
            &&& window.len() == if offset + viewport <= rows.len() {
                viewport
            } else {
                rows.len() - offset
            }
            &&& 0 <= k < window.len() ==> window[k] == rows[offset + k]
        }),
{
}

/// Whether line `line` is one of the lines `range` and of the window.
pub open spec fn line_shows(range: (usize, usize), offset: int, viewport: int, line: int) -> bool {
    range.0 <= line <= range.1 && offset <= line < offset + viewport
}

/// Whether a box covers the screen row of line `line`.
pub open spec fn covers(hit: Hitbox, y: int, offset: int, line: int) -> bool {
    hit.top <= y + line - offset <= hit.bottom
}

proof fn lemma_hitbox(ranges: Seq<(usize, usize)>, i: int, offset: int, viewport: int, y: u16, line: int)
    requires
        0 <= i < ranges.len() <= usize::MAX,
        0 <= offset,
        1 <= viewport,
        offset + viewport <= usize::MAX,
        y + viewport <= u16::MAX,
        offset <= line < offset + viewport,
    ensures
        ({
            let hit = transcript::hitbox_of(ranges, i, offset, viewport, y);
            &&& line_shows(ranges[i], offset, viewport, line) ==> hit is Some
            &&& hit is Some ==> {
                &&& hit->0.entry == i
                &&& covers(hit->0, y as int, offset, line) <==> line_shows(
                    ranges[i],
                    offset,
                    viewport,
                    line,
                )
                &&& hit->0.header is Some <==> ranges[i].0 >= offset
                &&& hit->0.header matches Some(row) ==> row == y + ranges[i].0 - offset
            }
        }),
{
}

proof fn lemma_hits(ranges: Seq<(usize, usize)>, n: int, offset: int, viewport: int, y: u16)
    requires
        0 <= n <= ranges.len() <= usize::MAX,
        0 <= offset,
        1 <= viewport,
        offset + viewport <= usize::MAX,
        y + viewport <= u16::MAX,
    ensures
        ({
            let hits = transcript::hitboxes_of(ranges, n, offset, viewport, y);
            &&& forall|h: int|
                0 <= h < hits.len() ==> (#[trigger] hits[h]).entry < n && transcript::hitbox_of(
                    ranges,
                    hits[h].entry as int,
                    offset,
                    viewport,
                    y,
                ) == Some(hits[h])
            &&& forall|i: int|
                0 <= i < n && (#[trigger] transcript::hitbox_of(ranges, i, offset, viewport, y))
                    is Some ==> hits.contains(
                    transcript::hitbox_of(ranges, i, offset, viewport, y)->0,
                )
        }),
    decreases n,
{
    if n > 0 {
        lemma_hits(ranges, n - 1, offset, viewport, y);
        let before = transcript::hitboxes_of(ranges, n - 1, offset, viewport, y);
        let hits = transcript::hitboxes_of(ranges, n, offset, viewport, y);
        assert forall|i: int|
            0 <= i < n && (#[trigger] transcript::hitbox_of(ranges, i, offset, viewport, y))
                is Some implies hits.contains(
            transcript::hitbox_of(ranges, i, offset, viewport, y)->0,
        ) by {
            let hit = transcript::hitbox_of(ranges, i, offset, viewport, y)->0;
            if i < n - 1 {
                let h = choose|h: int| 0 <= h < before.len() && before[h] == hit;
                assert(hits[h] == hit);
            } else {
                assert(hits[hits.len() - 1] == hit);
            }
        }
    }
}

/// Every visible line can be clicked and leads to its row, and to no other;
/// a row can be clicked by its header where that is visible.
pub proof fn visible_lines_lead_to_their_row(
    ranges: Seq<(usize, usize)>,
    offset: int,
    viewport: int,
    y: u16,
    line: int,
)
    requires
        ranges.len() <= usize::MAX,
        0 <= offset,
        1 <= viewport,
        offset + viewport <= usize::MAX,
        y + viewport <= u16::MAX,
        offset <= line < offset + viewport,
    ensures
        ({
            let hits = transcript::hitboxes_of(ranges, ranges.len() as int, offset, viewport, y);
            &&& forall|h: int|
                0 <= h < hits.len() ==> {
                    let hit = #[trigger] hits[h];
                    let range = ranges[hit.entry as int];
                    &&& hit.entry < ranges.len()
                    &&& covers(hit, y as int, offset, line) <==> line_shows(
                        range,
                        offset,
                        viewport,
                        line,
                    )
                    &&& hit.header is Some <==> range.0 >= offset
                    &&& hit.header matches Some(row) ==> row == y + range.0 - offset
                }
            &&& forall|i: int|
                0 <= i < ranges.len() && line_shows(#[trigger] ranges[i], offset, viewport, line)
                    ==> leads_to(hits, i, y as int, offset, line)
        }),
{
    let hits = transcript::hitboxes_of(ranges, ranges.len() as int, offset, viewport, y);
    lemma_hits(ranges, ranges.len() as int, offset, viewport, y);
    assert forall|h: int| 0 <= h < hits.len() implies {
        let hit = #[trigger] hits[h];
        let range = ranges[hit.entry as int];
        &&& hit.entry < ranges.len()
        &&& covers(hit, y as int, offset, line) <==> line_shows(range, offset, viewport, line)
        &&& hit.header is Some <==> range.0 >= offset
        &&& hit.header matches Some(row) ==> row == y + range.0 - offset
    } by {
        lemma_hitbox(ranges, hits[h].entry as int, offset, viewport, y, line);
    }
    assert forall|i: int|
        0 <= i < ranges.len() && line_shows(
            #[trigger] ranges[i],
            offset,
            viewport,
            line,
        ) implies leads_to(hits, i, y as int, offset, line) by {
        lemma_hitbox(ranges, i, offset, viewport, y, line);
        let hit = transcript::hitbox_of(ranges, i, offset, viewport, y)->0;
        let h = choose|h: int| 0 <= h < hits.len() && hits[h] == hit;
        assert(hits[h].entry == i && covers(hits[h], y as int, offset, line));
    }
}

/// Whether a click on line `line` finds row `i`.
pub open spec fn leads_to(hits: Seq<Hitbox>, i: int, y: int, offset: int, line: int) -> bool {
    exists|h: int|
        0 <= h < hits.len() && (#[trigger] hits[h]).entry == i && covers(hits[h], y, offset, line)
}

/// A viewport that follows the tail ends with the last line; one that follows
/// neither the tail nor the selection stays.
pub proof fn tails_are_followed(
    current: int,
    follow: bool,
    selected: Option<int>,
    total: int,
    viewport: int,
)
    requires
        0 <= current,
        0 <= total,
        1 <= viewport,
        selected matches Some(line) ==> 0 <= line < total,
    ensures
        ({
            let offset = transcript::viewport_at(current, follow, selected, total, viewport);
            &&& follow && viewport <= total ==> offset + viewport == total
            &&& follow && total < viewport ==> offset == 0
            &&& !follow && current + viewport <= total && (selected is None || current
                <= selected->0 < current + viewport) ==> offset == current
            &&& !follow && current + viewport <= total && selected is Some && selected->0 < current
                ==> offset == selected->0
            &&& !follow && current + viewport <= total && selected is Some && selected->0
                >= current + viewport ==> offset + viewport == selected->0 + 1
        }),
{
}

/// A row that is opened comes into view: a tall one with its header near the
/// top, any other whole, with the line below it where the header leaves room.
pub proof fn opened_rows_come_into_view(start: int, end: int, viewport: int, total: int)
    requires
        0 <= start <= end < total < usize::MAX - 1,
        1 <= viewport <= total,
    ensures
        ({
            let offset = transcript::reveal_offset(start, end, viewport, total);
            let tall = end - start + 1 > viewport;
            &&& 0 <= offset <= total - viewport
            &&& tall && start + viewport <= total ==> offset <= start <= offset + 2
            &&& tall && 2 <= start && start + viewport <= total + 2 ==> start == offset + 2
            &&& !tall ==> offset <= start && end < offset + viewport
            &&& !tall && end - start + 1 < viewport && end + 1 < total ==> end + 1 < offset
                + viewport
            &&& !tall && end + 2 <= viewport ==> offset == 0
            &&& !tall && end - start + 1 < viewport && viewport <= end + 2 <= total ==> offset
                + viewport == end + 2
        }),
{
}

/// The text of the pane keeps two columns free on either side.
pub proof fn panes_keep_their_margins(area: Rect)
    requires
        area.x + area.width <= u16::MAX,
        area.width >= 4,
    ensures
        ({
            let inner = transcript::inner_area(area);
            &&& inner.x == area.x + 2
            &&& inner.x + inner.width + 2 == area.x + area.width
            &&& inner.y == area.y && inner.height == area.height
        }),
{
}

proof fn lemma_runs_show(
    parts: Seq<Seq<char>>,
    at: nat,
    n: int,
    from: int,
    to: int,
    style: TextStyle,
    x: int,
)
    requires
        0 <= x < n <= parts.len(),
    ensures
        ({
            let r = styling::runs(parts, at, n, from, to, style);
            &&& r.len() > 0
            &&& r.last().style == styling::shown(style, styling::picked(parts, at, n - 1, from, to))
            &&& markdown_laws::shows_ink(
                r,
                Ink {
                    text: parts[x],
                    style: styling::shown(style, styling::picked(parts, at, x, from, to)),
                },
            )
        }),
    decreases n,
{
    let r = styling::runs(parts, at, n, from, to, style);
    let before = styling::runs(parts, at, n - 1, from, to, style);
    let now = styling::picked(parts, at, n - 1, from, to);
    let none = Seq::<char>::empty();
    let last = r.len() - 1;
    let ink = Ink {
        text: parts[x],
        style: styling::shown(style, styling::picked(parts, at, x, from, to)),
    };
    if n > 1 {
        lemma_runs_show(
            parts,
            at,
            n - 1,
            from,
            to,
            style,
            if x < n - 1 {
                x
            } else {
                0
            },
        );
    }
    let joined = n > 1 && styling::picked(parts, at, n - 2, from, to) == now;
    if x == n - 1 {
        let head = if joined {
            before.last().text
        } else {
            none
        };
        text_laws::containing_is_having_inside(head, parts[x], none);
        assert(head + parts[x] + none =~= r[last].text);
        assert(r[last].style == ink.style && text::contains(r[last].text, ink.text));
    } else {
        let i = choose|i: int|
            0 <= i < before.len() && (#[trigger] before[i]).style == ink.style && text::contains(
                before[i].text,
                ink.text,
            );
        if joined && i == before.len() - 1 {
            let (a, b) = text_laws::contained_texts_have_surroundings(before[i].text, ink.text);
            text_laws::containing_is_having_inside(a, ink.text, b + parts[n - 1]);
            assert(a + ink.text + (b + parts[n - 1]) =~= r[i].text);
            assert(r[i].style == ink.style && text::contains(r[i].text, ink.text));
        } else {
            assert(r[i] == before[i]);
        }
    }
}

proof fn lemma_split_shows(spans: Seq<Ink>, n: int, from: int, to: int, s: int, x: int)
    requires
        0 <= s < n <= spans.len(),
        0 <= x < cells::clusters(spans[s].text).len(),
    ensures
        ({
            let parts = cells::clusters(spans[s].text);
            let at = styling::span_start(spans, s);
            markdown_laws::shows_ink(
                styling::split_runs(spans, n, from, to),
                Ink {
                    text: parts[x],
                    style: styling::shown(
                        spans[s].style,
                        styling::picked(parts, at, x, from, to),
                    ),
                },
            )
        }),
    decreases n,
{
    let parts = cells::clusters(spans[s].text);
    let at = styling::span_start(spans, s);
    let ink = Ink {
        text: parts[x],
        style: styling::shown(spans[s].style, styling::picked(parts, at, x, from, to)),
    };
    let before = styling::split_runs(spans, n - 1, from, to);
    let last = cells::clusters(spans[n - 1].text);
    let more = styling::runs(
        last,
        styling::span_start(spans, n - 1),
        last.len() as int,
        from,
        to,
        spans[n - 1].style,
    );
    if s < n - 1 {
        lemma_split_shows(spans, n - 1, from, to, s, x);
    } else {
        lemma_runs_show(parts, at, parts.len() as int, from, to, spans[s].style, x);
    }
    markdown_laws::lemma_more_shows(before, more, ink);
}

/// A drag shows what it covers: of the rows from its first to its last, each
/// cluster that reaches into its columns is reversed, and no other is.
pub proof fn dragged_cells_are_reversed(
    line: Strip,
    row: int,
    start: CellPos,
    end: CellPos,
    s: int,
    x: int,
)
    requires
        0 <= s < line.spans.len(),
        0 <= x < cells::clusters(line.spans[s].text).len(),
    ensures
        ({
            let parts = cells::clusters(line.spans[s].text);
            let at = styling::span_start(line.spans, s);
            let left = cells::cell_offset(parts, at, x);
            let right = cells::cell_offset(parts, at, x + 1);
            let shown = styling::selected_strip(line, row, Some((start, end)));
            let style = line.spans[s].style;
            let within = (row == end.row ==> left <= end.col) && (row == start.row ==> right
                > start.col) && left <= usize::MAX && right > 0;
            &&& row < start.row || end.row < row ==> shown == line
            &&& start.row <= row <= end.row && within ==> markdown_laws::shows_ink(
                shown.spans,
                Ink { text: parts[x], style: style.with(styling::REVERSED) },
            )
            &&& start.row <= row <= end.row && !within ==> markdown_laws::shows_ink(
                shown.spans,
                Ink { text: parts[x], style },
            )
        }),
{
    if start.row <= row <= end.row {
        let (from, to) = styling::covered(start, end, row);
        lemma_split_shows(line.spans, line.spans.len() as int, from, to, s, x);
    }
}

proof fn lemma_fit(s: Seq<char>, i: int, used: nat, width: nat)
    requires
        0 <= i <= s.len(),
        used + 1 <= width,
    ensures
        ({
            let n = cells::fit_count(s, i, used, width);
            &&& i <= n <= s.len()
            &&& used + cells_of(s, i, n) + 1 <= width
            &&& n < s.len() ==> used + cells_of(s, i, n + 1) + 1 > width
        }),
    decreases s.len() - i,
{
    if i < s.len() && used + cells::cells(s[i]) + 1 <= width {
        lemma_fit(s, i + 1, used + cells::cells(s[i]), width);
    } else if i < s.len() {
        assert(cells_of(s, i + 1, i + 1) == 0);
    }
}

/// Cells that the characters `i..j` take.
pub open spec fn cells_of(s: Seq<char>, i: int, j: int) -> nat
    decreases j - i,
{
    if i >= j {
        0
    } else {
        cells::cells(s[i]) + cells_of(s, i + 1, j)
    }
}

/// A text that fits is not cut. One that does not fit keeps as much of its
/// beginning as leaves a cell for the ellipsis behind it.
pub proof fn cut_texts_keep_their_beginning(s: Seq<char>, width: nat) -> (n: int)
    ensures
        0 <= n <= s.len(),
        ({
            let cut = cells::elided_end(s, width);
            &&& cells::text_width(s) <= width ==> cut == s
            &&& cells::text_width(s) > width && width == 0 ==> cut == Seq::<char>::empty()
            &&& cells::text_width(s) > width && width >= 1 ==> {
                &&& cut == s.take(n) + seq!['…']
                &&& cells_of(s, 0, n) + 1 <= width
                &&& width >= 2 && n < s.len() ==> cells_of(s, 0, n + 1) + 1 > width
            }
        }),
{
    if cells::text_width(s) > width && width >= 2 {
        lemma_fit(s, 0, 0, width);
        let n = cells::fit_count(s, 0, 0, width);
        assert(s.take(n).push('…') =~= s.take(n) + seq!['…']);
        n
    } else {
        assert(s.take(0) + seq!['…'] =~= seq!['…']);
        0
    }
}

proof fn lemma_suffix(s: Seq<char>, n: int, used: nat, width: nat)
    requires
        0 <= n <= s.len(),
    ensures
        0 <= cells::suffix_start(s, n, used, width) <= n,
    decreases n,
{
    if 0 < n && used + cells::cells(s[n - 1]) <= width {
        lemma_suffix(s, n - 1, used + cells::cells(s[n - 1]), width);
    }
}

proof fn lemma_dropped(s: Seq<char>, n: int, c: char)
    requires
        0 <= n <= s.len(),
    ensures
        0 <= cells::drop_trailing(s, n, c) <= n,
    decreases n,
{
    if 0 < n && s[n - 1] == c {
        lemma_dropped(s, n - 1, c);
    }
}

/// A text cut in its middle still begins and ends as it did, with an ellipsis
/// between.
pub proof fn texts_cut_in_the_middle_keep_both_ends(s: Seq<char>, width: nat) -> (ends: (int, int))
    requires
        cells::text_width(s) > width,
        width >= 2,
        cells::text_width(s) > 1,
    ensures
        0 <= ends.0 <= s.len(),
        0 <= ends.1 <= s.len(),
        cells::elided_middle(s, width) == s.take(ends.0) + seq!['…'] + s.skip(ends.1),
{
    let left = ((width - 1) / 2) as nat;
    let right = (width - left - 1) as nat;
    let n = cut_texts_keep_their_beginning(s, left + 1);
    let head = cells::elided_end(s, left + 1);
    let kept = cells::drop_trailing(head, head.len() as int, '…');
    assert(left + 1 < cells::text_width(s));
    assert(head == s.take(n) + seq!['…']);
    lemma_dropped(head, head.len() as int, '…');
    assert(head[head.len() - 1] == '…');
    lemma_dropped(head, head.len() - 1, '…');
    let m = cells::suffix_start(s, s.len() as int, 0, right);
    lemma_suffix(s, s.len() as int, 0, right);
    assert(head.take(kept) =~= s.take(kept));
    assert(head.take(kept).push('…') =~= s.take(kept) + seq!['…']);
    (kept, m)
}

} // verus!
