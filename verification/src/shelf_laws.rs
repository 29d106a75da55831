//! What the frame around the conversation shows: the header, the palette and
//! its highlight, queued messages, notices and the input.

use crate::cells;
use crate::desk;
use crate::desk::{Desk, Hint, Steer};
use crate::selection::Rect;
use crate::shelf;
use crate::shelf::ShelfView;
use crate::styling;
use crate::styling::Strip;
use crate::text;
use crate::text_laws;
use vstd::prelude::*;

verus! {

proof fn lemma_four(line: Strip)
    requires
        line.spans.len() == 4,
    ensures
        line.text() == line.spans[0].text + line.spans[1].text + line.spans[2].text
            + line.spans[3].text,
{
    let all = line.spans;
    assert(styling::ink_text(all, 0) =~= Seq::empty());
    assert(styling::ink_text(all, 1) =~= all[0].text);
    assert(styling::ink_text(all, 2) =~= all[0].text + all[1].text);
    assert(styling::ink_text(all, 3) =~= all[0].text + all[1].text + all[2].text);
    assert(styling::ink_text(all, 4) =~= all[0].text + all[1].text + all[2].text + all[3].text);
}

proof fn lemma_two(line: Strip)
    requires
        line.spans.len() == 2,
    ensures
        line.text() == line.spans[0].text + line.spans[1].text,
{
    let all = line.spans;
    assert(styling::ink_text(all, 0) =~= Seq::empty());
    assert(styling::ink_text(all, 1) =~= all[0].text);
    assert(styling::ink_text(all, 2) =~= all[0].text + all[1].text);
}

proof fn lemma_one(line: Strip)
    requires
        line.spans.len() == 1,
    ensures
        line.text() == line.spans[0].text,
{
    let all = line.spans;
    assert(styling::ink_text(all, 0) =~= Seq::empty());
    assert(styling::ink_text(all, 1) =~= all[0].text);
}

/// A row of a palette shows its label behind a mark, which only the
/// highlighted row has, and as much of its detail as there is room for.
pub proof fn palette_rows_show_their_hint(hint: Hint, selected: bool, width: int, spinner: char)
    requires
        !hint.running,
        cells::text_width(hint.detail) + 6 + cells::text_width(hint.label) <= width,
    ensures
        ({
            let line = shelf::hint_line(hint, selected, width, spinner);
            &&& line.text() == seq![
                ' ',
                if selected {
                    '›'
                } else {
                    ' '
                },
                ' ',
            ] + hint.label + seq![' ', ' '] + hint.detail
            &&& selected <==> line.style.bg is Some
        }),
{
    let line = shelf::hint_line(hint, selected, width, spinner);
    lemma_four(line);
    reveal_strlit(" › ");
    reveal_strlit("   ");
    reveal_strlit("  ");
    assert(line.spans[0].text =~= seq![
        ' ',
        if selected {
            '›'
        } else {
            ' '
        },
        ' ',
    ]);
    assert(line.spans[2].text =~= seq![' ', ' ']);
}

/// The first dot of a running label turns into the spinner; nothing else of
/// it changes.
pub proof fn running_labels_spin(label: Seq<char>, spinner: char, i: int, k: int)
    requires
        0 <= i < label.len(),
        label[i] == '●',
        forall|j: int| 0 <= j < i ==> label[j] != '●',
        0 <= k < label.len(),
    ensures
        shelf::spun(label, spinner).len() == label.len(),
        shelf::spun(label, spinner)[k] == if k == i {
            spinner
        } else {
            label[k]
        },
{
    text::lemma_index_is(label, 0, i, '●');
}

/// Where in the palette row `i` stands and what heads it: each hint has one
/// row, below those before it, and the name of its provider stands above it
/// where that of the hint before is another.
pub proof fn palettes_list_every_hint(
    hints: Seq<Hint>,
    n: int,
    selected: int,
    width: int,
    spinner: char,
    i: int,
)
    requires
        0 <= i < n <= hints.len(),
    ensures
        ({
            let lines = shelf::palette_lines(hints, n, selected, width, spinner);
            let row = shelf::hint_row(hints, i, selected, width, spinner);
            let headed = hints[i].provider is Some && (i == 0 || hints[i - 1].provider
                != hints[i].provider);
            let before = if i == 0 {
                -1
            } else {
                shelf::hint_row(hints, i - 1, selected, width, spinner)
            };
            &&& 0 <= row < lines.len()
            &&& lines[row] == shelf::hint_line(hints[i], i == selected, width, spinner)
            &&& row == before + if headed {
                2int
            } else {
                1
            }
            &&& headed ==> lines[row - 1].text() == seq![' ', ' ', ' '] + hints[i].provider->0
            &&& i == n - 1 ==> lines.len() == row + 1
        }),
    decreases n,
{
    let lines = shelf::palette_lines(hints, n, selected, width, spinner);
    let row = shelf::hint_row(hints, i, selected, width, spinner);
    if i < n - 1 {
        palettes_list_every_hint(hints, n - 1, selected, width, spinner, i);
        let fewer = shelf::palette_lines(hints, n - 1, selected, width, spinner);
        assert(lines[row] == fewer[row]);
        if row > 0 {
            assert(lines[row - 1] == fewer[row - 1]);
        }
    } else {
        let heading = shelf::hint_heading(hints, i);
        let fewer = shelf::palette_lines(hints, i, selected, width, spinner);
        assert(lines =~= (fewer + heading).push(
            shelf::hint_line(hints[i], i == selected, width, spinner),
        ));
        assert(row == fewer.len() + heading.len());
        assert(i > 0 ==> shelf::hint_row(hints, i - 1, selected, width, spinner) == fewer.len()
            - 1);
        if heading.len() > 0 {
            assert(lines[row - 1] == heading[0]);
            lemma_one(heading[0]);
            reveal_strlit("   ");
            assert("   "@ =~= seq![' ', ' ', ' ']);
        }
    }
}

/// The highlighted row of a palette is in view.
pub proof fn highlights_stay_in_view(
    view: ShelfView,
    desk: Desk,
    hints: Seq<Hint>,
    inner: Rect,
    spinner: char,
)
    requires
        shelf::shelf_shown(view, desk, hints, inner, spinner),
        view.palette is Some,
        0 <= desk.suggestion < hints.len(),
        shelf::palette_lines(
            hints,
            hints.len() as int,
            desk.suggestion,
            view.palette_area.width as int,
            spinner,
        ).len() <= u16::MAX,
    ensures
        ({
            let row = shelf::hint_row(
                hints,
                desk.suggestion,
                desk.suggestion,
                view.palette_area.width as int,
                spinner,
            );
            view.palette->0.scroll <= row < view.palette->0.scroll + view.palette_area.height
        }),
{
    palettes_list_every_hint(
        hints,
        hints.len() as int,
        desk.suggestion,
        view.palette_area.width as int,
        spinner,
        desk.suggestion,
    );
}

/// Queued messages are listed in the order they were sent; where there is no
/// room for all, the last row counts those that are not shown.
pub proof fn queued_messages_are_listed(steers: Seq<Steer>, area: Rect, i: int)
    requires
        area.height >= 1,
        0 <= i < steers.len(),
    ensures
        ({
            let lines = shelf::steer_lines(steers, area);
            let all = steers.len() <= area.height;
            let shown = if all {
                steers.len() as int
            } else {
                area.height - 1
            };
            let message = text::squash(steers[i].text);
            let room = area.width - cells::text_width("   pending steer  "@);
            &&& lines.len() == if all {
                steers.len() as int
            } else {
                area.height as int
            }
            &&& i < shown && cells::text_width(message) <= room ==> lines[i].text()
                == "   pending steer  "@ + message
            &&& !all ==> lines[shown].text() == "   +"@ + text::decimal(
                (steers.len() - shown) as nat,
            ) + " more queued"@
        }),
{
    let lines = shelf::steer_lines(steers, area);
    let shown = shelf::steers_shown(steers.len() as int, area.height as int);
    let message = text::squash(steers[i].text);
    reveal_strlit("   ");
    reveal_strlit("pending steer");
    reveal_strlit("  ");
    reveal_strlit("   pending steer  ");
    if i < shown {
        lemma_four(lines[i]);
        assert("   "@ + "pending steer"@ + "  "@ =~= "   pending steer  "@);
        assert("   "@ + "pending steer"@ + "  "@ + lines[i].spans[3].text
            =~= "   pending steer  "@ + lines[i].spans[3].text);
    }
    if steers.len() > shown {
        lemma_one(lines[shown]);
    }
}

/// A pending interruption is announced before anything else, then the notice,
/// then how to delete a session; otherwise there is no notice.
pub proof fn notices_are_shown(desk: Desk)
    ensures
        ({
            let notice = shelf::notice_of(desk);
            let warning = seq![' ', ' ', ' ', '!', ' '];
            &&& desk.deadline is Some ==> notice is Some && notice->0.text() == warning
                + "Press Esc again to stop the current run"@
            &&& desk.deadline is None && desk.notice is Some ==> notice is Some
                && notice->0.text() == warning + desk.notice->0
            &&& desk.deadline is None && desk.notice is None && desk.session_open() ==> notice
                is Some && notice->0.text() == seq![' ', ' ', ' ']
                + "ctrl+d delete the highlighted session"@
            &&& desk.deadline is None && desk.notice is None && !desk.session_open() ==> notice
                is None
        }),
{
    reveal_strlit("   ! ");
    reveal_strlit("   ");
    assert("   ! "@ =~= seq![' ', ' ', ' ', '!', ' ']);
    assert("   "@ =~= seq![' ', ' ', ' ']);
    if let Some(line) = shelf::notice_of(desk) {
        if desk.deadline is Some || desk.notice is Some {
            lemma_two(line);
        } else {
            lemma_one(line);
        }
    }
}

/// The shelf shows the rows of the input from its scroll position on; the
/// first row of the text has the mark.
pub proof fn inputs_show_their_rows(rows: Seq<Seq<char>>, scroll: int, height: int, i: int)
    requires
        0 <= scroll < rows.len(),
        1 <= height,
        0 <= i < height,
        scroll + i < rows.len(),
    ensures
        ({
            let lines = shelf::input_lines(rows, scroll, height);
            &&& i < lines.len() <= height
            &&& lines[i].text() == seq![
                ' ',
                if scroll + i == 0 {
                    '›'
                } else {
                    ' '
                },
                ' ',
            ] + rows[scroll + i]
        }),
{
    let lines = shelf::input_lines(rows, scroll, height);
    lemma_two(lines[i]);
    reveal_strlit(" › ");
    reveal_strlit("   ");
    assert(lines[i].spans[0].text =~= seq![
        ' ',
        if scroll + i == 0 {
            '›'
        } else {
            ' '
        },
        ' ',
    ]);
}

/// The caret stands at its column behind the mark, on the row of the text
/// that holds it.
pub proof fn carets_stand_behind_the_mark(desk: Desk, inner: Rect, scroll: int, area: Rect)
    requires
        ({
            let (row, column) = desk.input.positions(
                shelf::input_cells(inner.width) as nat,
            )[desk.input.at()];
            &&& 0 <= scroll <= row < scroll + area.height
            &&& area.x + 3 + column <= u16::MAX
            &&& area.y + area.height <= u16::MAX
        }),
    ensures
        ({
            let (row, column) = desk.input.positions(
                shelf::input_cells(inner.width) as nat,
            )[desk.input.at()];
            shelf::caret_cell(desk, inner, scroll, area) == (
                (area.x + 3 + column) as u16,
                (area.y + row - scroll) as u16,
            )
        }),
{
}

/// The title of the shelf tells whether the agent is at work, and how much of
/// the context its conversation fills: never more than all of it.
pub proof fn titles_tell_the_context(desk: Desk)
    ensures
        ({
            let title = shelf::shelf_title(desk);
            let label = if desk.busy {
                " working "@
            } else {
                " message "@
            };
            let window = shelf::window_of(desk) as int;
            let tokens = desk.conv.context_tokens;
            let used = if tokens is Some && tokens->0 <= window {
                tokens->0 as int
            } else {
                window
            };
            &&& text::starts_with(title, label)
            &&& tokens is None || window == 0 ==> title == label
            &&& tokens is Some && 0 < window && window * 100 <= u64::MAX ==> title == label + ("("@
                + text::decimal((used * 100 / window) as nat) + "% · "@ + text::decimal(
                ((used + 500) / 1000) as nat,
            ) + "k/"@ + text::decimal(((window + 500) / 1000) as nat) + "k) "@) && used * 100
                / window <= 100
        }),
{
    let title = shelf::shelf_title(desk);
    let label = if desk.busy {
        " working "@
    } else {
        " message "@
    };
    let window = shelf::window_of(desk) as int;
    let tokens = desk.conv.context_tokens;
    assert(title.take(label.len() as int) =~= label);
    if tokens is Some && 0 < window && window * 100 <= u64::MAX {
        let used = if tokens->0 <= window {
            tokens->0 as int
        } else {
            window
        };
        assert(used * 100 / window <= 100) by (nonlinear_arith)
            requires
                0 <= used <= window,
                0 < window,
        ;
    }
}

/// The header names the agent, its model, its effort, the session and what
/// the agent is doing; on the left is the directory, whole where it fits.
pub proof fn headers_name_the_conversation(desk: Desk, width: u16)
    ensures
        text::starts_with(shelf::header_right(desk), desk.current),
        text::contains(shelf::header_right(desk), shelf::header_model(desk)),
        text::contains(shelf::header_right(desk), shelf::header_effort(desk)),
        text::contains(
            shelf::header_right(desk),
            seq!['#'] + text::decimal(desk.session_id as nat),
        ),
        text::ends_with(shelf::header_right(desk), desk.conv.status),
        cells::text_width(desk.cwd) + cells::text_width(shelf::header_right(desk)) + 10 <= width
            ==> shelf::header_left(desk, width) == desk.cwd,
{
    let model = shelf::header_model(desk);
    let effort = shelf::header_effort(desk);
    let number = text::decimal(desk.session_id as nat);
    let status = desk.conv.status;
    let all = shelf::header_right(desk);
    let dot = "  ·  "@;
    let mark = " effort  ·  #"@;
    assert(all.take(desk.current.len() as int) =~= desk.current);
    text_laws::containing_is_having_inside(
        desk.current + dot,
        model,
        dot + effort + mark + number + dot + status,
    );
    assert(all =~= desk.current + dot + model + (dot + effort + mark + number + dot + status));
    text_laws::containing_is_having_inside(
        desk.current + dot + model + dot,
        effort,
        mark + number + dot + status,
    );
    assert(all =~= desk.current + dot + model + dot + effort + (mark + number + dot + status));
    reveal_strlit(" effort  ·  #");
    let lead = mark.take(mark.len() - 1);
    assert(mark =~= lead + seq!['#']);
    text_laws::containing_is_having_inside(
        desk.current + dot + model + dot + effort + lead,
        seq!['#'] + number,
        dot + status,
    );
    assert(all =~= desk.current + dot + model + dot + effort + lead + (seq!['#'] + number) + (dot
        + status));
    assert(all.skip(all.len() - status.len()) =~= status);
}

proof fn lemma_model(desk: Desk, i: int, from: int)
    requires
        0 <= from <= i < desk.models.len(),
        forall|j: int|
            from <= j < i ==> (#[trigger] desk.models[j]).registry_id@
                != desk.models[i].registry_id@,
    ensures
        desk::model_index(desk.models, from, desk.models[i].registry_id@) == Some(i),
    decreases i - from,
{
    if from < i {
        assert(desk.models[from].registry_id@ != desk.models[i].registry_id@);
        lemma_model(desk, i, from + 1);
    }
}

/// The header shows the model and effort that the agent works with: at the
/// root those selected, elsewhere those of its own model.
pub proof fn headers_show_the_model_in_use(desk: Desk, i: int)
    requires
        0 <= i < desk.models.len(),
        forall|j: int|
            0 <= j < i ==> (#[trigger] desk.models[j]).registry_id@
                != desk.models[i].registry_id@,
        desk.current == desk::root() ==> desk.selected_model == i,
        desk.current != desk::root() ==> desk.conv.model == Some(desk.models[i].registry_id@),
    ensures
        shelf::header_model(desk) == desk.models[i].display_name@,
        shelf::header_effort(desk) == desk.models[i].efforts@[desk.efforts[i] as int]@,
        shelf::window_of(desk) == desk.models[i].context_window,
{
    lemma_model(desk, i, 0);
}

/// The drawer has a row for each agent and one for its border where it may
/// take that many; folded up it keeps two, and else none.
pub proof fn drawers_have_a_row_for_each_agent(area: Rect, open: bool, collapsed: bool, rows: int)
    requires
        1 <= rows,
    ensures
        ({
            let height = shelf::drawer_height(area, open, collapsed, rows);
            &&& open && rows + 1 <= area.height - 6 && (rows + 1) * 5 <= area.height * 2 ==> height
                == rows + 1
            &&& open && 8 <= area.height ==> 2 <= height <= area.height - 6
            &&& !open && collapsed ==> height == 2
            &&& !open && !collapsed ==> height == 0
        }),
{
}

/// Room on the shelf goes to a warning first, then to the input, a hint, the
/// queued messages, and what is left to the palette; none is used twice, and
/// without a warning none is lost.
pub proof fn shelves_share_their_room(desk: Desk, inner: Rect)
    requires
        inner.height >= 2,
    ensures
        ({
            let h = shelf::shelf_heights(desk, inner);
            let rows = desk.input.rows(shelf::input_cells(inner.width) as nat).len() as int;
            let warned = desk.deadline is Some || desk.notice is Some;
            &&& h.palette + h.steers + h.notice + h.input <= inner.height
            &&& !warned && !desk.agents_open() ==> h.palette + h.steers + h.notice + h.input
                == inner.height
            &&& desk.agents_open() ==> h.palette == 0
            &&& h.input >= 1
            &&& warned ==> h.notice == 1
            &&& 1 <= rows && rows + (if warned {
                1int
            } else {
                0
            }) <= inner.height ==> h.input == rows
            &&& h.steers <= 3 && h.steers <= desk.steers.len()
            &&& 1 <= rows && rows + 2 + desk.steers.len() <= inner.height && desk.steers.len() <= 3
                ==> h.steers == desk.steers.len()
            &&& !warned && !desk.session_open() ==> h.notice == 0
        }),
{
}

/// The shelf is as tall as what it holds, down to its border, within two
/// fifths of the screen.
pub proof fn shelves_hold_what_they_show(area: Rect, desk: Desk, hints: Seq<Hint>)
    requires
        grouped(hints),
    ensures
        ({
            let height = shelf::shelf_rows(area, desk, hints) as int;
            let rows = desk.input.rows(shelf::input_cells(area.width) as nat).len() as int;
            let steers = if desk.steers.len() <= 3 {
                desk.steers.len() as int
            } else {
                3
            };
            let noted = desk.deadline is Some || desk.notice is Some || desk.session_open();
            let listed = if desk.agents_open() {
                0
            } else {
                shelf::palette_lines(hints, hints.len() as int, 0, 0, ' ').len() as int
            };
            let wanted = 1 + rows + steers + listed + if noted {
                1int
            } else {
                0
            };
            &&& 2 <= wanted <= 3 || (2 <= wanted && wanted * 5 <= area.height * 2) ==> height
                == wanted
            &&& 3 <= wanted && 3 <= area.height * 2 / 5 ==> 3 <= height <= area.height * 2 / 5
        }),
{
    lemma_runs_are_headings(hints, hints.len() as int, 0, 0, ' ');
}

proof fn lemma_runs_are_headings(
    hints: Seq<Hint>,
    n: int,
    selected: int,
    width: int,
    spinner: char,
)
    requires
        0 <= n <= hints.len(),
        grouped(hints),
    ensures
        shelf::palette_lines(hints, n, selected, width, spinner).len() == n + shelf::provider_runs(
            hints,
            n,
        ).0,
        shelf::provider_runs(hints, n).1 == if n > 0 {
            hints[n - 1].provider
        } else {
            None
        },
    decreases n,
{
    if n > 0 {
        lemma_runs_are_headings(hints, n - 1, selected, width, spinner);
        assert(hints[n - 1].provider is Some || hints[n - 1].provider is None);
        if n > 1 {
            assert(hints[n - 2].provider is Some || hints[n - 2].provider is None);
        }
    }
}

/// Whether all rows of a palette name a provider, or none does.
pub open spec fn grouped(hints: Seq<Hint>) -> bool {
    (forall|i: int| 0 <= i < hints.len() ==> (#[trigger] hints[i]).provider is Some) || (forall|
        i: int,
    |
        0 <= i < hints.len() ==> (#[trigger] hints[i]).provider is None)
}

} // verus!
