//! What each key does to the input, the highlight and the selection.

use crate::cells;
use crate::conversation::{Entry, EntryKind};
use crate::desk;
use crate::desk::{Desk, Focus, Recall};
use crate::events::{KeyCode, KeyEvent, KeyEventKind};
use crate::history::Request;
use crate::input;
use crate::text;
use crate::text_laws;
use vstd::prelude::*;

verus! {

/// Whether a key acts on the focused input of a view.
pub open spec fn acts_on_input(d: Desk, key: KeyEvent) -> bool {
    d.wf() && d.focus == Focus::Input && key.kind != KeyEventKind::Release
}

/// Whether `after` is `before` but for the input and what a keystroke
/// dismisses: recall, highlight, drag selection, notices and armed guards.
pub open spec fn only_input_differs(after: Desk, before: Desk) -> bool {
    after == (Desk {
        input: after.input,
        recall: after.recall,
        suggestion: after.suggestion,
        selection: None,
        armed: None,
        notice: None,
        deadline: None,
        ..before
    })
}

/// Backspace removes the character before the cursor and steps back over it;
/// at the start of the text there is none.
pub proof fn backspace_removes_the_character_before_the_cursor(d: Desk, key: KeyEvent, now: u64)
    requires
        acts_on_input(d, key),
        key.code == KeyCode::Backspace,
    ensures
        ({
            let (after, request) = d.key(key, now);
            let at = d.input.cursor;
            &&& request is None
            &&& only_input_differs(after, d)
            &&& at > 0 ==> after.input.text == d.input.text.remove(at - 1) && after.input.cursor
                == at - 1
            &&& at == 0 ==> after.input.text == d.input.text && after.input.cursor == 0
        }),
{
    reveal(Desk::key);
    reveal(Desk::other_key);
    reveal(Desk::routed);
    reveal(Desk::input_key);
    reveal(Desk::edit_key);
    let at = d.input.cursor;
    if at > 0 {
        assert(d.input.text.take(at - 1) + d.input.text.skip(at) =~= d.input.text.remove(at - 1));
    }
}

/// Delete removes the character at the cursor, which stays; at the end of the
/// text there is none.
pub proof fn delete_removes_the_character_at_the_cursor(d: Desk, key: KeyEvent, now: u64)
    requires
        acts_on_input(d, key),
        key.code == KeyCode::Delete,
    ensures
        ({
            let (after, request) = d.key(key, now);
            let at = d.input.cursor;
            &&& request is None
            &&& only_input_differs(after, d)
            &&& after.input.cursor == at
            &&& at < d.input.text.len() ==> after.input.text == d.input.text.remove(at)
            &&& at == d.input.text.len() ==> after.input.text == d.input.text
        }),
{
    reveal(Desk::key);
    reveal(Desk::other_key);
    reveal(Desk::routed);
    reveal(Desk::input_key);
    reveal(Desk::edit_key);
    let at = d.input.cursor;
    if at < d.input.text.len() {
        assert(d.input.text.take(at) + d.input.text.skip(at + 1) =~= d.input.text.remove(at));
    }
}

/// A character key without control or alt types its character at the cursor,
/// and the cursor goes behind it.
pub proof fn character_keys_type_their_character(d: Desk, key: KeyEvent, c: char, now: u64)
    requires
        acts_on_input(d, key),
        key.code == KeyCode::Char(c),
        !key.modifiers.control && !key.modifiers.alt && !key.modifiers.other,
        d.input.cursor < usize::MAX,
    ensures
        ({
            let (after, request) = d.key(key, now);
            &&& request is None
            &&& only_input_differs(after, d)
            &&& after.input.text == d.input.text.insert(d.input.cursor, c)
            &&& after.input.cursor == d.input.cursor + 1
            &&& after.recall is None
            &&& after.suggestion == 0
        }),
{
    reveal(Desk::key);
    reveal(Desk::other_key);
    reveal(Desk::routed);
    reveal(Desk::input_key);
    reveal(Desk::character);
    let at = d.input.cursor;
    assert(d.input.text.take(at) + seq![c] + d.input.text.skip(at) =~= d.input.text.insert(at, c));
}

/// Typing a character and pressing Backspace gives back the text and the
/// cursor.
pub proof fn backspace_takes_back_what_was_typed(
    d: Desk,
    key: KeyEvent,
    c: char,
    back: KeyEvent,
    now: u64,
    later: u64,
)
    requires
        acts_on_input(d, key),
        key.code == KeyCode::Char(c),
        !key.modifiers.control && !key.modifiers.alt && !key.modifiers.other,
        back.code == KeyCode::Backspace,
        back.kind != KeyEventKind::Release,
        d.input.cursor < usize::MAX,
    ensures
        d.key(key, now).0.key(back, later).0.input.text == d.input.text,
        d.key(key, now).0.key(back, later).0.input.cursor == d.input.cursor,
{
    character_keys_type_their_character(d, key, c, now);
    let after = d.key(key, now).0;
    assert(after.wf());
    backspace_removes_the_character_before_the_cursor(after, back, later);
    assert(after.input.text.remove(d.input.cursor) =~= d.input.text);
}

/// Ctrl+J breaks the line at the cursor.
pub proof fn control_j_breaks_the_line(d: Desk, key: KeyEvent, now: u64)
    requires
        acts_on_input(d, key),
        key.code == KeyCode::Char('j'),
        key.modifiers.control && !key.modifiers.alt,
        d.input.cursor < usize::MAX,
    ensures
        ({
            let (after, request) = d.key(key, now);
            &&& request is None
            &&& only_input_differs(after, d)
            &&& after.input.text == d.input.text.insert(d.input.cursor, '\n')
            &&& after.input.cursor == d.input.cursor + 1
        }),
{
    reveal(Desk::key);
    reveal(Desk::other_key);
    reveal(Desk::routed);
    reveal(Desk::input_key);
    reveal(Desk::character);
    let at = d.input.cursor;
    assert(d.input.text.take(at) + seq!['\n'] + d.input.text.skip(at) =~= d.input.text.insert(
        at,
        '\n',
    ));
}

/// The cursor keys move one character or to an end of the text, and change no
/// text.
pub proof fn cursor_keys_move_the_cursor(d: Desk, key: KeyEvent, now: u64)
    requires
        acts_on_input(d, key),
        key.code == KeyCode::Left || key.code == KeyCode::Right || key.code == KeyCode::Home
            || key.code == KeyCode::End,
    ensures
        ({
            let (after, request) = d.key(key, now);
            let at = d.input.cursor;
            let n = d.input.text.len() as int;
            &&& request is None
            &&& only_input_differs(after, d)
            &&& after.input.text == d.input.text
            &&& key.code == KeyCode::Left ==> after.input.cursor == if at > 0 {
                at - 1
            } else {
                0
            }
            &&& key.code == KeyCode::Right ==> after.input.cursor == if at < n {
                at + 1
            } else {
                n
            }
            &&& key.code == KeyCode::Home ==> after.input.cursor == 0
            &&& key.code == KeyCode::End ==> after.input.cursor == n
        }),
{
    reveal(Desk::key);
    reveal(Desk::other_key);
    reveal(Desk::routed);
    reveal(Desk::input_key);
    reveal(Desk::edit_key);
}

proof fn lemma_line_bounds(s: Seq<char>, n: int)
    requires
        0 <= n <= s.len(),
    ensures
        ({
            let start = input::line_begin(s, n);
            &&& 0 <= start <= n
            &&& forall|k: int| start <= k < n ==> s[k] != '\n'
            &&& start > 0 ==> s[start - 1] == '\n'
        }),
    decreases n,
{
    if n > 0 && s[n - 1] != '\n' {
        lemma_line_bounds(s, n - 1);
    }
}

/// Ctrl+A goes to the start and Ctrl+E to the end of the line that holds the
/// cursor: no line break lies between, and one lies beyond unless the text
/// ends there.
pub proof fn control_a_and_e_go_to_the_ends_of_the_line(d: Desk, key: KeyEvent, now: u64)
    requires
        acts_on_input(d, key),
        key.code == KeyCode::Char('a') || key.code == KeyCode::Char('e'),
        key.modifiers.control && !key.modifiers.alt,
    ensures
        ({
            let (after, request) = d.key(key, now);
            let s = d.input.text;
            let at = d.input.cursor;
            let to = after.input.cursor;
            &&& request is None
            &&& only_input_differs(after, d)
            &&& after.input.text == s
            &&& 0 <= to <= s.len()
            &&& key.code == KeyCode::Char('a') ==> {
                &&& to <= at
                &&& forall|k: int| to <= k < at ==> s[k] != '\n'
                &&& to > 0 ==> s[to - 1] == '\n'
            }
            &&& key.code == KeyCode::Char('e') ==> {
                &&& at <= to
                &&& forall|k: int| at <= k < to ==> s[k] != '\n'
                &&& to < s.len() ==> s[to] == '\n'
            }
        }),
{
    reveal(Desk::key);
    reveal(Desk::other_key);
    reveal(Desk::routed);
    reveal(Desk::input_key);
    reveal(Desk::character);
    lemma_line_bounds(d.input.text, d.input.cursor);
    text::lemma_index_from(d.input.text, d.input.cursor, '\n');
}

/// Whether `to..m` is a word that no other character of it precedes, or
/// nothing, and `m..at` the whitespace behind it.
pub open spec fn is_word_and_gap(s: Seq<char>, to: int, m: int, at: int) -> bool {
    &&& 0 <= to <= m <= at <= s.len()
    &&& forall|k: int| m <= k < at ==> text::is_space(#[trigger] s[k])
    &&& forall|k: int| to <= k < m ==> !text::is_space(#[trigger] s[k])
    &&& m > 0 ==> !text::is_space(s[m - 1])
    &&& to > 0 ==> text::is_space(s[to - 1])
}

/// Ctrl+W removes the word before the cursor with the whitespace behind it,
/// and nothing else.
pub proof fn control_w_removes_the_word_before_the_cursor(d: Desk, key: KeyEvent, now: u64)
    requires
        acts_on_input(d, key),
        key.code == KeyCode::Char('w'),
        key.modifiers.control && !key.modifiers.alt,
    ensures
        ({
            let (after, request) = d.key(key, now);
            let s = d.input.text;
            let at = d.input.cursor;
            let to = after.input.cursor;
            &&& request is None
            &&& only_input_differs(after, d)
            &&& 0 <= to <= at
            &&& after.input.text == s.take(to) + s.skip(at)
            &&& exists|m: int| is_word_and_gap(s, to, m, at)
        }),
{
    reveal(Desk::key);
    reveal(Desk::other_key);
    reveal(Desk::routed);
    reveal(Desk::input_key);
    reveal(Desk::character);
    let s = d.input.text;
    let at = d.input.cursor;
    let m = text::rspan(s, at, true);
    text::lemma_rspan(s, at, true);
    text::lemma_rspan(s, m, false);
    let to = text::rspan(s, m, false);
    assert(at == 0 ==> s.take(0) + s.skip(0) =~= s);
    let after = d.key(key, now).0;
    assert(after.input.cursor == to);
    assert(is_word_and_gap(s, to, m, at));
}

/// A character key with control or alt that is no binding types nothing.
pub proof fn unbound_chords_type_nothing(d: Desk, key: KeyEvent, c: char, now: u64)
    requires
        acts_on_input(d, key),
        key.code == KeyCode::Char(c),
        key.modifiers.control || key.modifiers.alt || key.modifiers.other,
        key.modifiers.alt ==> c != 'a' && c != 'A' && c != 'm' && c != 'M',
        key.modifiers.control ==> c != 'j' && c != 'a' && c != 'e' && c != 'w' && c != 'c' && c
            != 'd',
    ensures
        ({
            let (after, request) = d.key(key, now);
            &&& request is None
            &&& only_input_differs(after, d)
            &&& after.input == d.input
        }),
{
    reveal(Desk::key);
    reveal(Desk::other_key);
    reveal(Desk::routed);
    reveal(Desk::input_key);
    reveal(Desk::character);
}

/// Ctrl+C clears the input, and leaves the program when there is nothing to
/// clear.
pub proof fn control_c_clears_or_leaves(d: Desk, key: KeyEvent, now: u64)
    requires
        key.kind != KeyEventKind::Release,
        key.code == KeyCode::Char('c'),
        key.modifiers.control,
    ensures
        ({
            let (after, request) = d.key(key, now);
            &&& request is None
            &&& d.input.text.len() == 0 ==> after.should_exit && after.input == d.input
            &&& d.input.text.len() > 0 ==> after.should_exit == d.should_exit
                && after.input.text.len() == 0 && after.input.cursor == 0
            &&& after.conv == d.conv && after.agents == d.agents && after.current == d.current
                && after.focus == d.focus
        }),
{
    reveal(Desk::key);
    reveal(Desk::other_key);
}

/// Alt+A opens the palette of agents and Alt+M that of models: the input has
/// the focus and holds the command, with the cursor behind it.
pub proof fn alt_keys_open_their_palette(d: Desk, key: KeyEvent, now: u64)
    requires
        key.kind == KeyEventKind::Press,
        key.modifiers.alt,
        !key.modifiers.control,
        key.code == KeyCode::Char('a') || key.code == KeyCode::Char('A') || key.code
            == KeyCode::Char('m') || key.code == KeyCode::Char('M'),
    ensures
        ({
            let (after, request) = d.key(key, now);
            let wanted = if key.code == KeyCode::Char('a') || key.code == KeyCode::Char('A') {
                "/agents "@
            } else {
                "/model "@
            };
            &&& request is None
            &&& after.focus == Focus::Input
            &&& after.input.text == wanted
            &&& after.input.cursor == wanted.len()
            &&& after.suggestion == 0
            &&& after.conv == d.conv && after.agents == d.agents && after.current == d.current
        }),
{
    reveal(Desk::key);
    reveal(Desk::other_key);
}

/// While a palette is open, Up and Down move its highlight to the row before
/// and behind it, around the ends; the input stays.
pub proof fn arrows_move_the_highlight_around(d: Desk, key: KeyEvent, now: u64)
    requires
        acts_on_input(d, key),
        key.code == KeyCode::Up || key.code == KeyCode::Down,
        d.suggestions().len() > 0,
        0 <= d.suggestion < d.suggestions().len(),
    ensures
        ({
            let (after, request) = d.key(key, now);
            let n = d.suggestions().len() as int;
            &&& request is None
            &&& only_input_differs(after, d)
            &&& after.input == d.input
            &&& 0 <= after.suggestion < n
            &&& key.code == KeyCode::Down ==> (d.suggestion < n - 1 ==> after.suggestion
                == d.suggestion + 1) && (d.suggestion == n - 1 ==> after.suggestion == 0)
            &&& key.code == KeyCode::Up ==> (d.suggestion > 0 ==> after.suggestion == d.suggestion
                - 1) && (d.suggestion == 0 ==> after.suggestion == n - 1)
        }),
{
    reveal(Desk::key);
    reveal(Desk::other_key);
    reveal(Desk::routed);
    reveal(Desk::input_key);
    reveal(Desk::up_or_down);
    lemma_suggestions_ignore_guards(d, key);
}

/// The palette depends on nothing that a keystroke dismisses.
pub proof fn lemma_suggestions_ignore_guards(d: Desk, key: KeyEvent)
    ensures
        (Desk { deadline: None, ..d.dismissed(key) }).suggestions() == d.suggestions(),
{
    reveal(Desk::suggestions);
    let e = Desk { deadline: None, ..d.dismissed(key) };
    let list = d.addresses();
    assert(e.all() == d.all());
    lemma_agent_hints_ignore_guards(
        d,
        e,
        list,
        text::lowercase(
            text::trim(text::strip_prefix(text::trim_start(d.input.text), "/agents"@)->0),
        ),
        list.len() as int,
    );
}

proof fn lemma_agent_hints_ignore_guards(
    d: Desk,
    e: Desk,
    list: Seq<Seq<char>>,
    query: Seq<char>,
    n: int,
)
    requires
        e == (Desk {
            selection: e.selection,
            armed: e.armed,
            notice: e.notice,
            deadline: e.deadline,
            ..d
        }),
    ensures
        e.agent_hints(list, query, n) == d.agent_hints(list, query, n),
    decreases n,
{
    if n > 0 {
        lemma_agent_hints_ignore_guards(d, e, list, query, n - 1);
        assert(e.agent_detail(list[n - 1]) == d.agent_detail(list[n - 1]));
        assert(e.is_running(list[n - 1]) == d.is_running(list[n - 1]));
    }
}

/// Tab puts the highlighted row of an open palette into the input, with the
/// cursor behind it; without a palette it goes to the last row of the
/// conversation. Shift+Tab always goes there.
pub proof fn tab_completes_or_leaves_the_input(d: Desk, key: KeyEvent, now: u64)
    requires
        acts_on_input(d, key),
        key.code == KeyCode::Tab || key.code == KeyCode::BackTab,
        d.suggestions().len() > 0 ==> 0 <= d.suggestion < d.suggestions().len(),
    ensures
        ({
            let (after, request) = d.key(key, now);
            let completes = key.code == KeyCode::Tab && d.suggestions().len() > 0;
            let n = d.conv.entries.len() as int;
            &&& request is None
            &&& completes ==> {
                let chosen = d.suggestions()[d.suggestion].replacement;
                &&& only_input_differs(after, d)
                &&& after.input.text == chosen
                &&& after.input.cursor == chosen.len()
            }
            &&& !completes ==> {
                &&& after.focus == Focus::Conversation
                &&& after.input == d.input
                &&& after.conv.entries == d.conv.entries
                &&& after.conv.follow
                &&& n > 0 ==> after.conv.selected == Some(n - 1)
                &&& n == 0 ==> after.conv.selected is None
            }
        }),
{
    reveal(Desk::key);
    reveal(Desk::other_key);
    reveal(Desk::routed);
    reveal(Desk::input_key);
    lemma_suggestions_ignore_guards(d, key);
}

/// In the conversation, the movement keys step through the rows: one row, or
/// eight by page, and never past an end; Home goes to the first row and End to
/// the last.
pub proof fn conversation_keys_move_the_selection(d: Desk, key: KeyEvent, now: u64, step: int)
    requires
        d.wf(),
        d.focus == Focus::Conversation,
        key.kind != KeyEventKind::Release,
        !key.modifiers.control && !key.modifiers.alt,
        step == if key.code == KeyCode::Up || key.code == KeyCode::Char('k') {
            -1int
        } else if key.code == KeyCode::Down || key.code == KeyCode::Char('j') {
            1
        } else if key.code == KeyCode::PageUp {
            -8
        } else if key.code == KeyCode::PageDown {
            8
        } else {
            0
        },
        step != 0 || key.code == KeyCode::Home || key.code == KeyCode::End,
    ensures
        ({
            let (after, request) = d.key(key, now);
            let n = d.conv.entries.len() as int;
            let from = match d.conv.selected {
                Some(i) => i,
                None => n - 1,
            };
            &&& request is None
            &&& after.focus == Focus::Conversation
            &&& after.input == d.input
            &&& after.conv.entries == d.conv.entries
            &&& after.conv.offset == d.conv.offset
            &&& after.conv.drives
            &&& n == 0 ==> after.conv.selected is None
            &&& n > 0 && step != 0 ==> {
                let to = after.conv.selected->0;
                &&& after.conv.selected is Some
                &&& 0 <= to <= n - 1
                &&& 0 <= from + step <= n - 1 ==> to == from + step
                &&& from + step < 0 ==> to == 0
                &&& from + step > n - 1 ==> to == n - 1
                &&& after.conv.follow == (step > 0 && to == n - 1)
            }
            &&& n > 0 && key.code == KeyCode::Home ==> after.conv.selected == Some(0int)
                && !after.conv.follow
            &&& n > 0 && key.code == KeyCode::End ==> after.conv.selected == Some(n - 1)
                && after.conv.follow
        }),
{
    reveal(Desk::key);
    reveal(Desk::other_key);
    reveal(Desk::routed);
    reveal(Desk::conversation_key);
    reveal(Desk::move_selection);
}

/// Enter or the space bar expands the selected row of the conversation, or
/// collapses it when it is expanded; no other row changes.
pub proof fn enter_toggles_the_selected_row(d: Desk, key: KeyEvent, now: u64, i: int)
    requires
        d.wf(),
        d.focus == Focus::Conversation,
        key.kind != KeyEventKind::Release,
        !key.modifiers.control && !key.modifiers.alt,
        key.code == KeyCode::Enter || key.code == KeyCode::Char(' '),
        d.conv.selected == Some(i),
        0 <= i < d.conv.entries.len(),
    ensures
        ({
            let (after, request) = d.key(key, now);
            let e = d.conv.entries[i];
            &&& request is None
            &&& after.conv.entries.len() == d.conv.entries.len()
            &&& after.conv.entries[i] == (crate::conversation::Entry { expanded: !e.expanded, ..e })
            &&& forall|k: int|
                0 <= k < d.conv.entries.len() && k != i ==> after.conv.entries[k]
                    == #[trigger] d.conv.entries[k]
            &&& after.conv.selected == d.conv.selected
            &&& !e.expanded ==> after.conv.reveal == Some(i)
            &&& after.input == d.input
        }),
{
    reveal(Desk::key);
    reveal(Desk::other_key);
    reveal(Desk::routed);
    reveal(Desk::conversation_key);
    reveal(Desk::keyboard_toggle);
}

/// Tab leads back from the conversation to the input, and changes nothing
/// else.
pub proof fn tab_leads_back_to_the_input(d: Desk, key: KeyEvent, now: u64)
    requires
        d.focus == Focus::Conversation,
        key.kind != KeyEventKind::Release,
        key.code == KeyCode::Tab || key.code == KeyCode::BackTab,
    ensures
        ({
            let (after, request) = d.key(key, now);
            &&& request is None
            &&& after.focus == Focus::Input
            &&& after.input == d.input
            &&& after.conv == d.conv
        }),
{
    reveal(Desk::key);
    reveal(Desk::other_key);
    reveal(Desk::routed);
    reveal(Desk::conversation_key);
}

/// The input keeps its text while the conversation has the focus.
pub proof fn conversation_keys_do_not_type(d: Desk, key: KeyEvent, c: char, now: u64)
    requires
        d.focus == Focus::Conversation,
        key.kind != KeyEventKind::Release,
        key.code == KeyCode::Char(c),
        !key.modifiers.control && !key.modifiers.alt,
    ensures
        d.key(key, now).0.input == d.input,
        d.key(key, now).1 is None,
{
    reveal(Desk::key);
    reveal(Desk::other_key);
    reveal(Desk::routed);
    reveal(Desk::conversation_key);
    reveal(Desk::move_selection);
    reveal(Desk::keyboard_toggle);
}

/// Escape closes the palette of agents.
pub proof fn escape_closes_the_agents(d: Desk, key: KeyEvent, now: u64)
    requires
        key.kind == KeyEventKind::Press,
        key.code == KeyCode::Esc,
        text::starts_with(text::trim_start(d.input.text), "/agents "@),
    ensures
        d.key(key, now).0.input.text.len() == 0,
        d.key(key, now).1 is None,
        d.key(key, now).0.interrupting == d.interrupting,
{
    reveal(Desk::key);
    reveal(Desk::escape);
}

/// Escape during a run of the root arms the interruption for a second and a
/// half; a second Escape within that time asks for it, a later one arms it
/// again.
pub proof fn two_escapes_interrupt(d: Desk, key: KeyEvent, now: u64, again: u64)
    requires
        key.kind == KeyEventKind::Press,
        key.code == KeyCode::Esc,
        !d.agents_open(),
        d.root_active,
        !d.interrupting,
        d.deadline is None,
        now <= again,
        now + 1500 <= u64::MAX,
    ensures
        d.key(key, now).1 is None,
        ({
            let (after, request) = d.key(key, now).0.key(key, again);
            &&& again <= now + 1500 ==> request == Some(Request::Interrupt) && after.interrupting
            &&& again > now + 1500 ==> request is None && !after.interrupting
                && after.deadline is Some
        }),
{
    reveal(Desk::key);
    reveal(Desk::escape);
    reveal(Desk::root_status);
    reveal(Desk::switch);
}

proof fn lemma_rows_have_positions(s: Seq<char>, width: nat, row: int) -> (i: int)
    requires
        s.len() < usize::MAX,
        0 <= row < input::sheet(s, width).rows().len(),
    ensures
        0 <= i <= s.len(),
        input::sheet(s, width).positions.len() == s.len() + 1,
        input::sheet(s, width).done.len() <= s.len(),
        input::sheet(s, width).positions[i].0 == row,
    decreases s.len(),
{
    let now = input::sheet(s, width);
    if s.len() == 0 {
        0
    } else {
        let before = input::sheet(s.drop_last(), width);
        let zero = lemma_rows_have_positions(s.drop_last(), width, 0);
        if row < before.rows().len() {
            let i = lemma_rows_have_positions(s.drop_last(), width, row);
            assert(now.positions[i] == before.positions[i]);
            i
        } else {
            s.len() as int
        }
    }
}

/// Where the input has a row above or below, Up and Down move the cursor to
/// it: to the place nearest to the column the cursor stands in, and change no
/// text.
pub proof fn up_and_down_move_one_row(d: Desk, key: KeyEvent, now: u64, i: int)
    requires
        acts_on_input(d, key),
        d.input.wf(),
        d.input.text.len() < usize::MAX,
        d.input.preferred is None,
        key.code == KeyCode::Up || key.code == KeyCode::Down,
        d.suggestions().len() == 0,
        ({
            let width = d.pane.input_width as nat;
            let row = d.input.positions(width)[d.input.cursor].0;
            if key.code == KeyCode::Up {
                row > 0
            } else {
                row + 1 < d.input.rows(width).len()
            }
        }),
    ensures
        ({
            let (after, request) = d.key(key, now);
            let positions = d.input.positions(d.pane.input_width as nat);
            let (row, column) = positions[d.input.cursor];
            let (to_row, to_column) = positions[after.input.cursor];
            &&& request is None
            &&& only_input_differs(after, d)
            &&& after.input.text == d.input.text
            &&& 0 <= after.input.cursor <= d.input.text.len()
            &&& to_row == if key.code == KeyCode::Up {
                row - 1
            } else {
                row + 1
            }
            &&& 0 <= i <= d.input.text.len() && positions[i].0 == to_row ==> input::distance(
                to_column as int,
                column as int,
            ) <= input::distance(positions[i].1 as int, column as int)
        }),
{
    reveal(Desk::key);
    reveal(Desk::other_key);
    reveal(Desk::routed);
    reveal(Desk::input_key);
    reveal(Desk::up_or_down);
    reveal(Desk::vertical);
    lemma_suggestions_ignore_guards(d, key);
    let width = d.pane.input_width as nat;
    let direction: int = if key.code == KeyCode::Up {
        -1
    } else {
        1
    };
    let positions = d.input.positions(width);
    let row = positions[d.input.cursor].0 as int;
    let goal = row + direction;
    lemma_position_rows(d.input.text, input::sheet_width(width), d.input.cursor);
    let there = lemma_rows_have_positions(d.input.text, input::sheet_width(width), goal);
    assert(d.input.target_row(direction, width) == Some(goal));
    input::lemma_nearest(positions, positions.len() as int, goal, d.input.aim(width));
    assert(positions[there].0 == goal);
    assert(d.input.vertical_target(direction, width) is Some);
    if 0 <= i <= d.input.text.len() {
        assert(positions[i].0 == goal ==> input::distance(
            positions[d.input.vertical_target(direction, width)->0].1 as int,
            d.input.aim(width),
        ) <= input::distance(positions[i].1 as int, d.input.aim(width)));
    }
}

proof fn lemma_position_rows(s: Seq<char>, width: nat, i: int)
    requires
        s.len() < usize::MAX,
        0 <= i <= s.len(),
    ensures
        input::sheet(s, width).positions.len() == s.len() + 1,
        input::sheet(s, width).done.len() <= s.len(),
        input::sheet(s, width).positions[i].0 < input::sheet(s, width).rows().len(),
    decreases s.len(),
{
    if s.len() > 0 {
        let before = input::sheet(s.drop_last(), width);
        lemma_position_rows(
            s.drop_last(),
            width,
            if i < s.len() {
                i
            } else {
                0
            },
        );
        if i < s.len() {
            assert(input::sheet(s, width).positions[i] == before.positions[i]);
        }
    }
}

/// Up on the first row of a new draft brings back the message that was sent
/// last and keeps the draft; while there is none, nothing changes.
pub proof fn up_brings_back_the_last_message(d: Desk, key: KeyEvent, now: u64, i: int)
    requires
        acts_on_input(d, key),
        key.code == KeyCode::Up,
        d.suggestions().len() == 0,
        d.recall is None,
        d.input.positions(d.pane.input_width as nat)[d.input.at()].0 == 0,
        -1 <= i < d.conv.entries.len(),
        i >= 0 ==> d.conv.entries[i].kind == EntryKind::User,
        forall|j: int|
            i < j < d.conv.entries.len() ==> (#[trigger] d.conv.entries[j]).kind
                != EntryKind::User,
    ensures
        ({
            let (after, request) = d.key(key, now);
            &&& request is None
            &&& only_input_differs(after, d)
            &&& i >= 0 ==> {
                &&& after.input.text == d.conv.entries[i].body
                &&& after.input.cursor == after.input.text.len()
                &&& after.recall matches Some(r) && r.draft == d.input
            }
            &&& i < 0 ==> after.input == d.input && after.recall is None
        }),
{
    reveal(Desk::key);
    reveal(Desk::other_key);
    reveal(Desk::routed);
    reveal(Desk::input_key);
    reveal(Desk::up_or_down);
    reveal(Desk::vertical);
    reveal(Desk::recall_older);
    lemma_suggestions_ignore_guards(d, key);
    lemma_last_message(d.conv.entries, d.conv.entries.len() as int, i);
}

proof fn lemma_last_message(entries: Seq<Entry>, n: int, i: int)
    requires
        -1 <= i < n <= entries.len() || (i == -1 && n == 0),
        i >= 0 ==> entries[i].kind == EntryKind::User,
        forall|j: int| i < j < n ==> (#[trigger] entries[j]).kind != EntryKind::User,
    ensures
        i >= 0 ==> desk::user_messages(entries, n).len() > 0 && desk::user_messages(
            entries,
            n,
        ).last() == entries[i].body,
        i < 0 ==> desk::user_messages(entries, n).len() == 0,
    decreases n,
{
    if n > 0 && i < n - 1 {
        assert(entries[n - 1].kind != EntryKind::User);
        lemma_last_message(entries, n - 1, i);
    }
}

/// The messages that can be brought back are those of the user, each in its
/// turn: as many come before one as the user sent before it.
pub proof fn sent_messages_can_be_brought_back(entries: Seq<Entry>, n: int, i: int)
    requires
        0 <= i < n <= entries.len(),
        entries[i].kind == EntryKind::User,
    ensures
        ({
            let messages = desk::user_messages(entries, n);
            let k = desk::user_messages(entries, i).len() as int;
            k < messages.len() && messages[k] == entries[i].body
        }),
    decreases n,
{
    if i < n - 1 {
        sent_messages_can_be_brought_back(entries, n - 1, i);
    }
}

/// While messages are being brought back, Up on the first row shows the one
/// before, Down on the last row the one behind, and behind the newest the
/// draft.
pub proof fn arrows_walk_through_the_messages(d: Desk, key: KeyEvent, now: u64, r: Recall)
    requires
        acts_on_input(d, key),
        key.code == KeyCode::Up || key.code == KeyCode::Down,
        d.suggestions().len() == 0,
        d.recall == Some(r),
        0 <= r.position < r.messages.len(),
        ({
            let width = d.pane.input_width as nat;
            let row = d.input.positions(width)[d.input.at()].0;
            if key.code == KeyCode::Up {
                row == 0
            } else {
                row + 1 >= d.input.rows(width).len()
            }
        }),
    ensures
        ({
            let (after, request) = d.key(key, now);
            &&& request is None
            &&& only_input_differs(after, d)
            &&& key.code == KeyCode::Up && r.position > 0 ==> after.input.text
                == r.messages[r.position - 1] && after.recall == Some(
                (Recall { position: r.position - 1, ..r }),
            )
            &&& key.code == KeyCode::Up && r.position == 0 ==> after.input == d.input
                && after.recall == d.recall
            &&& key.code == KeyCode::Down && r.position + 1 < r.messages.len()
                ==> after.input.text == r.messages[r.position + 1] && after.recall == Some(
                (Recall { position: r.position + 1, ..r }),
            )
            &&& key.code == KeyCode::Down && r.position + 1 == r.messages.len() ==> after.input
                == r.draft && after.recall is None
        }),
{
    reveal(Desk::key);
    reveal(Desk::other_key);
    reveal(Desk::routed);
    reveal(Desk::input_key);
    reveal(Desk::up_or_down);
    reveal(Desk::vertical);
    reveal(Desk::recall_older);
    reveal(Desk::recall_newer);
    lemma_suggestions_ignore_guards(d, key);
}

/// Typing a character that fits behind the last row puts it there; one that
/// does not fit opens the next row, and so does a line break.
pub proof fn rows_break_where_they_are_full(s: Seq<char>, c: char, width: nat)
    requires
        width >= 1,
    ensures
        ({
            let before = input::sheet(s, width).rows();
            let after = input::sheet(s.push(c), width).rows();
            let used = input::row_cells(before.last());
            let fits = used == 0 || used + cells::cells(c) <= width;
            &&& c == '\n' ==> after == before.push(Seq::<char>::empty())
            &&& c != '\n' && fits ==> after == before.drop_last().push(before.last().push(c))
            &&& c != '\n' && !fits ==> after == before.push(seq![c])
        }),
{
    assert(s.push(c).drop_last() =~= s);
    input::lemma_sheet_rows(s, width);
    let now = input::sheet(s, width);
    assert(now.rows().drop_last() =~= now.done);
    assert(now.rows().last() == now.line);
}

/// Ctrl+D in the session palette asks before it deletes: the first press names
/// the highlighted session in a notice, the second has it deleted, or replaced
/// by a new one if it is the open one.
pub proof fn control_d_deletes_the_highlighted_session(d: Desk, key: KeyEvent, now: u64)
    requires
        key.kind == KeyEventKind::Press,
        key.code == KeyCode::Char('d') && key.modifiers.control,
        d.session_open(),
        0 <= d.suggestion < d.session_matches().len(),
    ensures
        ({
            let (after, request) = d.key(key, now);
            let id = d.session_matches()[d.suggestion].id;
            &&& d.armed != Some(id) ==> {
                &&& request is None
                &&& after.armed == Some(id)
                &&& after.notice is Some
                &&& text::contains(after.notice->0, text::decimal(id as nat))
            }
            &&& d.armed == Some(id) ==> {
                &&& after.armed is None
                &&& id == d.session_id ==> request == Some(Request::ReplaceSession(id))
                &&& id != d.session_id ==> request == Some(Request::DeleteSession(id))
            }
            &&& after.input == d.input && after.sessions == d.sessions
        }),
{
    reveal(Desk::key);
    reveal(Desk::other_key);
    reveal(Desk::delete_session);
    let e = Desk { deadline: None, ..d.dismissed(key) };
    assert(e.session_matches() == d.session_matches());
    let id = d.session_matches()[d.suggestion].id;
    let number = text::decimal(id as nat);
    text_laws::containing_is_having_inside(
        "Press ctrl+d again to delete the open session #"@,
        number,
        " and start a fresh one"@,
    );
    text_laws::containing_is_having_inside(
        "Press ctrl+d again to delete session #"@,
        number,
        Seq::<char>::empty(),
    );
    assert("Press ctrl+d again to delete session #"@ + number + Seq::<char>::empty()
        =~= "Press ctrl+d again to delete session #"@ + number);
}

/// Outside the session palette Ctrl+D does nothing.
pub proof fn control_d_needs_the_session_palette(d: Desk, key: KeyEvent, now: u64)
    requires
        key.kind != KeyEventKind::Release,
        key.code == KeyCode::Char('d') && key.modifiers.control,
        !d.session_open(),
    ensures
        ({
            let (after, request) = d.key(key, now);
            request is None && after == (Desk { selection: None, deadline: None, ..d })
        }),
{
    reveal(Desk::key);
    reveal(Desk::other_key);
    reveal(Desk::delete_session);
}

} // verus!
