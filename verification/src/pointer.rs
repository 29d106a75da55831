//! Mouse handling, pasting and toasts.

use crate::app::{App, Toast};
use crate::conversation;
use crate::conversation::Conv;
use crate::desk::{Desk, Focus, Hitbox, MOUSE_SCROLL_LINES, TOAST_DURATION};
use crate::desk;
use crate::events::{MouseEvent, MouseEventKind};
use crate::input;
use crate::selection;
use crate::selection::{cell_pos, selected_text, TextSelection};
use crate::text;
use vstd::prelude::*;
use vstd::string::*;

verus! {

fn find_hitbox(boxes: &Vec<Hitbox>, row: u16) -> (r: Option<usize>)
    ensures
        conversation::opt_int(r) == desk::hit(boxes@, 0, row as int),
        r matches Some(i) ==> i < boxes@.len(),
{
    let mut i: usize = 0;
    while i < boxes.len()
        invariant
            i <= boxes@.len(),
            desk::hit(boxes@, 0, row as int) == desk::hit(boxes@, i as int, row as int),
        decreases boxes@.len() - i,
    {
        if boxes[i].top <= row && row <= boxes[i].bottom {
            return Some(i);
        }
        i += 1;
    }
    None
}

fn range_meets(ranges: &Vec<(usize, usize)>, i: usize, start: usize, end: usize) -> (r: bool)
    ensures
        r == desk::meets(ranges@, i as int, start as int, end as int),
{
    i < ranges.len() && ranges[i].1 >= start && ranges[i].0 < end
}

fn first_visible(ranges: &Vec<(usize, usize)>, start: usize, end: usize) -> (r: Option<usize>)
    ensures
        conversation::opt_int(r) == desk::first_meeting(ranges@, 0, start as int, end as int),
{
    let mut i: usize = 0;
    while i < ranges.len()
        invariant
            i <= ranges@.len(),
            desk::first_meeting(ranges@, 0, start as int, end as int) == desk::first_meeting(
                ranges@,
                i as int,
                start as int,
                end as int,
            ),
        decreases ranges@.len() - i,
    {
        if range_meets(ranges, i, start, end) {
            return Some(i);
        }
        i += 1;
    }
    None
}

fn last_visible(ranges: &Vec<(usize, usize)>, start: usize, end: usize) -> (r: Option<usize>)
    ensures
        conversation::opt_int(r) == desk::last_meeting(
            ranges@,
            ranges@.len() as int,
            start as int,
            end as int,
        ),
{
    let mut n: usize = ranges.len();
    while n > 0
        invariant
            n <= ranges@.len(),
            desk::last_meeting(ranges@, ranges@.len() as int, start as int, end as int)
                == desk::last_meeting(ranges@, n as int, start as int, end as int),
        decreases n,
    {
        if range_meets(ranges, n - 1, start, end) {
            return Some(n - 1);
        }
        n -= 1;
    }
    None
}

impl App {
    /// Scrolls the conversation up (`direction < 0`) or down; a selection that
    /// leaves the viewport moves to the nearest visible entry.
    fn scroll_conversation(&mut self, direction: isize)
        requires
            old(self).wf(),
        ensures
            final(self)@ == old(self)@.scroll(direction as int),
            final(self).wf(),
    {
        proof {
            reveal(Desk::scroll);
        }
        self.focus = Focus::Conversation;
        self.view.selection_drives_viewport = false;
        let viewport: usize = if self.pane.conversation_viewport_height == 0 {
            1
        } else {
            self.pane.conversation_viewport_height
        };
        let maximum: usize = self.pane.conversation_total_lines.saturating_sub(viewport);
        let offset: usize = if direction < 0 {
            self.view.conversation_offset.saturating_sub(MOUSE_SCROLL_LINES)
        } else {
            let wanted: usize = self.view.conversation_offset.saturating_add(MOUSE_SCROLL_LINES);
            if wanted > maximum {
                maximum
            } else {
                wanted
            }
        };
        self.view.conversation_offset = offset;
        self.view.follow_conversation_tail = direction > 0 && offset == maximum;
        self.keep_selection_in_view(direction, viewport);
    }

    fn keep_selection_in_view(&mut self, direction: isize, viewport: usize)
        ensures
            ({
                let start = old(self)@.conv.offset as int;
                let end = desk::clamp_add(start, viewport as int);
                let ranges = old(self)@.pane.conversation_ranges@;
                let selected = old(self)@.conv.selected;
                final(self)@ == (Desk {
                    conv: Conv {
                        selected: if selected is Some && desk::meets(
                            ranges,
                            selected->0,
                            start,
                            end,
                        ) {
                            selected
                        } else if direction < 0 {
                            desk::last_meeting(ranges, ranges.len() as int, start, end)
                        } else {
                            desk::first_meeting(ranges, 0, start, end)
                        },
                        ..old(self)@.conv
                    },
                    ..old(self)@
                })
            }),
            final(self).agents == old(self).agents,
    {
        let start: usize = self.view.conversation_offset;
        let end: usize = start.saturating_add(viewport);
        if let Some(selected) = self.view.selected_entry {
            if range_meets(&self.pane.conversation_ranges, selected, start, end) {
                return;
            }
        }
        self.view.selected_entry = if direction < 0 {
            last_visible(&self.pane.conversation_ranges, start, end)
        } else {
            first_visible(&self.pane.conversation_ranges, start, end)
        };
    }

    /// Arms a drag selection at the pressed cell, or does nothing when the
    /// press landed outside the conversation pane.
    fn begin_selection(&mut self, row: u16, column: u16)
        requires
            old(self).wf(),
        ensures
            final(self)@ == old(self)@.begin_selection(row, column),
            final(self).wf(),
    {
        proof {
            reveal(Desk::begin_selection);
        }
        if let Some(area) = self.pane.conversation_area {
            if row < area.y || row >= area.y.saturating_add(area.height) || column < area.x {
                return;
            }
            self.focus = Focus::Conversation;
            let position = cell_pos(row, column, area);
            self.text_selection = Some(TextSelection { anchor: position, head: position });
        }
    }

    /// A left click on the input box.
    fn click_input(&mut self, down: usize, across: usize)
        requires
            old(self).wf(),
        ensures
            final(self)@ == (Desk {
                selection: None,
                focus: Focus::Input,
                suggestion: 0,
                input: old(self)@.input.moved(
                    old(self)@.input.cursor_at(
                        old(self)@.pane.input_width as nat,
                        desk::clamp_add(down as int, old(self)@.pane.input_scroll as int),
                        selection::monus(across as int, 3),
                    ),
                ),
                ..old(self)@
            }),
            final(self).wf(),
    {
        self.text_selection = None;
        self.focus = Focus::Input;
        let row: usize = down.saturating_add(self.pane.input_scroll);
        let column: usize = across.saturating_sub(3);
        let cursor: usize = self.input.cursor_at(self.pane.input_width, row, column);
        self.input.cursor = cursor;
        self.input.preferred_column = None;
        self.suggestion_index = 0;
    }

    /// A left click on an entry: its header toggles it, its body selects it.
    fn click_entry(&mut self, target: Hitbox, row: u16)
        requires
            old(self).wf(),
        ensures
            final(self)@ == old(self)@.on_entry(target, target.header == Some(row)),
            final(self).wf(),
    {
        proof {
            reveal(Desk::on_entry);
        }
        self.focus = Focus::Conversation;
        self.view.selected_entry = Some(target.entry);
        self.view.follow_conversation_tail = false;
        let header = match target.header {
            Some(line) => line == row,
            None => false,
        };
        self.view.selection_drives_viewport = header;
        if header {
            self.toggle_selected();
        }
    }

    /// A left click: places the input cursor, toggles or selects an entry, or
    /// arms a drag selection.
    fn handle_click(&mut self, mouse: MouseEvent)
        requires
            old(self).wf(),
        ensures
            final(self)@ == old(self)@.click(mouse),
            final(self).wf(),
    {
        proof {
            reveal(Desk::click);
        }
        if let Some(area) = self.pane.input_area {
            if mouse.row >= area.y && mouse.row < area.y.saturating_add(area.height)
                && mouse.column >= area.x {
                self.click_input(
                    (mouse.row - area.y) as usize,
                    (mouse.column - area.x) as usize,
                );
                return;
            }
        }
        if let Some(i) = find_hitbox(&self.pane.hitboxes, mouse.row) {
            let target: Hitbox = self.pane.hitboxes[i];
            let header = match target.header {
                Some(line) => line == mouse.row,
                None => false,
            };
            self.click_entry(target, mouse.row);
            if header {
                return;
            }
        }
        self.begin_selection(mouse.row, mouse.column);
    }

    /// One mouse event; a finished drag yields the text to copy.
    pub fn handle_mouse(&mut self, mouse: MouseEvent) -> (r: Option<String>)
        requires
            old(self).wf(),
        ensures
            (final(self)@, text::opt_text(r)) == old(self)@.mouse(mouse),
            final(self).wf(),
    {
        proof {
            reveal(Desk::mouse);
        }
        match mouse.kind {
            MouseEventKind::ScrollUp => {
                self.text_selection = None;
                self.scroll_conversation(-1);
                None
            },
            MouseEventKind::ScrollDown => {
                self.text_selection = None;
                self.scroll_conversation(1);
                None
            },
            MouseEventKind::Down => {
                self.handle_click(mouse);
                None
            },
            MouseEventKind::Drag => {
                if let Some(selection) = self.text_selection {
                    if let Some(area) = self.pane.conversation_area {
                        self.text_selection = Some(
                            TextSelection {
                                anchor: selection.anchor,
                                head: cell_pos(mouse.row, mouse.column, area),
                            },
                        );
                    }
                }
                None
            },
            MouseEventKind::Up => {
                let taken = self.text_selection;
                self.text_selection = None;
                match taken {
                    Some(selection) => {
                        if selection.anchor != selection.head {
                            return Some(
                                selected_text(
                                    &self.pane.conversation_rows,
                                    selection.anchor,
                                    selection.head,
                                ),
                            );
                        }
                        None
                    },
                    None => None,
                }
            },
            MouseEventKind::Other => None,
        }
    }

    /// Inserts pasted text into the focused input.
    pub fn handle_paste(&mut self, pasted: &str)
        requires
            old(self).wf(),
        ensures
            final(self)@ == old(self)@.paste(pasted@),
            final(self).wf(),
    {
        if self.focus == Focus::Input {
            self.input_history = None;
            proof {
                input::edits_keep_the_cursor_in_the_text(self@.input, pasted@, 0, 0, 0, 0);
            }
            self.input.insert_text(pasted);
            self.suggestion_index = 0;
        }
    }

    /// Shows a transient status text.
    pub fn show_toast(&mut self, text: &str, now: u64)
        ensures
            final(self)@ == (Desk {
                toast: Some((text@, desk::later(now, TOAST_DURATION))),
                ..old(self)@
            }),
            old(self).wf() ==> final(self).wf(),
    {
        self.toast = Some(
            Toast { text: text.to_owned(), deadline: now.saturating_add(TOAST_DURATION) },
        );
    }
}

} // verus!
