//! Keyboard handling.

use crate::app;
use crate::app::{App, InputHistory, Suggestion};
use crate::conversation;
use crate::conversation::EntryKind;
use crate::desk::{Desk, Focus, INTERRUPTION_ARM_WINDOW};
use crate::desk;
use crate::events::{KeyCode, KeyEvent, KeyEventKind};
use crate::history;
use crate::history::Command;
use crate::input::{Draft, InputBuffer};
use crate::input;
use crate::text;
use vstd::prelude::*;
use vstd::string::*;

verus! {

/// What every input edit of a keystroke keeps.
proof fn lemma_edit_wf(d: Draft, c: char, direction: int, width: nat)
    requires
        d.wf(),
    ensures
        d.insert(c).wf(),
        d.backspace().wf(),
        d.delete().wf(),
        d.delete_word_backward().wf(),
        d.moved(d.line_start()).wf(),
        d.moved(d.line_end()).wf(),
        d.move_vertical(direction, width).wf(),
{
    input::edits_keep_the_cursor_in_the_text(d, seq![c], direction, width, 0, 0);
}

impl App {
    /// Puts the highlighted palette row into the input.
    fn apply_suggestion(&mut self, suggestions: &Vec<Suggestion>)
        requires
            old(self).wf(),
            old(self)@.suggestion < suggestions@.len(),
        ensures
            final(self)@ == old(self)@.apply_suggestion(app::hints_of(suggestions@)),
            final(self).wf(),
    {
        let replacement = suggestions[self.suggestion_index].replacement.clone();
        self.type_text(replacement);
    }

    /// Recalls an older message into the input.
    fn recall_older_input(&mut self)
        requires
            old(self).wf(),
        ensures
            final(self)@ == old(self)@.recall_older(),
            final(self).wf(),
    {
        proof {
            reveal(Desk::recall_older);
        }
        if let Some(mut history) = self.input_history.take() {
            if history.position > 0 {
                history.position = history.position - 1;
                proof {
                    assert(text::texts(history.messages@)[history.position as int]
                        == history.messages@[history.position as int]@);
                }
                self.input = InputBuffer::at_end(history.messages[history.position].clone());
            }
            self.input_history = Some(history);
            return;
        }
        let mut messages: Vec<String> = Vec::new();
        let mut i: usize = 0;
        proof {
            assert(text::texts(messages@) =~= Seq::empty());
        }
        while i < self.view.entries.len()
            invariant
                i <= self.view.entries@.len(),
                *self == *old(self),
                text::texts(messages@) == desk::user_messages(self@.conv.entries, i as int),
            decreases self.view.entries@.len() - i,
        {
            let entry = &self.view.entries[i];
            proof {
                assert(self@.conv.entries[i as int] == entry@);
            }
            if entry.kind == EntryKind::User {
                let ghost before = text::texts(messages@);
                messages.push(entry.body.clone());
                proof {
                    assert(text::texts(messages@) =~= before.push(entry@.body));
                }
            }
            i += 1;
        }
        proof {
            assert(text::texts(messages@).len() == messages@.len());
        }
        let count: usize = messages.len();
        if count == 0 {
            return;
        }
        let draft = self.input.copy();
        self.input = InputBuffer::at_end(messages[count - 1].clone());
        self.input_history = Some(InputHistory { messages, position: count - 1, draft });
    }

    /// Recalls a newer message, or the draft behind the newest.
    fn recall_newer_input(&mut self)
        requires
            old(self).wf(),
        ensures
            final(self)@ == old(self)@.recall_newer(),
            final(self).wf(),
    {
        proof {
            reveal(Desk::recall_newer);
        }
        if let Some(mut history) = self.input_history.take() {
            let count: usize = history.messages.len();
            proof {
                assert(text::texts(history.messages@).len() == count);
            }
            if history.position + 1 < count {
                history.position = history.position + 1;
                proof {
                    assert(text::texts(history.messages@)[history.position as int]
                        == history.messages@[history.position as int]@);
                }
                self.input = InputBuffer::at_end(history.messages[history.position].clone());
                self.input_history = Some(history);
            } else {
                self.input = history.draft;
            }
        }
    }

    /// Moves the cursor to a character position.
    fn set_cursor(&mut self, cursor: usize)
        requires
            old(self).wf(),
            cursor <= old(self)@.input.text.len(),
        ensures
            final(self)@ == old(self)@.with_cursor(cursor as int),
            final(self).wf(),
    {
        self.input.cursor = cursor;
        self.input.preferred_column = None;
    }

    /// Forgets the recalled messages and highlights the first palette row.
    fn input_edited(&mut self)
        ensures
            final(self)@ == old(self)@.edited(old(self)@.input),
            final(self).agents == old(self).agents,
    {
        self.input_history = None;
        self.suggestion_index = 0;
    }

    /// Vertical movement in the input, or through earlier messages where the
    /// input has no further row.
    fn move_or_recall(&mut self, direction: isize)
        requires
            old(self).wf(),
            direction == -1 || direction == 1,
        ensures
            final(self)@ == old(self)@.vertical(direction as int),
            final(self).wf(),
    {
        proof {
            reveal(Desk::vertical);
        }
        proof {
            lemma_edit_wf(
                self@.input,
                ' ',
                direction as int,
                self@.pane.input_width as nat,
            );
        }
        let width: usize = self.pane.input_width;
        if !self.input.move_vertical(direction, width) {
            if direction < 0 {
                self.recall_older_input();
            } else {
                self.recall_newer_input();
            }
        }
    }

    /// Enter while a palette is open. Agent picks switch immediately; other
    /// palettes require a second Enter.
    fn enter_palette(&mut self, suggestions: &Vec<Suggestion>) -> (r: Option<Command>)
        requires
            old(self).wf(),
            old(self)@.suggestion < suggestions@.len(),
        ensures
            (final(self)@, history::request(r)) == old(self)@.enter_palette(app::hints_of(suggestions@)),
            final(self).wf(),
    {
        proof {
            reveal(Desk::enter_palette);
        }
        let chosen = suggestions[self.suggestion_index].replacement.as_str();
        proof {
            assert(app::hints_of(suggestions@)[self@.suggestion].replacement == chosen@);
        }
        let agents_pick = self.agents_palette_open();
        let typed = text::trimmed_end(self.input.text.as_str());
        let offered = text::trimmed_end(chosen);
        if !text::same(typed.as_str(), offered.as_str()) || text::has_suffix(chosen, " ") {
            self.apply_suggestion(suggestions);
            if agents_pick {
                self.submit()
            } else {
                None
            }
        } else {
            self.submit()
        }
    }

    /// A character key while the input has the focus.
    fn handle_character(&mut self, character: char, key: KeyEvent)
        requires
            old(self).wf(),
            key.code == KeyCode::Char(character),
        ensures
            final(self)@ == old(self)@.character(character, key),
            final(self).wf(),
    {
        proof {
            reveal(Desk::character);
        }
        let ctrl = key.modifiers.control;
        proof {
            lemma_edit_wf(self@.input, character, 0, 0);
            lemma_edit_wf(self@.input, '\n', 0, 0);
        }
        if ctrl && character == 'j' {
            self.input_edited();
            self.input.insert('\n');
        } else if ctrl && character == 'a' {
            self.input.move_to_line_start();
        } else if ctrl && character == 'e' {
            self.input.move_to_line_end();
        } else if ctrl && character == 'w' {
            self.input_edited();
            self.input.delete_word_backward();
        } else if !key.modifiers.control && !key.modifiers.alt && !key.modifiers.other {
            self.input_edited();
            self.input.insert(character);
        }
    }

    /// Moves the focus to the conversation's last row.
    fn focus_conversation(&mut self)
        requires
            old(self).wf(),
        ensures
            final(self)@ == old(self)@.to_conversation(),
            final(self).wf(),
    {
        self.focus = Focus::Conversation;
        let count: usize = self.view.entries.len();
        self.view.selected_entry = if count > 0 {
            Some(count - 1)
        } else {
            None
        };
        self.view.follow_conversation_tail = true;
        self.view.selection_drives_viewport = true;
    }

    /// Up or Down while the input has the focus.
    fn up_or_down(&mut self, direction: isize, count: usize)
        requires
            old(self).wf(),
            direction == -1 || direction == 1,
            count > 0 ==> old(self)@.suggestion < count,
        ensures
            final(self)@ == old(self)@.up_or_down(direction as int, count as int),
            final(self).wf(),
    {
        proof {
            reveal(Desk::up_or_down);
        }
        if count == 0 {
            self.move_or_recall(direction);
        } else if direction < 0 {
            self.suggestion_index = if self.suggestion_index == 0 {
                count - 1
            } else {
                self.suggestion_index - 1
            };
        } else {
            self.suggestion_index = if self.suggestion_index + 1 == count {
                0
            } else {
                self.suggestion_index + 1
            };
        }
    }

    /// A cursor or deletion key while the input has the focus.
    fn edit_key(&mut self, code: KeyCode)
        requires
            old(self).wf(),
        ensures
            final(self)@ == old(self)@.edit_key(code),
            final(self).wf(),
    {
        proof {
            reveal(Desk::edit_key);
            lemma_edit_wf(self@.input, ' ', 0, 0);
        }
        match code {
            KeyCode::Left => {
                let cursor: usize = self.input.cursor.saturating_sub(1);
                self.set_cursor(cursor);
            },
            KeyCode::Right => {
                let end: usize = self.input.char_count();
                let cursor: usize = if self.input.cursor < end {
                    self.input.cursor + 1
                } else {
                    end
                };
                self.set_cursor(cursor);
            },
            KeyCode::Home => {
                self.set_cursor(0);
            },
            KeyCode::End => {
                let end: usize = self.input.char_count();
                self.set_cursor(end);
            },
            KeyCode::Backspace => {
                self.input_edited();
                self.input.backspace();
            },
            KeyCode::Delete => {
                self.input_edited();
                self.input.delete();
            },
            _ => {},
        }
    }

    /// A key while the input has the focus.
    pub fn handle_input_key(&mut self, key: KeyEvent, suggestions: &Vec<Suggestion>) -> (r: Option<
        Command,
    >)
        requires
            old(self).wf(),
            suggestions@.len() > 0 ==> old(self)@.suggestion < suggestions@.len(),
        ensures
            (final(self)@, history::request(r)) == old(self)@.input_key(
                key,
                app::hints_of(suggestions@),
            ),
            final(self).wf(),
    {
        proof {
            reveal(Desk::input_key);
            assert(app::hints_of(suggestions@).len() == suggestions@.len());
        }
        let count: usize = suggestions.len();
        match key.code {
            KeyCode::Tab => {
                if count > 0 {
                    self.apply_suggestion(suggestions);
                } else {
                    self.focus_conversation();
                }
                None
            },
            KeyCode::BackTab => {
                self.focus_conversation();
                None
            },
            KeyCode::Up => {
                self.up_or_down(-1, count);
                None
            },
            KeyCode::Down => {
                self.up_or_down(1, count);
                None
            },
            KeyCode::Enter => {
                if count > 0 {
                    self.enter_palette(suggestions)
                } else {
                    self.submit()
                }
            },
            KeyCode::Char(character) => {
                self.handle_character(character, key);
                None
            },
            _ => {
                self.edit_key(key.code);
                None
            },
        }
    }

    /// Moves the selection by `amount` rows.
    pub fn move_selection(&mut self, amount: isize)
        requires
            old(self).wf(),
        ensures
            final(self)@ == old(self)@.move_selection(amount as int),
            final(self).wf(),
    {
        proof {
            reveal(Desk::move_selection);
        }
        self.view.selection_drives_viewport = true;
        let count: usize = self.view.entries.len();
        if count == 0 {
            self.view.selected_entry = None;
            proof {
                app::lemma_conv_only(old(self)@, self@);
            }
            return;
        }
        let current: usize = match self.view.selected_entry {
            Some(s) => s,
            None => count - 1,
        };
        let step: usize = if amount < 0 {
            (-(amount + 1)) as usize + 1
        } else {
            amount as usize
        };
        let wanted: usize = if amount < 0 {
            current.saturating_sub(step)
        } else {
            current.saturating_add(step)
        };
        let selected: usize = if wanted < count {
            wanted
        } else {
            count - 1
        };
        self.view.selected_entry = Some(selected);
        self.view.follow_conversation_tail = selected + 1 == count && amount > 0;
        proof {
            app::lemma_conv_only(old(self)@, self@);
        }
    }

    /// Expands or collapses the selected row.
    pub fn toggle_selected(&mut self)
        requires
            old(self).wf(),
        ensures
            final(self)@ == (Desk { conv: old(self)@.toggled(), ..old(self)@ }),
            final(self).wf(),
    {
        self.view.follow_conversation_tail = false;
        if let Some(index) = self.view.selected_entry {
            if index < self.view.entries.len() {
                let ghost before = self@.conv.entries;
                let expanded = self.view.entries[index].expanded;
                self.view.entries[index].expanded = !expanded;
                proof {
                    assert(before[index as int] == old(self).view.entries@[index as int]@);
                    assert(self@.conv.entries =~= old(self)@.toggled().entries);
                    conversation::lemma_cursor_edit(
                        before,
                        index as int,
                        self@.conv.entries[index as int],
                    );
                }
            }
        }
    }

    /// Keyboard expand or collapse. Expanding reveals the entry for reading.
    fn toggle_selected_from_keyboard(&mut self)
        requires
            old(self).wf(),
        ensures
            final(self)@ == old(self)@.keyboard_toggle(),
            final(self).wf(),
    {
        proof {
            reveal(Desk::keyboard_toggle);
        }
        let mut expanding = false;
        if let Some(index) = self.view.selected_entry {
            if index < self.view.entries.len() {
                proof {
                    assert(self@.conv.entries[index as int] == self.view.entries@[index as int]@);
                }
                expanding = !self.view.entries[index].expanded;
            }
        }
        self.toggle_selected();
        self.view.selection_drives_viewport = false;
        if expanding {
            self.view.reveal_entry_top = self.view.selected_entry;
        }
    }

    /// A key while the conversation has the focus.
    pub fn handle_conversation_key(&mut self, key: KeyEvent)
        requires
            old(self).wf(),
        ensures
            final(self)@ == old(self)@.conversation_key(key),
            final(self).wf(),
    {
        proof {
            reveal(Desk::conversation_key);
        }
        match key.code {
            KeyCode::Tab => {
                self.focus = Focus::Input;
            },
            KeyCode::BackTab => {
                self.focus = Focus::Input;
            },
            KeyCode::Up => self.move_selection(-1),
            KeyCode::Down => self.move_selection(1),
            KeyCode::PageUp => self.move_selection(-8),
            KeyCode::PageDown => self.move_selection(8),
            KeyCode::Home => {
                self.view.selected_entry = if self.view.entries.len() > 0 {
                    Some(0)
                } else {
                    None
                };
                self.view.follow_conversation_tail = false;
                self.view.selection_drives_viewport = true;
            },
            KeyCode::End => {
                let count: usize = self.view.entries.len();
                self.view.selected_entry = if count > 0 {
                    Some(count - 1)
                } else {
                    None
                };
                self.view.follow_conversation_tail = true;
                self.view.selection_drives_viewport = true;
            },
            KeyCode::Enter => self.toggle_selected_from_keyboard(),
            KeyCode::Char(character) => {
                if character == 'k' {
                    self.move_selection(-1);
                } else if character == 'j' {
                    self.move_selection(1);
                } else if character == ' ' {
                    self.toggle_selected_from_keyboard();
                }
            },
            _ => {},
        }
    }

    /// Escape: closes the agents drawer, arms the interruption of a live root
    /// run, or, while it is armed, interrupts it.
    pub fn handle_escape(&mut self, now: u64) -> (r: Option<Command>)
        requires
            old(self).wf(),
        ensures
            (final(self)@, history::request(r)) == old(self)@.escape(now),
            final(self).wf(),
    {
        proof {
            reveal(Desk::escape);
        }
        if self.agents_palette_open() {
            self.clear_input();
            self.interruption_deadline = None;
            return None;
        }
        if !self.root_run_active || self.interruption_in_progress {
            self.interruption_deadline = None;
            return None;
        }
        let armed = match self.interruption_deadline {
            Some(deadline) => now <= deadline,
            None => false,
        };
        if armed {
            self.interruption_deadline = None;
            self.interruption_in_progress = true;
            self.set_root_status("Stopping current run…");
            return Some(Command::Interrupt);
        }
        self.interruption_deadline = Some(now.saturating_add(INTERRUPTION_ARM_WINDOW));
        None
    }

    fn disarm_session_deletion(&mut self)
        ensures
            final(self)@ == old(self)@.disarm_deletion(),
            old(self).wf() ==> final(self).wf(),
    {
        self.armed_session = None;
        self.session_notice = None;
    }

    /// Ctrl+D in the session palette: the first press arms the highlighted
    /// session, a second press on the same session deletes it, and anything
    /// else disarms. Deleting the open session replaces it.
    pub fn handle_session_deletion(&mut self) -> (r: Option<Command>)
        requires
            old(self).wf(),
        ensures
            (final(self)@, history::request(r)) == old(self)@.delete_session(),
            final(self).wf(),
    {
        proof {
            reveal(Desk::delete_session);
        }
        let at = match self.session_matches() {
            Some(at) => at,
            None => {
                return None;
            },
        };
        let ghost offered = self@.session_matches();
        proof {
            assert(crate::palette::picked(self.sessions@, at@).len() == at@.len());
        }
        if self.suggestion_index >= at.len() {
            return None;
        }
        proof {
            assert(crate::palette::picked(self.sessions@, at@)[self@.suggestion]
                == self.sessions@[at@[self@.suggestion] as int]@);
        }
        let id: u64 = self.sessions[at[self.suggestion_index]].id;
        let open = id == self.session_id;
        let armed = match self.armed_session {
            Some(armed) => armed == id,
            None => false,
        };
        if armed {
            self.disarm_session_deletion();
            return Some(
                if open {
                    Command::ReplaceSession { delete: id }
                } else {
                    Command::DeleteSession(id)
                },
            );
        }
        self.armed_session = Some(id);
        let number = text::decimal_text(id);
        self.session_notice = Some(
            if open {
                text::concat3(
                    "Press ctrl+d again to delete the open session #",
                    number.as_str(),
                    " and start a fresh one",
                )
            } else {
                text::concat("Press ctrl+d again to delete session #", number.as_str())
            },
        );
        None
    }

    /// One keystroke at time `now`; the command it gives, if any.
    pub fn handle_key(&mut self, key: KeyEvent, now: u64) -> (r: Option<Command>)
        requires
            old(self).wf(),
        ensures
            (final(self)@, history::request(r)) == old(self)@.key(key, now),
            final(self).wf(),
    {
        proof {
            reveal(Desk::key);
        }
        if key.kind == KeyEventKind::Release {
            return None;
        }
        self.dismiss(key);
        if key.code == KeyCode::Esc {
            if key.kind == KeyEventKind::Press {
                return self.handle_escape(now);
            }
            return None;
        }
        self.interruption_deadline = None;
        self.handle_other_key(key)
    }

    /// Dismisses a drag selection, and an armed deletion unless the key may
    /// confirm it.
    fn dismiss(&mut self, key: KeyEvent)
        requires
            old(self).wf(),
        ensures
            final(self)@ == old(self)@.dismissed(key),
            final(self).wf(),
    {
        self.text_selection = None;
        if !(key.modifiers.control && key.code == KeyCode::Char('d')) {
            self.disarm_session_deletion();
        }
    }

    /// A key other than Escape. As with Escape, only a physical press arms or
    /// confirms a deletion, so holding the key down cannot delete a session.
    fn handle_other_key(&mut self, key: KeyEvent) -> (r: Option<Command>)
        requires
            old(self).wf(),
        ensures
            (final(self)@, history::request(r)) == old(self)@.other_key(key),
            final(self).wf(),
    {
        proof {
            reveal(Desk::other_key);
        }
        let pressed = key.kind == KeyEventKind::Press;
        if key.modifiers.control && key.code == KeyCode::Char('d') {
            if pressed {
                return self.handle_session_deletion();
            }
            return None;
        }
        if key.modifiers.control && key.code == KeyCode::Char('c') {
            if self.input.text.as_str().is_empty() {
                self.should_exit = true;
            } else {
                self.clear_input();
            }
            return None;
        }
        if pressed && key.modifiers.alt && (key.code == KeyCode::Char('a') || key.code
            == KeyCode::Char('A')) {
            self.open_agents_drawer();
            return None;
        }
        if pressed && key.modifiers.alt && (key.code == KeyCode::Char('m') || key.code
            == KeyCode::Char('M')) {
            self.open_model_picker();
            return None;
        }
        self.route_key(key)
    }

    /// A key that no global binding takes.
    fn route_key(&mut self, key: KeyEvent) -> (r: Option<Command>)
        requires
            old(self).wf(),
        ensures
            final(self).wf(),
            (final(self)@, history::request(r)) == old(self)@.routed(key),
    {
        proof {
            reveal(Desk::routed);
        }
        let suggestions = self.suggestions();
        let count: usize = suggestions.len();
        if count == 0 {
            self.suggestion_index = 0;
        } else if self.suggestion_index > count - 1 {
            self.suggestion_index = count - 1;
        }
        match self.focus {
            Focus::Input => self.handle_input_key(key, &suggestions),
            Focus::Conversation => {
                self.handle_conversation_key(key);
                None
            },
        }
    }

    /// When a first press of the escape key ceases to count.
    pub fn interruption_deadline(&self) -> (r: Option<u64>)
        ensures
            r == self@.deadline,
    {
        self.interruption_deadline
    }

    /// The warning while one more press of the escape key stops the run.
    pub fn interruption_warning(&self) -> (r: Option<String>)
        ensures
            text::opt_text(r) == (if self@.deadline is Some {
                Some("Press Esc again to stop the current run"@)
            } else {
                None
            }),
    {
        match self.interruption_deadline {
            Some(_) => Some("Press Esc again to stop the current run".to_owned()),
            None => None,
        }
    }

    /// Disarms an interruption whose window has passed.
    pub fn expire_interruption(&mut self, now: u64) -> (r: bool)
        requires
            old(self).wf(),
        ensures
            r == (old(self)@.deadline is Some && now >= old(self)@.deadline->0),
            final(self)@ == if r {
                Desk { deadline: None, ..old(self)@ }
            } else {
                old(self)@
            },
            final(self).wf(),
    {
        match self.interruption_deadline {
            Some(deadline) => {
                if now >= deadline {
                    self.interruption_deadline = None;
                    return true;
                }
                false
            },
            None => false,
        }
    }
}

} // verus!
