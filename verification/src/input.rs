//! The message editor: a text with a cursor, laid out in wrapped rows.

use crate::cells;
use crate::text;
use vstd::prelude::*;
use vstd::string::*;

verus! {

/// An editable text. The cursor counts characters.
#[derive(Clone, Debug)]
pub struct InputBuffer {
    pub text: String,
    pub cursor: usize,
    pub preferred_column: Option<usize>,
}

/// The value of an [`InputBuffer`].
#[verifier::ext_equal]
pub struct Draft {
    pub text: Seq<char>,
    pub cursor: int,
    pub preferred: Option<usize>,
}

/// The visual rows of an input and the cell of each cursor position.
pub struct InputLayout {
    pub rows: Vec<String>,
    pub cursor_positions: Vec<(usize, usize)>,
}

/// The value of an [`InputLayout`] while characters are added to it.
#[verifier::ext_equal]
pub struct Sheet {
    pub done: Seq<Seq<char>>,
    pub line: Seq<char>,
    pub column: nat,
    pub positions: Seq<(usize, usize)>,
}

impl Sheet {
    /// All rows, the open one last.
    pub open spec fn rows(self) -> Seq<Seq<char>> {
        self.done.push(self.line)
    }
}

/// A text laid out in rows of at most `width` cells: a newline opens a row,
/// and so does a character that does not fit on a row that is not empty.
pub open spec fn sheet(s: Seq<char>, width: nat) -> Sheet
    decreases s.len(),
{
    if s.len() == 0 {
        Sheet { done: Seq::empty(), line: Seq::empty(), column: 0, positions: seq![(0, 0)] }
    } else {
        let before = sheet(s.drop_last(), width);
        let c = s.last();
        if c == '\n' {
            Sheet {
                done: before.rows(),
                line: Seq::empty(),
                column: 0,
                positions: before.positions.push((before.rows().len() as usize, 0)),
            }
        } else if before.column > 0 && before.column + cells::cells(c) > width {
            Sheet {
                done: before.rows(),
                line: seq![c],
                column: cells::cells(c),
                positions: before.positions.push(
                    (before.rows().len() as usize, cells::cells(c) as usize),
                ),
            }
        } else {
            let column = before.column + cells::cells(c);
            Sheet {
                done: before.done,
                line: before.line.push(c),
                column,
                positions: before.positions.push((before.done.len() as usize, column as usize)),
            }
        }
    }
}

/// The width a layout works with: at least one cell.
pub open spec fn sheet_width(width: nat) -> nat {
    if width == 0 {
        1
    } else {
        width
    }
}

pub open spec fn distance(a: int, b: int) -> int {
    if a <= b {
        b - a
    } else {
        a - b
    }
}

/// Among the first `n` positions on `row`, the last of those nearest to
/// column `column`.
pub open spec fn nearest(
    positions: Seq<(usize, usize)>,
    n: int,
    row: int,
    column: int,
) -> Option<int>
    decreases n,
{
    if n <= 0 {
        None
    } else {
        let best = nearest(positions, n - 1, row, column);
        if positions[n - 1].0 != row {
            best
        } else {
            match best {
                Some(b) => if distance(positions[n - 1].1 as int, column) <= distance(
                    positions[b].1 as int,
                    column,
                ) {
                    Some(n - 1)
                } else {
                    best
                },
                None => Some(n - 1),
            }
        }
    }
}

/// Among the first `n` positions on `row`, the last whose column is at most
/// `column`; if there is none, the first position on the row.
pub open spec fn clicked(
    positions: Seq<(usize, usize)>,
    n: int,
    row: int,
    column: int,
) -> Option<int>
    decreases n,
{
    if n <= 0 {
        None
    } else {
        let best = clicked(positions, n - 1, row, column);
        if positions[n - 1].0 == row && (best is None || positions[n - 1].1 <= column) {
            Some(n - 1)
        } else {
            best
        }
    }
}

/// Start of the logical line that reaches up to position `n`.
pub open spec fn line_begin(s: Seq<char>, n: int) -> int
    decreases n,
{
    if 0 < n <= s.len() && s[n - 1] != '\n' {
        line_begin(s, n - 1)
    } else {
        n
    }
}

impl Draft {
    /// The cursor, or the end of the text when it lies past it.
    pub open spec fn at(self) -> int {
        if self.cursor <= self.text.len() {
            self.cursor
        } else {
            self.text.len() as int
        }
    }

    pub open spec fn empty() -> Draft {
        Draft { text: Seq::empty(), cursor: 0, preferred: None }
    }

    /// A text with the cursor behind it.
    pub open spec fn ending(s: Seq<char>) -> Draft {
        Draft { text: s, cursor: s.len() as int, preferred: None }
    }

    pub open spec fn positions(self, width: nat) -> Seq<(usize, usize)> {
        sheet(self.text, sheet_width(width)).positions
    }

    pub open spec fn rows(self, width: nat) -> Seq<Seq<char>> {
        sheet(self.text, sheet_width(width)).rows()
    }

    /// Inserts `s` at the cursor and moves the cursor behind it.
    pub open spec fn insert_text(self, s: Seq<char>) -> Draft {
        Draft {
            text: self.text.take(self.at()) + s + self.text.skip(self.at()),
            cursor: if self.cursor + s.len() <= usize::MAX {
                self.cursor + s.len()
            } else {
                usize::MAX as int
            },
            preferred: None,
        }
    }

    pub open spec fn insert(self, c: char) -> Draft {
        self.insert_text(seq![c])
    }

    /// Removes the characters `i..j` and puts the cursor at `cursor`.
    pub open spec fn cut(self, i: int, j: int, cursor: int) -> Draft {
        Draft { text: self.text.take(i) + self.text.skip(j), cursor, preferred: None }
    }

    pub open spec fn backspace(self) -> Draft {
        if self.cursor == 0 {
            self
        } else if self.cursor <= self.text.len() {
            self.cut(self.cursor - 1, self.cursor, self.cursor - 1)
        } else {
            Draft { cursor: self.cursor - 1, preferred: None, ..self }
        }
    }

    pub open spec fn delete(self) -> Draft {
        if self.cursor == self.text.len() {
            self
        } else if self.cursor < self.text.len() {
            self.cut(self.cursor, self.cursor + 1, self.cursor)
        } else {
            Draft { preferred: None, ..self }
        }
    }

    pub open spec fn line_start(self) -> int {
        line_begin(self.text, self.at())
    }

    pub open spec fn line_end(self) -> int {
        text::index_from(self.text, self.at(), '\n')
    }

    pub open spec fn moved(self, cursor: int) -> Draft {
        Draft { cursor, preferred: None, ..self }
    }

    pub open spec fn delete_word_backward(self) -> Draft {
        if self.cursor == 0 {
            self
        } else {
            let start = text::rspan(self.text, text::rspan(self.text, self.at(), true), false);
            self.cut(start, self.at(), start)
        }
    }

    /// The row `direction` leads to, when there is one.
    pub open spec fn target_row(self, direction: int, width: nat) -> Option<int> {
        let row = self.positions(width)[self.at()].0 as int;
        if direction < 0 {
            if row == 0 {
                None
            } else {
                Some(row - 1)
            }
        } else if row + 1 >= self.rows(width).len() {
            None
        } else {
            Some(row + 1)
        }
    }

    /// The column vertical movement aims at.
    pub open spec fn aim(self, width: nat) -> int {
        match self.preferred {
            Some(column) => column as int,
            None => self.positions(width)[self.at()].1 as int,
        }
    }

    /// Where the cursor goes when it moves one row in `direction`.
    pub open spec fn vertical_target(self, direction: int, width: nat) -> Option<int> {
        match self.target_row(direction, width) {
            Some(row) => nearest(
                self.positions(width),
                self.positions(width).len() as int,
                row,
                self.aim(width),
            ),
            None => None,
        }
    }

    pub open spec fn move_vertical(self, direction: int, width: nat) -> Draft {
        match self.vertical_target(direction, width) {
            Some(target) => Draft {
                cursor: target,
                preferred: Some(self.aim(width) as usize),
                ..self
            },
            None => self,
        }
    }

    /// The cursor position for a click on the cell (`row`, `column`).
    pub open spec fn cursor_at(self, width: nat, row: int, column: int) -> int {
        if row >= self.rows(width).len() {
            self.text.len() as int
        } else {
            match clicked(
                self.positions(width),
                self.positions(width).len() as int,
                row,
                column,
            ) {
                Some(index) => index,
                None => 0,
            }
        }
    }

    /// Whether the cursor lies within the text.
    pub open spec fn wf(self) -> bool {
        0 <= self.cursor <= self.text.len()
    }
}

impl View for InputBuffer {
    type V = Draft;

    open spec fn view(&self) -> Draft {
        Draft { text: self.text@, cursor: self.cursor as int, preferred: self.preferred_column }
    }
}

proof fn lemma_sheet_len(s: Seq<char>, width: nat)
    ensures
        sheet(s, width).positions.len() == s.len() + 1,
        sheet(s, width).done.len() <= s.len(),
    decreases s.len(),
{
    if s.len() > 0 {
        lemma_sheet_len(s.drop_last(), width);
    }
}

proof fn lemma_line_begin(s: Seq<char>, n: int)
    requires
        0 <= n <= s.len(),
    ensures
        0 <= line_begin(s, n) <= n,
    decreases n,
{
    if n > 0 && s[n - 1] != '\n' {
        lemma_line_begin(s, n - 1);
    }
}

pub proof fn lemma_nearest(positions: Seq<(usize, usize)>, n: int, row: int, column: int)
    requires
        0 <= n <= positions.len(),
    ensures
        nearest(positions, n, row, column) matches Some(b) ==> {
            &&& 0 <= b < n
            &&& positions[b].0 == row
            &&& forall|i: int|
                0 <= i < n && (#[trigger] positions[i]).0 == row ==> distance(
                    positions[b].1 as int,
                    column,
                ) <= distance(positions[i].1 as int, column)
        },
        nearest(positions, n, row, column) is None ==> forall|i: int|
            0 <= i < n ==> (#[trigger] positions[i]).0 != row,
    decreases n,
{
    if n > 0 {
        lemma_nearest(positions, n - 1, row, column);
    }
}

proof fn lemma_clicked(positions: Seq<(usize, usize)>, n: int, row: int, column: int)
    requires
        0 <= n <= positions.len(),
    ensures
        clicked(positions, n, row, column) matches Some(b) ==> {
            &&& 0 <= b < n
            &&& positions[b].0 == row
            &&& forall|i: int|
                0 <= i < n && (#[trigger] positions[i]).0 == row ==> if positions[b].1 <= column {
                    positions[i].1 <= column ==> i <= b
                } else {
                    positions[i].1 > column && b <= i
                }
        },
        clicked(positions, n, row, column) is None ==> forall|i: int|
            0 <= i < n ==> (#[trigger] positions[i]).0 != row,
    decreases n,
{
    if n > 0 {
        lemma_clicked(positions, n - 1, row, column);
    }
}

/// The byte offset of a character position: the length in UTF-8 of what
/// precedes it.
pub open spec fn byte_offset(s: Seq<char>, character: int) -> int {
    vstd::utf8::encode_utf8(
        s.take(
            if character <= s.len() {
                character
            } else {
                s.len() as int
            },
        ),
    ).len() as int
}

/// Byte offset of the character position `character`, or the byte length when
/// it lies past the end.
pub fn byte_index(text: &str, character: usize) -> (r: usize)
    ensures
        r == byte_offset(text@, character as int),
{
    let head = text::first_chars(text, character);
    let bytes = head.as_str().as_bytes();
    proof {
        let n: int = if character <= text@.len() {
            character as int
        } else {
            text@.len() as int
        };
        assert(text@.take(n) =~= head@);
    }
    bytes.len()
}

impl InputBuffer {
    /// An empty input.
    pub fn empty() -> (r: Self)
        ensures
            r@ == Draft::empty(),
    {
        InputBuffer { text: String::new(), cursor: 0, preferred_column: None }
    }

    /// A copy with the same text, cursor and preferred column.
    pub fn copy(&self) -> (r: Self)
        ensures
            r@ == self@,
    {
        InputBuffer {
            text: self.text.clone(),
            cursor: self.cursor,
            preferred_column: self.preferred_column,
        }
    }

    /// An input holding `text` with the cursor behind it.
    pub fn at_end(text: String) -> (r: Self)
        ensures
            r@ == Draft::ending(text@),
    {
        let cursor: usize = text.as_str().unicode_len();
        InputBuffer { text, cursor, preferred_column: None }
    }

    pub fn char_count(&self) -> (r: usize)
        ensures
            r == self@.text.len(),
    {
        self.text.as_str().unicode_len()
    }

    /// The rows and cursor cells of the text wrapped at `width`.
    pub fn layout(&self, width: usize) -> (r: InputLayout)
        ensures
            text::texts(r.rows@) == self@.rows(width as nat),
            r.cursor_positions@ == self@.positions(width as nat),
            r.rows@.len() == self@.rows(width as nat).len(),
            r.cursor_positions@.len() == self@.text.len() + 1,
    {
        let width: usize = if width == 0 {
            1
        } else {
            width
        };
        let chars = text::chars_of(self.text.as_str());
        let mut rows: Vec<String> = Vec::new();
        let mut line = String::new();
        let mut column: usize = 0;
        let mut positions: Vec<(usize, usize)> = Vec::new();
        positions.push((0, 0));
        let mut i: usize = 0;
        let ghost mut state = sheet(Seq::empty(), width as nat);
        proof {
            assert(chars@.take(0) =~= Seq::empty());
            assert(text::texts(rows@) =~= state.done);
        }
        while i < chars.len()
            invariant
                i <= chars@.len(),
                width >= 1,
                state == sheet(chars@.take(i as int), width as nat),
                text::texts(rows@) == state.done,
                line@ == state.line,
                column == state.column,
                positions@ == state.positions,
            decreases chars@.len() - i,
        {
            let c = chars[i];
            proof {
                assert(chars@.take(i + 1).drop_last() =~= chars@.take(i as int));
                assert(chars@.take(i + 1).last() == c);
                state = sheet(chars@.take(i + 1), width as nat);
            }
            let ghost done = text::texts(rows@);
            if c == '\n' {
                let ghost finished = line@;
                rows.push(line);
                line = String::new();
                column = 0;
                proof {
                    assert(text::texts(rows@) =~= done.push(finished));
                }
                positions.push((rows.len(), 0));
            } else {
                let cells: usize = cells::cells_of(c);
                if column > 0 && (column > width || cells > width - column) {
                    let ghost finished = line@;
                    rows.push(line);
                    line = String::new();
                    column = 0;
                    proof {
                        assert(text::texts(rows@) =~= done.push(finished));
                    }
                }
                line.push(c);
                column = column + cells;
                proof {
                    assert(seq![c] =~= Seq::<char>::empty().push(c));
                }
                positions.push((rows.len(), column));
            }
            i += 1;
        }
        let ghost done = text::texts(rows@);
        let ghost finished = line@;
        rows.push(line);
        proof {
            assert(chars@.take(chars@.len() as int) =~= chars@);
            assert(text::texts(rows@) =~= done.push(finished));
            lemma_sheet_len(self@.text, width as nat);
            assert(text::texts(rows@).len() == rows@.len());
        }
        InputLayout { rows, cursor_positions: positions }
    }

    /// The visual rows of the text wrapped at `width`.
    pub fn rows(&self, width: usize) -> (r: Vec<String>)
        ensures
            text::texts(r@) == self@.rows(width as nat),
    {
        self.layout(width).rows
    }

    /// Row and column of the cursor in the wrapped layout.
    pub fn cursor_position(&self, width: usize) -> (r: (usize, usize))
        ensures
            r == self@.positions(width as nat)[self@.at()],
    {
        let layout = self.layout(width);
        let count: usize = self.char_count();
        let at: usize = if self.cursor <= count {
            self.cursor
        } else {
            count
        };
        layout.cursor_positions[at]
    }

    /// Moves the cursor one visual row up (`direction < 0`) or down, keeping
    /// the column it set out from. Returns whether there was such a row.
    pub fn move_vertical(&mut self, direction: isize, width: usize) -> (r: bool)
        ensures
            final(self)@ == old(self)@.move_vertical(direction as int, width as nat),
            r == old(self)@.vertical_target(direction as int, width as nat) is Some,
    {
        let layout = self.layout(width);
        let (row, column) = self.cursor_position(width);
        let target_row: usize;
        if direction < 0 {
            if row == 0 {
                return false;
            }
            target_row = row - 1;
        } else {
            if row >= layout.rows.len() || row + 1 >= layout.rows.len() {
                return false;
            }
            target_row = row + 1;
        }
        let preferred: usize = match self.preferred_column {
            Some(column) => column,
            None => column,
        };
        match nearest_position(&layout.cursor_positions, target_row, preferred) {
            Some(target) => {
                self.cursor = target;
                self.preferred_column = Some(preferred);
                true
            },
            None => false,
        }
    }

    /// The characters before and behind the cursor.
    fn halves(&self) -> (r: (String, String))
        ensures
            r.0@ == self@.text.take(self@.at()),
            r.1@ == self@.text.skip(self@.at()),
    {
        let chars = text::chars_of(self.text.as_str());
        let at: usize = if self.cursor <= chars.len() {
            self.cursor
        } else {
            chars.len()
        };
        let head = text::text_of(&chars, 0, at);
        let tail = text::text_of(&chars, at, chars.len());
        proof {
            assert(head@ =~= self@.text.take(self@.at()));
            assert(tail@ =~= self@.text.skip(self@.at()));
        }
        (head, tail)
    }

    /// Removes the characters `i..j` and puts the cursor at `cursor`.
    fn cut(&mut self, i: usize, j: usize, cursor: usize)
        requires
            i <= j <= old(self)@.text.len(),
        ensures
            final(self)@ == old(self)@.cut(i as int, j as int, cursor as int),
    {
        let chars = text::chars_of(self.text.as_str());
        let mut text = text::text_of(&chars, 0, i);
        let tail = text::text_of(&chars, j, chars.len());
        text.append(tail.as_str());
        proof {
            assert(text@ =~= self@.text.take(i as int) + self@.text.skip(j as int));
        }
        self.text = text;
        self.cursor = cursor;
        self.preferred_column = None;
    }

    /// Inserts one character at the cursor.
    pub fn insert(&mut self, character: char)
        ensures
            final(self)@ == old(self)@.insert(character),
    {
        let mut s = String::new();
        s.push(character);
        proof {
            assert(s@ =~= seq![character]);
        }
        self.insert_text(s.as_str());
    }

    /// Inserts `text` at the cursor.
    pub fn insert_text(&mut self, text: &str)
        ensures
            final(self)@ == old(self)@.insert_text(text@),
    {
        let (mut head, tail) = self.halves();
        head.append(text);
        head.append(tail.as_str());
        self.text = head;
        self.cursor = self.cursor.saturating_add(text.unicode_len());
        self.preferred_column = None;
    }

    /// Removes the character before the cursor.
    pub fn backspace(&mut self)
        ensures
            final(self)@ == old(self)@.backspace(),
    {
        if self.cursor == 0 {
            return;
        }
        if self.cursor <= self.char_count() {
            let at: usize = self.cursor;
            self.cut(at - 1, at, at - 1);
        } else {
            self.cursor = self.cursor - 1;
            self.preferred_column = None;
        }
    }

    /// Removes the character behind the cursor.
    pub fn delete(&mut self)
        ensures
            final(self)@ == old(self)@.delete(),
    {
        let count: usize = self.char_count();
        if self.cursor == count {
            return;
        }
        if self.cursor < count {
            let at: usize = self.cursor;
            self.cut(at, at + 1, at);
        } else {
            self.preferred_column = None;
        }
    }

    /// Character index of the start of the logical line containing the cursor.
    pub fn line_start(&self) -> (r: usize)
        ensures
            r == self@.line_start(),
            r <= self@.at(),
    {
        let chars = text::chars_of(self.text.as_str());
        let mut i: usize = if self.cursor <= chars.len() {
            self.cursor
        } else {
            chars.len()
        };
        proof {
            lemma_line_begin(self@.text, self@.at());
        }
        while i > 0 && chars[i - 1] != '\n'
            invariant
                chars@ == self@.text,
                i <= chars@.len(),
                self@.line_start() == line_begin(self@.text, i as int),
            decreases i,
        {
            i -= 1;
        }
        i
    }

    /// Character index just past the end of the logical line containing the
    /// cursor.
    pub fn line_end(&self) -> (r: usize)
        ensures
            r == self@.line_end(),
            self@.at() <= r <= self@.text.len(),
    {
        let chars = text::chars_of(self.text.as_str());
        let mut i: usize = if self.cursor <= chars.len() {
            self.cursor
        } else {
            chars.len()
        };
        proof {
            text::lemma_index_from(self@.text, self@.at(), '\n');
        }
        while i < chars.len() && chars[i] != '\n'
            invariant
                chars@ == self@.text,
                i <= chars@.len(),
                self@.line_end() == text::index_from(self@.text, i as int, '\n'),
            decreases chars@.len() - i,
        {
            i += 1;
        }
        i
    }

    /// Moves the cursor to the start of its logical line.
    pub fn move_to_line_start(&mut self)
        ensures
            final(self)@ == old(self)@.moved(old(self)@.line_start()),
    {
        self.cursor = self.line_start();
        self.preferred_column = None;
    }

    /// Moves the cursor to the end of its logical line.
    pub fn move_to_line_end(&mut self)
        ensures
            final(self)@ == old(self)@.moved(old(self)@.line_end()),
    {
        self.cursor = self.line_end();
        self.preferred_column = None;
    }

    /// Removes the whitespace-delimited word immediately before the cursor.
    pub fn delete_word_backward(&mut self)
        ensures
            final(self)@ == old(self)@.delete_word_backward(),
    {
        if self.cursor == 0 {
            return;
        }
        let chars = text::chars_of(self.text.as_str());
        let at: usize = if self.cursor <= chars.len() {
            self.cursor
        } else {
            chars.len()
        };
        let start: usize = text::word_boundary_before(&chars, at);
        self.cut(start, at, start);
    }

    /// Character index of the cursor position nearest the clicked visual
    /// (row, column). Rows below the text place the cursor at its end.
    pub fn cursor_at(&self, width: usize, row: usize, column: usize) -> (r: usize)
        ensures
            r == self@.cursor_at(width as nat, row as int, column as int),
            r <= self@.text.len(),
    {
        let layout = self.layout(width);
        if row >= layout.rows.len() {
            return self.char_count();
        }
        let positions = &layout.cursor_positions;
        let mut best: Option<usize> = None;
        let mut i: usize = 0;
        while i < positions.len()
            invariant
                positions@ == self@.positions(width as nat),
                i <= positions@.len(),
                best matches Some(b) ==> b < i,
                index_of(best) == clicked(positions@, i as int, row as int, column as int),
            decreases positions@.len() - i,
        {
            if positions[i].0 == row && (best.is_none() || positions[i].1 <= column) {
                best = Some(i);
            }
            i += 1;
        }
        proof {
            lemma_sheet_len(self@.text, sheet_width(width as nat));
        }
        match best {
            Some(index) => index,
            None => 0,
        }
    }
}

pub open spec fn index_of(best: Option<usize>) -> Option<int> {
    match best {
        Some(b) => Some(b as int),
        None => None,
    }
}

fn nearest_position(positions: &Vec<(usize, usize)>, row: usize, column: usize) -> (r: Option<
    usize,
>)
    ensures
        index_of(r) == nearest(positions@, positions@.len() as int, row as int, column as int),
{
    let mut best: Option<usize> = None;
    let mut i: usize = 0;
    while i < positions.len()
        invariant
            i <= positions@.len(),
            best matches Some(b) ==> b < i,
            index_of(best) == nearest(positions@, i as int, row as int, column as int),
        decreases positions@.len() - i,
    {
        if positions[i].0 == row {
            best =
            match best {
                Some(b) => if gap(positions[i].1, column) <= gap(positions[b].1, column) {
                    Some(i)
                } else {
                    Some(b)
                },
                None => Some(i),
            };
        }
        i += 1;
    }
    best
}

fn gap(a: usize, b: usize) -> (r: usize)
    ensures
        r == distance(a as int, b as int),
{
    if a <= b {
        b - a
    } else {
        a - b
    }
}

/// Removing the character just typed restores the text and the cursor.
pub proof fn backspace_undoes_insert(d: Draft, c: char)
    requires
        d.wf(),
        d.cursor < usize::MAX,
    ensures
        d.insert(c).backspace().text == d.text,
        d.insert(c).backspace().cursor == d.cursor,
{
    let e = d.insert(c);
    assert(e.text.take(e.cursor - 1) =~= d.text.take(d.cursor));
    assert(e.text.skip(e.cursor) =~= d.text.skip(d.cursor));
    assert(d.text.take(d.cursor) + d.text.skip(d.cursor) =~= d.text);
}

/// Deleting forward, one step back from an insertion, restores the text too.
pub proof fn delete_undoes_insert(d: Draft, c: char)
    requires
        d.wf(),
        d.cursor < usize::MAX,
    ensures
        d.insert(c).moved(d.cursor).delete().text == d.text,
        d.insert(c).moved(d.cursor).delete().cursor == d.cursor,
{
    let e = d.insert(c);
    assert(e.text.take(d.cursor) =~= d.text.take(d.cursor));
    assert(e.text.skip(d.cursor + 1) =~= d.text.skip(d.cursor));
    assert(d.text.take(d.cursor) + d.text.skip(d.cursor) =~= d.text);
}

/// Pasting a text is typing its characters one after another.
pub proof fn pasting_is_typing(d: Draft, s: Seq<char>, c: char)
    requires
        d.wf(),
        d.cursor + s.len() < usize::MAX,
    ensures
        d.insert_text(s.push(c)) == d.insert_text(s).insert(c),
{
    let e = d.insert_text(s);
    assert(e.text.take(e.cursor) =~= d.text.take(d.cursor) + s);
    assert(e.text.skip(e.cursor) =~= d.text.skip(d.cursor));
    assert(d.insert_text(s.push(c)) =~= e.insert(c));
}

/// Every editing and movement operation keeps the cursor within the text.
pub proof fn edits_keep_the_cursor_in_the_text(
    d: Draft,
    s: Seq<char>,
    direction: int,
    width: nat,
    row: int,
    column: int,
)
    requires
        d.wf(),
    ensures
        Draft::ending(s).wf(),
        d.insert_text(s).wf(),
        d.backspace().wf(),
        d.delete().wf(),
        d.delete_word_backward().wf(),
        d.moved(d.line_start()).wf(),
        d.moved(d.line_end()).wf(),
        d.move_vertical(direction, width).wf(),
        d.moved(d.cursor_at(width, row, column)).wf(),
{
    text::lemma_rspan(d.text, d.at(), true);
    text::lemma_rspan(d.text, text::rspan(d.text, d.at(), true), false);
    text::lemma_index_from(d.text, d.at(), '\n');
    lemma_line_begin(d.text, d.at());
    lemma_sheet_len(d.text, sheet_width(width));
    let positions = d.positions(width);
    if d.target_row(direction, width) is Some {
        lemma_nearest(
            positions,
            positions.len() as int,
            d.target_row(direction, width)->0,
            d.aim(width),
        );
    }
    lemma_clicked(positions, positions.len() as int, row, column);
}

/// A click lands on the clicked row: at the last position at or before the
/// clicked column, or at the first position of a row that begins behind it.
pub proof fn clicks_land_on_their_row(d: Draft, width: nat, row: int, column: int, i: int)
    requires
        row < d.rows(width).len(),
        0 <= i < d.positions(width).len(),
        d.positions(width)[i].0 == row,
    ensures
        ({
            let target = d.cursor_at(width, row, column);
            let positions = d.positions(width);
            &&& 0 <= target <= d.text.len()
            &&& positions[target].0 == row
            &&& if positions[target].1 <= column {
                positions[i].1 <= column ==> i <= target
            } else {
                positions[i].1 > column && target <= i
            }
        }),
{
    let positions = d.positions(width);
    lemma_sheet_len(d.text, sheet_width(width));
    lemma_clicked(positions, positions.len() as int, row, column);
}

/// Vertical movement lands on the neighbouring row, at a position no farther
/// from the column it aims at than any other on that row.
pub proof fn vertical_movement_lands_nearest(d: Draft, direction: int, width: nat, i: int)
    requires
        d.wf(),
        d.vertical_target(direction, width) is Some,
        0 <= i < d.positions(width).len(),
        d.positions(width)[i].0 == d.target_row(direction, width)->0,
    ensures
        ({
            let target = d.vertical_target(direction, width)->0;
            let positions = d.positions(width);
            &&& 0 <= target <= d.text.len()
            &&& positions[target].0 == d.target_row(direction, width)->0
            &&& distance(positions[target].1 as int, d.aim(width)) <= distance(
                positions[i].1 as int,
                d.aim(width),
            )
        }),
{
    let positions = d.positions(width);
    lemma_sheet_len(d.text, sheet_width(width));
    lemma_nearest(
        positions,
        positions.len() as int,
        d.target_row(direction, width)->0,
        d.aim(width),
    );
}

/// Rows ascend with the position, and columns ascend within a row.
proof fn lemma_positions(s: Seq<char>, width: nat)
    requires
        s.len() <= usize::MAX,
        width <= usize::MAX,
    ensures
        ({
            let now = sheet(s, width);
            &&& now.positions.len() == s.len() + 1
            &&& now.done.len() <= s.len()
            &&& now.column <= usize::MAX
            &&& now.positions.last() == (now.done.len() as usize, now.column as usize)
            &&& forall|i: int|
                0 <= i <= s.len() ==> (#[trigger] now.positions[i]).0 <= now.done.len() && (
                now.positions[i].0 == now.done.len() ==> now.positions[i].1 <= now.column)
            &&& forall|i: int, j: int|
                0 <= i < j <= s.len() ==> (#[trigger] now.positions[i]).0 <= (
                #[trigger] now.positions[j]).0 && (now.positions[i].0 == now.positions[j].0 ==> {
                    &&& now.positions[i].1 <= now.positions[j].1
                    &&& cells::cells(s[i]) > 0 ==> now.positions[i].1 < now.positions[j].1
                    &&& s[i] != '\n'
                })
        }),
    decreases s.len(),
{
    if s.len() > 0 {
        let front = s.drop_last();
        lemma_positions(front, width);
        let before = sheet(front, width);
        let now = sheet(s, width);
        let n = s.len() as int;
        assert forall|i: int| 0 <= i < n implies now.positions[i] == #[trigger] before.positions[i] by {}
        assert forall|i: int, j: int| 0 <= i < j <= n implies (#[trigger] now.positions[i]).0 <= (
        #[trigger] now.positions[j]).0 && (now.positions[i].0 == now.positions[j].0 ==> {
            &&& now.positions[i].1 <= now.positions[j].1
            &&& cells::cells(s[i]) > 0 ==> now.positions[i].1 < now.positions[j].1
            &&& s[i] != '\n'
        }) by {
            assert(now.positions[i] == before.positions[i]);
            if j < n {
                assert(now.positions[j] == before.positions[j]);
                assert(front[i] == s[i]);
            } else if i < n - 1 {
                assert(front[i] == s[i]);
                assert(before.positions[n - 1] == before.positions.last());
            } else {
                assert(before.positions[n - 1] == before.positions.last());
            }
        }
    }
}

/// Clicking the cell at which the cursor is drawn puts it where it is drawn,
/// and where it was, unless only characters without cells lie between.
pub proof fn clicking_the_cursor_keeps_it(d: Draft, width: nat)
    requires
        d.wf(),
        d.text.len() <= usize::MAX,
        width <= usize::MAX,
    ensures
        ({
            let (row, column) = d.positions(width)[d.cursor];
            let target = d.cursor_at(width, row as int, column as int);
            &&& d.cursor <= target <= d.text.len()
            &&& d.positions(width)[target] == (row, column)
            &&& forall|k: int|
                d.cursor <= k < target ==> cells::cells(#[trigger] d.text[k]) == 0 && d.text[k]
                    != '\n'
        }),
{
    let positions = d.positions(width);
    let (row, column) = positions[d.cursor];
    let target = d.cursor_at(width, row as int, column as int);
    lemma_positions(d.text, sheet_width(width));
    clicks_land_on_their_row(d, width, row as int, column as int, d.cursor);
    if d.cursor < target {
        assert(positions[d.cursor].1 <= positions[target].1);
    }
    assert forall|k: int| d.cursor <= k < target implies cells::cells(#[trigger] d.text[k]) == 0
        && d.text[k] != '\n' by {
        assert(positions[k].0 <= positions[target].0);
        if d.cursor < k {
            assert(positions[d.cursor].0 <= positions[k].0);
        }
        assert(positions[k].0 == positions[target].0);
        assert(positions[k].1 <= positions[target].1);
        assert(positions[d.cursor].1 <= positions[k].1);
    }
}

/// Moving a row up and then down again, or down and then up, puts the cursor
/// where it was drawn.
pub proof fn vertical_moves_come_back(d: Draft, direction: int, width: nat)
    requires
        d.wf(),
        d.preferred is None,
        d.text.len() <= usize::MAX,
        width <= usize::MAX,
        d.vertical_target(direction, width) is Some,
    ensures
        ({
            let opposite: int = if direction < 0 {
                1
            } else {
                -1
            };
            let back = d.move_vertical(direction, width).move_vertical(opposite, width);
            &&& back.wf()
            &&& back.text == d.text
            &&& d.positions(width)[back.cursor] == d.positions(width)[d.cursor]
        }),
{
    let opposite: int = if direction < 0 {
        1
    } else {
        -1
    };
    let positions = d.positions(width);
    lemma_positions(d.text, sheet_width(width));
    let (row, column) = positions[d.cursor];
    lemma_nearest(
        positions,
        positions.len() as int,
        d.target_row(direction, width)->0,
        d.aim(width),
    );
    let there = d.move_vertical(direction, width);
    assert(there.aim(width) == column);
    assert(there.target_row(opposite, width) == Some(row as int));
    lemma_nearest(positions, positions.len() as int, row as int, column as int);
    assert(positions[d.cursor].0 == row);
}

/// A text without its newlines.
pub open spec fn without_newlines(s: Seq<char>) -> Seq<char>
    decreases s.len(),
{
    if s.len() == 0 {
        s
    } else if s.last() == '\n' {
        without_newlines(s.drop_last())
    } else {
        without_newlines(s.drop_last()).push(s.last())
    }
}

/// The layout shows every character of the text but the newlines, in order.
pub proof fn layout_shows_the_text(s: Seq<char>, width: nat)
    ensures
        cells::concat_all(sheet(s, width).rows()) == without_newlines(s),
    decreases s.len(),
{
    let now = sheet(s, width);
    assert(now.rows().drop_last() =~= now.done);
    if s.len() > 0 {
        let before = sheet(s.drop_last(), width);
        layout_shows_the_text(s.drop_last(), width);
        assert(before.rows().drop_last() =~= before.done);
        assert(cells::concat_all(now.rows()) =~= without_newlines(s));
    } else {
        assert(cells::concat_all(now.done) =~= Seq::empty());
        assert(cells::concat_all(now.rows()) =~= s);
    }
}

/// Cells of the characters of a row.
pub open spec fn row_cells(row: Seq<char>) -> nat
    decreases row.len(),
{
    if row.len() == 0 {
        0
    } else {
        row_cells(row.drop_last()) + cells::cells(row.last())
    }
}

/// Whether a row stays within the container, or holds a character that takes
/// all of its cells.
pub open spec fn row_fits(row: Seq<char>, width: nat) -> bool {
    row_cells(row) <= width || exists|i: int|
        0 <= i < row.len() && cells::cells(#[trigger] row[i]) == row_cells(row)
}

pub proof fn lemma_sheet_rows(s: Seq<char>, width: nat)
    requires
        width >= 1,
    ensures
        sheet(s, width).column == row_cells(sheet(s, width).line),
        row_fits(sheet(s, width).line, width),
        forall|k: int|
            0 <= k < sheet(s, width).done.len() ==> row_fits(
                #[trigger] sheet(s, width).done[k],
                width,
            ),
    decreases s.len(),
{
    if s.len() > 0 {
        let before = sheet(s.drop_last(), width);
        let c = s.last();
        lemma_sheet_rows(s.drop_last(), width);
        let now = sheet(s, width);
        if c != '\n' {
            let line = now.line;
            if before.column > 0 && before.column + cells::cells(c) > width {
                assert(line.drop_last() =~= Seq::empty());
                assert(line.last() == c);
                assert(row_cells(line.drop_last()) == 0);
                assert(row_cells(line) == cells::cells(c));
                assert(cells::cells(line[0]) == row_cells(line));
            } else {
                assert(line.drop_last() =~= before.line);
                assert(line.last() == c);
                if row_cells(line) > width {
                    assert(cells::cells(line[line.len() - 1]) == row_cells(line));
                }
            }
        }
        assert forall|k: int| 0 <= k < now.done.len() implies row_fits(
            #[trigger] now.done[k],
            width,
        ) by {
            if k < before.done.len() {
                assert(now.done[k] == before.done[k]);
            } else {
                assert(now.done[k] == before.line);
            }
        }
    }
}

/// No row of the layout is wider than the container, but for a row in which
/// one character takes all the cells.
pub proof fn layout_rows_fit(s: Seq<char>, width: nat, k: int)
    requires
        width >= 1,
        0 <= k < sheet(s, width).rows().len(),
    ensures
        row_fits(sheet(s, width).rows()[k], width),
{
    lemma_sheet_rows(s, width);
}

} // verus!
