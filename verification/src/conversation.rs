//! One agent's conversation: pinned rows, then the rows still streaming in.

use crate::history;
use crate::history::{copy_opt, opt_is, AgentHistory, CommittedRow, Fold, FoldOutcome, HistoryKind, RunRow};
use crate::intent;
use crate::markdown::StyledRow;
use crate::text;
use vstd::prelude::*;
use vstd::string::*;

verus! {

#[derive(Clone, Copy, Debug, PartialEq, Eq, Structural)]
pub enum EntryKind {
    User,
    Assistant,
    Reasoning,
    ToolCall,
    ToolResult,
    System,
    Error,
}

/// What the layout of a row depends on.
#[derive(Clone, Copy, Debug, PartialEq, Eq, Structural)]
pub struct LayoutKey {
    pub width: usize,
    pub expanded: bool,
    pub selected: bool,
    pub dimmed: bool,
    pub title_len: usize,
    pub body_len: usize,
}

/// The display rows of a conversation row. The indent of each is how many of
/// its leading cells are presentation.
#[derive(Debug)]
pub struct EntryLayout {
    pub key: LayoutKey,
    pub rows: Vec<StyledRow>,
}

/// One row of a conversation.
#[derive(Debug)]
pub struct ConversationEntry {
    pub kind: EntryKind,
    pub title: String,
    pub body: String,
    pub expanded: bool,
    pub pending_tool: bool,
    pub streaming: bool,
    pub model_owner: Option<String>,
    pub model_run: Option<String>,
    pub tool_owner: Option<String>,
    pub tool_run: Option<String>,
    pub tool_index: Option<usize>,
    pub tool_name: String,
    /// Which streaming turn produced this overlay row; `None` for pinned rows.
    pub overlay_turn: Option<u64>,
    /// The display rows as last laid out; no part of the row's value.
    pub layout: Option<EntryLayout>,
}

/// The value of a [`ConversationEntry`].
pub struct Entry {
    pub kind: EntryKind,
    pub title: Seq<char>,
    pub body: Seq<char>,
    pub expanded: bool,
    pub pending_tool: bool,
    pub streaming: bool,
    pub model_owner: Option<Seq<char>>,
    pub model_run: Option<Seq<char>>,
    pub tool_owner: Option<Seq<char>>,
    pub tool_run: Option<Seq<char>>,
    pub tool_index: Option<usize>,
    pub tool_name: Seq<char>,
    pub overlay_turn: Option<u64>,
}

impl View for ConversationEntry {
    type V = Entry;

    open spec fn view(&self) -> Entry {
        Entry {
            kind: self.kind,
            title: self.title@,
            body: self.body@,
            expanded: self.expanded,
            pending_tool: self.pending_tool,
            streaming: self.streaming,
            model_owner: text::opt_text(self.model_owner),
            model_run: text::opt_text(self.model_run),
            tool_owner: text::opt_text(self.tool_owner),
            tool_run: text::opt_text(self.tool_run),
            tool_index: self.tool_index,
            tool_name: self.tool_name@,
            overlay_turn: self.overlay_turn,
        }
    }
}

/// The values of a list of entries.
pub open spec fn entries_of(v: Seq<ConversationEntry>) -> Seq<Entry> {
    v.map_values(|e: ConversationEntry| e@)
}

impl Entry {
    /// The run that owns the row.
    pub open spec fn run(self) -> Option<Seq<char>> {
        match self.model_run {
            Some(run) => Some(run),
            None => self.tool_run,
        }
    }

    /// Whether the row has no second run.
    pub open spec fn of_one_run(self) -> bool {
        self.model_run is None || self.tool_run is None
    }

    /// Whether any part of the row belongs to `run`.
    pub open spec fn touches(self, run: Seq<char>) -> bool {
        self.model_run == Some(run) || self.tool_run == Some(run)
    }
}

/// A row without owner, run or streaming state.
pub open spec fn plain(kind: EntryKind, title: Seq<char>, body: Seq<char>) -> Entry {
    Entry {
        kind,
        title,
        body,
        expanded: false,
        pending_tool: false,
        streaming: false,
        model_owner: None,
        model_run: None,
        tool_owner: None,
        tool_run: None,
        tool_index: None,
        tool_name: Seq::empty(),
        overlay_turn: None,
    }
}

/// The kind under which a committed row is shown.
pub open spec fn kind_of(kind: HistoryKind) -> EntryKind {
    match kind {
        HistoryKind::User => EntryKind::User,
        HistoryKind::Assistant => EntryKind::Assistant,
        HistoryKind::Reasoning => EntryKind::Reasoning,
        HistoryKind::ToolCall => EntryKind::ToolCall,
        HistoryKind::ToolResult => EntryKind::ToolResult,
        HistoryKind::System => EntryKind::System,
    }
}

/// The row shown for a committed row: messages are expanded, tool calls await
/// their result, and the run is kept where later events refer to it.
pub open spec fn committed(row: RunRow) -> Entry {
    let kind = kind_of(row.row.kind);
    let base = plain(kind, row.row.title, row.row.body);
    match kind {
        EntryKind::User => Entry { expanded: true, ..base },
        EntryKind::Assistant => Entry { expanded: true, model_run: row.run, ..base },
        EntryKind::Reasoning => Entry { model_run: row.run, ..base },
        EntryKind::ToolCall => Entry { pending_tool: true, tool_run: row.run, ..base },
        EntryKind::ToolResult => Entry { tool_run: row.run, ..base },
        EntryKind::System => base,
        EntryKind::Error => base,
    }
}

/// The row with its owner recorded where its kind has one.
pub open spec fn owned(e: Entry, owner: Seq<char>) -> Entry {
    match e.kind {
        EntryKind::Assistant => Entry { model_owner: Some(owner), ..e },
        EntryKind::Reasoning => Entry { model_owner: Some(owner), ..e },
        EntryKind::ToolCall => Entry { tool_owner: Some(owner), ..e },
        EntryKind::ToolResult => Entry { tool_owner: Some(owner), ..e },
        _ => e,
    }
}

pub open spec fn is_pending_call(e: Entry, run: Seq<char>) -> bool {
    e.kind == EntryKind::ToolCall && e.pending_tool && e.tool_run == Some(run)
}

/// Index of the first call of `run`, from `i` on and before `n`, that awaits
/// its result.
pub open spec fn first_pending(entries: Seq<Entry>, i: int, n: int, run: Seq<char>) -> Option<int>
    decreases n - i,
{
    if i >= n {
        None
    } else if is_pending_call(entries[i], run) {
        Some(i)
    } else {
        first_pending(entries, i + 1, n, run)
    }
}

/// The rows after the result `e` has settled the first call of its run that
/// awaits one among the first `n`.
pub open spec fn settled(entries: Seq<Entry>, n: int, e: Entry) -> Seq<Entry> {
    if e.kind == EntryKind::ToolResult && e.tool_run is Some {
        match first_pending(entries, 0, n, e.tool_run->0) {
            Some(i) => entries.update(i, Entry { pending_tool: false, ..entries[i] }),
            None => entries,
        }
    } else {
        entries
    }
}

/// The entries of a restored conversation.
pub open spec fn restored(rows: Seq<RunRow>) -> Seq<Entry>
    decreases rows.len(),
{
    if rows.len() == 0 {
        Seq::empty()
    } else {
        let before = restored(rows.drop_last());
        let e = committed(rows.last());
        settled(before, before.len() as int, e).push(e)
    }
}

/// One agent's view of its conversation.
#[derive(Debug)]
pub struct AgentConversation {
    pub entries: Vec<ConversationEntry>,
    pub selected_entry: Option<usize>,
    pub conversation_offset: usize,
    pub follow_conversation_tail: bool,
    pub selection_drives_viewport: bool,
    /// One-shot: the next paint aligns this entry near the top.
    pub reveal_entry_top: Option<usize>,
    pub status: String,
    pub context_tokens: Option<u64>,
    pub parent: Option<String>,
    pub model: Option<String>,
    /// Whether this agent currently has a live run.
    pub run_active: bool,
    /// Create order for this session view (higher is newer).
    pub created_ord: u64,
    /// Boundary between pinned rows and the streaming overlay at the tail.
    pub committed_len: usize,
    /// Counts streaming turns; overlay rows carry the turn that produced them.
    pub overlay_turn: u64,
    /// Runs whose late streaming events are stale.
    pub dead_runs: Vec<String>,
}

/// The value of an [`AgentConversation`].
pub struct Conv {
    pub entries: Seq<Entry>,
    pub selected: Option<int>,
    pub offset: usize,
    pub follow: bool,
    pub drives: bool,
    pub reveal: Option<int>,
    pub status: Seq<char>,
    pub context_tokens: Option<u64>,
    pub parent: Option<Seq<char>>,
    pub model: Option<Seq<char>>,
    pub run_active: bool,
    pub created_ord: u64,
    pub committed: int,
    pub turn: u64,
    pub dead: Set<Seq<char>>,
}

pub open spec fn opt_int(v: Option<usize>) -> Option<int> {
    match v {
        Some(v) => Some(v as int),
        None => None,
    }
}

impl View for AgentConversation {
    type V = Conv;

    open spec fn view(&self) -> Conv {
        Conv {
            entries: entries_of(self.entries@),
            selected: opt_int(self.selected_entry),
            offset: self.conversation_offset,
            follow: self.follow_conversation_tail,
            drives: self.selection_drives_viewport,
            reveal: opt_int(self.reveal_entry_top),
            status: self.status@,
            context_tokens: self.context_tokens,
            parent: text::opt_text(self.parent),
            model: text::opt_text(self.model),
            run_active: self.run_active,
            created_ord: self.created_ord,
            committed: self.committed_len as int,
            turn: self.overlay_turn,
            dead: text::texts(self.dead_runs@).to_set(),
        }
    }
}

/// Index of the last element of a sequence of length `n`.
pub open spec fn last_index(n: int) -> Option<int> {
    if n > 0 {
        Some(n - 1)
    } else {
        None
    }
}

/// What retires an overlay row: its run and, for a single turn, the turn.
pub open spec fn retires(e: Entry, run: Seq<char>, turn: Option<u64>) -> bool {
    &&& e.run() == Some(run)
    &&& turn is Some ==> e.kind != EntryKind::ToolResult && e.overlay_turn == turn
}

/// The earlier of two optional turns.
pub open spec fn earlier(a: Option<u64>, b: Option<u64>) -> Option<u64> {
    match (a, b) {
        (Some(x), Some(y)) => if x <= y {
            a
        } else {
            b
        },
        (Some(x), None) => a,
        (None, _) => b,
    }
}

/// The oldest streaming turn of `run` among the rows `i..`.
pub open spec fn oldest_turn(entries: Seq<Entry>, i: int, run: Seq<char>) -> Option<u64>
    decreases entries.len() - i,
{
    if i < 0 || i >= entries.len() {
        None
    } else {
        let rest = oldest_turn(entries, i + 1, run);
        if entries[i].run() == Some(run) && entries[i].kind != EntryKind::ToolResult {
            earlier(entries[i].overlay_turn, rest)
        } else {
            rest
        }
    }
}

/// Index of the last row of `run` before `n`.
pub open spec fn last_of_run(entries: Seq<Entry>, n: int, run: Seq<char>) -> Option<int>
    decreases n,
{
    if n <= 0 {
        None
    } else if entries[n - 1].run() == Some(run) {
        Some(n - 1)
    } else {
        last_of_run(entries, n - 1, run)
    }
}

/// A piece of a streamed tool call.
pub struct CallPiece {
    pub index: usize,
    pub name: Option<Seq<char>>,
    pub arguments: Seq<char>,
}

/// Whether the row is the streamed call the piece continues.
pub open spec fn continues(e: Entry, address: Seq<char>, run: Seq<char>, index: usize, turn: u64) -> bool {
    &&& e.kind == EntryKind::ToolCall
    &&& e.pending_tool
    &&& e.tool_owner == Some(address)
    &&& e.tool_run == Some(run)
    &&& e.tool_index == Some(index)
    &&& e.overlay_turn == Some(turn)
}

/// Index of the last row in `from..n` that the piece continues.
pub open spec fn last_call(
    entries: Seq<Entry>,
    from: int,
    n: int,
    address: Seq<char>,
    run: Seq<char>,
    index: usize,
    turn: u64,
) -> Option<int>
    decreases n,
{
    if n <= from || n <= 0 {
        None
    } else if continues(entries[n - 1], address, run, index, turn) {
        Some(n - 1)
    } else {
        last_call(entries, from, n - 1, address, run, index, turn)
    }
}

/// The call with the title its arguments tell, when they tell one.
pub open spec fn retitled(e: Entry, address: Seq<char>) -> Entry {
    match intent::intent_title(e.tool_name, e.body, address) {
        Some(title) => Entry { title, ..e },
        None => e,
    }
}

pub open spec fn sat_succ(n: int, max: int) -> int {
    if n < max {
        n + 1
    } else {
        max
    }
}

/// Whether each row belongs to one run at most, and each run has at most one
/// streaming row: the row it is writing.
#[verifier::opaque]
pub open spec fn one_cursor(entries: Seq<Entry>) -> bool {
    &&& forall|i: int| 0 <= i < entries.len() ==> (#[trigger] entries[i]).of_one_run()
    &&& forall|i: int, j: int|
        0 <= i < j < entries.len() && (#[trigger] entries[i]).streaming && (
        #[trigger] entries[j]).streaming && entries[i].run() is Some ==> entries[i].run()
            != entries[j].run()
}

impl Conv {
    /// Whether the pinned rows are rows of the conversation.
    pub open spec fn bounded(self) -> bool {
        0 <= self.committed <= self.entries.len()
    }

    pub open spec fn wf(self) -> bool {
        self.bounded() && one_cursor(self.entries)
    }

    /// Whether the selection, if any, names a row.
    pub open spec fn selection_in_range(self) -> bool {
        self.selected matches Some(s) ==> 0 <= s < self.entries.len()
    }

    /// The selection moved to the last row when the view follows the tail.
    pub open spec fn at_tail(self, tail: bool) -> Conv {
        if tail || self.follow {
            Conv { selected: last_index(self.entries.len() as int), ..self }
        } else {
            self
        }
    }

    /// Inserts a row at the pinned boundary, before the streaming overlay.
    #[verifier::opaque]
    pub open spec fn pin(self, e: Entry, tail: bool) -> Conv {
        let selected = match self.selected {
            Some(s) => Some(
                if s >= self.committed {
                    sat_succ(s, usize::MAX as int)
                } else {
                    s
                },
            ),
            None => None,
        };
        Conv {
            entries: self.entries.insert(self.committed, e),
            committed: self.committed + 1,
            selected,
            ..self
        }.at_tail(tail)
    }

    /// Pins a local row.
    pub open spec fn push_entry(
        self,
        kind: EntryKind,
        title: Seq<char>,
        body: Seq<char>,
        tail: bool,
    ) -> Conv {
        self.pin(plain(kind, title, body), tail)
    }

    /// Pins an error row and says so in the status.
    pub open spec fn push_error(self, title: Seq<char>, body: Seq<char>, tail: bool) -> Conv {
        Conv { status: "Error"@, ..self.push_entry(EntryKind::Error, title, body, tail) }
    }

    /// Appends an overlay row.
    pub open spec fn overlay(self, e: Entry, tail: bool) -> Conv {
        Conv { entries: self.entries.push(e), ..self }.at_tail(tail)
    }

    /// Removes the row `i`; a selection behind it follows its row.
    pub open spec fn remove(self, i: int) -> Conv {
        let entries = self.entries.remove(i);
        let selected = match self.selected {
            Some(s) => if entries.len() == 0 {
                None
            } else if s > i {
                Some(s - 1)
            } else if s < entries.len() {
                Some(s)
            } else {
                Some(entries.len() - 1)
            },
            None => None,
        };
        Conv {
            entries,
            selected,
            committed: if i < self.committed {
                self.committed - 1
            } else {
                self.committed
            },
            ..self
        }
    }

    /// Removes the rows from `i` on that `run` and `turn` retire.
    pub open spec fn retire_from(self, i: int, run: Seq<char>, turn: Option<u64>) -> Conv
        decreases self.entries.len() - i,
    {
        if i < 0 || i >= self.entries.len() {
            self
        } else if retires(self.entries[i], run, turn) {
            self.remove(i).retire_from(i, run, turn)
        } else {
            self.retire_from(i + 1, run, turn)
        }
    }

    /// Removes the oldest streamed turn of a run.
    pub open spec fn pop_turn(self, run: Seq<char>) -> Conv {
        match oldest_turn(self.entries, self.committed, run) {
            Some(turn) => self.retire_from(self.committed, run, Some(turn)),
            None => self,
        }
    }

    /// Removes every overlay row of a run.
    pub open spec fn purge(self, run: Seq<char>) -> Conv {
        self.retire_from(self.committed, run, None)
    }

    /// No row of the run is streaming.
    #[verifier::opaque]
    pub open spec fn quiet(self, run: Seq<char>) -> Conv {
        Conv {
            entries: self.entries.map_values(
                |e: Entry|
                    if e.touches(run) {
                        Entry { streaming: false, ..e }
                    } else {
                        e
                    },
            ),
            ..self
        }
    }

    /// Row `i` is streaming.
    pub open spec fn lit(self, i: int) -> Conv {
        Conv {
            entries: self.entries.update(i, Entry { streaming: true, ..self.entries[i] }),
            ..self
        }
    }

    /// The last row is the only one of its run that streams.
    pub open spec fn mark_last(self, run: Seq<char>) -> Conv {
        let q = self.quiet(run);
        if q.entries.len() == 0 {
            q
        } else {
            q.lit(q.entries.len() - 1)
        }
    }

    /// Whether streamed text of the run continues the last row.
    pub open spec fn continues_text(
        self,
        kind: EntryKind,
        title: Seq<char>,
        address: Seq<char>,
        run: Seq<char>,
    ) -> bool {
        self.entries.len() > 0 && {
            let e = self.entries.last();
            &&& e.kind == kind
            &&& e.title == title
            &&& e.model_owner == Some(address)
            &&& e.model_run == Some(run)
            &&& e.overlay_turn == Some(self.turn)
        }
    }

    /// Streamed text either extends the last row or opens a new overlay row,
    /// which is from now on the row its run is writing.
    #[verifier::opaque]
    pub open spec fn append_delta(
        self,
        kind: EntryKind,
        address: Seq<char>,
        run: Seq<char>,
        delta: Seq<char>,
        tail: bool,
    ) -> Conv {
        let title = if kind == EntryKind::Reasoning {
            address + " · reasoning"@
        } else {
            address
        };
        if self.continues_text(kind, title, address, run) {
            let q = self.quiet(run);
            let e = self.entries.last();
            Conv {
                entries: q.entries.update(
                    q.entries.len() - 1,
                    Entry {
                        body: e.body + delta,
                        expanded: e.expanded || kind == EntryKind::Assistant,
                        streaming: true,
                        ..e
                    },
                ),
                ..q
            }
        } else {
            self.overlay(
                Entry {
                    expanded: kind == EntryKind::Assistant,
                    model_owner: Some(address),
                    model_run: Some(run),
                    overlay_turn: Some(self.turn),
                    ..plain(kind, title, delta)
                },
                tail,
            ).mark_last(run)
        }
    }

    /// A piece of a tool call either extends its row or opens a new one.
    #[verifier::opaque]
    pub open spec fn append_tool_delta(
        self,
        address: Seq<char>,
        run: Seq<char>,
        piece: CallPiece,
        tail: bool,
    ) -> Conv {
        match last_call(
            self.entries,
            self.committed,
            self.entries.len() as int,
            address,
            run,
            piece.index,
            self.turn,
        ) {
            Some(i) => {
                let q = self.quiet(run);
                let e = q.entries[i];
                let named = match piece.name {
                    Some(name) => Entry {
                        tool_name: e.tool_name + name,
                        title: address + " · "@ + (e.tool_name + name),
                        ..e
                    },
                    None => e,
                };
                Conv {
                    entries: q.entries.update(
                        i,
                        retitled(
                            Entry { streaming: true, body: e.body + piece.arguments, ..named },
                            address,
                        ),
                    ),
                    ..q
                }
            },
            None => {
                let name = match piece.name {
                    Some(name) => name,
                    None => Seq::empty(),
                };
                let title = if name.len() == 0 {
                    address + " · tool call "@ + text::decimal(
                        sat_succ(piece.index as int, usize::MAX as int) as nat,
                    )
                } else {
                    address + " · "@ + name
                };
                self.overlay(
                    retitled(
                        Entry {
                            pending_tool: true,
                            tool_owner: Some(address),
                            tool_run: Some(run),
                            tool_index: Some(piece.index),
                            tool_name: name,
                            overlay_turn: Some(self.turn),
                            ..plain(EntryKind::ToolCall, title, piece.arguments)
                        },
                        address,
                    ),
                    tail,
                ).mark_last(run)
            },
        }
    }

    /// Pins a committed row after settling the call it answers.
    pub open spec fn commit(self, owner: Seq<char>, row: RunRow, tail: bool) -> Conv {
        let e = owned(committed(row), owner);
        Conv { entries: settled(self.entries, self.committed, e), ..self }.pin(e, tail)
    }

    /// Pins the first `n` committed rows in order.
    pub open spec fn commit_rows(self, owner: Seq<char>, rows: Seq<RunRow>, n: int, tail: bool) -> Conv
        decreases n,
    {
        if n <= 0 {
            self
        } else {
            self.commit_rows(owner, rows, n - 1, tail).commit(owner, rows[n - 1], tail)
        }
    }

    /// Each of the first `n` committed turns replaces the oldest streamed turn
    /// of its run.
    pub open spec fn pop_turns(self, runs: Seq<Seq<char>>, n: int) -> Conv
        decreases n,
    {
        if n <= 0 {
            self
        } else {
            self.pop_turns(runs, n - 1).pop_turn(runs[n - 1])
        }
    }

    /// The run is over: its overlay is gone and its late events are stale.
    pub open spec fn bury(self, run: Seq<char>) -> Conv {
        let q = self.purge(run).quiet(run);
        Conv { dead: q.dead.insert(run), ..q }
    }

    pub open spec fn bury_all(self, runs: Seq<Seq<char>>, n: int) -> Conv
        decreases n,
    {
        if n <= 0 {
            self
        } else {
            self.bury_all(runs, n - 1).bury(runs[n - 1])
        }
    }

    /// The newest pinned row of the active run streams when the fold
    /// committed rows of that run.
    #[verifier::opaque]
    pub open spec fn follow_active(self, fold: Fold) -> Conv {
        if fold.active_run is Some && (exists|i: int|
            0 <= i < fold.rows.len() && (#[trigger] fold.rows[i]).run == fold.active_run) {
            let q = self.quiet(fold.active_run->0);
            match last_of_run(q.entries, q.committed, fold.active_run->0) {
                Some(i) => q.lit(i),
                None => q,
            }
        } else {
            self
        }
    }

    /// Applies one journal fold.
    #[verifier::opaque]
    pub open spec fn apply_fold(self, owner: Seq<char>, fold: Fold, tail: bool) -> Conv {
        let known = Conv {
            context_tokens: if fold.context_tokens is Some {
                fold.context_tokens
            } else {
                self.context_tokens
            },
            model: if fold.selected_model is Some {
                fold.selected_model
            } else {
                self.model
            },
            ..self
        };
        let done = known.commit_rows(owner, fold.rows, fold.rows.len() as int, tail).pop_turns(
            fold.model_turns,
            fold.model_turns.len() as int,
        ).bury_all(fold.dead_runs, fold.dead_runs.len() as int).follow_active(fold);
        if fold.interrupted {
            Conv { status: "Interrupted"@, ..done }
        } else {
            done
        }
    }

    /// A conversation without rows.
    pub open spec fn blank(parent: Option<Seq<char>>, status: Seq<char>, created_ord: u64) -> Conv {
        Conv {
            entries: Seq::empty(),
            selected: None,
            offset: 0,
            follow: true,
            drives: true,
            reveal: None,
            status,
            context_tokens: None,
            parent,
            model: None,
            run_active: false,
            created_ord,
            committed: 0,
            turn: 0,
            dead: Set::empty(),
        }
    }

    /// The conversation an agent's history restores.
    pub open spec fn from_history(h: AgentHistory, created_ord: u64) -> Conv {
        let entries = restored(history::run_rows(h.history@));
        Conv {
            entries,
            selected: last_index(entries.len() as int),
            status: h.status@,
            context_tokens: h.context_tokens,
            parent: text::opt_text(h.parent),
            model: text::opt_text(h.model),
            run_active: !h.run_completed,
            committed: entries.len() as int,
            ..Conv::blank(None, Seq::empty(), created_ord)
        }
    }
}

/// A row that does not stream disturbs no cursor.
pub proof fn lemma_cursor_insert(entries: Seq<Entry>, i: int, e: Entry)
    requires
        one_cursor(entries),
        0 <= i <= entries.len(),
        !e.streaming,
        e.of_one_run(),
    ensures
        one_cursor(entries.insert(i, e)),
        one_cursor(entries.push(e)),
{
    reveal(one_cursor);
    let all = entries.insert(i, e);
    assert forall|k: int| 0 <= k < all.len() implies (#[trigger] all[k]).of_one_run() by {
        if k != i {
            assert(all[k] == entries[if k < i { k } else { k - 1 }]);
        }
    }
    assert forall|a: int, b: int|
        0 <= a < b < all.len() && (#[trigger] all[a]).streaming && (#[trigger] all[b]).streaming
            && all[a].run() is Some implies all[a].run() != all[b].run() by {
        assert(all[a] == entries[if a < i { a } else { a - 1 }]);
        assert(all[b] == entries[if b < i { b } else { b - 1 }]);
    }
}

proof fn lemma_cursor_remove(entries: Seq<Entry>, i: int)
    requires
        one_cursor(entries),
        0 <= i < entries.len(),
    ensures
        one_cursor(entries.remove(i)),
{
    reveal(one_cursor);
    let all = entries.remove(i);
    assert forall|k: int| 0 <= k < all.len() implies (#[trigger] all[k]).of_one_run() by {
        assert(all[k] == entries[if k < i { k } else { k + 1 }]);
    }
    assert forall|a: int, b: int|
        0 <= a < b < all.len() && (#[trigger] all[a]).streaming && (#[trigger] all[b]).streaming
            && all[a].run() is Some implies all[a].run() != all[b].run() by {
        assert(all[a] == entries[if a < i { a } else { a + 1 }]);
        assert(all[b] == entries[if b < i { b } else { b + 1 }]);
    }
}

/// A change that leaves a row's run and its streaming state alone moves no
/// cursor.
pub proof fn lemma_cursor_edit(entries: Seq<Entry>, i: int, e: Entry)
    requires
        one_cursor(entries),
        0 <= i < entries.len(),
        e.streaming == entries[i].streaming,
        e.model_run == entries[i].model_run,
        e.tool_run == entries[i].tool_run,
    ensures
        one_cursor(entries.update(i, e)),
{
    reveal(one_cursor);
}

/// Silencing a run leaves none of its rows streaming.
pub proof fn lemma_quiet(c: Conv, run: Seq<char>)
    ensures
        c.wf() ==> c.quiet(run).wf(),
        c.quiet(run).entries.len() == c.entries.len(),
        forall|k: int|
            0 <= k < c.entries.len() && (#[trigger] c.quiet(run).entries[k]).touches(run)
                ==> !c.quiet(run).entries[k].streaming,
{
    reveal(Conv::quiet);
    reveal(one_cursor);
}

/// Once a run is silent, any of its rows may become the one it is writing.
proof fn lemma_cursor_moves(entries: Seq<Entry>, i: int, e: Entry, run: Seq<char>)
    requires
        one_cursor(entries),
        0 <= i < entries.len(),
        forall|k: int|
            0 <= k < entries.len() && (#[trigger] entries[k]).touches(run)
                ==> !entries[k].streaming,
        entries[i].touches(run),
        e.model_run == entries[i].model_run,
        e.tool_run == entries[i].tool_run,
    ensures
        one_cursor(entries.update(i, e)),
{
    reveal(one_cursor);
    assert(entries[i].of_one_run());
    assert forall|a: int, b: int|
        0 <= a < b < entries.len() && (#[trigger] entries.update(i, e)[a]).streaming && (
        #[trigger] entries.update(i, e)[b]).streaming && entries.update(i, e)[a].run()
            is Some implies entries.update(i, e)[a].run() != entries.update(i, e)[b].run() by {
        if a == i {
            assert(!entries[b].touches(run));
        } else if b == i {
            assert(!entries[a].touches(run));
        }
    }
}

proof fn lemma_cursor_settled(entries: Seq<Entry>, n: int, e: Entry)
    requires
        one_cursor(entries),
        0 <= n <= entries.len(),
    ensures
        one_cursor(settled(entries, n, e)),
{
    if e.tool_run is Some {
        let run = e.tool_run->0;
        lemma_first_pending(entries, 0, n, run);
        if let Some(i) = first_pending(entries, 0, n, run) {
            lemma_cursor_edit(entries, i, Entry { pending_tool: false, ..entries[i] });
        }
    }
}

/// In a restored conversation nothing streams.
proof fn lemma_restored_cursor(rows: Seq<RunRow>)
    ensures
        one_cursor(restored(rows)),
    decreases rows.len(),
{
    if rows.len() == 0 {
        reveal(one_cursor);
    } else {
        let before = restored(rows.drop_last());
        let e = committed(rows.last());
        lemma_restored_cursor(rows.drop_last());
        lemma_settled_len(before, before.len() as int, e);
        lemma_cursor_settled(before, before.len() as int, e);
        lemma_cursor_insert(settled(before, before.len() as int, e), 0, e);
    }
}

pub proof fn lemma_from_history(h: AgentHistory, created_ord: u64)
    ensures
        Conv::from_history(h, created_ord).wf(),
{
    lemma_restored_cursor(history::run_rows(h.history@));
}

proof fn lemma_first_pending(entries: Seq<Entry>, i: int, n: int, run: Seq<char>)
    requires
        0 <= i <= n <= entries.len(),
    ensures
        first_pending(entries, i, n, run) matches Some(k) ==> i <= k < n && is_pending_call(
            entries[k],
            run,
        ),
    decreases n - i,
{
    if i < n && !is_pending_call(entries[i], run) {
        lemma_first_pending(entries, i + 1, n, run);
    }
}

proof fn lemma_settled_len(entries: Seq<Entry>, n: int, e: Entry)
    requires
        0 <= n <= entries.len(),
    ensures
        settled(entries, n, e).len() == entries.len(),
{
    if e.tool_run is Some {
        lemma_first_pending(entries, 0, n, e.tool_run->0);
    }
}

proof fn lemma_retire_wf(c: Conv, i: int, run: Seq<char>, turn: Option<u64>)
    requires
        c.wf(),
        c.committed <= i,
    ensures
        c.retire_from(i, run, turn).wf(),
        c.retire_from(i, run, turn).committed == c.committed,
    decreases c.entries.len() - i,
{
    if i < c.entries.len() {
        if retires(c.entries[i], run, turn) {
            lemma_cursor_remove(c.entries, i);
            lemma_retire_wf(c.remove(i), i, run, turn);
        } else {
            lemma_retire_wf(c, i + 1, run, turn);
        }
    }
}

impl ConversationEntry {
    /// A row without owner, run or streaming state.
    pub fn plain(kind: EntryKind, title: String, body: String) -> (r: Self)
        ensures
            r@ == plain(kind, title@, body@),
    {
        ConversationEntry {
            kind,
            title,
            body,
            expanded: false,
            pending_tool: false,
            streaming: false,
            model_owner: None,
            model_run: None,
            tool_owner: None,
            tool_run: None,
            tool_index: None,
            tool_name: String::new(),
            overlay_turn: None,
            layout: None,
        }
    }

    /// Whether the run that owns the row is `run`.
    pub fn is_of_run(&self, run: &str) -> (r: bool)
        ensures
            r == (self@.run() == Some(run@)),
    {
        match &self.model_run {
            Some(r) => text::same(r.as_str(), run),
            None => opt_is(&self.tool_run, run),
        }
    }

    /// Whether any part of the row belongs to `run`.
    pub fn touches(&self, run: &str) -> (r: bool)
        ensures
            r == self@.touches(run@),
    {
        opt_is(&self.model_run, run) || opt_is(&self.tool_run, run)
    }
}

/// The row shown for a committed row.
pub fn committed_entry(row: &CommittedRow) -> (r: ConversationEntry)
    ensures
        r@ == committed(row@),
{
    let kind = match row.entry.kind {
        HistoryKind::User => EntryKind::User,
        HistoryKind::Assistant => EntryKind::Assistant,
        HistoryKind::Reasoning => EntryKind::Reasoning,
        HistoryKind::ToolCall => EntryKind::ToolCall,
        HistoryKind::ToolResult => EntryKind::ToolResult,
        HistoryKind::System => EntryKind::System,
    };
    let mut e = ConversationEntry::plain(kind, row.entry.title.clone(), row.entry.body.clone());
    match kind {
        EntryKind::User => {
            e.expanded = true;
        },
        EntryKind::Assistant => {
            e.expanded = true;
            e.model_run = copy_opt(&row.run_id);
        },
        EntryKind::Reasoning => {
            e.model_run = copy_opt(&row.run_id);
        },
        EntryKind::ToolCall => {
            e.pending_tool = true;
            e.tool_run = copy_opt(&row.run_id);
        },
        EntryKind::ToolResult => {
            e.tool_run = copy_opt(&row.run_id);
        },
        EntryKind::System => {},
        EntryKind::Error => {},
    }
    e
}

/// Settles the first call of the result's run that awaits one among the first
/// `n` rows.
fn settle(entries: &mut Vec<ConversationEntry>, n: usize, e: &ConversationEntry)
    requires
        n <= old(entries)@.len(),
    ensures
        entries_of(final(entries)@) == settled(entries_of(old(entries)@), n as int, e@),
        final(entries)@.len() == old(entries)@.len(),
{
    if e.kind != EntryKind::ToolResult {
        return;
    }
    if let Some(run) = &e.tool_run {
        let mut i: usize = 0;
        while i < n
            invariant
                i <= n <= entries@.len(),
                *entries == *old(entries),
                e.kind == EntryKind::ToolResult,
                text::opt_text(e.tool_run) == Some(run@),
                first_pending(entries_of(entries@), 0, n as int, run@) == first_pending(
                    entries_of(entries@),
                    i as int,
                    n as int,
                    run@,
                ),
            decreases n - i,
        {
            proof {
                assert(entries_of(entries@)[i as int] == entries@[i as int]@);
            }
            if entries[i].kind == EntryKind::ToolCall && entries[i].pending_tool && opt_is(
                &entries[i].tool_run,
                run.as_str(),
            ) {
                entries[i].pending_tool = false;
                proof {
                    let before = entries_of(old(entries)@);
                    assert(entries_of(entries@) =~= before.update(
                        i as int,
                        Entry { pending_tool: false, ..before[i as int] },
                    ));
                }
                return;
            }
            i += 1;
        }
    }
}

/// Renders committed rows into conversation entries, pairing each result with
/// the first pending call of its run.
pub fn conversation_from_rows(rows: &Vec<CommittedRow>) -> (r: Vec<ConversationEntry>)
    ensures
        entries_of(r@) == restored(history::run_rows(rows@)),
        r@.len() == rows@.len(),
{
    let mut entries: Vec<ConversationEntry> = Vec::new();
    let mut i: usize = 0;
    proof {
        assert(entries_of(entries@) =~= Seq::empty());
    }
    while i < rows.len()
        invariant
            i <= rows@.len(),
            entries@.len() == i,
            entries_of(entries@) == restored(history::run_rows(rows@).take(i as int)),
        decreases rows@.len() - i,
    {
        let entry = committed_entry(&rows[i]);
        let n: usize = entries.len();
        settle(&mut entries, n, &entry);
        let ghost before = entries_of(entries@);
        let ghost e = entry@;
        entries.push(entry);
        proof {
            let all = history::run_rows(rows@);
            assert(all.take(i + 1).drop_last() =~= all.take(i as int));
            assert(all.take(i + 1).last() == rows@[i as int]@);
            assert(entries_of(entries@) =~= before.push(e));
        }
        i += 1;
    }
    proof {
        assert(history::run_rows(rows@).take(rows@.len() as int) =~= history::run_rows(rows@));
    }
    entries
}

/// Whether a list of strings holds `s`.
pub fn holds(list: &Vec<String>, s: &str) -> (r: bool)
    ensures
        r == text::texts(list@).contains(s@),
{
    let mut i: usize = 0;
    while i < list.len()
        invariant
            i <= list@.len(),
            forall|k: int| 0 <= k < i ==> text::texts(list@)[k] != s@,
        decreases list@.len() - i,
    {
        if text::same(list[i].as_str(), s) {
            proof {
                assert(text::texts(list@)[i as int] == s@);
            }
            return true;
        }
        i += 1;
    }
    false
}

impl AgentConversation {
    /// A conversation without rows.
    pub fn empty(parent: Option<String>, status: &str, created_ord: u64) -> (r: Self)
        ensures
            r@ == Conv::blank(text::opt_text(parent), status@, created_ord),
            r@.wf(),
    {
        let r = AgentConversation {
            entries: Vec::new(),
            selected_entry: None,
            conversation_offset: 0,
            follow_conversation_tail: true,
            selection_drives_viewport: true,
            reveal_entry_top: None,
            status: status.to_owned(),
            context_tokens: None,
            parent,
            model: None,
            run_active: false,
            created_ord,
            committed_len: 0,
            overlay_turn: 0,
            dead_runs: Vec::new(),
        };
        proof {
            reveal(one_cursor);
            assert(entries_of(r.entries@) =~= Seq::empty());
            assert(text::texts(r.dead_runs@).to_set() =~= Set::empty());
        }
        r
    }

    /// The conversation an agent's history restores.
    pub fn from_history(history: &AgentHistory, created_ord: u64) -> (r: Self)
        ensures
            r@ == Conv::from_history(*history, created_ord),
            r@.wf(),
    {
        proof {
            lemma_restored_cursor(history::run_rows(history.history@));
        }
        let entries = conversation_from_rows(&history.history);
        let count: usize = entries.len();
        let mut r = AgentConversation::empty(
            copy_opt(&history.parent),
            history.status.as_str(),
            created_ord,
        );
        r.entries = entries;
        r.selected_entry = if count > 0 {
            Some(count - 1)
        } else {
            None
        };
        r.context_tokens = history.context_tokens;
        r.model = copy_opt(&history.model);
        r.run_active = !history.run_completed;
        r.committed_len = count;
        r
    }

    fn to_tail(&mut self, tail: bool)
        ensures
            final(self)@ == old(self)@.at_tail(tail),
    {
        if tail || self.follow_conversation_tail {
            let count: usize = self.entries.len();
            self.selected_entry = if count > 0 {
                Some(count - 1)
            } else {
                None
            };
        }
    }

    /// Inserts a row at the pinned boundary, before any streaming overlay
    /// rows, keeping pinned rows in arrival order.
    fn insert_pinned(&mut self, entry: ConversationEntry, tail: bool)
        requires
            old(self)@.wf(),
            !entry.streaming,
            entry@.of_one_run(),
        ensures
            final(self)@ == old(self)@.pin(entry@, tail),
            final(self)@.wf(),
    {
        proof {
            reveal(Conv::pin);
        }
        let index: usize = self.committed_len;
        let ghost before = self@;
        self.entries.insert(index, entry);
        let total: usize = self.entries.len();
        proof {
            assert(total == before.entries.len() + 1);
        }
        self.committed_len = index + 1;
        if let Some(selected) = self.selected_entry {
            if selected >= index {
                self.selected_entry = Some(selected.saturating_add(1));
            }
        }
        proof {
            assert(self@.entries =~= before.entries.insert(before.committed, entry@));
            lemma_cursor_insert(before.entries, before.committed, entry@);
        }
        self.to_tail(tail);
    }

    /// Pins a locally produced row at the committed boundary so it keeps its
    /// chronological position.
    pub fn push_entry(&mut self, kind: EntryKind, title: &str, body: &str, tail: bool)
        requires
            old(self)@.wf(),
        ensures
            final(self)@ == old(self)@.push_entry(kind, title@, body@, tail),
            final(self)@.wf(),
    {
        self.insert_pinned(
            ConversationEntry::plain(kind, title.to_owned(), body.to_owned()),
            tail,
        );
    }

    /// Pins an error row and says so in the status.
    pub fn push_error(&mut self, title: &str, body: &str, tail: bool)
        requires
            old(self)@.wf(),
        ensures
            final(self)@ == old(self)@.push_error(title@, body@, tail),
            final(self)@.wf(),
    {
        self.push_entry(EntryKind::Error, title, body, tail);
        self.status = "Error".to_owned();
    }

    fn push_overlay_entry(&mut self, entry: ConversationEntry, tail: bool)
        requires
            old(self)@.wf(),
            !entry.streaming,
            entry@.of_one_run(),
        ensures
            final(self)@ == old(self)@.overlay(entry@, tail),
            final(self)@.wf(),
    {
        let ghost before = self@;
        self.entries.push(entry);
        proof {
            assert(self@.entries =~= before.entries.push(entry@));
            lemma_cursor_insert(before.entries, 0, entry@);
        }
        self.to_tail(tail);
    }

    /// Removes the row at `index`; a selection behind it follows its row.
    pub fn remove_entry(&mut self, index: usize)
        requires
            old(self)@.wf(),
            index < old(self)@.entries.len(),
        ensures
            final(self)@ == old(self)@.remove(index as int),
            final(self)@.wf(),
    {
        let ghost before = self@;
        self.entries.remove(index);
        proof {
            assert(self@.entries =~= before.entries.remove(index as int));
            lemma_cursor_remove(before.entries, index as int);
        }
        if index < self.committed_len {
            self.committed_len = self.committed_len - 1;
        }
        let count: usize = self.entries.len();
        if let Some(selected) = self.selected_entry {
            self.selected_entry = if count == 0 {
                None
            } else if selected > index {
                Some(selected - 1)
            } else if selected < count {
                Some(selected)
            } else {
                Some(count - 1)
            };
        }
    }

    /// Removes the overlay rows that the run, and the turn when one is given,
    /// retire.
    fn remove_overlay_rows(&mut self, run: &str, turn: Option<u64>)
        requires
            old(self)@.wf(),
        ensures
            final(self)@ == old(self)@.retire_from(old(self)@.committed, run@, turn),
            final(self)@.wf(),
    {
        let mut index: usize = self.committed_len;
        while index < self.entries.len()
            invariant
                self@.wf(),
                self@.committed <= index,
                old(self)@.retire_from(old(self)@.committed, run@, turn) == self@.retire_from(
                    index as int,
                    run@,
                    turn,
                ),
            decreases self.entries@.len() - index,
        {
            let entry = &self.entries[index];
            proof {
                assert(self@.entries[index as int] == entry@);
            }
            let retire = entry.is_of_run(run) && match turn {
                Some(t) => entry.kind != EntryKind::ToolResult && (match entry.overlay_turn {
                    Some(o) => o == t,
                    None => false,
                }),
                None => true,
            };
            if retire {
                self.remove_entry(index);
            } else {
                index += 1;
            }
        }
    }

    /// Removes the oldest streaming overlay segment for the run: a committed
    /// model turn has replaced it with authoritative rows.
    pub fn pop_overlay_model_segment(&mut self, run: &str)
        requires
            old(self)@.wf(),
        ensures
            final(self)@ == old(self)@.pop_turn(run@),
            final(self)@.wf(),
    {
        let mut oldest: Option<u64> = None;
        let mut i: usize = self.entries.len();
        while i > self.committed_len
            invariant
                self.committed_len <= i <= self.entries@.len(),
                *self == *old(self),
                oldest == oldest_turn(self@.entries, i as int, run@),
            decreases i,
        {
            i -= 1;
            let entry = &self.entries[i];
            proof {
                assert(self@.entries[i as int] == entry@);
            }
            if entry.is_of_run(run) && entry.kind != EntryKind::ToolResult {
                oldest =
                match (entry.overlay_turn, oldest) {
                    (Some(x), Some(y)) => if x <= y {
                        Some(x)
                    } else {
                        Some(y)
                    },
                    (Some(x), None) => Some(x),
                    (None, rest) => rest,
                };
            }
        }
        if oldest.is_some() {
            self.remove_overlay_rows(run, oldest);
        }
    }

    /// Drops every overlay row for a run that reached a terminal or
    /// interrupted entry.
    pub fn purge_overlay_run(&mut self, run: &str)
        requires
            old(self)@.wf(),
        ensures
            final(self)@ == old(self)@.purge(run@),
            final(self)@.wf(),
    {
        self.remove_overlay_rows(run, None);
    }

    /// Clears the streaming marker from every row of the run.
    pub fn clear_streaming_run(&mut self, run: &str)
        ensures
            final(self)@ == old(self)@.quiet(run@),
            old(self)@.wf() ==> final(self)@.wf(),
    {
        proof {
            reveal(Conv::quiet);
            lemma_quiet(self@, run@);
        }
        let mut i: usize = 0;
        while i < self.entries.len()
            invariant
                i <= self.entries@.len(),
                self.entries@.len() == old(self).entries@.len(),
                self@ == (Conv { entries: self@.entries, ..old(self)@ }),
                forall|k: int|
                    0 <= k < i ==> #[trigger] self.entries@[k]@ == old(self)@.quiet(
                        run@,
                    ).entries[k],
                forall|k: int|
                    i <= k < self.entries@.len() ==> #[trigger] self.entries@[k]
                        == old(self).entries@[k],
            decreases self.entries@.len() - i,
        {
            proof {
                reveal(Conv::quiet);
            }
            if self.entries[i].touches(run) {
                self.entries[i].streaming = false;
            }
            i += 1;
        }
        proof {
            assert(self@.entries =~= old(self)@.quiet(run@).entries);
        }
    }

    /// Moves the run's streaming marker to its newest row.
    fn mark_last_streaming(&mut self, run: &str)
        requires
            old(self)@.wf(),
            old(self)@.entries.len() > 0,
            old(self)@.entries.last().touches(run@),
        ensures
            final(self)@ == old(self)@.mark_last(run@),
            final(self)@.wf(),
    {
        let ghost before = self@;
        self.clear_streaming_run(run);
        proof {
            lemma_quiet(before, run@);
            assert(self@.entries.last().touches(run@)) by {
                reveal(Conv::quiet);
            }
        }
        let count: usize = self.entries.len();
        self.light(count - 1, run);
    }

    /// Marks a row of a run of which no row streams.
    fn light(&mut self, i: usize, run: &str)
        requires
            old(self)@.wf(),
            i < old(self)@.entries.len(),
            old(self)@.entries[i as int].touches(run@),
            forall|k: int|
                0 <= k < old(self)@.entries.len() && (#[trigger] old(self)@.entries[k]).touches(
                    run@,
                ) ==> !old(self)@.entries[k].streaming,
        ensures
            final(self)@ == old(self)@.lit(i as int),
            final(self)@.wf(),
    {
        let ghost before = self@;
        self.entries[i].streaming = true;
        proof {
            lemma_cursor_moves(
                before.entries,
                i as int,
                Entry { streaming: true, ..before.entries[i as int] },
                run@,
            );
            assert(self@.entries =~= before.lit(i as int).entries);
        }
    }

    /// Appends streamed text of a run to its row, opening one when needed.
    pub fn append_delta(
        &mut self,
        kind: EntryKind,
        address: &str,
        run: &str,
        delta: &str,
        tail: bool,
    )
        requires
            old(self)@.wf(),
        ensures
            final(self)@ == old(self)@.append_delta(kind, address@, run@, delta@, tail),
            final(self)@.wf(),
    {
        proof {
            reveal(Conv::append_delta);
        }
        let title = if kind == EntryKind::Reasoning {
            text::concat(address, " · reasoning")
        } else {
            address.to_owned()
        };
        let turn: u64 = self.overlay_turn;
        let count: usize = self.entries.len();
        let mut extends = false;
        if count > 0 {
            let e = &self.entries[count - 1];
            proof {
                assert(self@.entries.last() == e@);
            }
            extends =
            e.kind == kind && text::same(e.title.as_str(), title.as_str()) && opt_is(
                &e.model_owner,
                address,
            ) && opt_is(&e.model_run, run) && (match e.overlay_turn {
                Some(t) => t == turn,
                None => false,
            });
        }
        if extends {
            let ghost before = self@;
            self.clear_streaming_run(run);
            let ghost silent = self@;
            proof {
                lemma_quiet(before, run@);
                reveal(Conv::quiet);
                assert(self@.entries[count - 1] == self.entries@[count - 1]@);
            }
            self.entries[count - 1].body.append(delta);
            if kind == EntryKind::Assistant {
                self.entries[count - 1].expanded = true;
            }
            self.entries[count - 1].streaming = true;
            proof {
                let e = self.entries@[count - 1]@;
                assert(self@.entries =~= silent.entries.update(count - 1, e));
                lemma_cursor_moves(silent.entries, count - 1, e, run@);
                assert(self@.entries =~= before.append_delta(
                    kind,
                    address@,
                    run@,
                    delta@,
                    tail,
                ).entries);
            }
        } else {
            let mut e = ConversationEntry::plain(kind, title, delta.to_owned());
            e.expanded = kind == EntryKind::Assistant;
            e.model_owner = Some(address.to_owned());
            e.model_run = Some(run.to_owned());
            e.overlay_turn = Some(turn);
            self.push_overlay_entry(e, tail);
            self.mark_last_streaming(run);
        }
    }

    /// Index of the streamed call that a piece continues.
    fn open_call(&self, address: &str, run: &str, index: usize) -> (r: Option<usize>)
        requires
            self@.wf(),
        ensures
            opt_int(r) == last_call(
                self@.entries,
                self@.committed,
                self@.entries.len() as int,
                address@,
                run@,
                index,
                self@.turn,
            ),
            r matches Some(i) ==> i < self@.entries.len() && self@.entries[i as int].touches(run@),
    {
        let mut n: usize = self.entries.len();
        while n > self.committed_len
            invariant
                self.committed_len <= n <= self.entries@.len(),
                last_call(
                    self@.entries,
                    self@.committed,
                    self@.entries.len() as int,
                    address@,
                    run@,
                    index,
                    self@.turn,
                ) == last_call(
                    self@.entries,
                    self@.committed,
                    n as int,
                    address@,
                    run@,
                    index,
                    self@.turn,
                ),
            decreases n,
        {
            let e = &self.entries[n - 1];
            proof {
                assert(self@.entries[n - 1] == e@);
            }
            if e.kind == EntryKind::ToolCall && e.pending_tool && opt_is(&e.tool_owner, address)
                && opt_is(&e.tool_run, run) && (match e.tool_index {
                Some(i) => i == index,
                None => false,
            }) && (match e.overlay_turn {
                Some(t) => t == self.overlay_turn,
                None => false,
            }) {
                return Some(n - 1);
            }
            n -= 1;
        }
        None
    }

    /// Appends a piece of a streamed tool call to its row, opening one when
    /// needed.
    pub fn append_tool_delta(
        &mut self,
        address: &str,
        run: &str,
        index: usize,
        name: &Option<String>,
        arguments: &str,
        tail: bool,
    )
        requires
            old(self)@.wf(),
        ensures
            final(self)@ == old(self)@.append_tool_delta(
                address@,
                run@,
                (CallPiece { index, name: text::opt_text(*name), arguments: arguments@ }),
                tail,
            ),
            final(self)@.wf(),
    {
        proof {
            reveal(Conv::append_tool_delta);
            reveal(Conv::quiet);
        }
        if let Some(i) = self.open_call(address, run, index) {
            proof {
                lemma_quiet(self@, run@);
            }
            self.clear_streaming_run(run);
            let ghost before = self@;
            self.entries[i].streaming = true;
            if let Some(name) = name {
                self.entries[i].tool_name.append(name.as_str());
                let title = text::concat3(address, " · ", self.entries[i].tool_name.as_str());
                self.entries[i].title = title;
            }
            self.entries[i].body.append(arguments);
            let streamed = intent::streamed_eval_title(
                self.entries[i].tool_name.as_str(),
                self.entries[i].body.as_str(),
                address,
            );
            if let Some(title) = streamed {
                self.entries[i].title = title;
            }
            proof {
                let e = self.entries@[i as int]@;
                assert(self@.entries =~= before.entries.update(i as int, e));
                lemma_cursor_moves(before.entries, i as int, e, run@);
            }
            return;
        }
        let tool_name: String = match name {
            Some(name) => name.clone(),
            None => String::new(),
        };
        let title = if tool_name.as_str().is_empty() {
            let number = text::decimal_text(index.saturating_add(1) as u64);
            text::concat3(address, " · tool call ", number.as_str())
        } else {
            text::concat3(address, " · ", tool_name.as_str())
        };
        let mut e = ConversationEntry::plain(EntryKind::ToolCall, title, arguments.to_owned());
        e.pending_tool = true;
        e.tool_owner = Some(address.to_owned());
        e.tool_run = Some(run.to_owned());
        e.tool_index = Some(index);
        e.overlay_turn = Some(self.overlay_turn);
        e.tool_name = tool_name;
        proof {
            assert(text::opt_text(*name) is None ==> tool_name@ =~= Seq::<char>::empty());
        }
        let streamed = intent::streamed_eval_title(
            e.tool_name.as_str(),
            e.body.as_str(),
            address,
        );
        if let Some(title) = streamed {
            e.title = title;
        }
        self.push_overlay_entry(e, tail);
        self.mark_last_streaming(run);
    }

    /// Inserts committed rows at the pinned boundary, pairing each committed
    /// result with the first pending committed call of its run.
    pub fn apply_committed_rows(&mut self, owner: &str, rows: &Vec<CommittedRow>, tail: bool)
        requires
            old(self)@.wf(),
        ensures
            final(self)@ == old(self)@.commit_rows(
                owner@,
                history::run_rows(rows@),
                rows@.len() as int,
                tail,
            ),
            final(self)@.wf(),
    {
        let mut i: usize = 0;
        while i < rows.len()
            invariant
                i <= rows@.len(),
                self@.wf(),
                self@ == old(self)@.commit_rows(owner@, history::run_rows(rows@), i as int, tail),
            decreases rows@.len() - i,
        {
            let mut e = committed_entry(&rows[i]);
            match e.kind {
                EntryKind::Assistant => {
                    e.model_owner = Some(owner.to_owned());
                },
                EntryKind::Reasoning => {
                    e.model_owner = Some(owner.to_owned());
                },
                EntryKind::ToolCall => {
                    e.tool_owner = Some(owner.to_owned());
                },
                EntryKind::ToolResult => {
                    e.tool_owner = Some(owner.to_owned());
                },
                EntryKind::User => {},
                EntryKind::System => {},
                EntryKind::Error => {},
            }
            proof {
                assert(history::run_rows(rows@)[i as int] == rows@[i as int]@);
                lemma_settled_len(self@.entries, self@.committed, e@);
                lemma_cursor_settled(self@.entries, self@.committed, e@);
            }
            let n: usize = self.committed_len;
            settle(&mut self.entries, n, &e);
            self.insert_pinned(e, tail);
            i += 1;
        }
    }

    /// Records that the run is over: its overlay is gone and late streaming
    /// events for it are stale.
    fn bury(&mut self, run: &str)
        requires
            old(self)@.wf(),
        ensures
            final(self)@ == old(self)@.bury(run@),
            final(self)@.wf(),
    {
        self.purge_overlay_run(run);
        self.clear_streaming_run(run);
        let ghost before = text::texts(self.dead_runs@);
        if holds(&self.dead_runs, run) {
            proof {
                assert(before.to_set().insert(run@) =~= before.to_set());
            }
        } else {
            self.dead_runs.push(run.to_owned());
            proof {
                let after = text::texts(self.dead_runs@);
                assert(after =~= before.push(run@));
                assert(after.to_set() =~= before.to_set().insert(run@)) by {
                    assert forall|x: Seq<char>| after.to_set().contains(
                        x,
                    ) == before.to_set().insert(run@).contains(x) by {
                        if before.contains(x) {
                            let k = before.index_of(x);
                            assert(after[k] == x);
                        }
                        assert(after[before.len() as int] == run@);
                        if after.contains(x) && x != run@ {
                            let k = after.index_of(x);
                            assert(before[k] == x);
                        }
                    }
                }
            }
        }
    }

    /// Each committed turn replaces the oldest streamed turn of its run.
    fn pop_segments(&mut self, runs: &Vec<String>)
        requires
            old(self)@.wf(),
        ensures
            final(self)@ == old(self)@.pop_turns(text::texts(runs@), runs@.len() as int),
            final(self)@.wf(),
    {
        let mut i: usize = 0;
        while i < runs.len()
            invariant
                i <= runs@.len(),
                self@.wf(),
                self@ == old(self)@.pop_turns(text::texts(runs@), i as int),
            decreases runs@.len() - i,
        {
            self.pop_overlay_model_segment(runs[i].as_str());
            i += 1;
        }
    }

    /// Records that each of the runs is over.
    fn bury_runs(&mut self, runs: &Vec<String>)
        requires
            old(self)@.wf(),
        ensures
            final(self)@ == old(self)@.bury_all(text::texts(runs@), runs@.len() as int),
            final(self)@.wf(),
    {
        let mut i: usize = 0;
        while i < runs.len()
            invariant
                i <= runs@.len(),
                self@.wf(),
                self@ == old(self)@.bury_all(text::texts(runs@), i as int),
            decreases runs@.len() - i,
        {
            self.bury(runs[i].as_str());
            i += 1;
        }
    }

    /// Applies one incremental journal fold. Its rows are the only path by
    /// which transcript content enters the view.
    pub fn apply_fold(&mut self, owner: &str, outcome: &FoldOutcome, tail: bool)
        requires
            old(self)@.wf(),
        ensures
            final(self)@ == old(self)@.apply_fold(owner@, outcome@, tail),
            final(self)@.wf(),
    {
        proof {
            reveal(Conv::apply_fold);
            reveal(Conv::follow_active);
        }
        if outcome.context_tokens.is_some() {
            self.context_tokens = outcome.context_tokens;
        }
        if outcome.selected_model.is_some() {
            self.model = copy_opt(&outcome.selected_model);
        }
        self.apply_committed_rows(owner, &outcome.rows, tail);
        self.pop_segments(&outcome.model_turns);
        self.bury_runs(&outcome.dead_runs);
        if let Some(active) = &outcome.active_run {
            self.follow_active(active.as_str(), outcome);
        }
        if outcome.interrupted {
            self.status = "Interrupted".to_owned();
        }
    }

    /// Keeps the newest committed row of the still-active run at full
    /// intensity, exactly as if it were streaming.
    fn follow_active(&mut self, active: &str, outcome: &FoldOutcome)
        requires
            old(self)@.wf(),
            outcome@.active_run == Some(active@),
        ensures
            final(self)@ == old(self)@.follow_active(outcome@),
            final(self)@.wf(),
    {
        proof {
            reveal(Conv::follow_active);
        }
        let mut found = false;
        let mut k: usize = 0;
        while k < outcome.rows.len() && !found
            invariant
                k <= outcome.rows@.len(),
                *self == *old(self),
                found ==> exists|i: int|
                    0 <= i < outcome@.rows.len() && (#[trigger] outcome@.rows[i]).run == Some(
                        active@,
                    ),
                !found ==> forall|i: int|
                    0 <= i < k ==> (#[trigger] outcome@.rows[i]).run != Some(active@),
            decreases outcome.rows@.len() - k + if found {
                0int
            } else {
                1
            },
        {
            proof {
                assert(outcome@.rows[k as int] == outcome.rows@[k as int]@);
            }
            if opt_is(&outcome.rows[k].run_id, active) {
                found = true;
            } else {
                k += 1;
            }
        }
        if !found {
            return;
        }
        proof {
            lemma_quiet(self@, active@);
        }
        self.clear_streaming_run(active);
        let mut n: usize = self.committed_len;
        while n > 0
            invariant
                n <= self.committed_len <= self.entries@.len(),
                self@.wf(),
                self@ == old(self)@.quiet(active@),
                forall|k: int|
                    0 <= k < self@.entries.len() && (#[trigger] self@.entries[k]).touches(active@)
                        ==> !self@.entries[k].streaming,
                old(self)@.follow_active(outcome@) == (match last_of_run(
                    self@.entries,
                    n as int,
                    active@,
                ) {
                    Some(i) => self@.lit(i),
                    None => self@,
                }),
            decreases n,
        {
            proof {
                assert(self@.entries[n - 1] == self.entries@[n - 1]@);
            }
            if self.entries[n - 1].is_of_run(active) {
                self.light(n - 1, active);
                return;
            }
            n -= 1;
        }
    }
}

} // verus!
