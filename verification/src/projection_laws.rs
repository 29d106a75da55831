//! What committed journal entries become in the transcript.

use crate::events::ModelDelta;
use crate::history::{Fold, HistoryKind, Row};
use crate::intent;
use crate::projection;
use crate::projection::{
    Call, Consumed, ContextEntry, Directive, EvalOutcome, IsolateState, Message, MessageSource,
    Projection, SystemNotice, Transition,
};
use crate::text;
use crate::text_laws;
use vstd::prelude::*;

verus! {

/// Whether `shown` is what a reader sees of a JSON text: the content of a
/// string, the pretty form of any other value, and the text itself where it
/// is no JSON or nested too deep.
pub open spec fn shows_json(shown: Seq<char>, json: Seq<char>) -> bool {
    let bytes = vstd::utf8::encode_utf8(json);
    &&& intent::json_string(bytes) matches Some(content) ==> shown == content
    &&& intent::json_string(bytes) is None && projection::nesting(json) <= 512 ==> (
    projection::pretty_json(json) matches Some(pretty) ==> shown == pretty)
    &&& intent::json_string(bytes) is None && projection::nesting(json) <= 512
        && projection::pretty_json(json) is None ==> shown == json
    &&& intent::json_string(bytes) is None && projection::nesting(json) > 512 ==> shown == json
}

/// The result of a committed eval is one row of its run, and shows what the
/// eval gave.
pub proof fn evals_show_their_result(
    fold: Fold,
    address: Seq<char>,
    entry: ContextEntry,
    run: String,
)
    requires
        entry.transition == (Transition::Eval { run_id: run }),
    ensures
        ({
            let after = projection::accumulated(fold, address, entry);
            let added = after.rows[fold.rows.len() as int];
            &&& after.rows.len() == fold.rows.len() + 1
            &&& after.rows.take(fold.rows.len() as int) == fold.rows
            &&& added.run == Some(run@)
            &&& added.row.kind == HistoryKind::ToolResult
            &&& added.row.title == address + " · "@ + "eval result"@
            &&& shows_json(added.row.body, entry.payload@)
            &&& after == (Fold { rows: after.rows, ..fold })
        }),
{
    let after = projection::accumulated(fold, address, entry);
    assert(after.rows.take(fold.rows.len() as int) =~= fold.rows);
    assert(after.consumed =~= fold.consumed);
}

/// A compaction is one row that shows its summary, or what is stored of it.
pub proof fn compactions_show_their_summary(
    fold: Fold,
    address: Seq<char>,
    entry: ContextEntry,
    summary: Option<String>,
)
    requires
        entry.transition == (Transition::Compaction { summary }),
    ensures
        ({
            let after = projection::accumulated(fold, address, entry);
            let added = after.rows[fold.rows.len() as int];
            &&& after.rows.len() == fold.rows.len() + 1
            &&& after.rows.take(fold.rows.len() as int) == fold.rows
            &&& added.run is None
            &&& added.row.kind == HistoryKind::System
            &&& added.row.title == "Compact"@
            &&& summary matches Some(s) ==> added.row.body == s@
            &&& summary is None ==> shows_json(added.row.body, entry.payload@)
            &&& after == (Fold { rows: after.rows, ..fold })
        }),
{
    let after = projection::accumulated(fold, address, entry);
    assert(after.rows.take(fold.rows.len() as int) =~= fold.rows);
    assert(after.consumed =~= fold.consumed);
}

/// A model turn that no configured model can read is one row that shows what
/// is stored of it.
pub proof fn unreadable_turns_show_what_is_stored(address: Seq<char>, entry: ContextEntry)
    requires
        entry.transition matches Transition::Model { projection, .. } && projection is None,
    ensures
        ({
            let rows = projection::entry_rows(address, entry);
            &&& rows.len() == 1
            &&& rows[0].kind == HistoryKind::System
            &&& shows_json(rows[0].body, entry.payload@)
        }),
{
}

/// A committed model turn is counted once, ends its run when it completes it,
/// and tells the tokens of the context where the provider reported them. All
/// its rows belong to its run.
pub proof fn model_turns_are_counted(fold: Fold, address: Seq<char>, entry: ContextEntry, k: int)
    requires
        entry.transition is Model,
        0 <= k < projection::entry_rows(address, entry).len(),
    ensures
        ({
            let run = entry.transition->Model_run_id@;
            let after = projection::accumulated(fold, address, entry);
            &&& after.model_turns == fold.model_turns.push(run)
            &&& after.dead_runs == if entry.transition->complete {
                fold.dead_runs.push(run)
            } else {
                fold.dead_runs
            }
            &&& entry.transition->total_tokens is Some ==> after.context_tokens
                == entry.transition->total_tokens
            &&& entry.transition->total_tokens is None ==> after.context_tokens
                == fold.context_tokens
            &&& after.consumed == fold.consumed
            &&& after.rows.len() == fold.rows.len() + projection::entry_rows(address, entry).len()
            &&& after.rows[fold.rows.len() + k].run == Some(run)
            &&& after.rows[fold.rows.len() + k].row == projection::entry_rows(address, entry)[k]
        }),
{
    let after = projection::accumulated(fold, address, entry);
    assert(after.consumed =~= fold.consumed);
}

/// Whether `picks` lists, in ascending order, exactly the first `n` consumed
/// messages that are known.
pub open spec fn are_known(picks: Seq<int>, consumed: Seq<Consumed>, n: int) -> bool {
    &&& forall|k: int|
        0 <= k < picks.len() ==> 0 <= #[trigger] picks[k] < n && consumed[picks[k]].message is Some
    &&& forall|j: int, k: int| 0 <= j < k < picks.len() ==> #[trigger] picks[j] < #[trigger] picks[k]
    &&& forall|i: int|
        0 <= i < n && (#[trigger] consumed[i]).message is Some ==> picks.contains(i)
}

/// Whether a row shows a consumed message: the user's own as theirs, anyone
/// else's under the sender's name.
pub open spec fn shows_message(row: Row, m: Message) -> bool {
    match m.source {
        MessageSource::User => row.kind == HistoryKind::User && row.title == "You"@ && shows_json(
            row.body,
            m.payload@,
        ),
        MessageSource::Actor(id) => row.kind == HistoryKind::System && row.title == id@
            && shows_json(row.body, m.payload@),
        MessageSource::Host(component) => row.kind == HistoryKind::System && (m.notice is None
            ==> row.title == component@ && shows_json(row.body, m.payload@)) && (
        m.notice matches Some(notice) ==> shows_notice(row, notice)),
    }
}

/// Whether a row says what a notice says.
pub open spec fn shows_notice(row: Row, notice: SystemNotice) -> bool {
    match notice {
        SystemNotice::RunInterrupted { run_id, isolate, eval } => {
            &&& row.title == "Run interrupted"@
            &&& text::starts_with(
                row.body,
                "Run "@ + run_id@ + " was stopped at the user's request."@,
            )
            &&& isolate == IsolateState::Retained ==> text::contains(
                row.body,
                " TypeScript state was retained."@,
            )
            &&& isolate == IsolateState::Reset ==> text::contains(
                row.body,
                " The TypeScript isolate was reset; external effects may already have completed."@,
            )
            &&& eval == Some(EvalOutcome::FailureRecorded) ==> text::ends_with(
                row.body,
                " A failure result was recorded for the interrupted eval."@,
            )
            &&& eval == Some(EvalOutcome::Unknown) ==> text::ends_with(
                row.body,
                " The interrupted eval has no authoritative result."@,
            )
        },
        SystemNotice::RuntimeResumed { isolate, resumed_run, eval } => {
            &&& row.title == "Runtime resumed"@
            &&& text::starts_with(row.body, "The runtime resumed"@)
            &&& resumed_run matches Some(run) ==> text::starts_with(
                row.body,
                "The runtime resumed"@ + (" while recovering run "@ + run@),
            )
            &&& isolate == IsolateState::Retained ==> text::contains(row.body, "Retained"@)
            &&& isolate == IsolateState::Reset ==> text::contains(row.body, "Reset"@)
            &&& eval is Some ==> text::ends_with(
                row.body,
                " A prior eval did not have an authoritative result."@,
            )
        },
    }
}

proof fn lemma_starts(a: Seq<char>, b: Seq<char>)
    ensures
        text::starts_with(a + b, a),
{
    text_laws::prefixes_come_off(a, b);
}

proof fn lemma_ends(a: Seq<char>, b: Seq<char>)
    ensures
        text::ends_with(a + b, b),
{
    assert((a + b).skip(a.len() as int) =~= b);
}

proof fn lemma_three(a: Seq<char>, b: Seq<char>, c: Seq<char>)
    ensures
        text::starts_with(a + b + c, a),
        text::contains(a + b + c, b),
        text::ends_with(a + b + c, c),
{
    assert(a + b + c =~= a + (b + c));
    lemma_starts(a, b + c);
    text_laws::containing_is_having_inside(a, b, c);
    lemma_ends(a + b, c);
}

proof fn lemma_six(
    a: Seq<char>,
    b: Seq<char>,
    w: Seq<char>,
    c: Seq<char>,
    s: Seq<char>,
    e: Seq<char>,
)
    ensures
        text::starts_with(a + b + w + c + s + e, a),
        text::starts_with(a + b + w + c + s + e, a + b),
        text::contains(a + b + w + c + s + e, c),
        text::ends_with(a + b + w + c + s + e, e),
{
    let all = a + b + w + c + s + e;
    let rest = w + c + s + e;
    assert(all =~= a + (b + rest));
    assert(all =~= (a + b) + rest);
    assert(all =~= (a + b + w) + c + (s + e));
    lemma_starts(a, b + rest);
    lemma_starts(a + b, rest);
    text_laws::containing_is_having_inside(a + b + w, c, s + e);
    lemma_ends(a + b + w + c + s, e);
}

/// A notice of the runtime is told in words: what happened, to which run, and
/// what is known of the TypeScript state and of an eval.
pub proof fn notices_say_what_happened(notice: SystemNotice)
    ensures
        projection::notice_row(notice).kind == HistoryKind::System,
        shows_notice(projection::notice_row(notice), notice),
{
    let row = projection::notice_row(notice);
    match notice {
        SystemNotice::RunInterrupted { run_id, isolate, eval } => {
            let a = "Run "@ + run_id@ + " was stopped at the user's request."@;
            let b = match isolate {
                IsolateState::Retained => " TypeScript state was retained."@,
                IsolateState::Reset => {
                    " The TypeScript isolate was reset; external effects may already have completed."@
                },
            };
            let c = match eval {
                Some(EvalOutcome::FailureRecorded) => {
                    " A failure result was recorded for the interrupted eval."@
                },
                Some(EvalOutcome::Unknown) => {
                    " The interrupted eval has no authoritative result."@
                },
                None => ""@,
            };
            assert(row.body == a + b + c);
            lemma_three(a, b, c);
        },
        SystemNotice::RuntimeResumed { isolate, resumed_run, eval } => {
            let a = "The runtime resumed"@;
            let b = match resumed_run {
                Some(run) => " while recovering run "@ + run@,
                None => ""@,
            };
            let c = match isolate {
                IsolateState::Retained => "Retained"@,
                IsolateState::Reset => "Reset"@,
            };
            let e = if eval is Some {
                " A prior eval did not have an authoritative result."@
            } else {
                ""@
            };
            assert(row.body == a + b + " with "@ + c + " state."@ + e);
            lemma_six(a, b, " with "@, c, " state."@, e);
        },
    }
}

proof fn lemma_message_rows(consumed: Seq<Consumed>, n: int) -> (picks: Seq<int>)
    requires
        0 <= n <= consumed.len(),
    ensures
        are_known(picks, consumed, n),
        projection::message_rows(consumed, n).len() == picks.len(),
        forall|k: int|
            0 <= k < picks.len() ==> shows_message(
                #[trigger] projection::message_rows(consumed, n)[k],
                consumed[picks[k]].message->0,
            ),
    decreases n,
{
    if n == 0 {
        Seq::empty()
    } else {
        let before = lemma_message_rows(consumed, n - 1);
        match consumed[n - 1].message {
            Some(m) => {
                if let Some(notice) = m.notice {
                    notices_say_what_happened(notice);
                }
                let picks = before.push(n - 1);
                assert forall|i: int|
                    0 <= i < n && (#[trigger] consumed[i]).message is Some implies picks.contains(
                    i,
                ) by {
                    if i < n - 1 {
                        let k = before.index_of(i);
                        assert(picks[k] == i);
                    } else {
                        assert(picks[before.len() as int] == i);
                    }
                }
                assert(shows_message(projection::message_row(m), m));
                picks
            },
            None => before,
        }
    }
}

/// Consumed messages are shown one by one, in their order; all their ids are
/// reported, and an interruption ends its run.
pub proof fn consumed_messages_are_shown(
    fold: Fold,
    address: Seq<char>,
    entry: ContextEntry,
    consumed: Seq<Consumed>,
) -> (picks: Seq<int>)
    requires
        match entry.transition {
            Transition::Messages { consumed: list } => list@ == consumed,
            Transition::Interrupted { run_id: _, consumed: list } => list@ == consumed,
            _ => false,
        },
    ensures
        ({
            let after = projection::accumulated(fold, address, entry);
            let n = fold.rows.len() as int;
            &&& are_known(picks, consumed, consumed.len() as int)
            &&& after.rows.len() == n + picks.len()
            &&& after.rows.take(n) == fold.rows
            &&& forall|k: int|
                0 <= k < picks.len() ==> shows_message(
                    (#[trigger] after.rows[n + k]).row,
                    consumed[picks[k]].message->0,
                ) && after.rows[n + k].run is None
            &&& after.consumed.len() == fold.consumed.len() + consumed.len()
            &&& forall|i: int|
                0 <= i < consumed.len() ==> after.consumed[fold.consumed.len() + i]
                    == (#[trigger] consumed[i]).id@
            &&& entry.transition matches Transition::Interrupted { run_id, .. }
                ==> after.dead_runs == fold.dead_runs.push(run_id@)
            &&& entry.transition is Messages ==> after.dead_runs == fold.dead_runs
            &&& after.model_turns == fold.model_turns
            &&& after.context_tokens == fold.context_tokens
        }),
{
    let picks = lemma_message_rows(consumed, consumed.len() as int);
    let after = projection::accumulated(fold, address, entry);
    let n = fold.rows.len() as int;
    assert(after.rows.take(n) =~= fold.rows);
    assert forall|k: int| 0 <= k < picks.len() implies shows_message(
        (#[trigger] after.rows[n + k]).row,
        consumed[picks[k]].message->0,
    ) && after.rows[n + k].run is None by {
        let rows = projection::message_rows(consumed, consumed.len() as int);
        assert(after.rows[n + k].row == rows[k]);
        assert(shows_message(rows[k], consumed[picks[k]].message->0));
    }
    picks
}

/// The bodies of the rows of one kind, one after another.
pub open spec fn bodies(rows: Seq<Row>, kind: HistoryKind, n: int) -> Seq<char>
    decreases n,
{
    if n <= 0 {
        Seq::empty()
    } else if rows[n - 1].kind == kind {
        bodies(rows, kind, n - 1) + rows[n - 1].body
    } else {
        bodies(rows, kind, n - 1)
    }
}

/// The pieces of text, or of reasoning, among the first `n`, one after another.
pub open spec fn pieces_of(display: Seq<ModelDelta>, reasoning: bool, n: int) -> Seq<char>
    decreases n,
{
    if n <= 0 {
        Seq::empty()
    } else {
        let before = pieces_of(display, reasoning, n - 1);
        match display[n - 1] {
            ModelDelta::Text(s) => if reasoning {
                before
            } else {
                before + s@
            },
            ModelDelta::Reasoning(s) => if reasoning {
                before + s@
            } else {
                before
            },
            ModelDelta::ToolCall(_) => before,
        }
    }
}

proof fn lemma_bodies_prefix(a: Seq<Row>, b: Seq<Row>, kind: HistoryKind, n: int)
    requires
        0 <= n <= a.len(),
        n <= b.len(),
        forall|i: int| 0 <= i < n ==> a[i] == b[i],
    ensures
        bodies(a, kind, n) == bodies(b, kind, n),
    decreases n,
{
    if n > 0 {
        lemma_bodies_prefix(a, b, kind, n - 1);
    }
}

proof fn lemma_put_piece(rows: Seq<Row>, kind: HistoryKind, title: Seq<char>, body: Seq<char>, of: HistoryKind)
    ensures
        ({
            let after = projection::put_piece(rows, kind, title, body);
            bodies(after, of, after.len() as int) == if kind == of {
                bodies(rows, of, rows.len() as int) + body
            } else {
                bodies(rows, of, rows.len() as int)
            }
        }),
{
    let after = projection::put_piece(rows, kind, title, body);
    let n = rows.len() as int;
    if body.len() == 0 {
        assert(bodies(rows, of, n) + body =~= bodies(rows, of, n));
    } else if rows.len() > 0 && rows.last().kind == kind && rows.last().title == title {
        lemma_bodies_prefix(after, rows, of, n - 1);
        assert(bodies(rows, of, n - 1) + (rows.last().body + body) =~= bodies(rows, of, n - 1)
            + rows.last().body + body);
    } else {
        lemma_bodies_prefix(after, rows, of, n);
    }
}

proof fn lemma_piece_rows(display: Seq<ModelDelta>, n: int, address: Seq<char>)
    requires
        0 <= n <= display.len(),
    ensures
        ({
            let rows = projection::piece_rows(display, n, address);
            &&& bodies(rows, HistoryKind::Assistant, rows.len() as int) == pieces_of(
                display,
                false,
                n,
            )
            &&& bodies(rows, HistoryKind::Reasoning, rows.len() as int) == pieces_of(
                display,
                true,
                n,
            )
            &&& forall|k: int|
                0 <= k < rows.len() ==> {
                    let row = #[trigger] rows[k];
                    &&& row.kind == HistoryKind::Assistant || row.kind == HistoryKind::Reasoning
                    &&& row.kind == HistoryKind::Assistant ==> row.title == address
                    &&& row.kind == HistoryKind::Reasoning ==> row.title == address + " · "@
                        + "reasoning"@
                    &&& row.body.len() > 0
                }
        }),
    decreases n,
{
    if n > 0 {
        lemma_piece_rows(display, n - 1, address);
        let before = projection::piece_rows(display, n - 1, address);
        match display[n - 1] {
            ModelDelta::Text(s) => {
                lemma_put_piece(
                    before,
                    HistoryKind::Assistant,
                    address,
                    s@,
                    HistoryKind::Assistant,
                );
                lemma_put_piece(
                    before,
                    HistoryKind::Assistant,
                    address,
                    s@,
                    HistoryKind::Reasoning,
                );
            },
            ModelDelta::Reasoning(s) => {
                let title = projection::titled(address, "reasoning"@);
                lemma_put_piece(before, HistoryKind::Reasoning, title, s@, HistoryKind::Assistant);
                lemma_put_piece(before, HistoryKind::Reasoning, title, s@, HistoryKind::Reasoning);
            },
            ModelDelta::ToolCall(_) => {},
        }
    }
}

proof fn lemma_bodies_add(a: Seq<Row>, b: Seq<Row>, kind: HistoryKind, n: int)
    requires
        0 <= n <= b.len(),
        forall|i: int| 0 <= i < b.len() ==> (#[trigger] b[i]).kind != kind,
    ensures
        bodies(a + b, kind, a.len() + n) == bodies(a, kind, a.len() as int),
    decreases n,
{
    if n > 0 {
        lemma_bodies_add(a, b, kind, n - 1);
        assert((a + b)[a.len() + n - 1] == b[n - 1]);
    } else {
        lemma_bodies_prefix(a + b, a, kind, a.len() as int);
    }
}

proof fn lemma_call_rows(calls: Seq<Call>, i: int, address: Seq<char>)
    requires
        0 <= i,
    ensures
        ({
            let rows = projection::call_rows(calls, i, address);
            &&& rows.len() == if i <= calls.len() {
                calls.len() - i
            } else {
                0
            }
            &&& forall|k: int|
                0 <= k < rows.len() ==> shows_call(#[trigger] rows[k], address, calls[i + k])
        }),
    decreases calls.len() - i,
{
    if i < calls.len() {
        lemma_call_rows(calls, i + 1, address);
        let rest = projection::call_rows(calls, i + 1, address);
        let rows = projection::call_rows(calls, i, address);
        assert forall|k: int| 0 <= k < rows.len() implies shows_call(
            #[trigger] rows[k],
            address,
            calls[i + k],
        ) by {
            if k > 0 {
                assert(rows[k] == rest[k - 1]);
                assert(shows_call(rest[k - 1], address, calls[i + 1 + (k - 1)]));
            }
        }
    }
}

/// Whether a row shows a tool call: under its intent, its name or neither, and
/// with its source where the arguments hold one.
pub open spec fn shows_call(row: Row, address: Seq<char>, call: Call) -> bool {
    let told = projection::json_field(call.arguments, "intent"@);
    let source = projection::json_field(call.arguments, "source"@);
    &&& row.kind == HistoryKind::ToolCall
    &&& told matches Some(intent) ==> row.title == address + " · "@ + intent
    &&& told is None && call.name.len() > 0 ==> row.title == address + " · "@ + call.name
    &&& told is None && call.name.len() == 0 ==> row.title == address + " · "@ + "tool call"@
    &&& source matches Some(source) ==> row.body == source
    &&& source is None ==> row.body == call.arguments
}

/// A model response is shown whole: the text that the agent wrote and its
/// reasoning, in order and with no character lost; an eval with its intent and
/// source; an output that had no text; and the native calls of a response that
/// was rejected.
pub proof fn responses_are_shown_whole(address: Seq<char>, p: Projection)
    ensures
        ({
            let rows = projection::projection_rows(address, p);
            let display = p.display@;
            let n = display.len() as int;
            let calls = projection::piece_calls(display, n);
            &&& bodies(rows, HistoryKind::Reasoning, rows.len() as int) == pieces_of(
                display,
                true,
                n,
            )
            &&& pieces_of(display, false, n).len() > 0 ==> bodies(
                rows,
                HistoryKind::Assistant,
                rows.len() as int,
            ) == pieces_of(display, false, n)
            &&& p.directive matches Directive::Output(output) ==> pieces_of(
                display,
                false,
                n,
            ).len() == 0 ==> {
                &&& rows.last().kind == HistoryKind::Assistant
                &&& rows.last().title == address
                &&& shows_json(rows.last().body, output@)
                &&& rows.len() > 0
            }
            &&& p.directive matches Directive::Eval { intent, source } ==> exists|k: int|
                0 <= k < rows.len() && #[trigger] rows[k] == (Row {
                    kind: HistoryKind::ToolCall,
                    title: address + " · "@ + intent@,
                    body: source@,
                })
            &&& p.directive is Rejected ==> forall|i: int|
                0 <= i < calls.len() ==> exists|k: int|
                    0 <= k < rows.len() && shows_call(
                        #[trigger] rows[k],
                        address,
                        #[trigger] calls[i],
                    )
        }),
{
    let rows = projection::projection_rows(address, p);
    let display = p.display@;
    let n = display.len() as int;
    let pieces = projection::piece_rows(display, n, address);
    let calls = projection::piece_calls(display, n);
    lemma_piece_rows(display, n, address);
    match p.directive {
        Directive::Eval { intent, source } => {
            let row = Row {
                kind: HistoryKind::ToolCall,
                title: projection::titled(address, intent@),
                body: source@,
            };
            let rest = projection::call_rows(calls, 1, address);
            lemma_call_rows(calls, 1, address);
            let more = seq![row] + rest;
            assert(rows =~= pieces + more);
            assert forall|i: int| 0 <= i < more.len() implies (#[trigger] more[i]).kind
                == HistoryKind::ToolCall by {
                if i > 0 {
                    assert(more[i] == rest[i - 1]);
                    assert(shows_call(rest[i - 1], address, calls[1 + (i - 1)]));
                }
            }
            lemma_bodies_add(pieces, more, HistoryKind::Assistant, more.len() as int);
            lemma_bodies_add(pieces, more, HistoryKind::Reasoning, more.len() as int);
            assert(rows[pieces.len() as int] == row);
        },
        Directive::Output(output) => {
            lemma_has_text(pieces);
            if !projection::has_text(pieces) {
                lemma_bodies_prefix(
                    rows,
                    pieces,
                    HistoryKind::Reasoning,
                    pieces.len() as int,
                );
            }
        },
        Directive::Rejected => {
            let rest = projection::call_rows(calls, 0, address);
            lemma_call_rows(calls, 0, address);
            assert forall|i: int| 0 <= i < rest.len() implies (#[trigger] rest[i]).kind
                == HistoryKind::ToolCall by {
                assert(shows_call(rest[i], address, calls[0 + i]));
            }
            lemma_bodies_add(pieces, rest, HistoryKind::Assistant, rest.len() as int);
            lemma_bodies_add(pieces, rest, HistoryKind::Reasoning, rest.len() as int);
            assert forall|i: int| 0 <= i < calls.len() implies exists|k: int|
                0 <= k < rows.len() && shows_call(
                    #[trigger] rows[k],
                    address,
                    #[trigger] calls[i],
                ) by {
                assert(rows[pieces.len() + i] == rest[i]);
                assert(shows_call(rest[i], address, calls[0 + i]));
            }
        },
    }
}

proof fn lemma_has_text(rows: Seq<Row>)
    requires
        forall|k: int| 0 <= k < rows.len() ==> (#[trigger] rows[k]).body.len() > 0,
    ensures
        projection::has_text(rows) == (bodies(
            rows,
            HistoryKind::Assistant,
            rows.len() as int,
        ).len() > 0),
{
    lemma_has_text_before(rows, rows.len() as int);
}

proof fn lemma_has_text_before(rows: Seq<Row>, n: int)
    requires
        0 <= n <= rows.len(),
        forall|k: int| 0 <= k < rows.len() ==> (#[trigger] rows[k]).body.len() > 0,
    ensures
        (exists|i: int| 0 <= i < n && (#[trigger] rows[i]).kind == HistoryKind::Assistant) == (
        bodies(rows, HistoryKind::Assistant, n).len() > 0),
    decreases n,
{
    if n > 0 {
        lemma_has_text_before(rows, n - 1);
        if rows[n - 1].kind == HistoryKind::Assistant {
            assert(rows[n - 1].body.len() > 0);
        }
    }
}

/// The arguments of the call `index` that arrived in the first `n` pieces.
pub open spec fn arguments_of(display: Seq<ModelDelta>, index: int, n: int) -> Seq<char>
    decreases n,
{
    if n <= 0 {
        Seq::empty()
    } else {
        let before = arguments_of(display, index, n - 1);
        match display[n - 1] {
            ModelDelta::ToolCall(d) => if d.index == index {
                before + d.arguments@
            } else {
                before
            },
            _ => before,
        }
    }
}

/// Whether some piece among the first `n` belongs to the call `index`.
pub open spec fn is_called(display: Seq<ModelDelta>, index: int, n: int) -> bool {
    exists|i: int|
        0 <= i < n && ((#[trigger] display[i]) matches ModelDelta::ToolCall(d) && d.index == index)
}

/// Whether calls stand in the order of their index, each index once.
pub open spec fn are_ordered(calls: Seq<Call>) -> bool {
    forall|i: int, j: int|
        0 <= i < j < calls.len() ==> (#[trigger] calls[i]).index < (#[trigger] calls[j]).index
}

proof fn lemma_call_slot(calls: Seq<Call>, i: int, index: int)
    requires
        0 <= i <= calls.len(),
        are_ordered(calls),
        forall|k: int| 0 <= k < i ==> (#[trigger] calls[k]).index < index,
    ensures
        ({
            let at = projection::call_slot(calls, i, index);
            &&& i <= at <= calls.len()
            &&& forall|k: int| 0 <= k < at ==> (#[trigger] calls[k]).index < index
            &&& forall|k: int| at <= k < calls.len() ==> (#[trigger] calls[k]).index >= index
        }),
    decreases calls.len() - i,
{
    if i < calls.len() && calls[i].index < index {
        lemma_call_slot(calls, i + 1, index);
    } else if i < calls.len() {
        assert forall|k: int| i <= k < calls.len() implies (#[trigger] calls[k]).index >= index by {
            if k > i {
                assert(calls[i].index < calls[k].index);
            }
        }
    }
}

/// The native calls of a response come in the order of their index, one for
/// each index that has a piece, and each with all its arguments.
pub proof fn calls_are_put_together(display: Seq<ModelDelta>, n: int)
    requires
        0 <= n <= display.len(),
    ensures
        ({
            let calls = projection::piece_calls(display, n);
            &&& are_ordered(calls)
            &&& forall|k: int|
                0 <= k < calls.len() ==> (#[trigger] calls[k]).arguments == arguments_of(
                    display,
                    calls[k].index,
                    n,
                ) && is_called(display, calls[k].index, n)
            &&& forall|index: int| #[trigger]
                is_called(display, index, n) ==> exists|k: int|
                    0 <= k < calls.len() && (#[trigger] calls[k]).index == index
        }),
    decreases n,
{
    if n > 0 {
        calls_are_put_together(display, n - 1);
        let before = projection::piece_calls(display, n - 1);
        let calls = projection::piece_calls(display, n);
        if let ModelDelta::ToolCall(d) = display[n - 1] {
            lemma_call_slot(before, 0, d.index as int);
            let at = projection::call_slot(before, 0, d.index as int);
            let known = at < before.len() && before[at].index == d.index;
            assert(display[n - 1] matches ModelDelta::ToolCall(e) && e.index == d.index);
            assert(is_called(display, d.index as int, n));
            assert forall|k: int| 0 <= k < calls.len() implies (#[trigger] calls[k]).arguments
                == arguments_of(display, calls[k].index, n) && is_called(
                display,
                calls[k].index,
                n,
            ) by {
                if k == at {
                    if !known {
                        lemma_not_called(display, d.index as int, n - 1, before);
                        assert(Seq::<char>::empty() + d.arguments@ =~= d.arguments@);
                    }
                } else {
                    let old = if known || k < at {
                        k
                    } else {
                        k - 1
                    };
                    assert(calls[k] == before[old]);
                    assert(is_called(display, before[old].index, n - 1));
                    assert(calls[k].index != d.index);
                }
            }
            assert forall|index: int| #[trigger] is_called(display, index, n) implies exists|k: int|
                0 <= k < calls.len() && (#[trigger] calls[k]).index == index by {
                if index == d.index {
                    assert(calls[at].index == index);
                } else {
                    let i = choose|i: int|
                        0 <= i < n && ((#[trigger] display[i]) matches ModelDelta::ToolCall(e)
                            && e.index == index);
                    assert(i < n - 1);
                    assert(is_called(display, index, n - 1));
                    let k = choose|k: int|
                        0 <= k < before.len() && (#[trigger] before[k]).index == index;
                    let now = if known || k < at {
                        k
                    } else {
                        k + 1
                    };
                    assert(calls[now] == before[k]);
                }
            }
        } else {
            assert forall|index: int| #[trigger]
                is_called(display, index, n) == is_called(display, index, n - 1) by {}
        }
    }
}

proof fn lemma_not_called(display: Seq<ModelDelta>, index: int, n: int, calls: Seq<Call>)
    requires
        0 <= n <= display.len(),
        !is_called(display, index, n) || exists|k: int|
            0 <= k < calls.len() && (#[trigger] calls[k]).index == index,
        forall|k: int| 0 <= k < calls.len() ==> (#[trigger] calls[k]).index != index,
    ensures
        arguments_of(display, index, n) == Seq::<char>::empty(),
    decreases n,
{
    if n > 0 {
        assert(!is_called(display, index, n));
        assert(!is_called(display, index, n - 1));
        lemma_not_called(display, index, n - 1, calls);
        if let ModelDelta::ToolCall(d) = display[n - 1] {
            assert(d.index != index);
        }
    }
}

/// A restored agent says how it was left: a child whose run was cut off or
/// interrupted is interrupted, one that ended is stored; the root recovers its
/// run or is ready.
pub proof fn restored_agents_say_how_they_were_left(active: bool, interrupted: bool)
    ensures
        projection::restored_status(active, interrupted, true) == if active || interrupted {
            "Interrupted"@
        } else {
            "Stored"@
        },
        projection::restored_status(active, interrupted, false) == if active {
            "Recovering…"@
        } else {
            "Ready"@
        },
{
}

/// A session's preview is the beginning of what is shown of the first message
/// that the user sent, up to three hundred characters.
pub proof fn previews_begin_the_first_message(messages: Seq<Message>, i: int)
    requires
        0 <= i < messages.len(),
        messages[i].source is User,
        forall|j: int| 0 <= j < i ==> !((#[trigger] messages[j]).source is User),
    ensures
        projection::first_user(messages, 0) == Some(i),
        ({
            let shown = projection::shown_json(messages[i].payload@);
            let preview = projection::preview_of(messages[i].payload@);
            &&& shows_json(shown, messages[i].payload@)
            &&& text::starts_with(shown, preview)
            &&& shown.len() <= 300 ==> preview == shown
            &&& shown.len() > 300 ==> preview.len() == 300
        }),
{
    lemma_first_user(messages, 0, i);
    let shown = projection::shown_json(messages[i].payload@);
    assert(shown.take(shown.len() as int) =~= shown);
}

proof fn lemma_first_user(messages: Seq<Message>, from: int, i: int)
    requires
        0 <= from <= i < messages.len(),
        messages[i].source is User,
        forall|j: int| from <= j < i ==> !((#[trigger] messages[j]).source is User),
    ensures
        projection::first_user(messages, from) == Some(i),
    decreases i - from,
{
    if from < i {
        lemma_first_user(messages, from + 1, i);
    }
}

/// The parent of an agent is its address without the last component; an
/// address of one component has none.
pub proof fn parents_are_one_component_shorter(parent: Seq<char>, name: Seq<char>)
    requires
        parent.len() > 0,
        !name.contains('/'),
    ensures
        projection::parent_of(parent + "/"@ + name) == Some(parent),
        crate::desk::parent_of(parent + "/"@ + name) == Some(parent),
        projection::parent_of("/"@ + name) is None,
        projection::parent_of(name) is None,
        crate::desk::parent_of("/"@ + name) is None,
{
    reveal_strlit("/");
    let address = parent + "/"@ + name;
    assert forall|k: int| 0 <= k < name.len() implies #[trigger] name[k] != '/' by {
        if name[k] == '/' {
            assert(name.contains('/'));
        }
    }
    lemma_last_slash(address, address.len() as int, parent.len() as int);
    assert(address.take(parent.len() as int) =~= parent);
    lemma_last_slash("/"@ + name, ("/"@ + name).len() as int, 0);
    lemma_no_slash(name, name.len() as int);
}

proof fn lemma_last_slash(s: Seq<char>, n: int, at: int)
    requires
        0 <= at < n <= s.len(),
        s[at] == '/',
        forall|k: int| at < k < n ==> #[trigger] s[k] != '/',
    ensures
        text::last_index_of(s, n, '/') == Some(at),
    decreases n,
{
    if n - 1 > at {
        lemma_last_slash(s, n - 1, at);
    }
}

proof fn lemma_no_slash(s: Seq<char>, n: int)
    requires
        0 <= n <= s.len(),
        forall|k: int| 0 <= k < s.len() ==> #[trigger] s[k] != '/',
    ensures
        text::last_index_of(s, n, '/') is None,
    decreases n,
{
    if n > 0 {
        lemma_no_slash(s, n - 1);
    }
}

} // verus!
