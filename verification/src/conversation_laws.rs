//! What holds of every conversation: how pinned rows, the streaming overlay
//! and journal folds relate.

use crate::conversation;
use crate::conversation::{Conv, Entry, EntryKind};
use crate::history::{Fold, RunRow};
use vstd::prelude::*;

verus! {

/// A pinned row stands behind all earlier pinned rows and before the streaming
/// overlay, and no other row moves against another.
pub proof fn pinned_rows_keep_arrival_order(c: Conv, e: Entry, tail: bool)
    requires
        c.bounded(),
    ensures
        c.pin(e, tail).bounded(),
        c.pin(e, tail).committed == c.committed + 1,
        c.pin(e, tail).entries == c.entries.take(c.committed).push(e) + c.entries.skip(
            c.committed,
        ),
{
    reveal(Conv::pin);
    assert(c.entries.insert(c.committed, e) =~= c.entries.take(c.committed).push(e)
        + c.entries.skip(c.committed));
}

/// Whether two rows differ at most in whether they await a result.
pub open spec fn same_but_pending(a: Entry, b: Entry) -> bool {
    a == (Entry { pending_tool: a.pending_tool, ..b })
}

proof fn lemma_first_pending(entries: Seq<Entry>, i: int, n: int, run: Seq<char>)
    requires
        0 <= i <= n <= entries.len(),
    ensures
        conversation::first_pending(entries, i, n, run) matches Some(k) ==> i <= k < n
            && conversation::is_pending_call(entries[k], run) && forall|j: int|
            i <= j < k ==> !conversation::is_pending_call(#[trigger] entries[j], run),
        conversation::first_pending(entries, i, n, run) is None ==> forall|j: int|
            i <= j < n ==> !conversation::is_pending_call(#[trigger] entries[j], run),
    decreases n - i,
{
    if i < n && !conversation::is_pending_call(entries[i], run) {
        lemma_first_pending(entries, i + 1, n, run);
    }
}

proof fn lemma_settled(entries: Seq<Entry>, n: int, e: Entry)
    requires
        0 <= n <= entries.len(),
    ensures
        conversation::settled(entries, n, e).len() == entries.len(),
        forall|k: int|
            0 <= k < entries.len() ==> same_but_pending(
                #[trigger] conversation::settled(entries, n, e)[k],
                entries[k],
            ),
        forall|k: int|
            n <= k < entries.len() ==> #[trigger] conversation::settled(entries, n, e)[k]
                == entries[k],
{
    if e.kind == EntryKind::ToolResult && e.tool_run is Some {
        lemma_first_pending(entries, 0, n, e.tool_run->0);
    }
}

/// A result settles the first call of its run that awaits one, and no other
/// row.
pub proof fn results_settle_the_oldest_call(entries: Seq<Entry>, n: int, e: Entry, k: int)
    requires
        0 <= n <= entries.len(),
        e.kind == EntryKind::ToolResult,
        e.tool_run is Some,
        0 <= k < n,
        conversation::is_pending_call(entries[k], e.tool_run->0),
        forall|j: int|
            0 <= j < k ==> !conversation::is_pending_call(#[trigger] entries[j], e.tool_run->0),
    ensures
        conversation::settled(entries, n, e) == entries.update(
            k,
            Entry { pending_tool: false, ..entries[k] },
        ),
{
    lemma_first_pending(entries, 0, n, e.tool_run->0);
}

/// The rows of a fold are pinned in journal order: `n` committed rows follow
/// the pinned ones one by one, earlier rows stay where they are and the
/// overlay behind them is untouched. Results only mark calls as settled.
pub proof fn folded_rows_keep_journal_order(
    c: Conv,
    owner: Seq<char>,
    rows: Seq<RunRow>,
    n: int,
    tail: bool,
)
    requires
        c.bounded(),
        0 <= n <= rows.len(),
    ensures
        ({
            let after = c.commit_rows(owner, rows, n, tail);
            &&& after.bounded()
            &&& after.committed == c.committed + n
            &&& after.entries.len() == c.entries.len() + n
            &&& forall|k: int|
                0 <= k < c.committed ==> same_but_pending(
                    #[trigger] after.entries[k],
                    c.entries[k],
                )
            &&& forall|k: int|
                0 <= k < n ==> same_but_pending(
                    #[trigger] after.entries[c.committed + k],
                    conversation::owned(conversation::committed(rows[k]), owner),
                )
            &&& forall|k: int|
                c.committed <= k < c.entries.len() ==> after.entries[k + n]
                    == #[trigger] c.entries[k]
        }),
    decreases n,
{
    if n > 0 {
        folded_rows_keep_journal_order(c, owner, rows, n - 1, tail);
        let before = c.commit_rows(owner, rows, n - 1, tail);
        let e = conversation::owned(conversation::committed(rows[n - 1]), owner);
        let s = conversation::settled(before.entries, before.committed, e);
        lemma_settled(before.entries, before.committed, e);
        let mid = Conv { entries: s, ..before };
        pinned_rows_keep_arrival_order(mid, e, tail);
        let after = c.commit_rows(owner, rows, n, tail);
        assert(after == mid.pin(e, tail));
        assert(after.entries == s.take(before.committed).push(e) + s.skip(before.committed));
        assert forall|k: int| 0 <= k < c.committed implies same_but_pending(
            #[trigger] after.entries[k],
            c.entries[k],
        ) by {
            assert(after.entries[k] == s[k]);
            assert(same_but_pending(before.entries[k], c.entries[k]));
        }
        assert forall|k: int| 0 <= k < n implies same_but_pending(
            #[trigger] after.entries[c.committed + k],
            conversation::owned(conversation::committed(rows[k]), owner),
        ) by {
            if k < n - 1 {
                assert(after.entries[c.committed + k] == s[c.committed + k]);
                assert(same_but_pending(
                    before.entries[c.committed + k],
                    conversation::owned(conversation::committed(rows[k]), owner),
                ));
            }
        }
        assert forall|k: int| c.committed <= k < c.entries.len() implies after.entries[k + n]
            == #[trigger] c.entries[k] by {
            assert(before.entries[k + (n - 1)] == c.entries[k]);
            assert(s[k + (n - 1)] == before.entries[k + (n - 1)]);
        }
    }
}

/// The rows with their owner recorded.
pub open spec fn all_owned(entries: Seq<Entry>, owner: Seq<char>) -> Seq<Entry> {
    entries.map_values(|e: Entry| conversation::owned(e, owner))
}

proof fn lemma_pending_owned(entries: Seq<Entry>, i: int, n: int, run: Seq<char>, owner: Seq<char>)
    requires
        0 <= i <= n <= entries.len(),
    ensures
        conversation::first_pending(all_owned(entries, owner), i, n, run)
            == conversation::first_pending(entries, i, n, run),
    decreases n - i,
{
    if i < n {
        assert(all_owned(entries, owner)[i] == conversation::owned(entries[i], owner));
        lemma_pending_owned(entries, i + 1, n, run, owner);
    }
}

/// The live view and the restored view of a journal agree: folding its rows
/// into a conversation without rows shows what restoring them shows.
pub proof fn live_and_restored_views_agree(
    c: Conv,
    owner: Seq<char>,
    rows: Seq<RunRow>,
    n: int,
    tail: bool,
)
    requires
        c.entries.len() == 0,
        c.committed == 0,
        0 <= n <= rows.len(),
    ensures
        c.commit_rows(owner, rows, n, tail).entries == all_owned(
            conversation::restored(rows.take(n)),
            owner,
        ),
        c.commit_rows(owner, rows, n, tail).committed == n,
        conversation::restored(rows.take(n)).len() == n,
    decreases n,
{
    folded_rows_keep_journal_order(c, owner, rows, n, tail);
    if n == 0 {
        assert(rows.take(0).len() == 0);
        assert(c.entries =~= all_owned(conversation::restored(rows.take(0)), owner));
    } else {
        live_and_restored_views_agree(c, owner, rows, n - 1, tail);
        let before = c.commit_rows(owner, rows, n - 1, tail);
        let plain = conversation::restored(rows.take(n - 1));
        let e = conversation::committed(rows[n - 1]);
        let o = conversation::owned(e, owner);
        assert(rows.take(n).drop_last() =~= rows.take(n - 1));
        assert(rows.take(n).last() == rows[n - 1]);
        let settled = conversation::settled(before.entries, before.committed, o);
        let quiet = conversation::settled(plain, plain.len() as int, e);
        if e.kind == EntryKind::ToolResult && e.tool_run is Some {
            lemma_pending_owned(plain, 0, plain.len() as int, e.tool_run->0, owner);
            lemma_first_pending(plain, 0, plain.len() as int, e.tool_run->0);
        }
        assert(settled =~= all_owned(quiet, owner));
        lemma_settled(before.entries, before.committed, o);
        folded_rows_keep_journal_order(c, owner, rows, n - 1, tail);
        let mid = Conv { entries: settled, ..before };
        pinned_rows_keep_arrival_order(mid, o, tail);
        assert(settled.take(before.committed).push(o) + settled.skip(before.committed)
            =~= settled.push(o));
        assert(settled.push(o) =~= all_owned(quiet.push(e), owner));
    }
}

/// The rows from `i` on that `run` and `turn` do not retire.
pub open spec fn kept(entries: Seq<Entry>, i: int, run: Seq<char>, turn: Option<u64>) -> Seq<Entry>
    decreases entries.len() - i,
{
    if i < 0 || i >= entries.len() {
        Seq::empty()
    } else if conversation::retires(entries[i], run, turn) {
        kept(entries, i + 1, run, turn)
    } else {
        seq![entries[i]] + kept(entries, i + 1, run, turn)
    }
}

proof fn lemma_kept_shift(entries: Seq<Entry>, i: int, j: int, run: Seq<char>, turn: Option<u64>)
    requires
        0 <= i <= j < entries.len(),
    ensures
        kept(entries.remove(i), j, run, turn) == kept(entries, j + 1, run, turn),
    decreases entries.len() - j,
{
    let less = entries.remove(i);
    if j < less.len() {
        assert(less[j] == entries[j + 1]);
        lemma_kept_shift(entries, i, j + 1, run, turn);
    }
}

/// Retiring removes exactly the overlay rows of the run (and of the turn, when
/// one is given); all other rows stay in their order.
pub proof fn retiring_removes_exactly_the_run(
    c: Conv,
    i: int,
    run: Seq<char>,
    turn: Option<u64>,
)
    requires
        c.bounded(),
        c.committed <= i <= c.entries.len(),
    ensures
        c.retire_from(i, run, turn).entries == c.entries.take(i) + kept(c.entries, i, run, turn),
        c.retire_from(i, run, turn).committed == c.committed,
        c.retire_from(i, run, turn).bounded(),
    decreases c.entries.len() - i,
{
    if i < c.entries.len() {
        if conversation::retires(c.entries[i], run, turn) {
            retiring_removes_exactly_the_run(c.remove(i), i, run, turn);
            lemma_kept_shift(c.entries, i, i, run, turn);
            assert(c.entries.remove(i).take(i) =~= c.entries.take(i));
        } else {
            retiring_removes_exactly_the_run(c, i + 1, run, turn);
            assert(c.entries.take(i + 1) + kept(c.entries, i + 1, run, turn) =~= c.entries.take(i)
                + (seq![c.entries[i]] + kept(c.entries, i + 1, run, turn)));
        }
    } else {
        assert(c.entries.take(i) + kept(c.entries, i, run, turn) =~= c.entries);
    }
}

proof fn lemma_kept_has_none(
    entries: Seq<Entry>,
    i: int,
    run: Seq<char>,
    turn: Option<u64>,
    k: int,
)
    requires
        0 <= i,
        0 <= k < kept(entries, i, run, turn).len(),
    ensures
        !conversation::retires(kept(entries, i, run, turn)[k], run, turn),
    decreases entries.len() - i,
{
    if i < entries.len() {
        if conversation::retires(entries[i], run, turn) {
            lemma_kept_has_none(entries, i + 1, run, turn, k);
        } else if k > 0 {
            lemma_kept_has_none(entries, i + 1, run, turn, k - 1);
        }
    }
}

/// After a run is purged, no overlay row belongs to it.
pub proof fn purged_runs_leave_no_overlay(c: Conv, run: Seq<char>, k: int)
    requires
        c.bounded(),
        c.committed <= k < c.purge(run).entries.len(),
    ensures
        c.purge(run).entries[k].run() != Some(run),
{
    retiring_removes_exactly_the_run(c, c.committed, run, None);
    lemma_kept_has_none(c.entries, c.committed, run, None, k - c.committed);
}

proof fn lemma_retire_dead(c: Conv, i: int, run: Seq<char>, turn: Option<u64>)
    ensures
        c.retire_from(i, run, turn).dead == c.dead,
        c.retire_from(i, run, turn).context_tokens == c.context_tokens,
        c.retire_from(i, run, turn).model == c.model,
    decreases c.entries.len() - i,
{
    if 0 <= i < c.entries.len() {
        if conversation::retires(c.entries[i], run, turn) {
            lemma_retire_dead(c.remove(i), i, run, turn);
        } else {
            lemma_retire_dead(c, i + 1, run, turn);
        }
    }
}

proof fn lemma_commit_dead(c: Conv, owner: Seq<char>, rows: Seq<RunRow>, n: int, tail: bool)
    ensures
        c.commit_rows(owner, rows, n, tail).dead == c.dead,
        c.commit_rows(owner, rows, n, tail).context_tokens == c.context_tokens,
        c.commit_rows(owner, rows, n, tail).model == c.model,
    decreases n,
{
    if n > 0 {
        reveal(Conv::pin);
        lemma_commit_dead(c, owner, rows, n - 1, tail);
    }
}

proof fn lemma_pops_dead(c: Conv, runs: Seq<Seq<char>>, n: int)
    ensures
        c.pop_turns(runs, n).dead == c.dead,
        c.pop_turns(runs, n).context_tokens == c.context_tokens,
        c.pop_turns(runs, n).model == c.model,
    decreases n,
{
    if n > 0 {
        lemma_pops_dead(c, runs, n - 1);
        let before = c.pop_turns(runs, n - 1);
        if let Some(turn) = conversation::oldest_turn(
            before.entries,
            before.committed,
            runs[n - 1],
        ) {
            lemma_retire_dead(before, before.committed, runs[n - 1], Some(turn));
        }
    }
}

proof fn lemma_buries(c: Conv, runs: Seq<Seq<char>>, n: int)
    requires
        n <= runs.len(),
    ensures
        c.bury_all(runs, n).context_tokens == c.context_tokens,
        c.bury_all(runs, n).model == c.model,
        forall|run: Seq<char>| c.dead.contains(run) ==> #[trigger] c.bury_all(
            runs,
            n,
        ).dead.contains(run),
        forall|k: int| 0 <= k < n ==> c.bury_all(runs, n).dead.contains(#[trigger] runs[k]),
    decreases n,
{
    if n > 0 {
        lemma_buries(c, runs, n - 1);
        let before = c.bury_all(runs, n - 1);
        lemma_retire_dead(before, before.committed, runs[n - 1], None);
        reveal(Conv::quiet);
        let after = c.bury_all(runs, n);
        assert(after.dead == before.dead.insert(runs[n - 1]));
        assert forall|k: int| 0 <= k < n implies after.dead.contains(#[trigger] runs[k]) by {
            if k < n - 1 {
                assert(before.dead.contains(runs[k]));
            }
        }
    }
}

/// Runs that a fold reports over stay over: a fold adds them to the stale runs
/// and removes none.
pub proof fn ended_runs_stay_ended(c: Conv, owner: Seq<char>, fold: Fold, tail: bool)
    ensures
        forall|k: int|
            0 <= k < fold.dead_runs.len() ==> c.apply_fold(owner, fold, tail).dead.contains(
                #[trigger] fold.dead_runs[k],
            ),
        forall|run: Seq<char>| c.dead.contains(run) ==> #[trigger] c.apply_fold(
            owner,
            fold,
            tail,
        ).dead.contains(run),
{
    lemma_fold_parts(c, owner, fold, tail);
}

proof fn lemma_fold_parts(c: Conv, owner: Seq<char>, fold: Fold, tail: bool)
    ensures
        forall|k: int|
            0 <= k < fold.dead_runs.len() ==> c.apply_fold(owner, fold, tail).dead.contains(
                #[trigger] fold.dead_runs[k],
            ),
        forall|run: Seq<char>| c.dead.contains(run) ==> #[trigger] c.apply_fold(
            owner,
            fold,
            tail,
        ).dead.contains(run),
        c.apply_fold(owner, fold, tail).context_tokens == (if fold.context_tokens is Some {
            fold.context_tokens
        } else {
            c.context_tokens
        }),
        c.apply_fold(owner, fold, tail).model == (if fold.selected_model is Some {
            fold.selected_model
        } else {
            c.model
        }),
{
    reveal(Conv::apply_fold);
    reveal(Conv::follow_active);
    reveal(Conv::quiet);
    let known = Conv {
        context_tokens: if fold.context_tokens is Some {
            fold.context_tokens
        } else {
            c.context_tokens
        },
        model: if fold.selected_model is Some {
            fold.selected_model
        } else {
            c.model
        },
        ..c
    };
    let rows = known.commit_rows(owner, fold.rows, fold.rows.len() as int, tail);
    lemma_commit_dead(known, owner, fold.rows, fold.rows.len() as int, tail);
    let popped = rows.pop_turns(fold.model_turns, fold.model_turns.len() as int);
    lemma_pops_dead(rows, fold.model_turns, fold.model_turns.len() as int);
    let buried = popped.bury_all(fold.dead_runs, fold.dead_runs.len() as int);
    lemma_buries(popped, fold.dead_runs, fold.dead_runs.len() as int);
    assert(buried.follow_active(fold).dead == buried.dead);
    assert(c.apply_fold(owner, fold, tail).dead == buried.dead);
}

/// A fold without usage keeps the token count, and one without a model
/// selection keeps the model.
pub proof fn folds_keep_what_they_do_not_report(c: Conv, owner: Seq<char>, fold: Fold, tail: bool)
    ensures
        fold.context_tokens is None ==> c.apply_fold(owner, fold, tail).context_tokens
            == c.context_tokens,
        fold.context_tokens is Some ==> c.apply_fold(owner, fold, tail).context_tokens
            == fold.context_tokens,
        fold.selected_model is None ==> c.apply_fold(owner, fold, tail).model == c.model,
{
    lemma_fold_parts(c, owner, fold, tail);
}

/// Each run has at most one streaming row, in every conversation.
pub proof fn runs_write_one_row(c: Conv, run: Seq<char>, i: int, j: int)
    requires
        c.wf(),
        0 <= i < c.entries.len(),
        0 <= j < c.entries.len(),
        c.entries[i].streaming && c.entries[i].touches(run),
        c.entries[j].streaming && c.entries[j].touches(run),
    ensures
        i == j,
{
    reveal(conversation::one_cursor);
    assert(c.entries[i].of_one_run() && c.entries[j].of_one_run());
}

/// The row that streamed text extends or opens is the last one, and the only
/// row of its run that streams.
pub proof fn written_rows_stream_alone(
    c: Conv,
    kind: EntryKind,
    address: Seq<char>,
    run: Seq<char>,
    delta: Seq<char>,
    tail: bool,
    k: int,
)
    ensures
        ({
            let after = c.append_delta(kind, address, run, delta, tail).entries;
            &&& after.len() > 0
            &&& after.last().streaming
            &&& after.last().run() == Some(run)
            &&& 0 <= k < after.len() - 1 && after[k].touches(run) ==> !after[k].streaming
        }),
{
    reveal(Conv::append_delta);
    reveal(Conv::quiet);
}

/// When a run is silenced, none of its rows streams.
pub proof fn quiet_runs_do_not_stream(c: Conv, run: Seq<char>, k: int)
    requires
        0 <= k < c.entries.len(),
        c.quiet(run).entries[k].touches(run),
    ensures
        !c.quiet(run).entries[k].streaming,
{
    reveal(Conv::quiet);
}

/// Pinning a row, appending one to the overlay and removing one keep the
/// selection on a row.
pub proof fn rows_come_and_go_under_the_selection(c: Conv, e: Entry, tail: bool, i: int)
    requires
        c.bounded(),
        c.selection_in_range(),
    ensures
        c.pin(e, tail).selection_in_range(),
        c.overlay(e, tail).selection_in_range(),
        0 <= i < c.entries.len() ==> c.remove(i).selection_in_range(),
{
    reveal(Conv::pin);
}

/// The turn that a committed one replaces is the oldest of its run: some row
/// streams it, and no row of the run streams an earlier one.
pub proof fn oldest_turns_come_first(entries: Seq<Entry>, i: int, run: Seq<char>, k: int)
    requires
        0 <= i <= k < entries.len(),
        entries[k].run() == Some(run),
        entries[k].kind != EntryKind::ToolResult,
        entries[k].overlay_turn is Some,
    ensures
        conversation::oldest_turn(entries, i, run) is Some,
        conversation::oldest_turn(entries, i, run)->0 <= entries[k].overlay_turn->0,
    decreases entries.len() - i,
{
    if i < k {
        oldest_turns_come_first(entries, i + 1, run, k);
    }
}

/// A turn that is replaced was streamed.
pub proof fn replaced_turns_were_streamed(entries: Seq<Entry>, i: int, run: Seq<char>) -> (k: int)
    requires
        0 <= i <= entries.len(),
        conversation::oldest_turn(entries, i, run) is Some,
    ensures
        i <= k < entries.len(),
        entries[k].run() == Some(run),
        entries[k].overlay_turn == conversation::oldest_turn(entries, i, run),
    decreases entries.len() - i,
{
    if i >= entries.len() {
        assert(false);
        0
    } else {
        let rest = conversation::oldest_turn(entries, i + 1, run);
        if entries[i].run() == Some(run) && entries[i].kind != EntryKind::ToolResult
            && conversation::oldest_turn(entries, i, run) == entries[i].overlay_turn {
            i
        } else {
            replaced_turns_were_streamed(entries, i + 1, run)
        }
    }
}

/// Following views select the row that came last; others keep the selection
/// on its row.
pub proof fn following_views_select_the_newest(c: Conv, e: Entry, tail: bool)
    requires
        c.bounded(),
        c.selection_in_range(),
        c.entries.len() < usize::MAX,
    ensures
        tail || c.follow ==> c.pin(e, tail).selected == Some(c.entries.len() as int)
            && c.overlay(e, tail).selected == Some(c.entries.len() as int),
        !tail && !c.follow ==> c.overlay(e, tail).selected == c.selected,
        !tail && !c.follow && c.selected is Some ==> c.pin(e, tail).selected is Some && c.pin(
            e,
            tail,
        ).entries[c.pin(e, tail).selected->0] == c.entries[c.selected->0],
{
    reveal(Conv::pin);
    let pinned = c.pin(e, tail);
    assert(pinned.entries.len() == c.entries.len() + 1);
}

/// A removed row takes no other row along: the selection stays with its row.
pub proof fn removals_keep_the_selected_row(c: Conv, i: int)
    requires
        0 <= i < c.entries.len(),
        c.selected matches Some(s) && 0 <= s < c.entries.len() && s != i,
    ensures
        c.remove(i).entries == c.entries.remove(i),
        c.remove(i).selected is Some,
        c.remove(i).entries[c.remove(i).selected->0] == c.entries[c.selected->0],
        c.remove(i).committed == if i < c.committed {
            c.committed - 1
        } else {
            c.committed
        },
{
}

/// An interrupted run shows in the status, and a fold that selects a model
/// brings it.
pub proof fn folds_bring_what_they_report(c: Conv, owner: Seq<char>, fold: Fold, tail: bool)
    ensures
        fold.interrupted ==> c.apply_fold(owner, fold, tail).status == "Interrupted"@,
        fold.selected_model is Some ==> c.apply_fold(owner, fold, tail).model
            == fold.selected_model,
        fold.context_tokens is Some ==> c.apply_fold(owner, fold, tail).context_tokens
            == fold.context_tokens,
{
    reveal(Conv::apply_fold);
    lemma_fold_parts(c, owner, fold, tail);
}

proof fn lemma_last_of_run(entries: Seq<Entry>, n: int, run: Seq<char>, k: int)
    requires
        0 <= k < n <= entries.len(),
        entries[k].run() == Some(run),
        forall|j: int| k < j < n ==> (#[trigger] entries[j]).run() != Some(run),
    ensures
        conversation::last_of_run(entries, n, run) == Some(k),
    decreases n,
{
    if k < n - 1 {
        assert(entries[n - 1].run() != Some(run));
        lemma_last_of_run(entries, n - 1, run, k);
    }
}

/// While a run goes on, the newest of its rows that a fold pinned is the one
/// that streams.
pub proof fn active_runs_stream_their_newest_row(
    c: Conv,
    fold: Fold,
    run: Seq<char>,
    r: int,
    k: int,
)
    requires
        fold.active_run == Some(run),
        0 <= r < fold.rows.len(),
        fold.rows[r].run == Some(run),
        c.committed <= c.entries.len(),
        0 <= k < c.committed,
        c.entries[k].run() == Some(run),
        forall|j: int| k < j < c.committed ==> (#[trigger] c.entries[j]).run() != Some(run),
    ensures
        c.follow_active(fold).entries[k].streaming,
        c.follow_active(fold).entries.len() == c.entries.len(),
        forall|j: int|
            0 <= j < c.entries.len() && j != k && (#[trigger] c.entries[j]).touches(run)
                ==> !c.follow_active(fold).entries[j].streaming,
{
    reveal(Conv::follow_active);
    reveal(Conv::quiet);
    let q = c.quiet(run);
    assert forall|j: int| 0 <= j < c.entries.len() implies (#[trigger] q.entries[j]).run()
        == c.entries[j].run() by {}
    assert forall|j: int| k < j < c.committed implies (#[trigger] q.entries[j]).run() != Some(
        run,
    ) by {
        assert(c.entries[j].run() != Some(run));
    }
    lemma_last_of_run(q.entries, q.committed, run, k);
    assert(fold.rows[r].run == fold.active_run);
}

/// Errors are shown as such and say so in the status.
pub proof fn errors_are_shown_as_such(c: Conv, title: Seq<char>, body: Seq<char>, tail: bool)
    requires
        0 <= c.committed <= c.entries.len(),
    ensures
        ({
            let after = c.push_error(title, body, tail);
            let row = after.entries[c.committed];
            &&& after.status == "Error"@
            &&& after.committed == c.committed + 1
            &&& row.kind == EntryKind::Error && row.title == title && row.body == body
        }),
{
    reveal(Conv::pin);
}

} // verus!
