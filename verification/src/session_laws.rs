//! What the catalog of sessions says after each operation.

use crate::auth;
use crate::config;
use crate::session;
use crate::session::{Catalog, Claim, Latest, Listed, Record, SessionError, Slot};
use crate::text;
use crate::text_laws;
use vstd::prelude::*;

verus! {

/// A session that has just been made carries the next number, its directory
/// and the time, and has no preview; all other sessions stay as they are.
pub proof fn new_sessions_are_recorded(c: Catalog, cwd: Seq<char>, now: u64)
    requires
        c.wf(),
        c.next_id matches Some(id) ==> id < u64::MAX,
    ensures
        ({
            let after = session::created(c, cwd, now);
            let id = match c.next_id {
                Some(id) => id,
                None => 1,
            };
            &&& after.rows.len() == c.rows.len() + 1
            &&& after.rows.drop_last() == c.rows
            &&& after.rows.last().key == id
            &&& after.rows.last().record.id == id
            &&& after.rows.last().record.cwd == cwd
            &&& after.rows.last().record.created == now
            &&& after.rows.last().record.opened == now
            &&& after.rows.last().record.preview is None
            &&& after.next_id == Some((id + 1) as u64)
            &&& session::current(after.latest, cwd) == Some(id)
        }),
{
    session::numbers_are_never_reused(c, cwd, now);
    session::new_sessions_are_current(c, cwd, now, cwd);
    let after = session::created(c, cwd, now);
    assert(after.rows.drop_last() =~= c.rows);
}

/// Opening a session notes the time and changes nothing else of any session;
/// its directory resumes it from then on where that is asked for, and no other
/// directory resumes anything else.
pub proof fn opened_sessions_note_the_time(
    c: Catalog,
    id: u64,
    cwd: Seq<char>,
    now: u64,
    make_latest: bool,
    k: int,
    other: Seq<char>,
)
    requires
        c.wf(),
        session::load_fault(c, id, cwd) is None,
        0 <= k < c.rows.len(),
    ensures
        ({
            let after = session::touched(c, id, cwd, now, make_latest);
            &&& after.rows.len() == c.rows.len()
            &&& after.rows[k].key == c.rows[k].key
            &&& c.rows[k].key == id ==> after.rows[k].record == (Record {
                opened: now,
                ..c.rows[k].record
            })
            &&& c.rows[k].key != id ==> after.rows[k] == c.rows[k]
            &&& make_latest ==> session::current(after.latest, cwd) == Some(id)
            &&& !make_latest || other != cwd ==> session::current(after.latest, other)
                == session::current(c.latest, other)
            &&& after.next_id == c.next_id
        }),
{
    session::lemma_row_at(c.rows, 0, id);
    session::latest_is_per_directory(c.latest, cwd, id, other);
    let i = session::row_at(c.rows, 0, id)->0;
    if c.rows[k].key == id && k != i {
        assert(c.rows[if k < i { k } else { i }].key < c.rows[if k < i { i } else { k }].key);
    }
}

/// Keeping the preview of a session changes that preview and nothing else.
pub proof fn kept_previews_are_those_of_their_session(
    c: Catalog,
    id: u64,
    preview: Seq<char>,
    k: int,
)
    requires
        c.wf(),
        session::row_at(c.rows, 0, id) is Some,
        0 <= k < c.rows.len(),
    ensures
        ({
            let after = session::previewed(c, id, preview);
            &&& after.rows.len() == c.rows.len()
            &&& c.rows[k].key == id ==> after.rows[k] == (Slot {
                record: Record { preview: Some(preview), ..c.rows[k].record },
                ..c.rows[k]
            })
            &&& c.rows[k].key != id ==> after.rows[k] == c.rows[k]
            &&& after.latest == c.latest
            &&& after.next_id == c.next_id
        }),
{
    session::lemma_row_at(c.rows, 0, id);
    let i = session::row_at(c.rows, 0, id)->0;
    if c.rows[k].key == id && k != i {
        assert(c.rows[if k < i { k } else { i }].key < c.rows[if k < i { i } else { k }].key);
    }
}

/// A session can be opened in a directory exactly when it is recorded there,
/// soundly; what keeps it from being opened says why.
pub proof fn sessions_open_where_they_were_made(c: Catalog, id: u64, cwd: Seq<char>, k: int)
    requires
        c.wf(),
    ensures
        (forall|i: int| 0 <= i < c.rows.len() ==> (#[trigger] c.rows[i]).key != id)
            ==> session::load_fault(c, id, cwd) == Some(SessionError::MissingRecord { id }),
        0 <= k < c.rows.len() && c.rows[k].key == id ==> {
            let record = c.rows[k].record;
            let sound = record.schema_version == session::INDEX_SCHEMA_VERSION && record.id == id;
            &&& session::load_fault(c, id, cwd) is None <==> sound && record.cwd == cwd
            &&& !sound ==> session::load_fault(c, id, cwd) == Some(
                SessionError::InvalidRecord { id },
            )
            &&& sound && record.cwd != cwd ==> session::load_fault(c, id, cwd) == Some(
                SessionError::WrongWorkingDirectory { id },
            )
        },
{
    session::lemma_row_at(c.rows, 0, id);
    if 0 <= k < c.rows.len() && c.rows[k].key == id {
        let i = session::row_at(c.rows, 0, id)->0;
        if k != i {
            assert(c.rows[if k < i { k } else { i }].key < c.rows[if k < i { i } else { k }].key);
        }
    }
}

/// A directory lists exactly its own sessions, each with its preview.
pub proof fn listings_hold_the_sessions_of_a_directory(
    rows: Seq<Slot>,
    n: int,
    cwd: Seq<char>,
    listed: Listed,
)
    requires
        0 <= n <= rows.len(),
    ensures
        session::listing(rows, n, cwd).contains(listed) <==> exists|k: int|
            is_row_of(rows, n, cwd, listed, k),
    decreases n,
{
    if n > 0 {
        let m = n - 1;
        listings_hold_the_sessions_of_a_directory(rows, m, cwd, listed);
        let all = session::listing(rows, n, cwd);
        let rest = session::listing(rows, n - 1, cwd);
        if rows[n - 1].record.cwd == cwd {
            let first = Listed { id: rows[n - 1].key, preview: rows[n - 1].record.preview };
            assert(all == seq![first] + rest);
            if all.contains(listed) {
                let i = all.index_of(listed);
                if i == 0 {
                    assert(is_row_of(rows, n, cwd, listed, n - 1));
                } else {
                    assert(rest[i - 1] == listed);
                    let k = choose|k: int| is_row_of(rows, m, cwd, listed, k);
                    assert(is_row_of(rows, n, cwd, listed, k));
                }
            }
        } else {
            if all.contains(listed) {
                let k = choose|k: int| is_row_of(rows, m, cwd, listed, k);
                assert(is_row_of(rows, n, cwd, listed, k));
            }
        }
        if exists|k: int| is_row_of(rows, n, cwd, listed, k) {
            let k = choose|k: int| is_row_of(rows, n, cwd, listed, k);
            if k < n - 1 {
                assert(is_row_of(rows, m, cwd, listed, k));
                let i = rest.index_of(listed);
                if rows[n - 1].record.cwd == cwd {
                    assert(all[i + 1] == listed);
                }
            } else {
                assert(all[0] == listed);
            }
        }
    }
}

/// Whether row `k` among the first `n` is the session of a directory that is
/// listed so.
pub open spec fn is_row_of(rows: Seq<Slot>, n: int, cwd: Seq<char>, listed: Listed, k: int) -> bool {
    &&& 0 <= k < n
    &&& rows[k].key == listed.id
    &&& rows[k].record.preview == listed.preview
    &&& rows[k].record.cwd == cwd
}

/// A directory resumes the session that its entry names, and none without one.
pub proof fn directories_resume_their_latest(latest: Seq<Latest>, cwd: Seq<char>, k: int)
    requires
        session::one_latest(latest),
    ensures
        0 <= k < latest.len() && latest[k].cwd == cwd ==> session::current(latest, cwd) == Some(
            latest[k].id,
        ),
        (forall|i: int| 0 <= i < latest.len() ==> (#[trigger] latest[i]).cwd != cwd)
            ==> session::current(latest, cwd) is None,
{
    session::lemma_latest_at(latest, 0, cwd);
    if 0 <= k < latest.len() && latest[k].cwd == cwd {
        let i = session::latest_at(latest, 0, cwd)->0;
        if i != k {
            assert(latest[if i < k { i } else { k }].cwd != latest[if i < k { k } else { i }].cwd);
        }
    }
}

/// A directory resumes its session when it can be claimed, opens a fresh one
/// when it has none or another process holds it, and fails on anything else.
pub proof fn claims_lead_to_a_session(id: u64, lease: Result<(), SessionError>)
    ensures
        session::next_claim(None, Some(lease)) == Claim::Create,
        session::next_claim(None, None) == Claim::Create,
        session::next_claim(Some(id), None) == Claim::Lease(id),
        lease is Ok ==> session::next_claim(Some(id), Some(lease)) == Claim::Resume(id),
        (lease matches Err(e) && e is SessionInUse) ==> session::next_claim(Some(id), Some(lease))
            == Claim::Create,
        (lease matches Err(e) && !(e is SessionInUse)) ==> session::next_claim(
            Some(id),
            Some(lease),
        ) == Claim::Fail(lease->Err_0),
{
}

proof fn lemma_zeros_value(n: nat, digits: Seq<char>)
    ensures
        text::digits_value(text::repeated('0', n) + digits) == text::digits_value(digits),
    decreases digits.len(),
{
    let all = text::repeated('0', n) + digits;
    if digits.len() == 0 {
        assert(all =~= text::repeated('0', n));
        lemma_zeros(n);
    } else {
        assert(all.drop_last() =~= text::repeated('0', n) + digits.drop_last());
        lemma_zeros_value(n, digits.drop_last());
    }
}

proof fn lemma_zeros(n: nat)
    ensures
        text::digits_value(text::repeated('0', n)) == 0,
    decreases n,
{
    if n > 0 {
        assert(text::repeated('0', n).drop_last() =~= text::repeated('0', (n - 1) as nat));
        lemma_zeros((n - 1) as nat);
    }
}

/// A journal is named by the number of its session, in at least eight digits,
/// below the directory of the sessions; no two sessions share one.
pub proof fn journals_are_named_by_number(dir: Seq<char>, id: u64, other: u64)
    ensures
        text::digits_value(session::padded(id as nat)) == id,
        session::padded(id as nat).len() >= 8,
        text::starts_with(session::journal_path(dir, id), dir),
        text::ends_with(
            session::journal_path(dir, id),
            "session-"@ + session::padded(id as nat) + ".redb"@,
        ),
        session::journal_path(dir, id) == session::journal_path(dir, other) ==> id == other,
{
    lemma_padded(id);
    lemma_padded(other);
    lemma_below(dir, "session-"@ + session::padded(id as nat) + ".redb"@);
    lemma_below(dir, "session-"@ + session::padded(other as nat) + ".redb"@);
    if session::journal_path(dir, id) == session::journal_path(dir, other) {
        let a = "session-"@ + session::padded(id as nat) + ".redb"@;
        let b = "session-"@ + session::padded(other as nat) + ".redb"@;
        let path = session::journal_path(dir, id);
        let lead = if dir.len() == 0 || dir.last() == '/' {
            dir
        } else {
            dir + "/"@
        };
        assert(path == lead + a && path == lead + b);
        assert(path.skip(lead.len() as int) =~= a);
        assert(path.skip(lead.len() as int) =~= b);
        let s = "session-"@.len() as int;
        let e = ".redb"@.len() as int;
        assert(a.len() == b.len());
        assert(a.subrange(s, a.len() - e) =~= session::padded(id as nat));
        assert(b.subrange(s, b.len() - e) =~= session::padded(other as nat));
    }
}

proof fn lemma_padded(id: u64)
    ensures
        text::digits_value(session::padded(id as nat)) == id,
        session::padded(id as nat).len() >= 8,
{
    let digits = text::decimal(id as nat);
    config::lemma_decimal_value(id as nat);
    if digits.len() < session::ID_DIGITS {
        lemma_zeros_value((session::ID_DIGITS - digits.len()) as nat, digits);
    }
}

proof fn lemma_below(dir: Seq<char>, name: Seq<char>)
    ensures
        text::starts_with(auth::below(dir, name), dir),
        text::ends_with(auth::below(dir, name), name),
{
    let path = auth::below(dir, name);
    if dir.len() == 0 || dir.last() == '/' {
        text_laws::prefixes_come_off(dir, name);
        assert(path.skip(dir.len() as int) =~= name);
    } else {
        assert(path =~= dir + ("/"@ + name));
        text_laws::prefixes_come_off(dir, "/"@ + name);
        assert(path.skip((dir + "/"@).len() as int) =~= name);
    }
}

/// Paths below a directory are separated from it by exactly one slash.
pub proof fn paths_are_joined_by_one_slash(dir: Seq<char>, name: Seq<char>)
    requires
        dir.len() > 0,
        dir.last() != '/',
    ensures
        auth::below(dir, name) == dir + "/"@ + name,
        auth::below(dir + "/"@, name) == dir + "/"@ + name,
        auth::below(Seq::empty(), name) == name,
{
    reveal_strlit("/");
    assert((dir + "/"@).last() == '/');
    assert(Seq::<char>::empty() + name =~= name);
}

/// The extension of a file name is replaced, and nothing before it.
pub proof fn extensions_are_replaced(
    dir: Seq<char>,
    stem: Seq<char>,
    old_extension: Seq<char>,
    extension: Seq<char>,
)
    requires
        stem.len() > 0,
        old_extension.len() > 0,
        !stem.contains('/'),
        !old_extension.contains('/'),
        !old_extension.contains('.'),
    ensures
        auth::with_extension(dir + "/"@ + stem + "."@ + old_extension, extension) == dir + "/"@
            + stem + "."@ + extension,
{
    reveal_strlit("/");
    reveal_strlit(".");
    let path = dir + "/"@ + stem + "."@ + old_extension;
    let slash = dir.len() as int;
    let dot = slash + 1 + stem.len();
    let n = path.len() as int;
    assert forall|k: int| 0 <= k < stem.len() implies #[trigger] stem[k] != '/' by {
        if stem[k] == '/' {
            assert(stem.contains('/'));
        }
    }
    assert forall|k: int| 0 <= k < old_extension.len() implies #[trigger] old_extension[k] != '/'
        && old_extension[k] != '.' by {
        if old_extension[k] == '/' {
            assert(old_extension.contains('/'));
        }
        if old_extension[k] == '.' {
            assert(old_extension.contains('.'));
        }
    }
    assert forall|k: int| dot < k < n implies #[trigger] path[k] != '/' && path[k] != '.' by {
        assert(path[k] == old_extension[k - dot - 1]);
    }
    assert forall|k: int| slash < k < n implies #[trigger] path[k] != '/' by {
        if k < dot {
            assert(path[k] == stem[k - slash - 1]);
        } else if k == dot {
            assert(path[k] == '.');
        }
    }
    assert(path[n - 1] == old_extension.last());
    assert(auth::path_end(path, n) == n);
    assert(path.take(n) =~= path);
    lemma_last(path, n, slash, '/');
    lemma_last(path, n, dot, '.');
    let name = path.skip(slash + 1);
    assert(auth::names_a_file(name)) by {
        reveal_strlit("..");
        assert(name.last() == old_extension.last());
    }
    assert(path.take(dot) =~= dir + "/"@ + stem);
}

proof fn lemma_last(s: Seq<char>, n: int, at: int, c: char)
    requires
        0 <= at < n <= s.len(),
        s[at] == c,
        forall|k: int| at < k < n ==> #[trigger] s[k] != c,
    ensures
        text::last_index_of(s, n, c) == Some(at),
    decreases n,
{
    if n - 1 > at {
        lemma_last(s, n - 1, at, c);
    }
}

/// A session is deleted only if it can be loaded from its directory, if no one
/// else holds it, and if what takes its place can be told; otherwise the first
/// of these reasons is reported.
pub proof fn deletions_need_the_session_free(
    c: Catalog,
    id: u64,
    cwd: Seq<char>,
    lease: Result<(), SessionError>,
)
    ensures
        session::load_fault(c, id, cwd) is Some ==> session::delete_fault(c, id, cwd, lease)
            == session::load_fault(c, id, cwd),
        session::load_fault(c, id, cwd) is None && lease is Err ==> session::delete_fault(
            c,
            id,
            cwd,
            lease,
        ) == Some(lease->Err_0),
        session::delete_fault(c, id, cwd, lease) is None ==> lease is Ok && session::load_fault(
            c,
            id,
            cwd,
        ) is None,
        session::load_fault(c, id, cwd) is None && lease is Ok && session::current(c.latest, cwd)
            != Some(id) ==> session::delete_fault(c, id, cwd, lease) is None,
{
}

/// Deleting a session removes its journal, its lock and its log.
pub proof fn deletions_remove_every_file(dir: Seq<char>, id: u64)
    ensures
        ({
            let files = session::files_of(dir, id);
            let journal = session::journal_path(dir, id);
            &&& files.len() == 3
            &&& files.contains(journal)
            &&& files.contains(auth::with_extension(journal, "lock"@))
            &&& files.contains(auth::with_extension(journal, "debug.jsonl"@))
        }),
{
    let files = session::files_of(dir, id);
    let journal = session::journal_path(dir, id);
    assert(files[0] == journal);
    assert(files[1] == auth::with_extension(journal, "lock"@));
    assert(files[2] == auth::with_extension(journal, "debug.jsonl"@));
}

} // verus!
