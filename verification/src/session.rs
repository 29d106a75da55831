//! The catalog of durable sessions and the latest one of each directory.

use crate::auth;
use crate::auth::{join_path, replace_extension};
use crate::history::copy_opt;
use crate::steps::Listing;
use crate::text;
use vstd::prelude::*;
use vstd::string::*;

verus! {

pub const INDEX_SCHEMA_VERSION: u32 = 1;

/// Digits of a session's number in the name of its journal, at least.
pub const ID_DIGITS: usize = 8;

/// One durable session.
#[derive(Clone, Debug, PartialEq, Eq)]
pub struct Session {
    pub id: u64,
    pub cwd: String,
    pub database_path: String,
}

impl Session {
    /// The diagnostic log beside the journal.
    pub fn diagnostic_log_path(&self) -> (r: String)
        ensures
            r@ == auth::with_extension(self.database_path@, "debug.jsonl"@),
    {
        replace_extension(self.database_path.as_str(), "debug.jsonl")
    }

    /// The file whose lock claims the session.
    pub fn lease_path(&self) -> (r: String)
        ensures
            r@ == auth::with_extension(self.database_path@, "lock"@),
    {
        replace_extension(self.database_path.as_str(), "lock")
    }
}

/// What the catalog keeps of a session.
#[derive(Clone, Debug, PartialEq, Eq)]
pub struct SessionRecord {
    pub schema_version: u32,
    pub id: u64,
    pub cwd: String,
    pub created_at_unix_ms: u64,
    pub last_opened_at_unix_ms: u64,
    /// First user message, once it is known. It never changes.
    pub preview: Option<String>,
}

/// The value of a [`SessionRecord`].
pub struct Record {
    pub schema_version: u32,
    pub id: u64,
    pub cwd: Seq<char>,
    pub created: u64,
    pub opened: u64,
    pub preview: Option<Seq<char>>,
}

impl View for SessionRecord {
    type V = Record;

    open spec fn view(&self) -> Record {
        Record {
            schema_version: self.schema_version,
            id: self.id,
            cwd: self.cwd@,
            created: self.created_at_unix_ms,
            opened: self.last_opened_at_unix_ms,
            preview: text::opt_text(self.preview),
        }
    }
}

/// One row of the catalog, by its key.
#[derive(Clone, Debug, PartialEq, Eq)]
pub struct IndexRow {
    pub key: u64,
    pub record: SessionRecord,
}

/// The value of an [`IndexRow`].
pub struct Slot {
    pub key: u64,
    pub record: Record,
}

impl View for IndexRow {
    type V = Slot;

    open spec fn view(&self) -> Slot {
        Slot { key: self.key, record: self.record@ }
    }
}

pub open spec fn slots_of(v: Seq<IndexRow>) -> Seq<Slot> {
    v.map_values(|r: IndexRow| r@)
}

/// The latest session of a directory.
#[derive(Clone, Debug, PartialEq, Eq)]
pub struct LatestRow {
    pub cwd: String,
    pub id: u64,
}

/// The value of a [`LatestRow`].
pub struct Latest {
    pub cwd: Seq<char>,
    pub id: u64,
}

impl View for LatestRow {
    type V = Latest;

    open spec fn view(&self) -> Latest {
        Latest { cwd: self.cwd@, id: self.id }
    }
}

pub open spec fn latest_of(v: Seq<LatestRow>) -> Seq<Latest> {
    v.map_values(|r: LatestRow| r@)
}

/// The catalog: its rows in the order of their keys, the latest session of
/// each directory, and the next number if one was ever given out.
#[derive(Clone, Debug)]
pub struct SessionIndex {
    pub rows: Vec<IndexRow>,
    pub latest: Vec<LatestRow>,
    pub next_id: Option<u64>,
}

/// The value of a [`SessionIndex`].
#[verifier::ext_equal]
pub struct Catalog {
    pub rows: Seq<Slot>,
    pub latest: Seq<Latest>,
    pub next_id: Option<u64>,
}

impl View for SessionIndex {
    type V = Catalog;

    open spec fn view(&self) -> Catalog {
        Catalog {
            rows: slots_of(self.rows@),
            latest: latest_of(self.latest@),
            next_id: self.next_id,
        }
    }
}

/// Why a session cannot be used. Causes are texts.
#[derive(Debug, PartialEq, Eq)]
pub enum SessionError {
    HomeUnavailable,
    CreateDirectory { path: String, source: String },
    Permissions { path: String, source: String },
    Lock { path: String, source: String },
    SessionInUse { id: u64 },
    RelativeWorkingDirectory(String),
    NonUtf8WorkingDirectory(String),
    Database(String),
    Serialize(String),
    Clock(String),
    ClockOverflow,
    IdExhausted,
    MissingRecord { id: u64 },
    InvalidRecord { id: u64 },
    WrongWorkingDirectory { id: u64 },
    MissingJournal { id: u64, path: String },
    Journal(String),
}

/// The text of an error.
pub open spec fn error_text(e: SessionError) -> Seq<char> {
    match e {
        SessionError::HomeUnavailable => {
            "could not determine the home directory for ~/.lam sessions"@
        },
        SessionError::CreateDirectory { path, source } => "could not create session directory `"@
            + path@ + "`: "@ + source@,
        SessionError::Permissions { path, source } => "could not restrict session directory `"@
            + path@ + "`: "@ + source@,
        SessionError::Lock { path, source } => "could not lock session state `"@ + path@ + "`: "@
            + source@,
        SessionError::SessionInUse { id } => "session "@ + text::decimal(id as nat)
            + " is open in another TUI"@,
        SessionError::RelativeWorkingDirectory(path) => {
            "session working directory must be absolute: `"@ + path@ + "`"@
        },
        SessionError::NonUtf8WorkingDirectory(path) => {
            "session working directory is not valid UTF-8: `"@ + path@ + "`"@
        },
        SessionError::Database(e) => "session index operation failed: "@ + e@,
        SessionError::Serialize(e) => "session index serialization failed: "@ + e@,
        SessionError::Clock(e) => "session clock is before the Unix epoch: "@ + e@,
        SessionError::ClockOverflow => "session timestamp does not fit in a u64"@,
        SessionError::IdExhausted => "the session index has exhausted its identifiers"@,
        SessionError::MissingRecord { id } => "the session index points to missing session "@
            + text::decimal(id as nat),
        SessionError::InvalidRecord { id } => "session index record "@ + text::decimal(id as nat)
            + " is inconsistent"@,
        SessionError::WrongWorkingDirectory { id } => "session "@ + text::decimal(id as nat)
            + " belongs to a different working directory"@,
        SessionError::MissingJournal { id, path } => "session "@ + text::decimal(id as nat)
            + " journal is missing at `"@ + path@ + "`"@,
        SessionError::Journal(e) => "could not create session journal: "@ + e@,
    }
}

fn numbered(before: &str, id: u64, after: &str) -> (r: String)
    ensures
        r@ == before@ + text::decimal(id as nat) + after@,
{
    text::concat3(before, text::decimal_text(id).as_str(), after)
}

fn about_path(what: &str, path: &str, source: &str) -> (r: String)
    ensures
        r@ == what@ + path@ + "`: "@ + source@,
{
    let mut r = text::concat3(what, path, "`: ");
    r.append(source);
    r
}

impl SessionError {
    /// The text of the error.
    pub fn message(&self) -> (r: String)
        ensures
            r@ == error_text(*self),
    {
        match self {
            SessionError::HomeUnavailable => {
                "could not determine the home directory for ~/.lam sessions".to_owned()
            },
            SessionError::CreateDirectory { path, source } => about_path(
                "could not create session directory `",
                path.as_str(),
                source.as_str(),
            ),
            SessionError::Permissions { path, source } => about_path(
                "could not restrict session directory `",
                path.as_str(),
                source.as_str(),
            ),
            SessionError::Lock { path, source } => about_path(
                "could not lock session state `",
                path.as_str(),
                source.as_str(),
            ),
            SessionError::SessionInUse { id } => {
                numbered("session ", *id, " is open in another TUI")
            },
            SessionError::RelativeWorkingDirectory(path) => text::concat3(
                "session working directory must be absolute: `",
                path.as_str(),
                "`",
            ),
            SessionError::NonUtf8WorkingDirectory(path) => text::concat3(
                "session working directory is not valid UTF-8: `",
                path.as_str(),
                "`",
            ),
            SessionError::Database(e) => {
                text::concat("session index operation failed: ", e.as_str())
            },
            SessionError::Serialize(e) => {
                text::concat("session index serialization failed: ", e.as_str())
            },
            SessionError::Clock(e) => {
                text::concat("session clock is before the Unix epoch: ", e.as_str())
            },
            SessionError::ClockOverflow => "session timestamp does not fit in a u64".to_owned(),
            SessionError::IdExhausted => {
                "the session index has exhausted its identifiers".to_owned()
            },
            SessionError::MissingRecord { id } => {
                text::concat(
                    "the session index points to missing session ",
                    text::decimal_text(*id).as_str(),
                )
            },
            SessionError::InvalidRecord { id } => {
                numbered("session index record ", *id, " is inconsistent")
            },
            SessionError::WrongWorkingDirectory { id } => {
                numbered("session ", *id, " belongs to a different working directory")
            },
            SessionError::MissingJournal { id, path } => {
                let mut r = numbered("session ", *id, " journal is missing at `");
                r.append(path.as_str());
                r.append("`");
                r
            },
            SessionError::Journal(e) => {
                text::concat("could not create session journal: ", e.as_str())
            },
        }
    }
}

/// Whether a record belongs under its key.
pub open spec fn is_sound(record: Record, key: u64) -> bool {
    record.schema_version == INDEX_SCHEMA_VERSION && record.id == key
}

pub fn validate_record(record: &SessionRecord, id: u64) -> (r: Result<(), SessionError>)
    ensures
        r is Ok == is_sound(record@, id),
        r matches Err(e) ==> e == (SessionError::InvalidRecord { id }),
{
    if record.schema_version != INDEX_SCHEMA_VERSION || record.id != id {
        return Err(SessionError::InvalidRecord { id });
    }
    Ok(())
}

/// The key of a working directory: its path. `cwd` is `None` when the path is
/// not Unicode; `shown` is how it is displayed.
pub fn cwd_key(cwd: Option<&str>, absolute: bool, shown: &str) -> (r: Result<
    String,
    SessionError,
>)
    ensures
        match r {
            Ok(key) => absolute && cwd is Some && key@ == cwd->0@,
            Err(SessionError::RelativeWorkingDirectory(path)) => !absolute && path@ == shown@,
            Err(SessionError::NonUtf8WorkingDirectory(path)) => absolute && cwd is None && path@
                == shown@,
            Err(_) => false,
        },
{
    if !absolute {
        return Err(SessionError::RelativeWorkingDirectory(shown.to_owned()));
    }
    match cwd {
        Some(path) => Ok(path.to_owned()),
        None => Err(SessionError::NonUtf8WorkingDirectory(shown.to_owned())),
    }
}

/// The notation of a number with leading zeros to eight digits.
pub open spec fn padded(n: nat) -> Seq<char> {
    let digits = text::decimal(n);
    if digits.len() < ID_DIGITS {
        text::repeated('0', (ID_DIGITS - digits.len()) as nat) + digits
    } else {
        digits
    }
}

/// The path of a session's journal.
pub open spec fn journal_path(dir: Seq<char>, id: u64) -> Seq<char> {
    auth::below(dir, "session-"@ + padded(id as nat) + ".redb"@)
}

/// Where the catalog and the journals are.
#[derive(Clone, Debug)]
pub struct SessionCatalog {
    pub sessions_dir: String,
}

impl SessionCatalog {
    /// The catalog of a user.
    pub fn open_default(home: Option<&str>) -> (r: Result<Self, SessionError>)
        ensures
            match home {
                Some(home) => r is Ok && r->Ok_0.sessions_dir@ == auth::below(
                    home@,
                    ".lam/sessions"@,
                ),
                None => r is Err && r->Err_0 is HomeUnavailable,
            },
    {
        match home {
            Some(home) => Ok(SessionCatalog { sessions_dir: join_path(home, ".lam/sessions") }),
            None => Err(SessionError::HomeUnavailable),
        }
    }

    pub fn index_path(&self) -> (r: String)
        ensures
            r@ == auth::below(self.sessions_dir@, "index.redb"@),
    {
        join_path(self.sessions_dir.as_str(), "index.redb")
    }

    pub fn lock_path(&self) -> (r: String)
        ensures
            r@ == auth::below(self.sessions_dir@, "index.lock"@),
    {
        join_path(self.sessions_dir.as_str(), "index.lock")
    }

    /// The session with a number in a directory.
    pub fn session(&self, id: u64, cwd: &str) -> (r: Session)
        ensures
            r.id == id,
            r.cwd@ == cwd@,
            r.database_path@ == journal_path(self.sessions_dir@, id),
    {
        let digits = text::decimal_text(id);
        let count: usize = digits.as_str().unicode_len();
        let number = if count < ID_DIGITS {
            text::concat(text::repeat('0', ID_DIGITS - count).as_str(), digits.as_str())
        } else {
            digits
        };
        let name = text::concat3("session-", number.as_str(), ".redb");
        Session {
            id,
            cwd: cwd.to_owned(),
            database_path: join_path(self.sessions_dir.as_str(), name.as_str()),
        }
    }
}

/// Index of the row with a key, from `i` on.
pub open spec fn row_at(rows: Seq<Slot>, i: int, key: u64) -> Option<int>
    decreases rows.len() - i,
{
    if i < 0 || i >= rows.len() {
        None
    } else if rows[i].key == key {
        Some(i)
    } else {
        row_at(rows, i + 1, key)
    }
}

/// Index of the first row whose key is not below `key`, from `i` on.
pub open spec fn slot_for(rows: Seq<Slot>, i: int, key: u64) -> int
    decreases rows.len() - i,
{
    if 0 <= i < rows.len() && rows[i].key < key {
        slot_for(rows, i + 1, key)
    } else {
        i
    }
}

/// The rows with a record put under a key.
pub open spec fn with_row(rows: Seq<Slot>, key: u64, record: Record) -> Seq<Slot> {
    let at = slot_for(rows, 0, key);
    if at < rows.len() && rows[at].key == key {
        rows.update(at, Slot { key, record })
    } else {
        rows.insert(at, Slot { key, record })
    }
}

/// The latest session of a directory, from entry `i` on.
pub open spec fn latest_at(latest: Seq<Latest>, i: int, cwd: Seq<char>) -> Option<int>
    decreases latest.len() - i,
{
    if i < 0 || i >= latest.len() {
        None
    } else if latest[i].cwd == cwd {
        Some(i)
    } else {
        latest_at(latest, i + 1, cwd)
    }
}

pub open spec fn current(latest: Seq<Latest>, cwd: Seq<char>) -> Option<u64> {
    match latest_at(latest, 0, cwd) {
        Some(i) => Some(latest[i].id),
        None => None,
    }
}

/// The entries with the latest session of a directory set.
pub open spec fn with_latest(latest: Seq<Latest>, cwd: Seq<char>, id: u64) -> Seq<Latest> {
    match latest_at(latest, 0, cwd) {
        Some(i) => latest.update(i, Latest { cwd, id }),
        None => latest.push(Latest { cwd, id }),
    }
}

/// The entries without one for a directory.
pub open spec fn without_latest(latest: Seq<Latest>, cwd: Seq<char>) -> Seq<Latest> {
    match latest_at(latest, 0, cwd) {
        Some(i) => latest.remove(i),
        None => latest,
    }
}

/// What keeps a session from being opened in a directory.
pub open spec fn load_fault(c: Catalog, id: u64, cwd: Seq<char>) -> Option<SessionError> {
    match row_at(c.rows, 0, id) {
        None => Some(SessionError::MissingRecord { id }),
        Some(i) => if !is_sound(c.rows[i].record, id) {
            Some(SessionError::InvalidRecord { id })
        } else if c.rows[i].record.cwd != cwd {
            Some(SessionError::WrongWorkingDirectory { id })
        } else {
            None
        },
    }
}

/// The newest of the rows before `n` that belong to a directory. The error is
/// the key of the first row that is not sound.
pub open spec fn newest(rows: Seq<Slot>, n: int, cwd: Seq<char>) -> Result<Option<u64>, u64>
    decreases n,
{
    if n <= 0 {
        Ok(None)
    } else {
        match newest(rows, n - 1, cwd) {
            Err(e) => Err(e),
            Ok(before) => if !is_sound(rows[n - 1].record, rows[n - 1].key) {
                Err(rows[n - 1].key)
            } else if rows[n - 1].record.cwd == cwd {
                Ok(Some(rows[n - 1].key))
            } else {
                Ok(before)
            },
        }
    }
}

/// A session as the palette lists it.
pub struct Listed {
    pub id: u64,
    pub preview: Option<Seq<char>>,
}

pub open spec fn listed_of(v: Seq<Listing>) -> Seq<Listed> {
    v.map_values(|l: Listing| Listed { id: l.id, preview: text::opt_text(l.preview) })
}

/// The sessions of a directory among the rows before `n`, newest first.
pub open spec fn listing(rows: Seq<Slot>, n: int, cwd: Seq<char>) -> Seq<Listed>
    decreases n,
{
    if n <= 0 {
        Seq::empty()
    } else if rows[n - 1].record.cwd == cwd {
        seq![Listed { id: rows[n - 1].key, preview: rows[n - 1].record.preview }] + listing(
            rows,
            n - 1,
            cwd,
        )
    } else {
        listing(rows, n - 1, cwd)
    }
}

/// Whether every row is sound.
pub open spec fn all_sound(rows: Seq<Slot>) -> bool {
    forall|i: int| 0 <= i < rows.len() ==> is_sound((#[trigger] rows[i]).record, rows[i].key)
}

/// The record of a session that has just been made.
pub open spec fn fresh_record(id: u64, cwd: Seq<char>, now: u64) -> Record {
    Record {
        schema_version: INDEX_SCHEMA_VERSION,
        id,
        cwd,
        created: now,
        opened: now,
        preview: None,
    }
}

/// The number of the next session.
pub open spec fn next_number(c: Catalog) -> u64 {
    match c.next_id {
        Some(id) => id,
        None => 1,
    }
}

/// The catalog after a session has been made in a directory.
pub open spec fn created(c: Catalog, cwd: Seq<char>, now: u64) -> Catalog {
    let id = next_number(c);
    Catalog {
        rows: with_row(c.rows, id, fresh_record(id, cwd, now)),
        latest: with_latest(c.latest, cwd, id),
        next_id: Some((id + 1) as u64),
    }
}

/// The catalog after a session has been opened.
pub open spec fn touched(c: Catalog, id: u64, cwd: Seq<char>, now: u64, make_latest: bool) -> Catalog {
    let i = row_at(c.rows, 0, id)->0;
    Catalog {
        rows: c.rows.update(
            i,
            Slot { record: Record { opened: now, ..c.rows[i].record }, ..c.rows[i] },
        ),
        latest: if make_latest {
            with_latest(c.latest, cwd, id)
        } else {
            c.latest
        },
        ..c
    }
}

/// The catalog after a session's preview has been kept.
pub open spec fn previewed(c: Catalog, id: u64, preview: Seq<char>) -> Catalog {
    let i = row_at(c.rows, 0, id)->0;
    Catalog {
        rows: c.rows.update(
            i,
            Slot { record: Record { preview: Some(preview), ..c.rows[i].record }, ..c.rows[i] },
        ),
        ..c
    }
}

/// The latest entries after a session of a directory has been dropped and
/// `rows` remain: the directory falls back to its newest session.
pub open spec fn repointed(latest: Seq<Latest>, rows: Seq<Slot>, id: u64, cwd: Seq<char>) -> Seq<
    Latest,
> {
    if current(latest, cwd) == Some(id) {
        match newest(rows, rows.len() as int, cwd) {
            Ok(Some(other)) => with_latest(latest, cwd, other),
            _ => without_latest(latest, cwd),
        }
    } else {
        latest
    }
}

/// The catalog after a session has been dropped.
pub open spec fn dropped(c: Catalog, id: u64, cwd: Seq<char>) -> Catalog {
    let rows = c.rows.remove(row_at(c.rows, 0, id)->0);
    Catalog { rows, latest: repointed(c.latest, rows, id, cwd), ..c }
}

/// What keeps a session from being dropped.
pub open spec fn drop_fault(c: Catalog, id: u64, cwd: Seq<char>) -> Option<SessionError> {
    match load_fault(c, id, cwd) {
        Some(e) => Some(e),
        None => {
            let rows = c.rows.remove(row_at(c.rows, 0, id)->0);
            if current(c.latest, cwd) == Some(id) {
                match newest(rows, rows.len() as int, cwd) {
                    Err(key) => Some(SessionError::InvalidRecord { id: key }),
                    Ok(_) => None,
                }
            } else {
                None
            }
        },
    }
}

fn find_row(rows: &Vec<IndexRow>, key: u64) -> (r: Option<usize>)
    ensures
        (match r {
            Some(i) => Some(i as int),
            None => None,
        }) == row_at(slots_of(rows@), 0, key),
        r matches Some(i) ==> i < rows@.len(),
{
    let ghost all = slots_of(rows@);
    let mut i: usize = 0;
    proof {
        assert(all.len() == rows@.len());
    }
    while i < rows.len()
        invariant
            i <= rows@.len(),
            all == slots_of(rows@),
            all.len() == rows@.len(),
            row_at(all, 0, key) == row_at(all, i as int, key),
        decreases rows@.len() - i,
    {
        proof {
            assert(all[i as int] == rows@[i as int]@);
        }
        if rows[i].key == key {
            return Some(i);
        }
        i += 1;
    }
    None
}

fn put_row(rows: &mut Vec<IndexRow>, key: u64, record: SessionRecord)
    ensures
        slots_of(final(rows)@) == with_row(slots_of(old(rows)@), key, record@),
{
    let ghost all = slots_of(rows@);
    let mut at: usize = 0;
    proof {
        assert(all.len() == rows@.len());
    }
    while at < rows.len() && rows[at].key < key
        invariant
            at <= rows@.len(),
            rows@ == old(rows)@,
            all == slots_of(rows@),
            all.len() == rows@.len(),
            forall|k: int| 0 <= k < all.len() ==> all[k] == (#[trigger] rows@[k])@,
            slot_for(all, 0, key) == slot_for(all, at as int, key),
        decreases rows@.len() - at,
    {
        at += 1;
    }
    proof {
        if at < all.len() {
            assert(all[at as int] == rows@[at as int]@);
        }
    }
    let ghost value = record@;
    if at < rows.len() && rows[at].key == key {
        rows[at].record = record;
        proof {
            assert(slots_of(rows@) =~= with_row(all, key, value));
        }
    } else {
        rows.insert(at, IndexRow { key, record });
        proof {
            assert(slots_of(rows@) =~= with_row(all, key, value));
        }
    }
}

fn find_latest(latest: &Vec<LatestRow>, cwd: &str) -> (r: Option<usize>)
    ensures
        (match r {
            Some(i) => Some(i as int),
            None => None,
        }) == latest_at(latest_of(latest@), 0, cwd@),
        r matches Some(i) ==> i < latest@.len(),
{
    let ghost all = latest_of(latest@);
    let mut i: usize = 0;
    proof {
        assert(all.len() == latest@.len());
    }
    while i < latest.len()
        invariant
            i <= latest@.len(),
            all == latest_of(latest@),
            all.len() == latest@.len(),
            latest_at(all, 0, cwd@) == latest_at(all, i as int, cwd@),
        decreases latest@.len() - i,
    {
        proof {
            assert(all[i as int] == latest@[i as int]@);
        }
        if text::same(latest[i].cwd.as_str(), cwd) {
            return Some(i);
        }
        i += 1;
    }
    None
}

fn set_latest(latest: &mut Vec<LatestRow>, cwd: &str, id: u64)
    ensures
        latest_of(final(latest)@) == with_latest(latest_of(old(latest)@), cwd@, id),
{
    let ghost all = latest_of(latest@);
    match find_latest(latest, cwd) {
        Some(i) => {
            latest[i] = LatestRow { cwd: cwd.to_owned(), id };
        },
        None => {
            latest.push(LatestRow { cwd: cwd.to_owned(), id });
        },
    }
    proof {
        assert(latest_of(latest@) =~= with_latest(all, cwd@, id));
    }
}

fn find_newest(rows: &Vec<IndexRow>, cwd: &str) -> (r: Result<Option<u64>, u64>)
    ensures
        r == newest(slots_of(rows@), rows@.len() as int, cwd@),
{
    let ghost all = slots_of(rows@);
    let mut found: Option<u64> = None;
    let mut i: usize = 0;
    proof {
        assert(all.len() == rows@.len());
    }
    while i < rows.len()
        invariant
            i <= rows@.len(),
            all == slots_of(rows@),
            all.len() == rows@.len(),
            newest(all, i as int, cwd@) == Ok::<Option<u64>, u64>(found),
        decreases rows@.len() - i,
    {
        proof {
            assert(all[i as int] == rows@[i as int]@);
        }
        if validate_record(&rows[i].record, rows[i].key).is_err() {
            proof {
                lemma_newest_fails(all, i + 1, all.len() as int, cwd@);
            }
            return Err(rows[i].key);
        }
        if text::same(rows[i].record.cwd.as_str(), cwd) {
            found = Some(rows[i].key);
        }
        i += 1;
    }
    Ok(found)
}

proof fn lemma_newest_fails(rows: Seq<Slot>, i: int, n: int, cwd: Seq<char>)
    requires
        0 <= i <= n,
        newest(rows, i, cwd) is Err,
    ensures
        newest(rows, n, cwd) == newest(rows, i, cwd),
    decreases n,
{
    if i < n {
        lemma_newest_fails(rows, i, n - 1, cwd);
    }
}

/// What comes next for a directory that needs its session.
#[derive(Debug, PartialEq, Eq)]
pub enum Claim {
    /// Claim this session, and ask again.
    Lease(u64),
    /// Open this session, which is claimed.
    Resume(u64),
    /// Open a fresh session.
    Create,
    Fail(SessionError),
}

/// The step after `lease`, what claiming the current session came to. One that
/// another process holds is left alone.
pub open spec fn next_claim(current: Option<u64>, lease: Option<Result<(), SessionError>>) -> Claim {
    match (current, lease) {
        (None, _) => Claim::Create,
        (Some(id), None) => Claim::Lease(id),
        (Some(id), Some(Ok(_))) => Claim::Resume(id),
        (Some(id), Some(Err(SessionError::SessionInUse { id: _ }))) => Claim::Create,
        (Some(id), Some(Err(e))) => Claim::Fail(e),
    }
}

impl SessionIndex {
    /// How a directory gets its session: the current one is resumed unless
    /// another process holds it; otherwise a fresh one is created. `lease` is
    /// what claiming the current session came to, once that was tried.
    pub fn resume_or_create(&self, cwd: &str, lease: Option<Result<(), SessionError>>) -> (r: Claim)
        ensures
            r == next_claim(current(self@.latest, cwd@), lease),
    {
        match self.resume_candidate(cwd) {
            None => Claim::Create,
            Some(id) => match lease {
                None => Claim::Lease(id),
                Some(Ok(_)) => Claim::Resume(id),
                Some(Err(SessionError::SessionInUse { id: _ })) => Claim::Create,
                Some(Err(e)) => Claim::Fail(e),
            },
        }
    }

    /// The session that a directory would resume.
    pub fn resume_candidate(&self, cwd: &str) -> (r: Option<u64>)
        ensures
            r == current(self@.latest, cwd@),
    {
        match find_latest(&self.latest, cwd) {
            Some(i) => {
                proof {
                    assert(self@.latest[i as int] == self.latest@[i as int]@);
                }
                Some(self.latest[i].id)
            },
            None => None,
        }
    }

    /// The sessions of a directory, newest first.
    pub fn list(&self, cwd: &str) -> (r: Result<Vec<Listing>, SessionError>)
        ensures
            match r {
                Ok(v) => all_sound(self@.rows) && listed_of(v@) == listing(
                    self@.rows,
                    self@.rows.len() as int,
                    cwd@,
                ),
                Err(e) => newest(self@.rows, self@.rows.len() as int, cwd@) is Err && e == (
                SessionError::InvalidRecord {
                    id: newest(self@.rows, self@.rows.len() as int, cwd@)->Err_0,
                }),
            },
            r is Ok == all_sound(self@.rows),
    {
        let ghost all = self@.rows;
        let mut i: usize = 0;
        proof {
            assert(all.len() == self.rows@.len());
        }
        while i < self.rows.len()
            invariant
                i <= self.rows@.len(),
                all == self@.rows,
                all.len() == self.rows@.len(),
                newest(all, i as int, cwd@) is Ok,
                forall|k: int| 0 <= k < i ==> is_sound((#[trigger] all[k]).record, all[k].key),
            decreases self.rows@.len() - i,
        {
            proof {
                assert(all[i as int] == self.rows@[i as int]@);
            }
            if let Err(e) = validate_record(&self.rows[i].record, self.rows[i].key) {
                proof {
                    lemma_newest_fails(all, i + 1, all.len() as int, cwd@);
                    assert(!is_sound(all[i as int].record, all[i as int].key));
                }
                return Err(e);
            }
            i += 1;
        }
        let mut found: Vec<Listing> = Vec::new();
        let mut n: usize = self.rows.len();
        proof {
            assert(listed_of(found@) =~= Seq::empty());
            assert(Seq::<Listed>::empty() + listing(all, n as int, cwd@) =~= listing(
                all,
                n as int,
                cwd@,
            ));
        }
        while n > 0
            invariant
                n <= self.rows@.len(),
                all == self@.rows,
                all.len() == self.rows@.len(),
                all_sound(all),
                listed_of(found@) + listing(all, n as int, cwd@) == listing(
                    all,
                    all.len() as int,
                    cwd@,
                ),
            decreases n,
        {
            proof {
                assert(all[n - 1] == self.rows@[n - 1]@);
            }
            let ghost before = listed_of(found@);
            if text::same(self.rows[n - 1].record.cwd.as_str(), cwd) {
                let entry = Listing {
                    id: self.rows[n - 1].key,
                    preview: copy_opt(&self.rows[n - 1].record.preview),
                };
                let ghost value = Listed { id: entry.id, preview: text::opt_text(entry.preview) };
                let ghost kept = found@;
                found.push(entry);
                proof {
                    assert(listed_of(found@) =~= before.push(value));
                    let rest = listing(all, n - 1, cwd@);
                    assert(before + (seq![value] + rest) =~= before.push(value) + rest);
                }
            }
            n -= 1;
        }
        proof {
            assert(listed_of(found@) + Seq::<Listed>::empty() =~= listed_of(found@));
        }
        Ok(found)
    }

    /// Makes a session in a directory, which becomes its latest one. Returns
    /// its number.
    pub fn create(&mut self, cwd: &str, now: u64) -> (r: Result<u64, SessionError>)
        ensures
            r is Ok == (next_number(old(self)@) < u64::MAX),
            match r {
                Ok(id) => id == next_number(old(self)@) && final(self)@ == created(
                    old(self)@,
                    cwd@,
                    now,
                ),
                Err(e) => e is IdExhausted && *final(self) == *old(self),
            },
            old(self)@.wf() ==> final(self)@.wf(),
    {
        proof {
            if self@.wf() && next_number(self@) < u64::MAX {
                creating_keeps_the_order(self@, cwd@, now);
            }
        }
        let id: u64 = match self.next_id {
            Some(id) => id,
            None => 1,
        };
        if id == u64::MAX {
            return Err(SessionError::IdExhausted);
        }
        self.next_id = Some(id + 1);
        put_row(
            &mut self.rows,
            id,
            SessionRecord {
                schema_version: INDEX_SCHEMA_VERSION,
                id,
                cwd: cwd.to_owned(),
                created_at_unix_ms: now,
                last_opened_at_unix_ms: now,
                preview: None,
            },
        );
        set_latest(&mut self.latest, cwd, id);
        Ok(id)
    }

    /// Checks that a session can be used in a directory; returns its row.
    fn load(&self, id: u64, cwd: &str) -> (r: Result<usize, SessionError>)
        ensures
            match load_fault(self@, id, cwd@) {
                Some(e) => r is Err && r->Err_0 == e,
                None => r is Ok && r->Ok_0 < self.rows@.len() && row_at(self@.rows, 0, id)
                    == Some(r->Ok_0 as int),
            },
    {
        match find_row(&self.rows, id) {
            None => Err(SessionError::MissingRecord { id }),
            Some(i) => {
                proof {
                    assert(self@.rows[i as int] == self.rows@[i as int]@);
                }
                if let Err(e) = validate_record(&self.rows[i].record, id) {
                    return Err(e);
                }
                if !text::same(self.rows[i].record.cwd.as_str(), cwd) {
                    return Err(SessionError::WrongWorkingDirectory { id });
                }
                Ok(i)
            },
        }
    }

    /// Whether a session can be used in a directory.
    pub fn check(&self, id: u64, cwd: &str) -> (r: Result<(), SessionError>)
        ensures
            match load_fault(self@, id, cwd@) {
                Some(e) => r is Err && r->Err_0 == e,
                None => r is Ok,
            },
    {
        match self.load(id, cwd) {
            Ok(_) => Ok(()),
            Err(e) => Err(e),
        }
    }

    /// Records that a session has been opened. `journal` tells whether its
    /// journal exists at `path`.
    pub fn load_and_touch(
        &mut self,
        id: u64,
        cwd: &str,
        make_latest: bool,
        journal: bool,
        path: &str,
        now: u64,
    ) -> (r: Result<(), SessionError>)
        ensures
            match load_fault(old(self)@, id, cwd@) {
                Some(e) => r is Err && r->Err_0 == e && *final(self) == *old(self),
                None => if journal {
                    r is Ok && final(self)@ == touched(old(self)@, id, cwd@, now, make_latest)
                } else {
                    &&& r is Err
                    &&& r->Err_0 matches SessionError::MissingJournal { id: missing, path: at }
                    &&& missing == id
                    &&& at@ == path@
                    &&& *final(self) == *old(self)
                },
            },
            old(self)@.wf() ==> final(self)@.wf(),
    {
        proof {
            if self@.wf() && load_fault(self@, id, cwd@) is None {
                opening_keeps_the_order(self@, id, cwd@, now, make_latest);
            }
        }
        let i = match self.load(id, cwd) {
            Ok(i) => i,
            Err(e) => {
                return Err(e);
            },
        };
        if !journal {
            return Err(SessionError::MissingJournal { id, path: path.to_owned() });
        }
        let ghost before = self@.rows;
        proof {
            assert(before[i as int] == self.rows@[i as int]@);
        }
        self.rows[i].record.last_opened_at_unix_ms = now;
        proof {
            assert(slots_of(self.rows@) =~= before.update(
                i as int,
                Slot {
                    record: Record { opened: now, ..before[i as int].record },
                    ..before[i as int]
                },
            ));
        }
        if make_latest {
            set_latest(&mut self.latest, cwd, id);
        }
        Ok(())
    }

    /// Keeps a session's preview.
    pub fn store_preview(&mut self, id: u64, preview: &str) -> (r: Result<(), SessionError>)
        ensures
            match row_at(old(self)@.rows, 0, id) {
                None => r is Err && r->Err_0 == (SessionError::MissingRecord { id })
                    && *final(self) == *old(self),
                Some(i) => if is_sound(old(self)@.rows[i].record, id) {
                    r is Ok && final(self)@ == previewed(old(self)@, id, preview@)
                } else {
                    r is Err && r->Err_0 == (SessionError::InvalidRecord { id }) && *final(self)
                        == *old(self)
                },
            },
            old(self)@.wf() ==> final(self)@.wf(),
    {
        proof {
            if self@.wf() && row_at(self@.rows, 0, id) is Some {
                previews_keep_the_order(self@, id, preview@);
            }
        }
        let ghost before = self@.rows;
        match find_row(&self.rows, id) {
            None => Err(SessionError::MissingRecord { id }),
            Some(i) => {
                proof {
                    assert(before[i as int] == self.rows@[i as int]@);
                }
                if let Err(e) = validate_record(&self.rows[i].record, id) {
                    return Err(e);
                }
                self.rows[i].record.preview = Some(preview.to_owned());
                proof {
                    assert(slots_of(self.rows@) =~= before.update(
                        i as int,
                        Slot {
                            record: Record {
                                preview: Some(preview@),
                                ..before[i as int].record
                            },
                            ..before[i as int]
                        },
                    ));
                }
                Ok(())
            },
        }
    }

    /// Drops a session of a directory. When it was the latest one, the
    /// directory falls back to its newest remaining session.
    pub fn delete(&mut self, id: u64, cwd: &str) -> (r: Result<(), SessionError>)
        ensures
            match drop_fault(old(self)@, id, cwd@) {
                Some(e) => r is Err && r->Err_0 == e && final(self)@ == old(self)@,
                None => r is Ok && final(self)@ == dropped(old(self)@, id, cwd@),
            },
            old(self)@.wf() ==> final(self)@.wf(),
    {
        proof {
            if self@.wf() && drop_fault(self@, id, cwd@) is None {
                dropped_sessions_are_gone(self@, id, cwd@);
            }
        }
        let i = match self.load(id, cwd) {
            Ok(i) => i,
            Err(e) => {
                return Err(e);
            },
        };
        let was_latest = match self.resume_candidate(cwd) {
            Some(latest) => latest == id,
            None => false,
        };
        let ghost before = self@.rows;
        let ghost kept = self.rows@;
        let removed = self.rows.remove(i);
        proof {
            assert(slots_of(self.rows@) =~= before.remove(i as int));
        }
        if was_latest {
            match find_newest(&self.rows, cwd) {
                Err(key) => {
                    self.rows.insert(i, removed);
                    proof {
                        assert(self.rows@ =~= kept);
                    }
                    return Err(SessionError::InvalidRecord { id: key });
                },
                Ok(Some(newest)) => {
                    set_latest(&mut self.latest, cwd, newest);
                },
                Ok(None) => {
                    let ghost entries = self@.latest;
                    if let Some(k) = find_latest(&self.latest, cwd) {
                        self.latest.remove(k);
                        proof {
                            assert(latest_of(self.latest@) =~= entries.remove(k as int));
                        }
                    }
                },
            }
        }
        Ok(())
    }
}

/// What keeps a session from being deleted; `lease` is what claiming it came
/// to.
pub open spec fn delete_fault(
    c: Catalog,
    id: u64,
    cwd: Seq<char>,
    lease: Result<(), SessionError>,
) -> Option<SessionError> {
    match (load_fault(c, id, cwd), lease) {
        (Some(e), _) => Some(e),
        (None, Err(e)) => Some(e),
        (None, Ok(_)) => drop_fault(c, id, cwd),
    }
}

/// The files of a session: its journal, the file whose lock claims it, and its
/// diagnostic log.
pub open spec fn files_of(dir: Seq<char>, id: u64) -> Seq<Seq<char>> {
    let journal = journal_path(dir, id);
    seq![
        journal,
        auth::with_extension(journal, "lock"@),
        auth::with_extension(journal, "debug.jsonl"@),
    ]
}

impl SessionCatalog {
    /// Drops a session of a directory from the index, and returns the files
    /// that are to be removed with it. `lease` is what claiming the session
    /// came to: one that is open anywhere stays.
    pub fn delete(
        &self,
        index: &mut SessionIndex,
        id: u64,
        cwd: &str,
        lease: Result<(), SessionError>,
    ) -> (r: Result<Vec<String>, SessionError>)
        ensures
            match delete_fault(old(index)@, id, cwd@, lease) {
                Some(e) => r is Err && r->Err_0 == e && final(index)@ == old(index)@,
                None => r is Ok && text::texts(r->Ok_0@) == files_of(self.sessions_dir@, id)
                    && final(index)@ == dropped(old(index)@, id, cwd@),
            },
            old(index)@.wf() ==> final(index)@.wf(),
    {
        if let Err(e) = index.check(id, cwd) {
            return Err(e);
        }
        if let Err(e) = lease {
            return Err(e);
        }
        if let Err(e) = index.delete(id, cwd) {
            return Err(e);
        }
        let session = self.session(id, cwd);
        let mut files: Vec<String> = Vec::new();
        let log = session.diagnostic_log_path();
        files.push(session.database_path.clone());
        files.push(session.lease_path());
        files.push(log);
        proof {
            assert(text::texts(files@) =~= files_of(self.sessions_dir@, id));
        }
        Ok(files)
    }
}

pub proof fn lemma_latest_at(latest: Seq<Latest>, i: int, cwd: Seq<char>)
    requires
        0 <= i,
    ensures
        latest_at(latest, i, cwd) matches Some(at) ==> i <= at < latest.len() && latest[at].cwd
            == cwd && forall|k: int| i <= k < at ==> (#[trigger] latest[k]).cwd != cwd,
        latest_at(latest, i, cwd) is None ==> forall|k: int|
            i <= k < latest.len() ==> (#[trigger] latest[k]).cwd != cwd,
    decreases latest.len() - i,
{
    if i < latest.len() {
        lemma_latest_at(latest, i + 1, cwd);
    }
}

proof fn lemma_latest_found(latest: Seq<Latest>, i: int, at: int, cwd: Seq<char>)
    requires
        0 <= i <= at < latest.len(),
        latest[at].cwd == cwd,
        forall|k: int| i <= k < at ==> (#[trigger] latest[k]).cwd != cwd,
    ensures
        latest_at(latest, i, cwd) == Some(at),
    decreases at - i,
{
    if i < at {
        assert(latest[i].cwd != cwd);
        lemma_latest_found(latest, i + 1, at, cwd);
    }
}

proof fn lemma_latest_none(latest: Seq<Latest>, i: int, cwd: Seq<char>)
    requires
        0 <= i,
        forall|k: int| i <= k < latest.len() ==> (#[trigger] latest[k]).cwd != cwd,
    ensures
        latest_at(latest, i, cwd) is None,
    decreases latest.len() - i,
{
    if i < latest.len() {
        lemma_latest_none(latest, i + 1, cwd);
    }
}

/// Setting the latest session of a directory sets that and no other.
pub proof fn latest_is_per_directory(
    latest: Seq<Latest>,
    cwd: Seq<char>,
    id: u64,
    other: Seq<char>,
)
    ensures
        current(with_latest(latest, cwd, id), cwd) == Some(id),
        other != cwd ==> current(with_latest(latest, cwd, id), other) == current(latest, other),
{
    lemma_latest_at(latest, 0, cwd);
    lemma_latest_at(latest, 0, other);
    let at = match latest_at(latest, 0, cwd) {
        Some(i) => i,
        None => latest.len() as int,
    };
    let next = with_latest(latest, cwd, id);
    assert(forall|k: int| 0 <= k < latest.len() && k != at ==> next[k] == #[trigger] latest[k]);
    assert forall|k: int| 0 <= k < at implies (#[trigger] next[k]).cwd != cwd by {
        assert(next[k] == latest[k]);
    }
    lemma_latest_found(next, 0, at, cwd);
    if other != cwd {
        match latest_at(latest, 0, other) {
            Some(k) => {
                assert forall|j: int| 0 <= j < k implies (#[trigger] next[j]).cwd != other by {
                    assert(latest[j].cwd != other);
                }
                assert(next[k] == latest[k]);
                lemma_latest_found(next, 0, k, other);
            },
            None => {
                assert forall|j: int| 0 <= j < next.len() implies (#[trigger] next[j]).cwd
                    != other by {
                    if j < latest.len() {
                        assert(latest[j].cwd != other);
                    }
                }
                lemma_latest_none(next, 0, other);
            },
        }
    }
}

/// A session that has just been made is the one its directory resumes; other
/// directories resume what they did.
pub proof fn new_sessions_are_current(c: Catalog, cwd: Seq<char>, now: u64, other: Seq<char>)
    ensures
        current(created(c, cwd, now).latest, cwd) == Some(next_number(c)),
        other != cwd ==> current(created(c, cwd, now).latest, other) == current(c.latest, other),
{
    latest_is_per_directory(c.latest, cwd, next_number(c), other);
}

/// Whether each directory has at most one latest session.
pub open spec fn one_latest(latest: Seq<Latest>) -> bool {
    forall|i: int, j: int|
        0 <= i < j < latest.len() ==> (#[trigger] latest[i]).cwd != (#[trigger] latest[j]).cwd
}

impl Catalog {
    /// What every operation on the catalog keeps.
    pub open spec fn wf(self) -> bool {
        well_numbered(self) && one_latest(self.latest)
    }
}

/// Whether keys ascend and lie below the next number.
pub open spec fn well_numbered(c: Catalog) -> bool {
    &&& forall|i: int, j: int|
        0 <= i < j < c.rows.len() ==> (#[trigger] c.rows[i]).key < (#[trigger] c.rows[j]).key
    &&& forall|i: int| 0 <= i < c.rows.len() ==> (#[trigger] c.rows[i]).key < next_number(c)
}

proof fn lemma_slot_at_end(rows: Seq<Slot>, i: int, key: u64)
    requires
        0 <= i <= rows.len(),
        forall|k: int| 0 <= k < rows.len() ==> (#[trigger] rows[k]).key < key,
    ensures
        slot_for(rows, i, key) == rows.len(),
    decreases rows.len() - i,
{
    if i < rows.len() {
        lemma_slot_at_end(rows, i + 1, key);
    }
}

/// Numbers are never given out twice: a new session is put behind all others
/// and the next number is larger still.
pub proof fn numbers_are_never_reused(c: Catalog, cwd: Seq<char>, now: u64)
    requires
        well_numbered(c),
        next_number(c) < u64::MAX,
    ensures
        well_numbered(created(c, cwd, now)),
        created(c, cwd, now).rows == c.rows.push(
            Slot { key: next_number(c), record: fresh_record(next_number(c), cwd, now) },
        ),
{
    let id = next_number(c);
    lemma_slot_at_end(c.rows, 0, id);
    assert(created(c, cwd, now).rows =~= c.rows.push(
        Slot { key: id, record: fresh_record(id, cwd, now) },
    ));
}

pub proof fn lemma_row_at(rows: Seq<Slot>, i: int, key: u64)
    requires
        0 <= i,
    ensures
        row_at(rows, i, key) matches Some(k) ==> i <= k < rows.len() && rows[k].key == key,
        row_at(rows, i, key) is None ==> forall|k: int|
            i <= k < rows.len() ==> (#[trigger] rows[k]).key != key,
    decreases rows.len() - i,
{
    if i < rows.len() {
        lemma_row_at(rows, i + 1, key);
    }
}

proof fn lemma_row_absent(rows: Seq<Slot>, i: int, key: u64)
    requires
        0 <= i,
        forall|k: int| i <= k < rows.len() ==> (#[trigger] rows[k]).key != key,
    ensures
        row_at(rows, i, key) is None,
    decreases rows.len() - i,
{
    if i < rows.len() {
        lemma_row_absent(rows, i + 1, key);
    }
}

proof fn lemma_newest_is_remaining(rows: Seq<Slot>, n: int, cwd: Seq<char>)
    requires
        0 <= n <= rows.len(),
    ensures
        newest(rows, n, cwd) matches Ok(Some(id)) ==> exists|k: int|
            0 <= k < n && (#[trigger] rows[k]).key == id && rows[k].record.cwd == cwd,
    decreases n,
{
    if n > 0 {
        lemma_newest_is_remaining(rows, n - 1, cwd);
        if let Ok(Some(id)) = newest(rows, n, cwd) {
            if !(is_sound(rows[n - 1].record, rows[n - 1].key) && rows[n - 1].record.cwd == cwd) {
                let k = choose|k: int|
                    0 <= k < n - 1 && (#[trigger] rows[k]).key == id && rows[k].record.cwd == cwd;
                assert(rows[k].key == id);
            } else {
                assert(rows[n - 1].key == id);
            }
        }
    }
}

proof fn lemma_one_latest(latest: Seq<Latest>, cwd: Seq<char>, id: u64)
    requires
        one_latest(latest),
    ensures
        one_latest(with_latest(latest, cwd, id)),
{
    lemma_latest_at(latest, 0, cwd);
    let at = match latest_at(latest, 0, cwd) {
        Some(i) => i,
        None => latest.len() as int,
    };
    let next = with_latest(latest, cwd, id);
    assert forall|a: int, b: int| 0 <= a < b < next.len() implies (#[trigger] next[a]).cwd != (
    #[trigger] next[b]).cwd by {
        if a != at && b != at {
            assert(next[a] == latest[a] && next[b] == latest[b]);
        } else if a == at {
            assert(next[b] == latest[b]);
            assert(latest[at].cwd == cwd);
        } else {
            assert(next[a] == latest[a]);
        }
    }
}

proof fn lemma_repointed(latest: Seq<Latest>, rows: Seq<Slot>, id: u64, cwd: Seq<char>)
    requires
        one_latest(latest),
    ensures
        one_latest(repointed(latest, rows, id, cwd)),
{
    if current(latest, cwd) == Some(id) {
        match newest(rows, rows.len() as int, cwd) {
            Ok(Some(other)) => {
                lemma_one_latest(latest, cwd, other);
            },
            _ => {
                lemma_latest_at(latest, 0, cwd);
                let i = latest_at(latest, 0, cwd)->0;
                let left = latest.remove(i);
                assert forall|a: int, b: int| 0 <= a < b < left.len() implies (
                #[trigger] left[a]).cwd != (#[trigger] left[b]).cwd by {
                    assert(left[a] == latest[if a < i { a } else { a + 1 }]);
                    assert(left[b] == latest[if b < i { b } else { b + 1 }]);
                }
            },
        }
    }
}

/// Making a session keeps the catalog in order.
pub proof fn creating_keeps_the_order(c: Catalog, cwd: Seq<char>, now: u64)
    requires
        c.wf(),
        next_number(c) < u64::MAX,
    ensures
        created(c, cwd, now).wf(),
{
    numbers_are_never_reused(c, cwd, now);
    lemma_one_latest(c.latest, cwd, next_number(c));
}

/// Opening a session keeps the catalog in order.
pub proof fn opening_keeps_the_order(
    c: Catalog,
    id: u64,
    cwd: Seq<char>,
    now: u64,
    make_latest: bool,
)
    requires
        c.wf(),
        load_fault(c, id, cwd) is None,
    ensures
        touched(c, id, cwd, now, make_latest).wf(),
{
    lemma_row_at(c.rows, 0, id);
    lemma_one_latest(c.latest, cwd, id);
    let after = touched(c, id, cwd, now, make_latest);
    assert forall|i: int, j: int| 0 <= i < j < after.rows.len() implies (
    #[trigger] after.rows[i]).key < (#[trigger] after.rows[j]).key by {
        assert(after.rows[i].key == c.rows[i].key && after.rows[j].key == c.rows[j].key);
    }
    assert forall|i: int| 0 <= i < after.rows.len() implies (#[trigger] after.rows[i]).key
        < next_number(after) by {
        assert(after.rows[i].key == c.rows[i].key);
    }
}

/// Keeping a session's preview keeps the catalog in order.
pub proof fn previews_keep_the_order(c: Catalog, id: u64, preview: Seq<char>)
    requires
        c.wf(),
        row_at(c.rows, 0, id) is Some,
    ensures
        previewed(c, id, preview).wf(),
{
    lemma_row_at(c.rows, 0, id);
    let after = previewed(c, id, preview);
    assert forall|i: int, j: int| 0 <= i < j < after.rows.len() implies (
    #[trigger] after.rows[i]).key < (#[trigger] after.rows[j]).key by {
        assert(after.rows[i].key == c.rows[i].key && after.rows[j].key == c.rows[j].key);
    }
    assert forall|i: int| 0 <= i < after.rows.len() implies (#[trigger] after.rows[i]).key
        < next_number(after) by {
        assert(after.rows[i].key == c.rows[i].key);
    }
}

/// A session that has been dropped is gone, the other sessions stay, and its
/// directory does not resume it.
pub proof fn dropped_sessions_are_gone(c: Catalog, id: u64, cwd: Seq<char>)
    requires
        c.wf(),
        drop_fault(c, id, cwd) is None,
    ensures
        ({
            let after = dropped(c, id, cwd);
            &&& row_at(after.rows, 0, id) is None
            &&& current(after.latest, cwd) != Some(id)
            &&& forall|k: int|
                0 <= k < c.rows.len() && (#[trigger] c.rows[k]).key != id ==> after.rows.contains(
                    c.rows[k],
                )
            &&& after.wf()
        }),
{
    lemma_row_at(c.rows, 0, id);
    let at = row_at(c.rows, 0, id)->0;
    let rows = c.rows.remove(at);
    let after = dropped(c, id, cwd);
    lemma_repointed(c.latest, rows, id, cwd);
    assert forall|k: int| 0 <= k < rows.len() implies (#[trigger] rows[k]).key != id by {
        if k < at {
            assert(rows[k] == c.rows[k]);
        } else {
            assert(rows[k] == c.rows[k + 1]);
        }
    }
    lemma_row_absent(rows, 0, id);
    assert forall|k: int|
        0 <= k < c.rows.len() && (#[trigger] c.rows[k]).key != id implies after.rows.contains(
        c.rows[k],
    ) by {
        if k < at {
            assert(rows[k] == c.rows[k]);
        } else {
            assert(rows[k - 1] == c.rows[k]);
        }
    }
    lemma_latest_at(c.latest, 0, cwd);
    if current(c.latest, cwd) == Some(id) {
        match newest(rows, rows.len() as int, cwd) {
            Ok(Some(other)) => {
                lemma_newest_is_remaining(rows, rows.len() as int, cwd);
                latest_is_per_directory(c.latest, cwd, other, cwd);
            },
            _ => {
                let i = latest_at(c.latest, 0, cwd)->0;
                let left = c.latest.remove(i);
                assert forall|k: int| 0 <= k < left.len() implies (#[trigger] left[k]).cwd
                    != cwd by {
                    if k < i {
                        assert(left[k] == c.latest[k]);
                    } else {
                        assert(left[k] == c.latest[k + 1]);
                    }
                }
                lemma_latest_none(left, 0, cwd);
            },
        }
    }
    assert(well_numbered(after)) by {
        assert forall|i: int, j: int| 0 <= i < j < rows.len() implies (#[trigger] rows[i]).key < (
        #[trigger] rows[j]).key by {
            let a = if i < at {
                i
            } else {
                i + 1
            };
            let b = if j < at {
                j
            } else {
                j + 1
            };
            assert(rows[i] == c.rows[a]);
            assert(rows[j] == c.rows[b]);
        }
        assert forall|i: int| 0 <= i < rows.len() implies (#[trigger] rows[i]).key < next_number(
            after,
        ) by {
            let a = if i < at {
                i
            } else {
                i + 1
            };
            assert(rows[i] == c.rows[a]);
        }
    }
}

/// Dropping a session that its directory would not resume leaves what every
/// directory resumes; dropping one that it would leaves that of the others.
pub proof fn dropping_keeps_other_choices(c: Catalog, id: u64, cwd: Seq<char>, other: Seq<char>)
    requires
        other != cwd || current(c.latest, cwd) != Some(id),
    ensures
        current(dropped(c, id, cwd).latest, other) == current(c.latest, other),
{
    let rows = c.rows.remove(row_at(c.rows, 0, id)->0);
    if current(c.latest, cwd) == Some(id) {
        match newest(rows, rows.len() as int, cwd) {
            Ok(Some(next)) => {
                latest_is_per_directory(c.latest, cwd, next, other);
            },
            _ => {
                lemma_latest_at(c.latest, 0, cwd);
                lemma_latest_at(c.latest, 0, other);
                let at = latest_at(c.latest, 0, cwd)->0;
                let left = c.latest.remove(at);
                match latest_at(c.latest, 0, other) {
                    Some(k) => {
                        let moved = if k < at {
                            k
                        } else {
                            k - 1
                        };
                        assert(left[moved] == c.latest[k]);
                        assert forall|j: int| 0 <= j < moved implies (#[trigger] left[j]).cwd
                            != other by {
                            if j < at {
                                assert(left[j] == c.latest[j]);
                            } else {
                                assert(left[j] == c.latest[j + 1]);
                            }
                        }
                        lemma_latest_found(left, 0, moved, other);
                    },
                    None => {
                        assert forall|j: int| 0 <= j < left.len() implies (#[trigger] left[j]).cwd
                            != other by {
                            if j < at {
                                assert(left[j] == c.latest[j]);
                            } else {
                                assert(left[j] == c.latest[j + 1]);
                            }
                        }
                        lemma_latest_none(left, 0, other);
                    },
                }
            },
        }
    }
}

proof fn lemma_listing_bound(rows: Seq<Slot>, n: int, cwd: Seq<char>, k: int)
    requires
        0 <= n <= rows.len(),
        0 <= k < listing(rows, n, cwd).len(),
    ensures
        exists|j: int|
            0 <= j < n && (#[trigger] rows[j]).key == listing(rows, n, cwd)[k].id
                && rows[j].record.cwd == cwd,
    decreases n,
{
    if n > 0 {
        if rows[n - 1].record.cwd == cwd {
            if k == 0 {
                assert(rows[n - 1].key == listing(rows, n, cwd)[0].id);
            } else {
                lemma_listing_bound(rows, n - 1, cwd, k - 1);
            }
        } else {
            lemma_listing_bound(rows, n - 1, cwd, k);
        }
    }
}

/// The sessions of a directory are listed newest first.
pub proof fn listings_are_newest_first(c: Catalog, n: int, cwd: Seq<char>, k: int, l: int)
    requires
        well_numbered(c),
        0 <= n <= c.rows.len(),
        0 <= k < l < listing(c.rows, n, cwd).len(),
    ensures
        listing(c.rows, n, cwd)[k].id > listing(c.rows, n, cwd)[l].id,
    decreases n,
{
    if n > 0 {
        if c.rows[n - 1].record.cwd == cwd {
            if k == 0 {
                lemma_listing_bound(c.rows, n - 1, cwd, l - 1);
            } else {
                listings_are_newest_first(c, n - 1, cwd, k - 1, l - 1);
            }
        } else {
            listings_are_newest_first(c, n - 1, cwd, k, l);
        }
    }
}

/// A listing without the session `id`.
pub open spec fn without(list: Seq<Listed>, id: u64) -> Seq<Listed>
    decreases list.len(),
{
    if list.len() == 0 {
        list
    } else if list[0].id == id {
        without(list.skip(1), id)
    } else {
        seq![list[0]] + without(list.skip(1), id)
    }
}

proof fn lemma_without_absent(list: Seq<Listed>, id: u64)
    requires
        forall|k: int| 0 <= k < list.len() ==> (#[trigger] list[k]).id != id,
    ensures
        without(list, id) == list,
    decreases list.len(),
{
    if list.len() > 0 {
        assert forall|k: int| 0 <= k < list.skip(1).len() implies (#[trigger] list.skip(1)[k]).id
            != id by {
            assert(list.skip(1)[k] == list[k + 1]);
        }
        lemma_without_absent(list.skip(1), id);
        assert(seq![list[0]] + list.skip(1) =~= list);
    }
}

proof fn lemma_listing_before(rows: Seq<Slot>, at: int, n: int, cwd: Seq<char>)
    requires
        0 <= n <= at < rows.len(),
    ensures
        listing(rows.remove(at), n, cwd) == listing(rows, n, cwd),
    decreases n,
{
    if n > 0 {
        lemma_listing_before(rows, at, n - 1, cwd);
        assert(rows.remove(at)[n - 1] == rows[n - 1]);
    }
}

proof fn lemma_listing_without(c: Catalog, at: int, n: int, cwd: Seq<char>)
    requires
        well_numbered(c),
        0 <= at < n <= c.rows.len(),
    ensures
        listing(c.rows.remove(at), n - 1, cwd) == without(listing(c.rows, n, cwd), c.rows[at].key),
    decreases n,
{
    let id = c.rows[at].key;
    let left = c.rows.remove(at);
    let rest = listing(c.rows, n - 1, cwd);
    let row = c.rows[n - 1];
    if row.record.cwd == cwd {
        assert(listing(c.rows, n, cwd).skip(1) =~= rest);
    }
    if n == at + 1 {
        lemma_listing_before(c.rows, at, at, cwd);
        assert forall|k: int| 0 <= k < rest.len() implies (#[trigger] rest[k]).id != id by {
            lemma_listing_bound(c.rows, at, cwd, k);
        }
        lemma_without_absent(rest, id);
    } else {
        lemma_listing_without(c, at, n - 1, cwd);
        assert(left[n - 2] == row);
        assert(row.key != id);
    }
}

pub proof fn lemma_newest_is_listed_first(rows: Seq<Slot>, n: int, cwd: Seq<char>)
    requires
        0 <= n <= rows.len(),
    ensures
        newest(rows, n, cwd) matches Ok(found) ==> found == (if listing(rows, n, cwd).len() == 0 {
            None::<u64>
        } else {
            Some(listing(rows, n, cwd)[0].id)
        }),
    decreases n,
{
    if n > 0 {
        lemma_newest_is_listed_first(rows, n - 1, cwd);
    }
}

/// After a session has been dropped, a directory lists the sessions it did,
/// without that one.
pub proof fn dropped_sessions_are_not_listed(c: Catalog, id: u64, cwd: Seq<char>, other: Seq<char>)
    requires
        well_numbered(c),
        drop_fault(c, id, cwd) is None,
    ensures
        ({
            let after = dropped(c, id, cwd).rows;
            listing(after, after.len() as int, other) == without(
                listing(c.rows, c.rows.len() as int, other),
                id,
            )
        }),
{
    lemma_row_at(c.rows, 0, id);
    lemma_listing_without(c, row_at(c.rows, 0, id)->0, c.rows.len() as int, other);
}

/// When the session that a directory would resume is dropped, the directory
/// resumes the newest of those it still lists, or none.
pub proof fn dropping_falls_back_to_the_newest(c: Catalog, id: u64, cwd: Seq<char>)
    requires
        c.wf(),
        drop_fault(c, id, cwd) is None,
        current(c.latest, cwd) == Some(id),
    ensures
        ({
            let after = dropped(c, id, cwd);
            let left = listing(after.rows, after.rows.len() as int, cwd);
            current(after.latest, cwd) == (if left.len() == 0 {
                None::<u64>
            } else {
                Some(left[0].id)
            })
        }),
{
    let rows = dropped(c, id, cwd).rows;
    lemma_newest_is_listed_first(rows, rows.len() as int, cwd);
    lemma_latest_at(c.latest, 0, cwd);
    match newest(rows, rows.len() as int, cwd) {
        Ok(Some(next)) => {
            latest_is_per_directory(c.latest, cwd, next, cwd);
        },
        _ => {
            let i = latest_at(c.latest, 0, cwd)->0;
            let left = c.latest.remove(i);
            assert forall|k: int| 0 <= k < left.len() implies (#[trigger] left[k]).cwd != cwd by {
                if k < i {
                    assert(left[k] == c.latest[k]);
                } else {
                    assert(left[k] == c.latest[k + 1]);
                }
            }
            lemma_latest_none(left, 0, cwd);
        },
    }
}

/// Deleting a session removes exactly that one. A session without a record, of
/// another directory, or that is open anywhere is refused, each with its own
/// error; otherwise every directory lists what it did without the session, and
/// its own directory resumes what it did or, when that was the session, the
/// newest of those it still lists.
pub proof fn deleting_removes_exactly_one_session(
    c: Catalog,
    id: u64,
    cwd: Seq<char>,
    lease: Result<(), SessionError>,
    other: Seq<char>,
)
    requires
        c.wf(),
    ensures
        row_at(c.rows, 0, id) is None ==> delete_fault(c, id, cwd, lease) == Some(
            SessionError::MissingRecord { id },
        ),
        (row_at(c.rows, 0, id) matches Some(i) && is_sound(c.rows[i].record, id)
            && c.rows[i].record.cwd != cwd) ==> delete_fault(c, id, cwd, lease) == Some(
            SessionError::WrongWorkingDirectory { id },
        ),
        load_fault(c, id, cwd) is None && lease is Err ==> delete_fault(c, id, cwd, lease) == Some(
            lease->Err_0,
        ),
        delete_fault(c, id, cwd, lease) is None ==> ({
            let after = dropped(c, id, cwd);
            let left = listing(after.rows, after.rows.len() as int, cwd);
            &&& after.wf()
            &&& row_at(after.rows, 0, id) is None
            &&& listing(after.rows, after.rows.len() as int, other) == without(
                listing(c.rows, c.rows.len() as int, other),
                id,
            )
            &&& other != cwd ==> current(after.latest, other) == current(c.latest, other)
            &&& current(c.latest, cwd) != Some(id) ==> current(after.latest, cwd) == current(
                c.latest,
                cwd,
            )
            &&& current(c.latest, cwd) == Some(id) ==> current(after.latest, cwd) == (
            if left.len() == 0 {
                None::<u64>
            } else {
                Some(left[0].id)
            })
        }),
{
    if delete_fault(c, id, cwd, lease) is None {
        dropped_sessions_are_gone(c, id, cwd);
        dropped_sessions_are_not_listed(c, id, cwd, other);
        if other != cwd {
            dropping_keeps_other_choices(c, id, cwd, other);
        }
        if current(c.latest, cwd) == Some(id) {
            dropping_falls_back_to_the_newest(c, id, cwd);
        } else {
            dropping_keeps_other_choices(c, id, cwd, cwd);
        }
    }
}

} // verus!
