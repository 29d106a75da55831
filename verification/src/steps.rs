//! The decisions of the main loop: what each event does to the interface and
//! what the host has to do next.

use crate::app;
use crate::app::{App, SessionChoice};
use crate::desk;
use crate::desk::{Desk, SessionItem};
use crate::events::{fold_address, AgentSystemEvent, KeyEvent, MouseEvent};
use crate::events;
use crate::history;
use crate::history::{copy_opt, Command, CommandResult, Request, RuntimePreferences};
use crate::text;
use vstd::prelude::*;
use vstd::string::*;

verus! {

/// Shortest time between frames, in milliseconds.
pub const FRAME_INTERVAL: u64 = 16;

/// Events applied between two frames at most.
pub const MAX_EVENTS_PER_FRAME: usize = 1024;

/// Something the main loop reacts to.
#[derive(Debug)]
pub enum Tick {
    Key(KeyEvent),
    Mouse(MouseEvent),
    Paste(String),
    /// Any other event of the terminal.
    Terminal,
    Agent(AgentSystemEvent),
    Command(CommandResult),
    /// The interruption window elapsed.
    Deadline,
    /// A toast's time elapsed.
    Toast,
    /// A frame is due.
    Frame,
    Idle,
}

/// The journals to fold before an event is applied.
#[derive(Debug, PartialEq, Eq)]
pub enum Folds {
    Nothing,
    One(String),
    /// Every journal that is being followed.
    All,
}

/// The value of [`Folds`].
pub enum Journals {
    Nothing,
    One(Seq<char>),
    All,
}

impl View for Folds {
    type V = Journals;

    open spec fn view(&self) -> Journals {
        match self {
            Folds::Nothing => Journals::Nothing,
            Folds::One(address) => Journals::One(address@),
            Folds::All => Journals::All,
        }
    }
}

/// The journals to fold before an event: that of the agent it is about, the
/// root's for a message receipt, all of them for an interruption.
pub open spec fn journals(tick: Tick) -> Journals {
    match tick {
        Tick::Agent(event) => match events::folds(event) {
            Some(address) => Journals::One(address),
            None => Journals::Nothing,
        },
        Tick::Command(CommandResult::Message(Ok(_))) => Journals::One(desk::root()),
        Tick::Command(CommandResult::Interrupt(_)) => Journals::All,
        _ => Journals::Nothing,
    }
}

/// The journals to fold before an event is applied.
pub fn folds_before(tick: &Tick) -> (r: Folds)
    ensures
        r@ == journals(*tick),
{
    match tick {
        Tick::Agent(event) => match fold_address(event) {
            Some(address) => Folds::One(address),
            None => Folds::Nothing,
        },
        Tick::Command(CommandResult::Message(Ok(_))) => Folds::One("/root".to_owned()),
        Tick::Command(CommandResult::Interrupt(_)) => Folds::All,
        _ => Folds::Nothing,
    }
}

/// What the host has to do after an event.
#[derive(Debug)]
pub enum Action {
    Nothing,
    /// Puts a text on the clipboard.
    Copy(String),
    /// Opens a fresh session with these preferences.
    NewSession(RuntimePreferences),
    LoadSession(u64),
    RefreshSessions,
    DeleteSession(u64),
    /// Opens a fresh session with these preferences and drops the open one.
    ReplaceSession { delete: u64, preferences: RuntimePreferences },
    /// Any other command.
    Execute(Command),
}

/// The value of an [`Action`].
pub enum Deed {
    Nothing,
    Copy(Seq<char>),
    NewSession(Seq<char>, Seq<char>),
    LoadSession(u64),
    RefreshSessions,
    DeleteSession(u64),
    ReplaceSession(u64, Seq<char>, Seq<char>),
    Execute(Request),
}

impl View for Action {
    type V = Deed;

    open spec fn view(&self) -> Deed {
        match self {
            Action::Nothing => Deed::Nothing,
            Action::Copy(s) => Deed::Copy(s@),
            Action::NewSession(p) => Deed::NewSession(p.model_id@, p.effort@),
            Action::LoadSession(id) => Deed::LoadSession(*id),
            Action::RefreshSessions => Deed::RefreshSessions,
            Action::DeleteSession(id) => Deed::DeleteSession(*id),
            Action::ReplaceSession { delete, preferences } => Deed::ReplaceSession(
                *delete,
                preferences.model_id@,
                preferences.effort@,
            ),
            Action::Execute(command) => Deed::Execute(command@),
        }
    }
}

/// The id of the selected model.
pub open spec fn model_id(d: Desk) -> Seq<char> {
    d.models[d.selected_model].registry_id@
}

/// The effort of the selected model.
pub open spec fn model_effort(d: Desk) -> Seq<char> {
    d.models[d.selected_model].efforts@[d.efforts[d.selected_model] as int]@
}

/// What a command of the interface asks of the host. Fresh sessions keep the
/// preferences.
pub open spec fn deed(d: Desk, request: Option<Request>) -> Deed {
    match request {
        None => Deed::Nothing,
        Some(Request::New) => Deed::NewSession(model_id(d), model_effort(d)),
        Some(Request::LoadSession(id)) => Deed::LoadSession(id),
        Some(Request::RefreshSessions) => Deed::RefreshSessions,
        Some(Request::DeleteSession(id)) => Deed::DeleteSession(id),
        Some(Request::ReplaceSession(id)) => Deed::ReplaceSession(
            id,
            model_id(d),
            model_effort(d),
        ),
        Some(other) => Deed::Execute(other),
    }
}

/// The state after an event. `consumed` tells whether a message just sent is
/// already part of the context.
pub open spec fn ticked(d: Desk, tick: Tick, now: u64, consumed: bool) -> Desk {
    match tick {
        Tick::Key(key) => d.key(key, now).0,
        Tick::Mouse(mouse) => d.mouse(mouse).0,
        Tick::Paste(s) => d.paste(s@),
        Tick::Terminal => d,
        Tick::Agent(event) => d.agent_event(event),
        Tick::Command(CommandResult::Message(Ok(sent))) => d.receipt(
            sent.message_id@,
            sent.text@,
            consumed,
        ),
        Tick::Command(CommandResult::Message(Err(e))) => d.rejected(e@),
        Tick::Command(CommandResult::Interrupt(result)) => d.interrupt_result(result),
        Tick::Command(other) => d.command_result(other),
        Tick::Deadline => if d.deadline is Some && now >= d.deadline->0 {
            Desk { deadline: None, ..d }
        } else {
            d
        },
        Tick::Toast => Desk { toast: None, ..d },
        Tick::Frame => d,
        Tick::Idle => d,
    }
}

/// What the host has to do after an event.
pub open spec fn asked(d: Desk, tick: Tick, now: u64) -> Deed {
    match tick {
        Tick::Key(key) => deed(d.key(key, now).0, d.key(key, now).1),
        Tick::Mouse(mouse) => match d.mouse(mouse).1 {
            Some(s) => Deed::Copy(s),
            None => Deed::Nothing,
        },
        _ => Deed::Nothing,
    }
}

/// Whether an event calls for a new frame.
pub open spec fn repaints(d: Desk, tick: Tick, now: u64) -> bool {
    match tick {
        Tick::Agent(event) => d.event_shows(event),
        Tick::Deadline => d.deadline is Some && now >= d.deadline->0,
        Tick::Frame => d.drawer_animates(),
        Tick::Idle => false,
        _ => true,
    }
}

/// Whether a command's result fits the interface it comes back to.
pub open spec fn fits(d: Desk, tick: Tick) -> bool {
    match tick {
        Tick::Command(CommandResult::Message(_)) => true,
        Tick::Command(CommandResult::Interrupt(_)) => true,
        Tick::Command(result) => d.answers(result),
        _ => true,
    }
}

impl App {
    fn route(&self, command: Option<Command>) -> (r: Action)
        requires
            self.wf(),
        ensures
            r@ == deed(self@, history::request(command)),
    {
        match command {
            None => Action::Nothing,
            Some(Command::New) => Action::NewSession(self.runtime_preferences()),
            Some(Command::LoadSession(id)) => Action::LoadSession(id),
            Some(Command::RefreshSessions) => Action::RefreshSessions,
            Some(Command::DeleteSession(id)) => Action::DeleteSession(id),
            Some(Command::ReplaceSession { delete }) => Action::ReplaceSession {
                delete,
                preferences: self.runtime_preferences(),
            },
            Some(other) => Action::Execute(other),
        }
    }

    /// Applies one event. Returns what the host has to do and whether a new
    /// frame is called for. The journals that [`folds_before`] names must
    /// have been folded.
    pub fn on_tick(&mut self, tick: Tick, now: u64, consumed: bool) -> (r: (Action, bool))
        requires
            old(self).wf(),
            fits(old(self)@, tick),
        ensures
            final(self)@ == ticked(old(self)@, tick, now, consumed),
            r.0@ == asked(old(self)@, tick, now),
            r.1 == repaints(old(self)@, tick, now),
            final(self).wf(),
    {
        match tick {
            Tick::Key(key) => {
                let command = self.handle_key(key, now);
                (self.route(command), true)
            },
            Tick::Mouse(mouse) => match self.handle_mouse(mouse) {
                Some(selected) => (Action::Copy(selected), true),
                None => (Action::Nothing, true),
            },
            Tick::Paste(s) => {
                self.handle_paste(s.as_str());
                (Action::Nothing, true)
            },
            Tick::Terminal => (Action::Nothing, true),
            Tick::Agent(event) => {
                let shows = self.apply_agent_event(event);
                (Action::Nothing, shows)
            },
            Tick::Command(result) => {
                match result {
                    CommandResult::Message(Ok(sent)) => {
                        self.apply_message_receipt(sent, consumed);
                    },
                    CommandResult::Message(Err(error)) => {
                        self.apply_message_error(error.as_str());
                    },
                    CommandResult::Interrupt(stopped) => {
                        self.apply_interrupt_result(&stopped);
                    },
                    other => {
                        self.apply_command_result(other);
                    },
                }
                (Action::Nothing, true)
            },
            Tick::Deadline => {
                let expired = self.expire_interruption(now);
                (Action::Nothing, expired)
            },
            Tick::Toast => {
                self.toast = None;
                (Action::Nothing, true)
            },
            Tick::Frame => {
                let animates = self.agents_drawer_animates();
                (Action::Nothing, animates)
            },
            Tick::Idle => (Action::Nothing, false),
        }
    }

    /// Whether the main loop has to wake for a frame.
    pub fn wants_frame(&self, redraw: bool) -> (r: bool)
        requires
            self.wf(),
        ensures
            r == (redraw || self@.drawer_animates()),
    {
        redraw || self.agents_drawer_animates()
    }
}

/// Bytes a journal must be able to give back before it is compacted.
pub const COMPACTION_MIN_RECLAIMABLE_BYTES: u64 = 67_108_864;

/// Whether `reclaimable` bytes are a meaningful amount, and a quarter of a
/// file of `size` bytes.
pub open spec fn is_worth(reclaimable: u64, size: u64) -> bool {
    reclaimable >= COMPACTION_MIN_RECLAIMABLE_BYTES && reclaimable * 4 >= size
}

/// Whether compacting a journal is worth its time: it gives back a meaningful
/// amount, and a quarter of the file.
pub fn worth_compacting(reclaimable_bytes: u64, file_bytes: u64) -> (r: bool)
    ensures
        r == is_worth(reclaimable_bytes, file_bytes),
{
    if reclaimable_bytes < COMPACTION_MIN_RECLAIMABLE_BYTES {
        return false;
    }
    match reclaimable_bytes.checked_mul(4) {
        Some(n) => n >= file_bytes,
        None => true,
    }
}

/// A session in the catalog, with the preview kept there.
#[derive(Debug)]
pub struct Listing {
    pub id: u64,
    pub preview: Option<String>,
}

/// A session for the palette. `scan` tells that its journal has to be read
/// for a preview.
#[derive(Debug)]
pub struct PlannedChoice {
    pub choice: SessionChoice,
    pub scan: bool,
}

/// The value of a [`PlannedChoice`].
pub struct Planned {
    pub item: SessionItem,
    pub scan: bool,
}

impl View for PlannedChoice {
    type V = Planned;

    open spec fn view(&self) -> Planned {
        Planned { item: self.choice@, scan: self.scan }
    }
}

/// Whether a preview is the note that there is none.
pub open spec fn is_unavailable(preview: Option<Seq<char>>) -> bool {
    preview matches Some(p) && text::starts_with(p, "Preview unavailable:"@)
}

/// The last of the first `n` cached sessions with this id.
pub open spec fn cached_at(cached: Seq<SessionItem>, n: int, id: u64) -> Option<int>
    decreases n,
{
    if n <= 0 {
        None
    } else if cached[n - 1].id == id {
        Some(n - 1)
    } else {
        cached_at(cached, n - 1, id)
    }
}

/// Whether a listing neither is fresh nor brings its preview, so that the
/// cache is asked.
pub open spec fn asks_cache(listing: Listing, fresh: Option<u64>) -> bool {
    fresh != Some(listing.id) && listing.preview is None
}

/// Whether an earlier listing has taken the cached session with this id.
pub open spec fn cache_taken(listings: Seq<Listing>, i: int, fresh: Option<u64>, id: u64) -> bool {
    exists|j: int|
        0 <= j < i && (#[trigger] listings[j]).id == id && asks_cache(listings[j], fresh)
}

/// How listing `i` is shown: a fresh session without preview, one with the
/// preview of the catalog or of the cache, or one whose journal has to be
/// read.
pub open spec fn plan_of(
    listings: Seq<Listing>,
    i: int,
    cached: Seq<SessionItem>,
    fresh: Option<u64>,
) -> Planned {
    let listing = listings[i];
    let bare = SessionItem { id: listing.id, preview: None };
    if fresh == Some(listing.id) {
        Planned { item: bare, scan: false }
    } else if listing.preview is Some {
        Planned {
            item: SessionItem { id: listing.id, preview: text::opt_text(listing.preview) },
            scan: false,
        }
    } else {
        match cached_at(cached, cached.len() as int, listing.id) {
            Some(k) => if !cache_taken(listings, i, fresh, listing.id) && !is_unavailable(
                cached[k].preview,
            ) {
                Planned { item: cached[k], scan: false }
            } else {
                Planned { item: bare, scan: true }
            },
            None => Planned { item: bare, scan: true },
        }
    }
}

fn find_cached(cached: &Vec<SessionChoice>, id: u64) -> (r: Option<usize>)
    ensures
        (match r {
            Some(i) => Some(i as int),
            None => None,
        }) == cached_at(app::sessions_of(cached@), cached@.len() as int, id),
        r matches Some(i) ==> i < cached@.len(),
{
    let ghost all = app::sessions_of(cached@);
    let mut n: usize = cached.len();
    proof {
        assert(all.len() == cached@.len());
    }
    while n > 0
        invariant
            n <= cached@.len(),
            all == app::sessions_of(cached@),
            all.len() == cached@.len(),
            cached_at(all, cached@.len() as int, id) == cached_at(all, n as int, id),
        decreases n,
    {
        proof {
            assert(all[n - 1] == cached@[n - 1]@);
        }
        if cached[n - 1].id == id {
            return Some(n - 1);
        }
        n -= 1;
    }
    None
}

fn taken_before(listings: &Vec<Listing>, i: usize, fresh: Option<u64>, id: u64) -> (r: bool)
    requires
        i <= listings@.len(),
    ensures
        r == cache_taken(listings@, i as int, fresh, id),
{
    let mut j: usize = 0;
    while j < i
        invariant
            j <= i <= listings@.len(),
            forall|k: int|
                0 <= k < j ==> !((#[trigger] listings@[k]).id == id && asks_cache(
                    listings@[k],
                    fresh,
                )),
        decreases i - j,
    {
        let is_fresh = match fresh {
            Some(f) => f == listings[j].id,
            None => false,
        };
        if listings[j].id == id && !is_fresh && listings[j].preview.is_none() {
            return true;
        }
        j += 1;
    }
    false
}

fn plan_choice(
    listings: &Vec<Listing>,
    i: usize,
    cached: &Vec<SessionChoice>,
    fresh: Option<u64>,
) -> (r: PlannedChoice)
    requires
        i < listings@.len(),
    ensures
        r@ == plan_of(listings@, i as int, app::sessions_of(cached@), fresh),
{
    let id: u64 = listings[i].id;
    let is_fresh = match fresh {
        Some(f) => f == id,
        None => false,
    };
    if is_fresh {
        return PlannedChoice { choice: SessionChoice { id, preview: None }, scan: false };
    }
    if listings[i].preview.is_some() {
        return PlannedChoice {
            choice: SessionChoice { id, preview: copy_opt(&listings[i].preview) },
            scan: false,
        };
    }
    if let Some(k) = find_cached(cached, id) {
        proof {
            assert(app::sessions_of(cached@)[k as int] == cached@[k as int]@);
        }
        let unavailable = match &cached[k].preview {
            Some(p) => text::has_prefix(p.as_str(), "Preview unavailable:"),
            None => false,
        };
        if !taken_before(listings, i, fresh, id) && !unavailable {
            return PlannedChoice {
                choice: SessionChoice {
                    id: cached[k].id,
                    preview: copy_opt(&cached[k].preview),
                },
                scan: false,
            };
        }
    }
    PlannedChoice { choice: SessionChoice { id, preview: None }, scan: true }
}

/// Plans the session palette: which sessions are known well enough to be
/// shown, and which journals have to be read first.
pub fn reconcile_session_choices(
    listings: &Vec<Listing>,
    cached: &Vec<SessionChoice>,
    fresh_session: Option<u64>,
) -> (r: Vec<PlannedChoice>)
    ensures
        r@.len() == listings@.len(),
        forall|i: int|
            0 <= i < r@.len() ==> (#[trigger] r@[i])@ == plan_of(
                listings@,
                i,
                app::sessions_of(cached@),
                fresh_session,
            ),
{
    let mut r: Vec<PlannedChoice> = Vec::new();
    let mut i: usize = 0;
    while i < listings.len()
        invariant
            i <= listings@.len(),
            r@.len() == i,
            forall|k: int|
                0 <= k < i ==> (#[trigger] r@[k])@ == plan_of(
                    listings@,
                    k,
                    app::sessions_of(cached@),
                    fresh_session,
                ),
        decreases listings@.len() - i,
    {
        r.push(plan_choice(listings, i, cached, fresh_session));
        i += 1;
    }
    r
}

/// The preview of a session whose journal was read, and whether the catalog
/// is to keep it: only a message that was found.
pub fn scanned_preview(scan: Result<Option<String>, String>) -> (r: (Option<String>, bool))
    ensures
        text::opt_text(r.0) == (match scan {
            Ok(preview) => text::opt_text(preview),
            Err(e) => Some("Preview unavailable: "@ + e@),
        }),
        r.1 == (scan matches Ok(Some(_))),
{
    match scan {
        Ok(preview) => {
            let keep = preview.is_some();
            (preview, keep)
        },
        Err(e) => (Some(text::concat("Preview unavailable: ", e.as_str())), false),
    }
}

} // verus!
