//! The course of a search as the interface sees it.
//!
//! A search runs in the background and reports what it finds as events.
//! Every search has a number. Starting a search anew gives it the next
//! number, and events that carry an older number are dropped: they come from
//! a search that was replaced. A search ends with `SearchingFinished`, after
//! an `Error` if it failed.

use grep::regex::RegexMatcher;
use vstd::prelude::*;

use crate::file_entry::FileEntry;
use crate::file_entry::Row;
use crate::ig::search_config::ConfigError;
use crate::ig::search_config::SearchConfig;

verus! {

/// What a search reports.
pub enum Event {
    /// The rows of a file with at least one match.
    NewEntry(FileEntry),
    /// The search has ended. Nothing follows.
    SearchingFinished,
    /// The search has failed. `SearchingFinished` follows.
    Error,
}

/// The kind of an [`Event`], the rows of a file as a sequence.
pub enum EventView {
    NewEntry(Seq<Row>),
    SearchingFinished,
    Error,
}

impl View for Event {
    type V = EventView;

    open spec fn view(&self) -> EventView {
        match *self {
            Event::NewEntry(entry) => EventView::NewEntry(entry@),
            Event::SearchingFinished => EventView::SearchingFinished,
            Event::Error => EventView::Error,
        }
    }
}

/// The phase of the current search.
#[derive(Debug, Clone, Copy, PartialEq, Eq, Structural)]
pub enum Phase {
    /// No search runs: none was started, or the last one has ended.
    Idle,
    /// A search runs.
    Searching,
    /// The user has left.
    Exit,
}

/// The searches of one run of the program, as far as the interface knows.
#[derive(Debug, Clone, Copy, PartialEq, Eq)]
pub struct Session {
    pub id: u64,
    pub phase: Phase,
    pub failed: bool,
}

/// The rows of an optional file.
pub open spec fn rows_of_entry(entry: Option<FileEntry>) -> Option<Seq<Row>> {
    match entry {
        Some(e) => Some(e@),
        None => None,
    }
}

impl Session {
    /// The number of the search after search `id`.
    pub open spec fn next_id(id: u64) -> u64 {
        if id == u64::MAX {
            0
        } else {
            (id + 1) as u64
        }
    }

    /// The session after a search is started: the search has the next
    /// number, runs, and has not failed. A session that was left stays left.
    pub open spec fn started(self) -> Session {
        if self.phase == Phase::Exit {
            self
        } else {
            Session { id: Session::next_id(self.id), phase: Phase::Searching, failed: false }
        }
    }

    /// Whether the session takes events of search `id`: it is the current
    /// search, and it runs.
    pub open spec fn takes(self, id: u64) -> bool {
        id == self.id && self.phase == Phase::Searching
    }

    /// The session after `event` has arrived from search `id`. An event
    /// that the session does not take changes nothing.
    pub open spec fn after(self, id: u64, event: EventView) -> Session {
        if !self.takes(id) {
            self
        } else {
            match event {
                EventView::NewEntry(_) => self,
                EventView::SearchingFinished => Session { phase: Phase::Idle, ..self },
                EventView::Error => Session { failed: true, ..self },
            }
        }
    }

    /// The rows that `event` from search `id` adds to the result list.
    pub open spec fn delivered(self, id: u64, event: EventView) -> Option<Seq<Row>> {
        match event {
            EventView::NewEntry(rows) => if self.takes(id) {
                Some(rows)
            } else {
                None
            },
            _ => None,
        }
    }

    /// A session in which no search was started.
    pub fn new() -> (session: Self)
        ensures
            session == (Session { id: 0, phase: Phase::Idle, failed: false }),
    {
        Session { id: 0, phase: Phase::Idle, failed: false }
    }

    /// Starts a search, which replaces the one before, and returns its
    /// number. Nothing starts after the user has left.
    pub fn start_search(&mut self) -> (id: u64)
        ensures
            *final(self) == old(self).started(),
            id == final(self).id,
    {
        if self.phase != Phase::Exit {
            self.id = if self.id == u64::MAX {
                0
            } else {
                self.id + 1
            };
            self.phase = Phase::Searching;
            self.failed = false;
        }
        self.id
    }

    /// Starts a search for the pattern of `config`, and returns its number
    /// and its matcher. With a pattern that cannot be searched for nothing
    /// starts, and the session stays as it is.
    pub fn start_search_for(&mut self, config: &SearchConfig) -> (started: Result<(u64, RegexMatcher), ConfigError>)
        ensures
            match started {
                Ok((id, _)) => {
                    &&& config.pattern_is_valid()
                    &&& *final(self) == old(self).started()
                    &&& id == final(self).id
                },
                Err(e) => {
                    &&& !config.pattern_is_valid()
                    &&& e == ConfigError::Pattern
                    &&& *final(self) == *old(self)
                },
            },
    {
        match config.matcher() {
            Ok(matcher) => {
                let id = self.start_search();
                Ok((id, matcher))
            },
            Err(e) => Err(e),
        }
    }

    /// Takes an event of search `id` and returns the rows to add to the
    /// result list, if it brings any.
    pub fn handle_event(&mut self, id: u64, event: Event) -> (entry: Option<FileEntry>)
        ensures
            *final(self) == old(self).after(id, event@),
            rows_of_entry(entry) == old(self).delivered(id, event@),
    {
        if id != self.id || self.phase != Phase::Searching {
            return None;
        }
        match event {
            Event::NewEntry(entry) => Some(entry),
            Event::SearchingFinished => {
                self.phase = Phase::Idle;
                None
            },
            Event::Error => {
                self.failed = true;
                None
            },
        }
    }

    /// Leaves: no search runs or starts from now on.
    pub fn exit(&mut self)
        ensures
            *final(self) == (Session { phase: Phase::Exit, ..*old(self) }),
    {
        self.phase = Phase::Exit;
    }

    /// Whether a search runs.
    pub fn is_searching(&self) -> (searching: bool)
        ensures
            searching == (self.phase == Phase::Searching),
    {
        self.phase == Phase::Searching
    }

    /// Whether the last search has ended and the user has not left.
    pub fn is_idle(&self) -> (idle: bool)
        ensures
            idle == (self.phase == Phase::Idle),
    {
        self.phase == Phase::Idle
    }

    /// Whether the user has left.
    pub fn exit_requested(&self) -> (exit: bool)
        ensures
            exit == (self.phase == Phase::Exit),
    {
        self.phase == Phase::Exit
    }
}

/// The value of an event that carries the number of its search.
pub open spec fn tagged_view(tagged: (u64, Event)) -> (u64, EventView) {
    (tagged.0, tagged.1@)
}

/// The session after the events of `batch` have arrived, one after another,
/// each from the search whose number it carries.
pub open spec fn after_batch(session: Session, batch: Seq<(u64, EventView)>) -> Session
    decreases batch.len(),
{
    if batch.len() == 0 {
        session
    } else {
        after_batch(session, batch.drop_last()).after(batch.last().0, batch.last().1)
    }
}

/// The rows of the files that the events of `batch` add to the result
/// list, in the order of their arrival.
pub open spec fn delivered_by_batch(session: Session, batch: Seq<(u64, EventView)>) -> Seq<Seq<Row>>
    decreases batch.len(),
{
    if batch.len() == 0 {
        Seq::empty()
    } else {
        let before = delivered_by_batch(session, batch.drop_last());
        match after_batch(session, batch.drop_last()).delivered(batch.last().0, batch.last().1) {
            Some(rows) => before.push(rows),
            None => before,
        }
    }
}

impl Session {
    /// Takes the events that have arrived since the last tick, and returns
    /// the files to add to the result list.
    pub fn handle_events(&mut self, batch: Vec<(u64, Event)>) -> (entries: Vec<FileEntry>)
        ensures
            *final(self) == after_batch(*old(self), batch@.map_values(|t: (u64, Event)| tagged_view(t))),
            entries@.map_values(|e: FileEntry| e@) == delivered_by_batch(
                *old(self),
                batch@.map_values(|t: (u64, Event)| tagged_view(t)),
            ),
    {
        let ghost start = *self;
        let ghost events = batch@.map_values(|t: (u64, Event)| tagged_view(t));
        let mut entries: Vec<FileEntry> = Vec::new();
        assert(events.take(0) =~= Seq::<(u64, EventView)>::empty());
        assert(entries@.map_values(|e: FileEntry| e@) =~= Seq::<Seq<Row>>::empty());
        for tagged in it: batch
            invariant
                it.seq() == batch@,
                events == batch@.map_values(|t: (u64, Event)| tagged_view(t)),
                *self == after_batch(start, events.take(it.index() as int)),
                entries@.map_values(|e: FileEntry| e@) == delivered_by_batch(start, events.take(it.index() as int)),
        {
            let ghost n = it.index() as int;
            let ghost before = entries@.map_values(|e: FileEntry| e@);
            proof {
                assert(events.take(n + 1).drop_last() =~= events.take(n));
                assert(events.take(n + 1).last() == tagged_view(tagged));
            }
            let (id, event) = tagged;
            if let Some(entry) = self.handle_event(id, event) {
                entries.push(entry);
                assert(entries@.map_values(|e: FileEntry| e@) =~= before.push(entry@));
            }
        }
        assert(events.take(batch@.len() as int) =~= events);
        entries
    }
}

/// The events with which a search ends: `Error` if it failed, and then
/// `SearchingFinished`.
pub open spec fn closing(failed: bool) -> Seq<EventView> {
    if failed {
        seq![EventView::Error, EventView::SearchingFinished]
    } else {
        seq![EventView::SearchingFinished]
    }
}

/// The events to send when a search has ended.
pub fn closing_events(failed: bool) -> (events: Vec<Event>)
    ensures
        events@.map_values(|e: Event| e@) == closing(failed),
{
    let mut events: Vec<Event> = Vec::new();
    if failed {
        events.push(Event::Error);
    }
    events.push(Event::SearchingFinished);
    assert(events@.map_values(|e: Event| e@) =~= closing(failed));
    events
}

/// The session after the events of `events` have arrived from search `id`,
/// one after another.
pub open spec fn after_all(session: Session, id: u64, events: Seq<EventView>) -> Session
    decreases events.len(),
{
    if events.len() == 0 {
        session
    } else {
        after_all(session, id, events.drop_last()).after(id, events.last())
    }
}

/// Events of another search, or events that arrive while no search runs,
/// change nothing and bring no rows.
pub proof fn lemma_stale_events_are_dropped(session: Session, id: u64, event: EventView)
    requires
        id != session.id || session.phase != Phase::Searching,
    ensures
        session.after(id, event) == session,
        session.delivered(id, event) is None,
{
}

/// The events of the search before are stale once a search is started anew.
pub proof fn lemma_restart_drops_the_search_before(session: Session, event: EventView)
    ensures
        session.started().after(session.id, event) == session.started(),
        session.started().delivered(session.id, event) is None,
{
}

/// A running search is idle after its closing events, whether it failed
/// or not, and is marked as failed exactly if it failed.
pub proof fn lemma_closing_events_end_the_search(session: Session, failed: bool)
    requires
        session.phase == Phase::Searching,
        !session.failed,
    ensures
        after_all(session, session.id, closing(failed)) == (Session { phase: Phase::Idle, failed, ..session }),
{
    reveal_with_fuel(after_all, 3);
    let events = closing(failed);
    if failed {
        assert(events.drop_last() =~= seq![EventView::Error]);
        assert(events.drop_last().drop_last() =~= Seq::<EventView>::empty());
    } else {
        assert(events.drop_last() =~= Seq::<EventView>::empty());
    }
}

} // verus!
