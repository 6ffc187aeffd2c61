use crate::tile::{self, CoordinateSet, Coordinates, Tile};
use vstd::prelude::*;

verus! {

/// A tile of the rack placed at some coordinates
#[derive(Copy, Clone, Debug, PartialEq, Eq, Structural)]
pub struct TilePlacement {
    pub tile: Tile,
    pub coordinates: Coordinates,
    pub rotation: tile::Rotation,
}

/// The rotation of the tile at some coordinates
#[derive(Copy, Clone, Debug, PartialEq, Eq, Structural)]
pub struct Rotation {
    pub coordinates: Coordinates,
    pub rotation: tile::Rotation,
}

/// A request of a player
#[derive(Copy, Clone, Debug, PartialEq, Eq, Structural)]
pub enum Event {
    PlaceTile(TilePlacement),
    RotateTile(Rotation),
    RemoveTile(Coordinates),
    Undo,
    Redo,
    CantPlay,
    EndTurn,
}

/// The coordinates an event of a turn is about
pub open spec fn event_coordinates(e: Event) -> Option<Coordinates> {
    match e {
        Event::RotateTile(r) => Some(r.coordinates),
        Event::PlaceTile(tp) => Some(tp.coordinates),
        Event::RemoveTile(c) => Some(c),
        _ => None,
    }
}

/// The abstract state of an event log: past events, redoable events and
/// undoable events, oldest first
pub struct EventLogView {
    pub events: Seq<Event>,
    pub redo: Seq<Event>,
    pub undo: Seq<Event>,
}

/// Handling `event` on a log: what is handed back, and the log afterwards.
/// Changes of tiles become undoable; undoing moves the last undoable event
/// to the redoable ones and hands it back, redoing does the reverse; the end
/// of a turn drops what can be redone and files what can be undone.
pub open spec fn spec_handle(l: EventLogView, event: Event) -> (Option<Event>, EventLogView) {
    match event {
        Event::RotateTile(_) | Event::PlaceTile(_) | Event::RemoveTile(_) => (
            None,
            EventLogView { undo: l.undo.push(event), ..l },
        ),
        Event::Undo => if l.undo.len() == 0 {
            (None, l)
        } else {
            (
                Some(l.undo.last()),
                EventLogView { redo: l.redo.push(l.undo.last()), undo: l.undo.drop_last(), ..l },
            )
        },
        Event::Redo => if l.redo.len() == 0 {
            (None, l)
        } else {
            (
                Some(l.redo.last()),
                EventLogView { undo: l.undo.push(l.redo.last()), redo: l.redo.drop_last(), ..l },
            )
        },
        Event::CantPlay | Event::EndTurn => (
            None,
            EventLogView { events: l.events + l.undo, redo: Seq::empty(), undo: Seq::empty() },
        ),
    }
}

/// Event log
#[derive(Debug)]
pub struct Log {
    events: Vec<Event>,
    redo_events: Vec<Event>,
    undo_events: Vec<Event>,
}

impl View for Log {
    type V = EventLogView;

    closed spec fn view(&self) -> EventLogView {
        EventLogView { events: self.events@, redo: self.redo_events@, undo: self.undo_events@ }
    }
}

impl Log {
    pub fn new() -> (l: Self)
        ensures
            l@ == (EventLogView { events: Seq::empty(), redo: Seq::empty(), undo: Seq::empty() }),
    {
        Self { events: Vec::new(), redo_events: Vec::new(), undo_events: Vec::new() }
    }

    /// Records or replays `event`; returns the event to undo or redo
    pub fn handle_event(&mut self, event: Event) -> (r: Option<Event>)
        ensures
            (r, final(self)@) == spec_handle(old(self)@, event),
    {
        match event {
            Event::RotateTile(_) | Event::PlaceTile(_) | Event::RemoveTile(_) => {
                self.undo_events.push(event);
                None
            },
            Event::Undo => {
                let event = self.undo_events.pop();
                match event {
                    Some(event) => {
                        self.redo_events.push(event);
                        Some(event)
                    },
                    None => None,
                }
            },
            Event::Redo => {
                let event = self.redo_events.pop();
                match event {
                    Some(event) => {
                        self.undo_events.push(event);
                        Some(event)
                    },
                    None => None,
                }
            },
            Event::CantPlay | Event::EndTurn => {
                self.redo_events.clear();
                self.events.append(&mut self.undo_events);
                None
            },
        }
    }

    /// Coordinates of all cells that have been modified this turn
    pub fn current_turn_coordinates(&self) -> (s: CoordinateSet)
        ensures
            forall|c: Coordinates| #[trigger]
                s@.contains(c) <==> exists|i: int|
                    0 <= i < self@.undo.len() && event_coordinates(#[trigger] self@.undo[i]) == Some(
                        c,
                    ),
    {
        // TODO: This could be optimized to determine which coordinates still have tiles
        let mut s = CoordinateSet::new();
        let mut i: usize = 0;
        while i < self.undo_events.len()
            invariant
                i <= self.undo_events@.len(),
                forall|c: Coordinates| #[trigger]
                    s@.contains(c) <==> exists|j: int|
                        0 <= j < i && event_coordinates(#[trigger] self.undo_events@[j]) == Some(c),
            decreases self.undo_events.len() - i,
        {
            let ghost before = s@;
            match self.undo_events[i] {
                Event::RotateTile(r) => {
                    s.insert(r.coordinates);
                },
                Event::PlaceTile(tp) => {
                    s.insert(tp.coordinates);
                },
                Event::RemoveTile(c) => {
                    s.insert(c);
                },
                _ => {},
            }
            proof {
                assert forall|c: Coordinates| #[trigger]
                    s@.contains(c) <==> exists|j: int|
                        0 <= j < i + 1 && event_coordinates(#[trigger] self.undo_events@[j]) == Some(
                            c,
                        ) by {
                    if before.contains(c) {
                        let j = choose|j: int|
                            0 <= j < i && event_coordinates(#[trigger] self.undo_events@[j]) == Some(c);
                        assert(0 <= j < i + 1);
                    }
                    if event_coordinates(self.undo_events@[i as int]) == Some(c) {
                        assert(s@.contains(c));
                    }
                }
            }
            i = i + 1;
        }
        s
    }

    pub fn can_undo(&self) -> (b: bool)
        ensures
            b == (self@.undo.len() > 0),
    {
        self.undo_events.len() > 0
    }

    pub fn can_redo(&self) -> (b: bool)
        ensures
            b == (self@.redo.len() > 0),
    {
        self.redo_events.len() > 0
    }
}

/// Undoing and then redoing hands back the same event and leaves the log as
/// it was
pub proof fn lemma_handle_undo_then_redo(l: EventLogView)
    requires
        l.undo.len() > 0,
    ensures
        spec_handle(spec_handle(l, Event::Undo).1, Event::Redo).0 == spec_handle(l, Event::Undo).0,
        spec_handle(spec_handle(l, Event::Undo).1, Event::Redo).1 == l,
{
    let l1 = spec_handle(l, Event::Undo).1;
    assert(l1.undo.push(l1.redo.last()) =~= l.undo);
    assert(l1.redo.drop_last() =~= l.redo);
}

/// Ending a turn leaves nothing to undo or redo, and files the turn's
/// events after the past ones
pub proof fn lemma_handle_end_turn(l: EventLogView)
    ensures
        spec_handle(l, Event::EndTurn).1.undo.len() == 0,
        spec_handle(l, Event::EndTurn).1.redo.len() == 0,
        spec_handle(l, Event::EndTurn).1.events == l.events + l.undo,
{
}

} // verus!
