use crate::path::{TilePath, TilePathType};
use crate::tile::{self, Coordinates};
use vstd::prelude::*;

verus! {

/// A tile placed at some coordinates
#[derive(Copy, Clone, Debug, PartialEq, Eq, Structural)]
pub struct TilePlacementEvent {
    pub tile_path_type: TilePathType,
    pub coordinates: Coordinates,
    pub rotation: tile::Rotation,
}

/// The rotation of the tile at some coordinates
#[derive(Copy, Clone, Debug, PartialEq, Eq, Structural)]
pub struct Rotation {
    pub coordinates: Coordinates,
    pub rotation: tile::Rotation,
}

/// A change of the path a universal tile shows
#[derive(Copy, Clone, Debug, PartialEq, Eq, Structural)]
pub struct UpdateUniversalPathEvent {
    pub coordinates: Coordinates,
    pub old_tile_path: TilePath,
    pub new_tile_path: TilePath,
}

/// A change from `old` to `new`
#[derive(Copy, Clone, Debug, PartialEq, Eq, Structural)]
pub struct RevertableEvent<T: Clone> {
    pub old: T,
    pub new: T,
}

pub type RotationEvent = RevertableEvent<Rotation>;

pub type MoveTileEvent = RevertableEvent<Coordinates>;

/// Internal representation of a user event. All information necessary for
/// undoing a `Event` is self-contained.
#[derive(Copy, Clone, Debug, PartialEq, Eq, Structural)]
pub enum Event {
    PlaceTile(TilePlacementEvent),
    RotateTile(RotationEvent),
    RemoveTile(TilePlacementEvent),
    MoveTile(MoveTileEvent),
    UpdateUniversalPath(UpdateUniversalPathEvent),
    CantPlay,
    EndTurn,
}

/// The event that undoes `e`; none for the end of a turn
pub open spec fn spec_revert(e: Event) -> Option<Event> {
    match e {
        Event::PlaceTile(tp) => Some(Event::RemoveTile(tp)),
        Event::RotateTile(r) => Some(Event::RotateTile(RevertableEvent { old: r.new, new: r.old })),
        Event::RemoveTile(tp) => Some(Event::PlaceTile(tp)),
        Event::MoveTile(m) => Some(Event::MoveTile(RevertableEvent { old: m.new, new: m.old })),
        Event::UpdateUniversalPath(u) => Some(
            Event::UpdateUniversalPath(
                UpdateUniversalPathEvent {
                    coordinates: u.coordinates,
                    old_tile_path: u.new_tile_path,
                    new_tile_path: u.old_tile_path,
                },
            ),
        ),
        // Can't undo end of turn
        Event::CantPlay | Event::EndTurn => None,
    }
}

/// Whether `e` changed the cell at `c`: a tile placed or removed there, a
/// tile moved or turned there
pub open spec fn spec_event_matches(e: Event, c: Coordinates) -> bool {
    match e {
        Event::PlaceTile(tpe) => tpe.coordinates == c,
        Event::RemoveTile(tpe) => tpe.coordinates == c,
        Event::MoveTile(mte) => mte.new == c,
        Event::RotateTile(rte) => rte.new.coordinates == c,
        _ => false,
    }
}

impl Event {
    /// The event that undoes this one; none for the end of a turn
    pub fn revert(&self) -> (r: Option<Event>)
        ensures
            r == spec_revert(*self),
    {
        match self {
            Event::PlaceTile(tile_placement) => Some(Event::RemoveTile(*tile_placement)),
            Event::RotateTile(rotation) => Some(
                Event::RotateTile(RotationEvent { old: rotation.new, new: rotation.old }),
            ),
            Event::RemoveTile(tile_placement) => Some(Event::PlaceTile(*tile_placement)),
            Event::MoveTile(move_tile) => Some(
                Event::MoveTile(MoveTileEvent { new: move_tile.old, old: move_tile.new }),
            ),
            Event::UpdateUniversalPath(update) => Some(
                Event::UpdateUniversalPath(
                    UpdateUniversalPathEvent {
                        old_tile_path: update.new_tile_path,
                        new_tile_path: update.old_tile_path,
                        coordinates: update.coordinates,
                    },
                ),
            ),
            // Can't undo end of turn
            Event::CantPlay | Event::EndTurn => None,
        }
    }
}

/// The abstract state of a log: the events of past turns, those of this turn
/// that can be redone, and those of this turn that can be undone, oldest
/// first
pub struct LogView {
    pub events: Seq<Event>,
    pub redo: Seq<Event>,
    pub undo: Seq<Event>,
}

/// Undoing on a log: the event that reverts the last undoable event, and
/// the log with that event moved to the redoable ones
pub open spec fn undo_step(l: LogView) -> (Option<Event>, LogView) {
    if l.undo.len() == 0 {
        (None, l)
    } else {
        (
            spec_revert(l.undo.last()),
            LogView { events: l.events, redo: l.redo.push(l.undo.last()), undo: l.undo.drop_last() },
        )
    }
}

/// Redoing on a log: the last redoable event, and the log with that event
/// moved back to the undoable ones
pub open spec fn redo_step(l: LogView) -> (Option<Event>, LogView) {
    if l.redo.len() == 0 {
        (None, l)
    } else {
        (
            Some(l.redo.last()),
            LogView { events: l.events, redo: l.redo.drop_last(), undo: l.undo.push(l.redo.last()) },
        )
    }
}

/// A log with `e` recorded as the last undoable event
pub open spec fn record(l: LogView, e: Event) -> LogView {
    LogView { events: l.events, redo: l.redo, undo: l.undo.push(e) }
}

/// A log whose turn closes with `e`: the undoable events and `e` become
/// past events
pub open spec fn seal(l: LogView, e: Event) -> LogView {
    LogView { events: l.events + l.undo.push(e), redo: l.redo, undo: Seq::empty() }
}

/// Game event log
#[derive(Debug)]
pub struct Log {
    /// Immutable events of past turns
    events: Vec<Event>,
    /// Events from this turn that can be redone
    redo_events: Vec<Event>,
    /// Events from this turn that can be undone
    undo_events: Vec<Event>,
}

impl View for Log {
    type V = LogView;

    closed spec fn view(&self) -> LogView {
        LogView { events: self.events@, redo: self.redo_events@, undo: self.undo_events@ }
    }
}

impl Clone for Log {
    fn clone(&self) -> (l: Self)
        ensures
            l@ == self@,
    {
        let l = Log {
            events: self.events.clone(),
            redo_events: self.redo_events.clone(),
            undo_events: self.undo_events.clone(),
        };
        assert(l.events@ =~= self.events@);
        assert(l.redo_events@ =~= self.redo_events@);
        assert(l.undo_events@ =~= self.undo_events@);
        l
    }
}

impl Log {
    /// An empty log
    pub fn new() -> (l: Self)
        ensures
            l@ == (LogView { events: Seq::empty(), redo: Seq::empty(), undo: Seq::empty() }),
    {
        Self { events: Vec::new(), redo_events: Vec::new(), undo_events: Vec::new() }
    }

    /// Takes back the last undoable event: it becomes redoable, and the event
    /// that reverts it is returned
    pub fn begin_undo(&mut self) -> (r: Option<Event>)
        ensures
            (r, final(self)@) == undo_step(old(self)@),
    {
        match self.undo_events.pop() {
            Some(e) => {
                self.redo_events.push(e);
                e.revert()
            },
            None => None,
        }
    }

    /// Drops the last undoable event
    pub fn end_undo(&mut self)
        ensures
            final(self)@ == (LogView {
                events: old(self)@.events,
                redo: old(self)@.redo,
                undo: if old(self)@.undo.len() == 0 {
                    old(self)@.undo
                } else {
                    old(self)@.undo.drop_last()
                },
            }),
    {
        self.undo_events.pop();
    }

    /// Takes the last redoable event, which becomes undoable again
    pub fn redo(&mut self) -> (r: Option<Event>)
        ensures
            (r, final(self)@) == redo_step(old(self)@),
    {
        match self.redo_events.pop() {
            Some(e) => {
                self.undo_events.push(e);
                Some(e)
            },
            None => None,
        }
    }

    pub fn place_tile(
        &mut self,
        tile_path_type: TilePathType,
        coordinates: Coordinates,
        rotation: tile::Rotation,
    )
        ensures
            final(self)@ == record(
                old(self)@,
                Event::PlaceTile(TilePlacementEvent { tile_path_type, coordinates, rotation }),
            ),
    {
        self.undo_events.push(
            Event::PlaceTile(TilePlacementEvent { tile_path_type, coordinates, rotation }),
        );
    }

    pub fn rotate_tile(
        &mut self,
        coordinates: Coordinates,
        old_rotation: tile::Rotation,
        new_rotation: tile::Rotation,
    )
        ensures
            final(self)@ == record(
                old(self)@,
                Event::RotateTile(
                    RevertableEvent {
                        old: Rotation { coordinates, rotation: old_rotation },
                        new: Rotation { coordinates, rotation: new_rotation },
                    },
                ),
            ),
    {
        self.undo_events.push(
            Event::RotateTile(
                RotationEvent {
                    old: Rotation { coordinates, rotation: old_rotation },
                    new: Rotation { coordinates, rotation: new_rotation },
                },
            ),
        );
    }

    pub fn remove_tile(
        &mut self,
        tile_path_type: TilePathType,
        coordinates: Coordinates,
        rotation: tile::Rotation,
    )
        ensures
            final(self)@ == record(
                old(self)@,
                Event::RemoveTile(TilePlacementEvent { tile_path_type, coordinates, rotation }),
            ),
    {
        self.undo_events.push(
            Event::RemoveTile(TilePlacementEvent { tile_path_type, coordinates, rotation }),
        );
    }

    pub fn move_tile(&mut self, old_coordinates: Coordinates, new_coordinates: Coordinates)
        ensures
            final(self)@ == record(
                old(self)@,
                Event::MoveTile(RevertableEvent { old: old_coordinates, new: new_coordinates }),
            ),
    {
        self.undo_events.push(
            Event::MoveTile(MoveTileEvent { old: old_coordinates, new: new_coordinates }),
        );
    }

    pub fn update_universal_path(
        &mut self,
        coordinates: Coordinates,
        old_tile_path: TilePath,
        new_tile_path: TilePath,
    )
        ensures
            final(self)@ == record(
                old(self)@,
                Event::UpdateUniversalPath(
                    UpdateUniversalPathEvent { coordinates, old_tile_path, new_tile_path },
                ),
            ),
    {
        self.undo_events.push(
            Event::UpdateUniversalPath(
                UpdateUniversalPathEvent { coordinates, new_tile_path, old_tile_path },
            ),
        );
    }

    /// Closes a turn in which the player could not play
    pub fn cant_play(&mut self)
        ensures
            final(self)@ == seal(old(self)@, Event::CantPlay),
    {
        self.undo_events.push(Event::CantPlay);
        self.events.append(&mut self.undo_events);
    }

    /// Closes a turn
    pub fn end_turn(&mut self)
        ensures
            final(self)@ == seal(old(self)@, Event::EndTurn),
    {
        self.undo_events.push(Event::EndTurn);
        self.events.append(&mut self.undo_events);
    }

    /// Whether there are events that can be undone
    pub fn can_undo(&self) -> (b: bool)
        ensures
            b == (self@.undo.len() > 0),
    {
        !self.undo_events.is_empty()
    }

    /// Whether there are events that can be redone
    pub fn can_redo(&self) -> (b: bool)
        ensures
            b == (self@.redo.len() > 0),
    {
        !self.redo_events.is_empty()
    }

    /// Check if a cell (specified by a set of coordinates) was changed during
    /// the current turn.
    pub fn cell_changed_in_turn(&self, coordinates: Coordinates) -> (b: bool)
        ensures
            b == ((exists|i: int|
                0 <= i < self@.undo.len() && spec_event_matches(#[trigger] self@.undo[i], coordinates))
                || (exists|i: int|
                0 <= i < self@.redo.len() && spec_event_matches(
                    #[trigger] self@.redo[i],
                    coordinates,
                ))),
    {
        // Don't need to validate if there's still a tile there because that will be handled by
        // `crate::board::Board`
        let mut i: usize = self.undo_events.len();
        while i > 0
            invariant
                i <= self.undo_events@.len(),
                forall|j: int|
                    i <= j < self.undo_events@.len() ==> !spec_event_matches(
                        #[trigger] self.undo_events@[j],
                        coordinates,
                    ),
            decreases i,
        {
            i = i - 1;
            if Self::event_matches_coordinates(&self.undo_events[i], coordinates) {
                assert(spec_event_matches(self@.undo[i as int], coordinates));
                return true;
            }
        }
        let mut k: usize = 0;
        while k < self.redo_events.len()
            invariant
                k <= self.redo_events@.len(),
                forall|j: int| 0 <= j < self.undo_events@.len() ==> !spec_event_matches(
                    #[trigger] self.undo_events@[j],
                    coordinates,
                ),
                forall|j: int| 0 <= j < k ==> !spec_event_matches(
                    #[trigger] self.redo_events@[j],
                    coordinates,
                ),
            decreases self.redo_events.len() - k,
        {
            if Self::event_matches_coordinates(&self.redo_events[k], coordinates) {
                assert(spec_event_matches(self@.redo[k as int], coordinates));
                return true;
            }
            k = k + 1;
        }
        false
    }

    /// Whether `event` changed the cell at `coordinates`
    pub fn event_matches_coordinates(event: &Event, coordinates: Coordinates) -> (b: bool)
        ensures
            b == spec_event_matches(*event, coordinates),
    {
        match event {
            Event::PlaceTile(tpe) if tpe.coordinates == coordinates => true,
            Event::RemoveTile(tpe) if tpe.coordinates == coordinates => true,
            Event::MoveTile(mte) if mte.new == coordinates => true,
            Event::RotateTile(rte) if rte.new.coordinates == coordinates => true,
            _ => false,
        }
    }
}

/// Reverting an event twice gives it back; only the end of a turn has no
/// revert
pub proof fn lemma_revert_involutive(e: Event)
    ensures
        match spec_revert(e) {
            Some(r) => spec_revert(r) == Some(e),
            None => e is CantPlay || e is EndTurn,
        },
{
}

/// Undoing and then redoing gives back the undone event and leaves the log
/// as it was
pub proof fn lemma_undo_then_redo(l: LogView)
    requires
        l.undo.len() > 0,
    ensures
        redo_step(undo_step(l).1).0 == Some(l.undo.last()),
        redo_step(undo_step(l).1).1 == l,
{
    assert(undo_step(l).1.redo.drop_last() =~= l.redo);
    assert(undo_step(l).1.undo.push(l.undo.last()) =~= l.undo);
}

/// Redoing and then undoing hands out the revert of the redone event and
/// leaves the log as it was
pub proof fn lemma_redo_then_undo(l: LogView)
    requires
        l.redo.len() > 0,
    ensures
        undo_step(redo_step(l).1).0 == spec_revert(l.redo.last()),
        undo_step(redo_step(l).1).1 == l,
{
    assert(redo_step(l).1.undo.drop_last() =~= l.undo);
    assert(redo_step(l).1.redo.push(l.redo.last()) =~= l.redo);
}

/// Closing a turn leaves nothing to undo, keeps the events of past turns in
/// order, and appends those of the turn
pub proof fn lemma_seal_keeps_history(l: LogView, e: Event)
    ensures
        seal(l, e).undo.len() == 0,
        seal(l, e).events.len() == l.events.len() + l.undo.len() + 1,
        seal(l, e).events.subrange(0, l.events.len() as int) == l.events,
        seal(l, e).events.last() == e,
{
    assert(seal(l, e).events.subrange(0, l.events.len() as int) =~= l.events);
}

} // verus!
