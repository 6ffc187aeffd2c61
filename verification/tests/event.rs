use nile::event::{Event, Log, Rotation, TilePlacement};
use nile::tile::{self, Coordinates, Tile};

#[test]
fn handle_event_undo_redo() {
    let mut log = Log::new();
    let place = Event::PlaceTile(TilePlacement {
        tile: Tile::Straight,
        coordinates: Coordinates(10, 0),
        rotation: tile::Rotation::Clockwise0,
    });
    assert!(log.handle_event(place).is_none());
    assert!(log.can_undo());
    assert_eq!(log.handle_event(Event::Undo), Some(place));
    assert!(log.can_redo());
    assert!(!log.can_undo());
    assert_eq!(log.handle_event(Event::Redo), Some(place));
    assert!(!log.can_redo());
    assert!(log.handle_event(Event::Redo).is_none());
}

#[test]
fn end_of_turn_files_the_turn() {
    let mut log = Log::new();
    log.handle_event(Event::RotateTile(Rotation {
        coordinates: Coordinates(1, 2),
        rotation: tile::Rotation::Clockwise90,
    }));
    log.handle_event(Event::RemoveTile(Coordinates(3, 4)));
    let coordinates = log.current_turn_coordinates();
    assert_eq!(coordinates.len(), 2);
    assert!(coordinates.contains(Coordinates(1, 2)));
    assert!(coordinates.contains(Coordinates(3, 4)));
    log.handle_event(Event::Undo);
    log.handle_event(Event::EndTurn);
    assert!(!log.can_undo());
    assert!(!log.can_redo());
    assert!(log.current_turn_coordinates().is_empty());
}
