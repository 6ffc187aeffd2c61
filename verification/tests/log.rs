use nile::log::{Event, Log, RevertableEvent, TilePlacementEvent};
use nile::path::{TilePath, TilePathType};
use nile::tile::{Coordinates, Rotation};

fn placement(c: Coordinates) -> TilePlacementEvent {
    TilePlacementEvent {
        tile_path_type: TilePathType::Normal(TilePath::Straight),
        coordinates: c,
        rotation: Rotation::Clockwise0,
    }
}

#[test]
fn revert_twice_gives_back_the_event() {
    let events = vec![
        Event::PlaceTile(placement(Coordinates(1, 1))),
        Event::RemoveTile(placement(Coordinates(2, 2))),
        Event::MoveTile(RevertableEvent { old: Coordinates(1, 1), new: Coordinates(1, 2) }),
    ];
    for e in events {
        assert_eq!(e.revert().unwrap().revert().unwrap(), e);
    }
    assert!(Event::EndTurn.revert().is_none());
    assert!(Event::CantPlay.revert().is_none());
    assert_eq!(
        Event::PlaceTile(placement(Coordinates(1, 1))).revert(),
        Some(Event::RemoveTile(placement(Coordinates(1, 1))))
    );
}

#[test]
fn undo_then_redo() {
    let mut log = Log::new();
    assert!(!log.can_undo());
    log.place_tile(TilePathType::Normal(TilePath::Straight), Coordinates(10, 0), Rotation::Clockwise0);
    log.move_tile(Coordinates(10, 0), Coordinates(10, 1));
    assert!(log.can_undo());
    let undone = log.begin_undo();
    assert_eq!(
        undone,
        Some(Event::MoveTile(RevertableEvent { old: Coordinates(10, 1), new: Coordinates(10, 0) }))
    );
    assert!(log.can_redo());
    let redone = log.redo();
    assert_eq!(
        redone,
        Some(Event::MoveTile(RevertableEvent { old: Coordinates(10, 0), new: Coordinates(10, 1) }))
    );
    assert!(!log.can_redo());
    assert!(log.redo().is_none());
}

#[test]
fn end_turn_leaves_nothing_to_undo() {
    let mut log = Log::new();
    log.place_tile(TilePathType::Normal(TilePath::Straight), Coordinates(10, 0), Rotation::Clockwise0);
    log.end_turn();
    assert!(!log.can_undo());
    assert!(log.begin_undo().is_none());
    log.cant_play();
    assert!(!log.can_undo());
}

#[test]
fn cell_changed_in_turn() {
    let mut log = Log::new();
    log.place_tile(TilePathType::Normal(TilePath::Straight), Coordinates(10, 0), Rotation::Clockwise0);
    log.rotate_tile(Coordinates(10, 0), Rotation::Clockwise0, Rotation::Clockwise90);
    log.update_universal_path(Coordinates(4, 4), TilePath::Left45, TilePath::Right45);
    assert!(log.cell_changed_in_turn(Coordinates(10, 0)));
    assert!(!log.cell_changed_in_turn(Coordinates(4, 4)));
    log.remove_tile(TilePathType::Normal(TilePath::Diagonal), Coordinates(3, 3), Rotation::Clockwise0);
    assert!(log.cell_changed_in_turn(Coordinates(3, 3)));
    log.begin_undo();
    // the undone event can still be redone in this turn
    assert!(log.cell_changed_in_turn(Coordinates(3, 3)));
    log.end_undo();
    assert!(Log::event_matches_coordinates(
        &Event::MoveTile(RevertableEvent { old: Coordinates(0, 0), new: Coordinates(0, 1) }),
        Coordinates(0, 1)
    ));
}
