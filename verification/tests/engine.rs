use nile::nile::{Engine, SelectedTile};
use nile::tile::{Coordinates, Rotation};

fn two_humans() -> Engine {
    Engine::new(vec!["a".to_owned(), "b".to_owned()], 0).unwrap()
}

fn rotation_at(engine: &Engine, c: Coordinates) -> Rotation {
    engine.board().cell(c).unwrap().tile().unwrap().rotation()
}

#[test]
fn engine_rejects_too_few_players() {
    let r = Engine::new(vec!["solo".to_owned()], 0);
    assert_eq!(r.err(), Some("Nile is a game for 2-4 players".to_owned()));
}

#[test]
fn engine_rejects_too_many_players() {
    let names = vec!["a".to_owned(), "b".to_owned(), "c".to_owned()];
    let r = Engine::new(names, 2);
    assert_eq!(r.err(), Some("Nile is a game for 2-4 players".to_owned()));
}

#[test]
fn engine_invalid_rack_index() {
    let mut engine = two_humans();
    assert_eq!(
        engine.select_rack_tile(9),
        Err("Invalid rack index: 9".to_owned())
    );
    assert_eq!(engine.selected_tile(), &None);
}

#[test]
fn engine_place_without_selection() {
    let mut engine = two_humans();
    assert_eq!(
        engine.place_tile(Coordinates(10, 0)),
        Err("No selected tile".to_owned())
    );
}

#[test]
fn engine_rotate_without_board_selection() {
    let mut engine = two_humans();
    engine.select_rack_tile(0).unwrap();
    assert_eq!(
        engine.rotate_selected_tile(Rotation::Clockwise90),
        Err("No selected board tile".to_owned())
    );
}

#[test]
fn engine_select_board_tile_not_from_this_turn() {
    let mut engine = two_humans();
    assert_eq!(
        engine.select_board_tile(Coordinates(10, 0)),
        Err("Can only select tiles from this turn".to_owned())
    );
}

#[test]
fn engine_place_selects_the_placed_tile() {
    let mut engine = two_humans();
    engine.select_rack_tile(0).unwrap();
    assert_eq!(engine.selected_rack_tile(), Some(0));
    engine.place_tile(Coordinates(10, 0)).unwrap();
    assert_eq!(engine.selected_board_tile(), Some(Coordinates(10, 0)));
    assert!(engine.current_turn_placements().contains(Coordinates(10, 0)));
    assert_eq!(engine.current_player().tiles().len(), 4);
    assert_eq!(rotation_at(&engine, Coordinates(10, 0)), Rotation::Clockwise0);
    assert!(engine.can_undo());
    assert!(!engine.can_redo());
}

#[test]
fn engine_undo_then_redo_place() {
    let mut engine = two_humans();
    engine.select_rack_tile(0).unwrap();
    engine.place_tile(Coordinates(10, 0)).unwrap();
    engine.undo().unwrap();
    assert!(!engine.board().has_tile(Coordinates(10, 0)));
    assert!(engine.current_turn_placements().is_empty());
    assert_eq!(engine.current_player().tiles().len(), 5);
    assert!(!engine.can_undo());
    assert!(engine.can_redo());
    engine.redo().unwrap();
    assert!(engine.board().has_tile(Coordinates(10, 0)));
    assert_eq!(engine.selected_board_tile(), Some(Coordinates(10, 0)));
    assert!(engine.can_undo());
    assert!(!engine.can_redo());
}

#[test]
fn engine_nothing_to_undo_or_redo() {
    let mut engine = two_humans();
    assert_eq!(engine.undo(), Err("Nothing to undo".to_owned()));
    assert_eq!(engine.redo(), Err("Nothing to redo".to_owned()));
}

#[test]
fn engine_rotate_and_undo() {
    let mut engine = two_humans();
    engine.select_rack_tile(0).unwrap();
    engine.place_tile(Coordinates(10, 0)).unwrap();
    engine.rotate_selected_tile(Rotation::Clockwise180).unwrap();
    assert_eq!(rotation_at(&engine, Coordinates(10, 0)), Rotation::Clockwise180);
    engine.undo().unwrap();
    assert_eq!(rotation_at(&engine, Coordinates(10, 0)), Rotation::Clockwise0);
}

#[test]
fn engine_move_selected_tile() {
    let mut engine = two_humans();
    engine.select_rack_tile(0).unwrap();
    engine.place_tile(Coordinates(10, 0)).unwrap();
    engine.place_tile(Coordinates(9, 0)).unwrap();
    assert!(!engine.board().has_tile(Coordinates(10, 0)));
    assert!(engine.board().has_tile(Coordinates(9, 0)));
    assert_eq!(engine.selected_board_tile(), Some(Coordinates(9, 0)));
    engine.undo().unwrap();
    assert!(engine.board().has_tile(Coordinates(10, 0)));
    assert!(!engine.board().has_tile(Coordinates(9, 0)));
}

#[test]
fn engine_remove_selected_tile() {
    let mut engine = two_humans();
    engine.select_rack_tile(0).unwrap();
    engine.place_tile(Coordinates(10, 0)).unwrap();
    engine.remove_selected_tile().unwrap();
    assert_eq!(engine.selected_tile(), &None);
    assert!(!engine.board().has_tile(Coordinates(10, 0)));
    assert!(engine.current_turn_placements().is_empty());
    assert_eq!(engine.current_player().tiles().len(), 5);
}

#[test]
fn engine_cant_play_after_placing_is_refused() {
    let mut engine = two_humans();
    engine.select_rack_tile(0).unwrap();
    engine.place_tile(Coordinates(10, 0)).unwrap();
    assert!(engine.cant_play().is_err());
    assert_eq!(engine.current_turn(), 0);
}

#[test]
fn engine_cant_play_passes_the_turn() {
    let mut engine = two_humans();
    assert_eq!(engine.cant_play(), Ok(false));
    assert_eq!(engine.current_turn(), 1);
    assert_eq!(engine.selected_tile(), &None);
    assert!(!engine.can_undo());
}

#[test]
fn engine_cpu_turns_come_back_to_the_human() {
    let mut engine = Engine::new(vec!["human".to_owned()], 1).unwrap();
    assert!(!engine.current_player().is_cpu());
    let ended = engine.cant_play().unwrap();
    assert_eq!(ended, engine.has_ended());
    if !ended {
        assert_eq!(engine.current_turn(), 0);
        assert!(!engine.current_player().is_cpu());
    }
    assert!(!engine.can_undo());
}

#[test]
fn engine_selected_tile_kinds() {
    let mut engine = two_humans();
    engine.select_rack_tile(1).unwrap();
    assert!(matches!(engine.selected_tile(), Some(SelectedTile::Rack(1))));
    assert_eq!(engine.selected_board_tile(), None);
}

#[test]
fn take_cpu_turn_for_human_fails() {
    let mut engine = Engine::new(vec!["Carter".to_owned()], 1).unwrap();
    assert!(engine.take_cpu_turn().is_none());
    assert_eq!(engine.current_turn(), 0);
}

#[test]
fn engine_single_cpu_turn_reports_its_score() {
    let mut engine = Engine::new(vec![], 2).unwrap();
    let update = engine.take_cpu_turn().unwrap();
    assert_eq!(update.player_id, 0);
    let scores = engine.players()[0].scores();
    assert_eq!(scores.len(), 1);
    assert_eq!(update.turn_score, scores[0]);
    assert_eq!(update.game_has_ended, engine.has_ended());
}
