use nile::state::{Action, Modal, NewGameOptions, Rotation, SelectRackTile, State};
use nile::tile::{self, Coordinates};
use nile::utils::update_if_changed;

fn new_state() -> State {
    State::new_game(vec!["Ann".to_owned(), "Bob".to_owned()], 0)
}

fn state_rotation_at(state: &State, c: Coordinates) -> tile::Rotation {
    state.nile.board().cell(c).unwrap().tile().unwrap().rotation()
}

#[test]
fn update_if_changed_replaces_different_value() {
    let mut v = 3u8;
    assert!(update_if_changed(&mut v, 4));
    assert_eq!(v, 4);
}

#[test]
fn update_if_changed_keeps_equal_value() {
    let mut v = 3u8;
    assert!(!update_if_changed(&mut v, 3));
    assert_eq!(v, 3);
}

#[test]
fn state_invalid_rack_index_shows_error() {
    let mut state = new_state();
    Action::SelectRackTile(SelectRackTile { rack_idx: 9 }).apply(&mut state);
    assert_eq!(
        state.modal,
        Some(Modal::Error("Invalid rack index: 9".to_owned()))
    );
    Action::Dismiss.apply(&mut state);
    assert_eq!(state.modal, None);
}

#[test]
fn state_rotation_cycles() {
    let mut state = new_state();
    Action::SelectRackTile(SelectRackTile { rack_idx: 0 }).apply(&mut state);
    Action::PlaceTile(Coordinates(10, 0)).apply(&mut state);
    assert_eq!(state.modal, None);
    assert!(state.has_selected_board_tile());
    assert_eq!(state_rotation_at(&state, Coordinates(10, 0)), tile::Rotation::Clockwise0);
    Action::RotateSelectedTile(Rotation::Counterclockwise).apply(&mut state);
    assert_eq!(state_rotation_at(&state, Coordinates(10, 0)), tile::Rotation::Clockwise270);
    Action::RotateSelectedTile(Rotation::Clockwise).apply(&mut state);
    Action::RotateSelectedTile(Rotation::Clockwise).apply(&mut state);
    assert_eq!(state_rotation_at(&state, Coordinates(10, 0)), tile::Rotation::Clockwise90);
    assert!(state.can_undo());
}

#[test]
fn state_rotate_without_selection_changes_nothing() {
    let mut state = new_state();
    Action::RotateSelectedTile(Rotation::Clockwise).apply(&mut state);
    assert_eq!(state.modal, None);
    assert!(!state.can_undo());
}

#[test]
fn state_undo_with_nothing_shows_error() {
    let mut state = new_state();
    Action::Undo.apply(&mut state);
    assert_eq!(state.modal, Some(Modal::Error("Nothing to undo".to_owned())));
}

#[test]
fn state_undo_redo() {
    let mut state = new_state();
    Action::SelectRackTile(SelectRackTile { rack_idx: 0 }).apply(&mut state);
    Action::PlaceTile(Coordinates(10, 0)).apply(&mut state);
    Action::Undo.apply(&mut state);
    assert!(!state.nile.board().has_tile(Coordinates(10, 0)));
    assert!(state.can_redo());
    Action::Redo.apply(&mut state);
    assert!(state.nile.board().has_tile(Coordinates(10, 0)));
    assert!(!state.can_redo());
}

#[test]
fn state_remove_selected_tile() {
    let mut state = new_state();
    Action::SelectRackTile(SelectRackTile { rack_idx: 0 }).apply(&mut state);
    Action::PlaceTile(Coordinates(10, 0)).apply(&mut state);
    Action::RemoveSelectedTile.apply(&mut state);
    assert!(!state.nile.board().has_tile(Coordinates(10, 0)));
    assert!(!state.has_selected_board_tile());
    Action::RemoveSelectedTile.apply(&mut state);
    assert_eq!(
        state.modal,
        Some(Modal::Error("No selected board tile".to_owned()))
    );
}

#[test]
fn state_cant_play_after_placing_shows_error() {
    let mut state = new_state();
    Action::SelectRackTile(SelectRackTile { rack_idx: 0 }).apply(&mut state);
    Action::PlaceTile(Coordinates(10, 0)).apply(&mut state);
    Action::CantPlay.apply(&mut state);
    assert_eq!(
        state.modal,
        Some(Modal::Error("Player has placed tiles this turn".to_owned()))
    );
}

#[test]
fn state_both_cant_play_ends_game_with_tie() {
    let mut state = new_state();
    Action::CantPlay.apply(&mut state);
    assert_eq!(state.modal, None);
    Action::CantPlay.apply(&mut state);
    assert!(state.nile.has_ended());
    let a = state.nile.players()[0].total_score();
    let b = state.nile.players()[1].total_score();
    let expected = if a == b {
        "Ann, Bob tied".to_owned()
    } else if a > b {
        "Ann has won".to_owned()
    } else {
        "Bob has won".to_owned()
    };
    assert_eq!(state.modal, Some(Modal::EndOfGame(expected)));
}

#[test]
fn state_new_game_action_replaces_game() {
    let mut state = new_state();
    Action::CantPlay.apply(&mut state);
    Action::NewGame(NewGameOptions {
        player_names: vec!["X".to_owned(), "Y".to_owned(), "Z".to_owned()],
        cpu_player_count: 0,
    })
    .apply(&mut state);
    assert_eq!(state.nile.players().len(), 3);
    assert_eq!(state.nile.current_turn(), 0);
    assert_eq!(state.nile.players()[2].name(), "Z");
}

#[test]
fn state_reduce_reports_changes() {
    let mut state = new_state();
    let bad = || Action::SelectRackTile(SelectRackTile { rack_idx: 9 });
    assert!(state.reduce(bad()));
    // the same error is already shown
    assert!(!state.reduce(bad()));
    assert!(state.reduce(Action::Dismiss));
    assert!(!state.reduce(Action::Dismiss));
    assert!(!state.reduce(Action::RotateSelectedTile(Rotation::Clockwise)));
    assert!(state.reduce(Action::SelectRackTile(SelectRackTile { rack_idx: 0 })));
}
