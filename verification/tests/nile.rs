use nile::nile::Nile;
use nile::path::{TilePath, TilePathType};
use nile::score::TurnScore;
use nile::tile::{Coordinates, Rotation, Tile};

fn setup() -> Nile {
    Nile::new(vec!["player1".to_owned(), "player2".to_owned()], 0).unwrap()
}

fn get_normal_tile(target: &mut Nile) -> Tile {
    target.players()[0]
        .tiles()
        .as_slice()
        .iter()
        .find(|t| **t != Tile::Universal)
        .expect("Non-universal tile (there's max four)")
        .clone()
}

#[test]
fn nile_move_tile_has_no_score_change_except_for_bonues() {
    let mut target = setup();
    let tile = get_normal_tile(&mut target);
    target
        .place_tile(TilePathType::from(tile), Coordinates(10, 0), Rotation::Clockwise90)
        .unwrap();
    let begin_score = target.current_player().current_turn_score();
    target
        // Neither cell has a bonus
        .move_tile(Coordinates(10, 0), Coordinates(9, 0))
        .unwrap();
    let end_score = target.current_player().current_turn_score();
    assert_eq!(begin_score, end_score);
}

#[test]
fn advance_turn_doesnt_unend_turn() {
    let mut target = setup();
    // Both players claim they cannot play: the game ends with the first player's turn
    target.cant_play().unwrap();
    assert!(matches!(target.cant_play(), Ok(true)));
    assert!(target.has_ended());
    assert_eq!(target.current_turn(), 0);
    target.advance_turn();
    assert_eq!(target.current_turn(), 1);
    assert!(target.has_ended());
}

/// Placing and removing a tile should have no net effect on the score
#[test]
fn place_remove_no_score_change() {
    let mut target = setup();
    let tile = get_normal_tile(&mut target);
    target
        .place_tile(
            TilePathType::tile_into_normal(tile).unwrap(),
            Coordinates(10, 0),
            Rotation::Clockwise90,
        )
        .unwrap();
    let inter_score = target.current_player().current_turn_score();
    assert_ne!(inter_score, TurnScore::default());
    assert_ne!(inter_score.score(), 0);
    target.remove_tile(Coordinates(10, 0)).unwrap();
    let final_score = target.current_player().current_turn_score();
    assert_eq!(final_score, TurnScore::default());
    assert_eq!(final_score.score(), 0);
}

#[test]
fn new_game_needs_two_to_four_players() {
    assert_eq!(
        Nile::new(vec!["solo".to_owned()], 0).unwrap_err(),
        "Nile is a game for 2-4 players"
    );
    assert_eq!(
        Nile::new(Vec::new(), 5).unwrap_err(),
        "Nile is a game for 2-4 players"
    );
    let target = Nile::new(vec!["a".to_owned()], 2).unwrap();
    assert_eq!(target.players().len(), 3);
    assert_eq!(target.players()[1].name(), "cpu1");
    assert_eq!(target.players()[2].name(), "cpu2");
    assert!(target.players()[2].is_cpu());
    assert!(!target.players()[0].is_cpu());
    assert_eq!(target.tile_count(), 5);
    assert_eq!(target.current_turn(), 0);
    assert!(!target.has_ended());
}

#[test]
fn nile_place_tile_errors() {
    let mut target = setup();
    let tiles = target.current_player().tiles().as_slice().to_vec();
    let missing = [Tile::Straight, Tile::Diagonal, Tile::Center90, Tile::Corner90, Tile::Left45, Tile::Right45]
        .iter()
        .find(|t| !tiles.contains(t))
        .cloned();
    if let Some(t) = missing {
        let err = target
            .place_tile(TilePathType::from(t), Coordinates(10, 0), Rotation::Clockwise0)
            .unwrap_err();
        assert_eq!(err, format!("Player doesn't have a {:?}", t));
    }
    let tile = tiles[0];
    let err = target
        .place_tile(TilePathType::from(tile), Coordinates(30, 0), Rotation::Clockwise0)
        .unwrap_err();
    assert_eq!(err, "Invalid coordinates");
    // the tile went back to the rack
    assert_eq!(target.tile_count(), 5);
}

#[test]
fn changes_only_to_tiles_of_this_turn() {
    let mut target = setup();
    assert_eq!(
        target.rotate_tile(Coordinates(10, 0), Rotation::Clockwise90).unwrap_err(),
        "Can't change tiles from another turn"
    );
    assert_eq!(
        target.remove_tile(Coordinates(10, 0)).unwrap_err(),
        "Can't change tiles from another turn"
    );
    assert_eq!(
        target.move_tile(Coordinates(10, 0), Coordinates(10, 1)).unwrap_err(),
        "Can't change tiles from another turn"
    );
    assert_eq!(
        target.update_universal_path(Coordinates(10, 0), TilePath::Left45).unwrap_err(),
        "Can't change tiles from another turn"
    );
}

#[test]
fn turn_rules() {
    let mut target = setup();
    assert_eq!(
        target.end_turn().unwrap_err(),
        "Can't end turn normally without placing at least one tile. Use can't play if there are no playable moves"
    );
    let tile = get_normal_tile(&mut target);
    target
        .place_tile(TilePathType::from(tile), Coordinates(10, 0), Rotation::Clockwise0)
        .unwrap();
    assert_eq!(target.cant_play().unwrap_err(), "Player has placed tiles this turn");
    assert!(target.current_turn_placements().contains(Coordinates(10, 0)));
}

#[test]
fn ended_game_refuses_moves() {
    let mut target = setup();
    target.cant_play().unwrap();
    target.cant_play().unwrap();
    assert_eq!(
        target
            .place_tile(TilePathType::Normal(TilePath::Straight), Coordinates(10, 0), Rotation::Clockwise0)
            .unwrap_err(),
        "Game has already ended"
    );
    assert_eq!(target.end_turn().unwrap_err(), "Game has already ended");
    assert_eq!(target.cant_play().unwrap_err(), "Game has already ended");
}

#[test]
fn cant_play_costs_the_rack() {
    let mut target = setup();
    let rack_score: i16 = target.current_player().tiles().as_slice().iter().map(|t| t.score()).sum();
    assert!(matches!(target.cant_play(), Ok(false)));
    assert_eq!(target.players()[0].total_score(), -rack_score);
    assert_eq!(target.players()[0].tiles().len(), 5);
    assert_eq!(target.current_turn(), 1);
}
