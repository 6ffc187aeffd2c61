use nile::ai::{Brute, CPUPlayer};
use nile::board::{Board, TilePlacement};
use nile::path::{Offset, TilePath, TilePathType};
use nile::player::TileArray;
use nile::tile::{Coordinates, Rotation, Tile};

#[test]
fn maximizes_score() {
    let mut target = Brute::new(2);
    let board = Board::new();
    // Tiles to get to 60 bonus on first turn using all tiles
    let tiles = TileArray::from_vec(vec![
        Tile::Center90,
        Tile::Straight,
        Tile::Straight,
        Tile::Straight,
        Tile::Straight,
    ]);
    let moves = target.take_turn(&tiles, &board, 0, vec![0]).unwrap();
    assert_eq!(moves.len(), 5);
    matches!(&moves[0].tile_path_type, TilePathType::Normal(TilePath::Straight));
    matches!(&moves[1].tile_path_type, TilePathType::Normal(TilePath::Straight));
    matches!(&moves[2].tile_path_type, TilePathType::Normal(TilePath::Center90));
    matches!(&moves[3].tile_path_type, TilePathType::Normal(TilePath::Straight));
    matches!(&moves[4].tile_path_type, TilePathType::Normal(TilePath::Straight));
}

#[test]
fn second_turn() {
    let mut target = Brute::new(2);
    let mut board = Board::with_last_placement(Coordinates(10, 0), Offset(0, 1));
    board
        .place_tile(
            Coordinates(10, 0),
            TilePlacement::new(TilePathType::Normal(TilePath::Straight), Rotation::Clockwise0),
        )
        .unwrap();
    // Tiles to get to 60 bonus on first turn using all tiles
    let tiles = TileArray::from_vec(vec![
        Tile::Center90,
        Tile::Center90,
        // Can't use these
        Tile::Diagonal,
        Tile::Diagonal,
        Tile::Diagonal,
    ]);

    let moves = target.take_turn(&tiles, &board, 30, vec![50]).unwrap();
    assert_eq!(moves.len(), 2);
}

#[test]
fn ignore_out_of_bounds_paths() {
    let mut target = Brute::new(2);
    let board = Board::with_last_placement(Coordinates(19, 0), Offset(1, 0));
    let tiles = TileArray::from_vec(vec![
        Tile::Straight,
        Tile::Straight,
        Tile::Diagonal,
        Tile::Diagonal,
        Tile::Straight,
    ]);

    let moves = target.take_turn(&tiles, &board, 0, vec![146]);
    let _ = matches!(moves, None);
}

#[test]
fn cpu_should_end_game_when_winning() {
    let mut target = Brute::new(3);
    let board = Board::with_last_placement(Coordinates(10, 19), Offset(0, 1));
    let tiles = TileArray::from_vec(vec![
        Tile::Straight,
        Tile::Right135,
        Tile::Right45,
        Tile::Right45,
        Tile::Straight,
    ]);

    // Optimal moves should place player in lead
    let moves = target.take_turn(&tiles, &board, 400, vec![900, 885]).unwrap();
    assert_eq!(moves[0].coordinates, Coordinates(10, 20));
    assert_eq!(moves[0].tile_path_type, TilePathType::Normal(TilePath::Straight));
    assert_eq!(moves[1].coordinates, Coordinates(10, 21));
    assert_eq!(moves[1].tile_path_type, TilePathType::Normal(TilePath::Straight));
}

#[test]
fn no_moves_without_tiles() {
    let mut target = Brute::new(2);
    let board = Board::new();
    assert!(target.take_turn(&TileArray::new(), &board, 0, vec![0]).is_none());
}

#[test]
fn moves_continue_the_river() {
    let mut target = Brute::new(2);
    let board = Board::new();
    let tiles = TileArray::from_vec(vec![Tile::Straight, Tile::Diagonal]);
    let moves = target.take_turn(&tiles, &board, 0, vec![0]).unwrap();
    assert_eq!(moves[0].coordinates, Coordinates(10, 0));
    let mut last = (Coordinates(10, -1), Offset(0, 1));
    for m in &moves {
        last = nile::path::eval_placement(last, m).unwrap();
    }
}

#[test]
fn brute_new_accepts_any_player_count() {
    let _none = Brute::new(0);
    let _many = Brute::new(70_000);
}

#[test]
fn brute_moves_start_at_the_river_and_use_rack_tiles() {
    let mut target = Brute::new(3);
    let board = Board::new();
    let rack = vec![Tile::Left45, Tile::Straight, Tile::Universal, Tile::Corner90, Tile::Diagonal];
    let tiles = TileArray::from_vec(rack.clone());
    let moves = target.take_turn(&tiles, &board, 0, vec![0, 0]).unwrap();
    assert!(!moves.is_empty() && moves.len() <= 5);
    // the river enters the board at row 10, column 0
    assert_eq!(moves[0].coordinates, Coordinates(10, 0));
    let mut left = rack.clone();
    for m in moves.iter() {
        let used = m.tile_path_type.tile();
        let k = left.iter().position(|t| *t == used).expect("a rack tile");
        left.remove(k);
    }
}
