use nile::nile::Nile;
use nile::path::TilePathType;
use nile::tile::{Coordinates, Rotation, Tile};

fn new_game() -> Nile {
    Nile::new(vec!["a".to_owned(), "b".to_owned()], 0).unwrap()
}

fn tiles_on_board(n: &Nile) -> usize {
    let mut count = 0;
    for row in 0..21i8 {
        for column in 0..22i8 {
            if n.board().has_tile(Coordinates(row, column)) {
                count += 1;
            }
        }
    }
    count
}

fn tiles_in_play(n: &Nile) -> usize {
    let racks: usize = n.players().iter().map(|p| p.tiles().len()).sum();
    racks + tiles_on_board(n)
}

fn first_normal_tile(n: &Nile) -> Tile {
    *n.current_player()
        .tiles()
        .as_slice()
        .iter()
        .find(|t| **t != Tile::Universal)
        .unwrap()
}

#[test]
fn supply_new_game_deals_five_each() {
    let n = new_game();
    assert_eq!(tiles_on_board(&n), 0);
    assert_eq!(tiles_in_play(&n), 10);
}

#[test]
fn supply_place_move_remove_keep_tiles() {
    let mut n = new_game();
    let tile = first_normal_tile(&n);
    n.place_tile(TilePathType::tile_into_normal(tile).unwrap(), Coordinates(10, 0), Rotation::Clockwise0)
        .unwrap();
    assert_eq!(tiles_on_board(&n), 1);
    assert_eq!(tiles_in_play(&n), 10);
    n.move_tile(Coordinates(10, 0), Coordinates(9, 0)).unwrap();
    assert_eq!(tiles_in_play(&n), 10);
    n.remove_tile(Coordinates(9, 0)).unwrap();
    assert_eq!(tiles_on_board(&n), 0);
    assert_eq!(tiles_in_play(&n), 10);
}

#[test]
fn supply_refused_placement_keeps_tiles() {
    let mut n = new_game();
    let tile = first_normal_tile(&n);
    let tpt = TilePathType::tile_into_normal(tile).unwrap();
    // a cell off the board refuses the tile
    assert!(n.place_tile(tpt, Coordinates(30, 0), Rotation::Clockwise0).is_err());
    assert_eq!(tiles_in_play(&n), 10);
    assert_eq!(n.current_player().tiles().len(), 5);
}

#[test]
fn supply_cant_play_redeals() {
    let mut n = new_game();
    n.cant_play().unwrap();
    assert_eq!(tiles_in_play(&n), 10);
    assert_eq!(n.players()[0].tiles().len(), 5);
}
