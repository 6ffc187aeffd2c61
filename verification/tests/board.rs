use nile::board::{Board, Cell, TilePlacement, BOARD_DIM};
use nile::error::Error;
use nile::path::{Offset, TilePath, TilePathType};
use nile::tile::{CoordinateSet, Coordinates, Rotation};

fn coordinate_set(coordinates: &[Coordinates]) -> CoordinateSet {
    let mut set = CoordinateSet::new();
    for c in coordinates {
        set.insert(*c);
    }
    set
}

#[test]
fn set_and_remove_are_idempotent() {
    let mut target = Cell::with_bonus(0);
    let original_score = target.score();
    assert!(target.is_empty());
    assert_eq!(original_score.score(), 0);
    let tile_placement = TilePlacement {
        rotation: Rotation::Clockwise0,
        tile_path_type: TilePathType::Normal(TilePath::Straight),
    };
    let placement_score = target.set_tile(tile_placement.clone());
    assert!(!target.is_empty());
    assert!(placement_score.score() > original_score.score());
    let (removed_tile_placement, opp_score) = target.remove_tile().unwrap();
    assert_eq!(target.score().score(), 0);
    assert!(target.is_empty());
    assert_eq!(opp_score, -placement_score);
    assert_eq!(removed_tile_placement, tile_placement);
}

#[test]
fn score_includes_bonus() {
    let target = Cell {
        tile: Some(TilePlacement {
            rotation: Rotation::Clockwise270,
            tile_path_type: TilePathType::Universal(TilePath::Diagonal),
        }),
        bonus: 80,
    };
    assert_eq!(target.score().score(), 115);
}

#[test]
fn score_includes_penalty() {
    let bonus = -80;
    let mut target = Cell::with_bonus(bonus);
    assert_eq!(target.score().score(), bonus);
    target.set_tile(TilePlacement {
        rotation: Rotation::Clockwise0,
        tile_path_type: TilePathType::Normal(TilePath::Right45),
    });
    assert_eq!(target.score().score(), bonus + 8);
}

#[test]
fn update_universal_path_on_cell_fails_for_empty() {
    let mut target = Cell::with_bonus(0);
    let res = target.update_universal_path(TilePath::Diagonal);
    assert!(matches!(res, Err(e) if e.contains("empty")));
}

#[test]
fn update_universal_path_on_cell_fails_for_normal_tile() {
    let mut target = Cell {
        tile: Some(TilePlacement {
            rotation: Rotation::Clockwise90,
            tile_path_type: TilePathType::Normal(TilePath::Left45),
        }),
        bonus: 0,
    };
    let res = target.update_universal_path(TilePath::Right45);
    assert!(matches!(res, Err(e) if e.contains("doesn’t contain a universal tile")));
}

#[test]
fn update_universal_path_on_cell() {
    let mut target = Cell {
        tile: Some(TilePlacement {
            rotation: Rotation::Clockwise90,
            tile_path_type: TilePathType::Universal(TilePath::Left45),
        }),
        bonus: 0,
    };
    let res = target.update_universal_path(TilePath::Right45);
    assert!(matches!(res, Ok(TilePath::Left45)));
}

#[test]
fn board_cell_works_with_end_game() {
    let target = Board::new();
    let end_game_cell = target.cell(Coordinates(10, 21));
    assert!(matches!(end_game_cell, Some(cell) if cell.bonus() == 500));
}

#[test]
fn first_turn_validation() {
    let mut target = Board::new();
    let coordinates = Coordinates(10, 0);
    target
        .place_tile(
            coordinates,
            TilePlacement {
                rotation: Rotation::Clockwise0,
                tile_path_type: TilePathType::Normal(TilePath::Straight),
            },
        )
        .unwrap();
    let coordinates_set = coordinate_set(&[coordinates]);
    let res = target.validate_turns_moves(coordinates_set);
    assert!(res.is_ok());
}

#[test]
fn validate_45() {
    let mut target = Board::new();
    target
        .place_tile(
            Coordinates(10, 0),
            TilePlacement::new(TilePathType::Normal(TilePath::Center90), Rotation::Clockwise0),
        )
        .unwrap();
    target
        .place_tile(
            Coordinates(11, 0),
            TilePlacement::new(TilePathType::Normal(TilePath::Left45), Rotation::Clockwise180),
        )
        .unwrap();
    let coordinates_set = coordinate_set(&[Coordinates(10, 0), Coordinates(11, 0)]);
    let res = target.validate_turns_moves(coordinates_set);
    assert!(res.is_ok());
}

#[test]
fn no_crossover() {
    let mut target = Board::with_last_placement(Coordinates(4, 2), Offset(1, -1));
    let coordinates = vec![Coordinates(5, 1), Coordinates(6, 0), Coordinates(6, 1)];
    target
        .place_tile(
            coordinates[0],
            TilePlacement::new(TilePathType::Normal(TilePath::Diagonal), Rotation::Clockwise0),
        )
        .unwrap();
    target
        .place_tile(
            coordinates[1],
            TilePlacement::new(TilePathType::Normal(TilePath::Right135), Rotation::Clockwise270),
        )
        .unwrap();
    target
        .place_tile(
            coordinates[2],
            TilePlacement::new(TilePathType::Normal(TilePath::Left135), Rotation::Clockwise90),
        )
        .unwrap();
    let coordinates_set = coordinate_set(&coordinates);
    let res = target.validate_turns_moves(coordinates_set);
    assert!(matches!(res, Err(Error::Cell(err)) if err.msg.contains("cross over")));
}

#[test]
fn universal_start() {
    let mut target = Board::new();
    let coordinates = vec![
        Coordinates(10, 0),
        Coordinates(11, 1),
        Coordinates(12, 2),
        Coordinates(13, 3),
        Coordinates(12, 4),
    ];
    target
        .place_tile(
            coordinates[0],
            TilePlacement::new(TilePathType::Universal(TilePath::Right45), Rotation::Clockwise90),
        )
        .unwrap();
    target
        .place_tile(
            coordinates[1],
            TilePlacement::new(TilePathType::Normal(TilePath::Diagonal), Rotation::Clockwise90),
        )
        .unwrap();
    target
        .place_tile(
            coordinates[2],
            TilePlacement::new(TilePathType::Normal(TilePath::Diagonal), Rotation::Clockwise90),
        )
        .unwrap();
    target
        .place_tile(
            coordinates[3],
            TilePlacement::new(TilePathType::Normal(TilePath::Corner90), Rotation::Clockwise180),
        )
        .unwrap();
    target
        .place_tile(
            coordinates[4],
            TilePlacement::new(TilePathType::Normal(TilePath::Left135), Rotation::Clockwise0),
        )
        .unwrap();
    let coordinates_set = coordinate_set(&coordinates);
    let res = target.validate_turns_moves(coordinates_set);
    assert!(matches!(res, Ok(false)));
}

#[test]
fn crossover_is_invalid() {
    let mut target = Board::new();
    let coordinates = vec![
        Coordinates(14, 5),
        Coordinates(14, 4),
        Coordinates(14, 3),
        Coordinates(13, 2),
        Coordinates(13, 3),
    ];
    target
        .place_tile(
            coordinates[0],
            TilePlacement::new(TilePathType::Normal(TilePath::Left135), Rotation::Clockwise90),
        )
        .unwrap();
    target
        .place_tile(
            coordinates[1],
            TilePlacement::new(TilePathType::Normal(TilePath::Straight), Rotation::Clockwise0),
        )
        .unwrap();
    target
        .place_tile(
            coordinates[2],
            TilePlacement::new(TilePathType::Normal(TilePath::Right45), Rotation::Clockwise270),
        )
        .unwrap();
    target
        .place_tile(
            coordinates[3],
            TilePlacement::new(TilePathType::Normal(TilePath::Left135), Rotation::Clockwise270),
        )
        .unwrap();
    target
        .place_tile(
            coordinates[4],
            TilePlacement::new(TilePathType::Normal(TilePath::Center90), Rotation::Clockwise180),
        )
        .unwrap();
    let coordinates_set = coordinate_set(&coordinates);
    let res = target.validate_turns_moves(coordinates_set);
    assert!(res.is_err());
}

#[test]
fn end_with_dead_end() {
    let mut target = Board::new();
    let coordinates = vec![
        Coordinates(6, 2),
        Coordinates(7, 3),
        Coordinates(7, 2),
        Coordinates(7, 1),
    ];
    target
        .place_tile(
            coordinates[0],
            TilePlacement::new(TilePathType::Normal(TilePath::Diagonal), Rotation::Clockwise270),
        )
        .unwrap();
    target
        .place_tile(
            coordinates[1],
            TilePlacement::new(TilePathType::Universal(TilePath::Left135), Rotation::Clockwise90),
        )
        .unwrap();
    target
        .place_tile(
            coordinates[2],
            TilePlacement::new(TilePathType::Normal(TilePath::Straight), Rotation::Clockwise0),
        )
        .unwrap();
    target
        .place_tile(
            coordinates[3],
            TilePlacement::new(TilePathType::Universal(TilePath::Right135), Rotation::Clockwise270),
        )
        .unwrap();
    let coordinates_set = coordinate_set(&coordinates);
    let res = target.validate_turns_moves(coordinates_set);
    assert!(res.is_err());
}

#[test]
fn has_tile() {
    let mut target = Board::new();
    let coordinates = Coordinates(10, 3);
    assert!(!target.has_tile(coordinates));
    target
        .place_tile(
            coordinates,
            TilePlacement::new(TilePathType::Normal(TilePath::Straight), Rotation::Clockwise0),
        )
        .unwrap();
    assert!(target.has_tile(coordinates));
}

#[test]
fn is_end_game_cell() {
    let target = Board::new();
    assert!(target.is_end_game_cell(Coordinates(0, 21)));
    assert!(target.is_end_game_cell(Coordinates(21, 21)));
    assert!(!target.is_end_game_cell(Coordinates(21, 0)));
    assert!(!target.is_end_game_cell(Coordinates(0, 0)));
}

#[test]
fn in_bounds() {
    let target = Board::new();
    assert!(target.in_bounds(Coordinates(0, 21)));
    assert!(target.in_bounds(Coordinates(10, 21)));
    assert!(!target.in_bounds(Coordinates(0, 22)));
    assert!(!target.in_bounds(Coordinates(21, 20)));
    assert!(target.in_bounds(Coordinates(20, 10)));
    assert!(target.in_bounds(Coordinates(10, 10)));
}

#[test]
fn cell_out_of_bounds_cell_is_none() {
    let target = Board::new();
    assert!(matches!(target.cell(Coordinates(14, 22)), None));
}

#[test]
fn validate_turns_moves_ends_game() {
    let mut target = Board::with_last_placement(Coordinates(14, 20), Offset(0, 1));
    const COORDINATES: Coordinates = Coordinates(14, BOARD_DIM as i8);
    target
        .place_tile(
            COORDINATES,
            TilePlacement {
                rotation: Rotation::Clockwise0,
                tile_path_type: TilePathType::Normal(TilePath::Straight),
            },
        )
        .unwrap();
    let turn_coordinates = coordinate_set(&[COORDINATES]);
    let res = target.validate_turns_moves(turn_coordinates);
    assert!(matches!(res, Ok(true)));
}

fn setup_encircled_board() -> Board {
    // Test same board set up with different last offsets
    let mut target = Board::new();

    for i in 0..3 {
        target
            .place_tile(
                Coordinates(3 - i, 0),
                TilePlacement {
                    rotation: Rotation::Clockwise90,
                    tile_path_type: TilePathType::Normal(TilePath::Straight),
                },
            )
            .unwrap();
    }
    target
        .place_tile(
            Coordinates(0, 0),
            TilePlacement {
                rotation: Rotation::Clockwise270,
                tile_path_type: TilePathType::Normal(TilePath::Center90),
            },
        )
        .unwrap();
    target
        .place_tile(
            Coordinates(0, 1),
            TilePlacement {
                rotation: Rotation::Clockwise0,
                tile_path_type: TilePathType::Normal(TilePath::Straight),
            },
        )
        .unwrap();
    target
        .place_tile(
            Coordinates(0, 2),
            TilePlacement {
                rotation: Rotation::Clockwise90,
                tile_path_type: TilePathType::Normal(TilePath::Right45),
            },
        )
        .unwrap();
    target
        .place_tile(
            Coordinates(1, 3),
            TilePlacement {
                rotation: Rotation::Clockwise0,
                tile_path_type: TilePathType::Normal(TilePath::Left45),
            },
        )
        .unwrap();
    target
        .place_tile(
            Coordinates(2, 3),
            TilePlacement {
                rotation: Rotation::Clockwise90,
                tile_path_type: TilePathType::Normal(TilePath::Straight),
            },
        )
        .unwrap();
    target
        .place_tile(
            Coordinates(3, 3),
            TilePlacement {
                rotation: Rotation::Clockwise90,
                tile_path_type: TilePathType::Normal(TilePath::Center90),
            },
        )
        .unwrap();
    target
        .place_tile(
            Coordinates(3, 2),
            TilePlacement {
                rotation: Rotation::Clockwise270,
                tile_path_type: TilePathType::Normal(TilePath::Right45),
            },
        )
        .unwrap();
    target
}

/// Subset of board for testing
/// ```text
///   0 1 2 3
/// 0 +-+-+ .
///   |    \
/// 1 + . . +
///   |     |
/// 2 + + . +
///   |  \  |
/// 3 + . +-+
///   ^
///   |
/// start
/// ```
#[test]
fn no_encircles_depends_on_offset() {
    let mut target = setup_encircled_board();
    target
        .place_tile(
            Coordinates(2, 1),
            TilePlacement {
                rotation: Rotation::Clockwise270,
                tile_path_type: TilePathType::Normal(TilePath::Diagonal),
            },
        )
        .unwrap();
    let res = target.no_encircles((Coordinates(2, 1), Offset(-1, -1)));
    assert!(res.is_err());

    target = setup_encircled_board();
    target
        .place_tile(
            Coordinates(2, 1),
            TilePlacement {
                rotation: Rotation::Clockwise180,
                tile_path_type: TilePathType::Normal(TilePath::Left45),
            },
        )
        .unwrap();
    let res = target.no_encircles((Coordinates(2, 1), Offset(-1, 0)));
    assert!(res.is_err());

    target = setup_encircled_board();
    target
        .place_tile(
            Coordinates(2, 1),
            TilePlacement::new(TilePathType::Normal(TilePath::Right135), Rotation::Clockwise0),
        )
        .unwrap();
    let res = target.no_encircles((Coordinates(2, 1), Offset(1, 0)));
    assert!(res.is_ok());
}

#[test]
fn no_encircle_valid_start() {
    let mut target = Board::new();
    target
        .place_tile(
            Coordinates(10, 0),
            TilePlacement::new(TilePathType::Normal(TilePath::Right45), Rotation::Clockwise90),
        )
        .unwrap();
    target
        .place_tile(
            Coordinates(11, 1),
            TilePlacement::new(TilePathType::Normal(TilePath::Diagonal), Rotation::Clockwise180),
        )
        .unwrap();
    target
        .place_tile(
            Coordinates(12, 2),
            TilePlacement::new(TilePathType::Normal(TilePath::Corner90), Rotation::Clockwise90),
        )
        .unwrap();
    target
        .place_tile(
            Coordinates(13, 1),
            TilePlacement::new(TilePathType::Normal(TilePath::Left135), Rotation::Clockwise180),
        )
        .unwrap();
    target
        .place_tile(
            Coordinates(12, 1),
            TilePlacement::new(TilePathType::Normal(TilePath::Center90), Rotation::Clockwise0),
        )
        .unwrap();
    let res = target.no_encircles((Coordinates(12, 1), Offset(0, -1)));
    assert!(res.is_ok());
}

#[test]
fn no_encircle_doesnt_prevent_game_end() {
    let mut target = Board::new();
    target
        .place_tile(
            Coordinates(12, 19),
            TilePlacement::new(TilePathType::Normal(TilePath::Straight), Rotation::Clockwise0),
        )
        .unwrap();
    target
        .place_tile(
            Coordinates(12, 20),
            TilePlacement::new(TilePathType::Normal(TilePath::Straight), Rotation::Clockwise0),
        )
        .unwrap();
    target
        .place_tile(
            Coordinates(12, 21),
            TilePlacement::new(TilePathType::Normal(TilePath::Straight), Rotation::Clockwise0),
        )
        .unwrap();
    let res = target.no_encircles((Coordinates(12, 21), Offset(0, 1)));
    assert!(res.is_ok());
}

#[test]
fn new_board_bonuses_mirror_across_the_middle_row() {
    let target = Board::new();
    assert_eq!(target.cell(Coordinates(3, 12)).unwrap().bonus(), 220);
    assert_eq!(target.cell(Coordinates(17, 12)).unwrap().bonus(), 220);
    assert_eq!(target.cell(Coordinates(10, 10)).unwrap().bonus(), -60);
    assert_eq!(target.cell(Coordinates(0, 0)).unwrap().bonus(), 0);
    assert_eq!(target.cell(Coordinates(0, 21)).unwrap().bonus(), 50);
    assert_eq!(target.cell(Coordinates(20, 21)).unwrap().bonus(), 50);
    assert_eq!(target.last_placement(), (Coordinates(10, -1), Offset(0, 1)));
    assert_eq!(target.height(), 21);
    assert_eq!(target.width(), 21);
}

#[test]
fn place_tile_errors() {
    let mut target = Board::new();
    let tp = TilePlacement::new(TilePathType::Normal(TilePath::Straight), Rotation::Clockwise0);
    let score = target.place_tile(Coordinates(3, 12), tp).unwrap();
    assert_eq!(score.add(), 230);
    assert_eq!(score.sub(), 0);
    let err = target.place_tile(Coordinates(3, 12), tp).unwrap_err();
    assert_eq!(err.msg, "There’s already a tile there");
    assert!(err.coordinates.contains(Coordinates(3, 12)));
    let err = target.place_tile(Coordinates(21, 3), tp).unwrap_err();
    assert_eq!(err.msg, "Invalid coordinates");
}

#[test]
fn rotate_remove_and_update_on_the_board() {
    let mut target = Board::new();
    let c = Coordinates(1, 6);
    assert_eq!(target.rotate_tile(c, Rotation::Clockwise90).unwrap_err().msg, "Cell is empty");
    assert_eq!(
        target.rotate_tile(Coordinates(-1, 0), Rotation::Clockwise90).unwrap_err().msg,
        "Invalid coordinates"
    );
    let tp = TilePlacement::new(TilePathType::Universal(TilePath::Left45), Rotation::Clockwise0);
    let placed = target.place_tile(c, tp).unwrap();
    assert_eq!(placed.add(), 35);
    assert_eq!(placed.sub(), 80);
    target.rotate_tile(c, Rotation::Clockwise180).unwrap();
    assert_eq!(target.cell(c).unwrap().tile().unwrap().rotation(), Rotation::Clockwise180);
    assert!(matches!(target.update_universal_path(c, TilePath::Corner90), Ok(TilePath::Left45)));
    assert!(matches!(
        target.update_universal_path(Coordinates(0, 0), TilePath::Corner90),
        Err(Error::Cell(e)) if e.msg == "Cell is empty"
    ));
    let (removed, score) = target.remove_tile(c).unwrap();
    assert_eq!(removed.tile_path_type(), &TilePathType::Universal(TilePath::Corner90));
    assert_eq!(score, -placed);
    assert!(target.remove_tile(c).is_none());
}

#[test]
fn move_tile_restores_on_failure() {
    let mut target = Board::new();
    let tp = TilePlacement::new(TilePathType::Normal(TilePath::Straight), Rotation::Clockwise0);
    target.place_tile(Coordinates(10, 0), tp).unwrap();
    target.place_tile(Coordinates(10, 1), tp).unwrap();
    let err = target.move_tile(Coordinates(10, 0), Coordinates(10, 1)).unwrap_err();
    assert_eq!(err.msg, "There’s already a tile there");
    assert!(target.has_tile(Coordinates(10, 0)));
    let err = target.move_tile(Coordinates(9, 0), Coordinates(9, 1)).unwrap_err();
    assert_eq!(err.msg, "Can’t move tile when there’s no tile at old coordinates");
    // a move between cells of different bonuses changes the score by the difference
    let change = target.move_tile(Coordinates(10, 0), Coordinates(10, 10)).unwrap();
    assert_eq!(change.score(), -60);
    assert!(!target.has_tile(Coordinates(10, 0)));
}

#[test]
fn get_cell_by_row_and_column() {
    let target = Board::new();
    assert_eq!(target.get_cell(7, 18).unwrap().bonus(), 250);
    assert_eq!(target.get_cell(7, 23).unwrap_err(), "Invalid coordinates");
}

#[test]
fn validate_end_of_game_cells_cases() {
    assert!(matches!(
        Board::validate_end_of_game_cells(0, (Coordinates(3, 3), Offset(0, 1))),
        Ok(false)
    ));
    assert!(matches!(
        Board::validate_end_of_game_cells(1, (Coordinates(3, 21), Offset(0, 1))),
        Ok(true)
    ));
    assert!(matches!(
        Board::validate_end_of_game_cells(1, (Coordinates(3, 21), Offset(1, 1))),
        Err(Error::Cell(e)) if e.msg == "Tile in end-of-game column at row 3, column 21 must align with the dot"
    ));
    assert!(matches!(
        Board::validate_end_of_game_cells(1, (Coordinates(3, 20), Offset(0, 1))),
        Err(Error::Cell(e)) if e.msg == "Tile placed in end-of-game column must be the last tile of the river"
    ));
    assert!(matches!(
        Board::validate_end_of_game_cells(2, (Coordinates(3, 21), Offset(0, 1))),
        Err(Error::Msg(m)) if m == "Can’t play more than one tile in the end-of-game column"
    ));
}

#[test]
fn validate_reports_the_first_problem() {
    // a tile of an earlier turn
    let mut target = Board::new();
    let tp = TilePlacement::new(TilePathType::Normal(TilePath::Straight), Rotation::Clockwise0);
    target.place_tile(Coordinates(10, 0), tp).unwrap();
    target.place_tile(Coordinates(10, 1), tp).unwrap();
    let res = target.validate_turns_moves(coordinate_set(&[Coordinates(10, 1)]));
    assert!(matches!(res, Err(Error::Cell(e)) if e.msg == "Can’t reuse a tile from another turn"));
    // a gap in the river
    let mut target = Board::new();
    target.place_tile(Coordinates(10, 1), tp).unwrap();
    let res = target.validate_turns_moves(coordinate_set(&[Coordinates(10, 1)]));
    assert!(matches!(
        res,
        Err(Error::Cell(e)) if e.msg == "Non-contiguous path. Missing tile at row 10, column 0"
    ));
    // a dead end
    let mut target = Board::new();
    target.place_tile(Coordinates(10, 0), tp).unwrap();
    target.place_tile(Coordinates(10, 1), tp).unwrap();
    let res = target.validate_turns_moves(coordinate_set(&[Coordinates(10, 0)]));
    assert!(matches!(
        res,
        Err(Error::Cell(e)) if e.msg == "Can’t play a tile at row 10, column 0 because it dead-ends into the rest of the river at row 10, column 1"
            && e.coordinates.len() == 2
    ));
    // a tile that does not continue the river
    let mut target = Board::new();
    target
        .place_tile(
            Coordinates(10, 0),
            TilePlacement::new(TilePathType::Normal(TilePath::Straight), Rotation::Clockwise90),
        )
        .unwrap();
    let res = target.validate_turns_moves(coordinate_set(&[Coordinates(10, 0)]));
    assert!(matches!(
        res,
        Err(Error::Cell(e)) if e.msg == "Tile and rotation at row 10, column 0 don't align with the rest of the river"
    ));
    // a successful turn moves the end of the river
    let mut target = Board::new();
    target.place_tile(Coordinates(10, 0), tp).unwrap();
    assert!(matches!(target.validate_turns_moves(coordinate_set(&[Coordinates(10, 0)])), Ok(false)));
    assert_eq!(target.last_placement(), (Coordinates(10, 0), Offset(0, 1)));
}

#[test]
fn encircled_river_names_its_open_moves() {
    let mut target = setup_encircled_board();
    target
        .place_tile(
            Coordinates(2, 1),
            TilePlacement {
                rotation: Rotation::Clockwise270,
                tile_path_type: TilePathType::Normal(TilePath::Diagonal),
            },
        )
        .unwrap();
    let err = target.no_encircles((Coordinates(2, 1), Offset(-1, -1))).unwrap_err();
    assert!(err.msg.starts_with(
        "Encircled river path. There are no paths leading to the end of game column from row 1, column 0 with open moves ["
    ));
    assert!(err.msg.ends_with("]"));
    assert!(err.coordinates.contains(Coordinates(1, 0)));
    let err = Board::new()
        .no_encircles((Coordinates(0, 5), Offset(-1, 0)))
        .unwrap_err();
    assert_eq!(
        err.msg,
        "Invalid river path leading to coordinates: row -1, column 5 that are off the board"
    );
}

#[test]
fn open_moves_of_a_new_board() {
    let target = Board::new();
    // from the start arrow every neighbour of row 10, column 0 on the board is open
    let moves = target.open_moves();
    assert_eq!(
        moves,
        vec![Offset(-1, 1), Offset(0, 1), Offset(1, 1), Offset(1, 0), Offset(-1, 0)]
    );
}

#[test]
fn no_crossover_on_orthogonal_offsets() {
    let target = Board::new();
    assert!(target.no_crossover(Coordinates(5, 5), Offset(0, 1)).is_ok());
    assert!(target.no_crossover(Coordinates(5, 5), Offset(1, 1)).is_ok());
}

#[test]
fn cell_with_large_bonus_scores_exactly() {
    let straight = TilePlacement::new(TilePathType::normal(TilePath::Straight), Rotation::Clockwise0);
    let mut big = Cell::with_bonus(32000);
    let s = big.set_tile(straight);
    assert_eq!(s, nile::score::TurnScore::new(32010, 0));
    let mut penalty = Cell::with_bonus(-32000);
    let s = penalty.set_tile(straight);
    assert_eq!(s, nile::score::TurnScore::new(10, 32000));
    let (_, undo) = penalty.remove_tile().unwrap();
    assert_eq!(undo, nile::score::TurnScore::new(-10, -32000));
}
