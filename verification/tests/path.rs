use nile::board::TilePlacement;
use nile::log::TilePlacementEvent;
use nile::path::{eval_placement, offsets_to_tile_placement, tile_path_to_tile, Offset, TilePath, TilePathType};
use nile::tile::{Coordinates, Rotation, Tile};

#[test]
fn wrong_coordinates() {
    let res = eval_placement(
        (Coordinates(0, 0), Offset(1, 1)),
        &TilePlacementEvent {
            tile_path_type: TilePathType::Normal(TilePath::Diagonal),
            rotation: Rotation::Clockwise90,
            coordinates: Coordinates(0, 1),
        },
    );
    assert!(matches!(res, Err(e) if e.msg.contains("doesn't align")));
}

#[test]
fn wrong_tile() {
    let res = eval_placement(
        (Coordinates(0, 0), Offset(1, 1)),
        &TilePlacementEvent {
            tile_path_type: TilePathType::Normal(TilePath::Straight),
            rotation: Rotation::Clockwise0,
            coordinates: Coordinates(1, 1),
        },
    );
    assert!(matches!(res, Err(e) if e.msg.starts_with("Tile and rotation")));
}

#[test]
fn wrong_rotation() {
    let res = eval_placement(
        (Coordinates(0, 0), Offset(1, 1)),
        &TilePlacementEvent {
            tile_path_type: TilePathType::Normal(TilePath::Diagonal),
            rotation: Rotation::Clockwise0,
            coordinates: Coordinates(1, 1),
        },
    );
    assert!(matches!(res, Err(e) if e.msg.starts_with("Tile and rotation")));
}

#[test]
fn ok_new_offset() {
    let res = eval_placement(
        (Coordinates(10, 0), Offset(-1, 1)),
        &TilePlacementEvent {
            tile_path_type: TilePathType::Normal(TilePath::Left135),
            rotation: Rotation::Clockwise0,
            coordinates: Coordinates(9, 1),
        },
    );
    assert!(matches!(res, Ok((Coordinates(9, 1), Offset(1, 0)))));
}

#[test]
fn left45_second_play() {
    let res = eval_placement(
        (Coordinates(10, 0), Offset(1, 0)),
        &TilePlacementEvent {
            tile_path_type: TilePathType::Normal(TilePath::Left45),
            coordinates: Coordinates(11, 0),
            rotation: Rotation::Clockwise180,
        },
    );
    assert!(matches!(res, Ok((Coordinates(11, 0), Offset(1, 1)))));
}

#[test]
fn left45_offset() {
    let offsets: Vec<Offset> = TilePath::Left45
        .offsets()
        .iter()
        .map(|o| o.rotate(Rotation::Clockwise180))
        .collect();
    assert_eq!(offsets, vec![Offset(-1, 0), Offset(1, 1)]);
}

#[test]
fn offsets_to_tile_placement_none() {
    assert!(matches!(
        offsets_to_tile_placement(Offset(1, 0), Offset(-1, 0)),
        None
    ));
}

#[test]
fn offsets_to_tile_placement_some() {
    let tp = offsets_to_tile_placement(Offset(1, 1), Offset(-1, 0)).unwrap();
    assert_eq!(
        tp,
        TilePlacement::new(TilePathType::Normal(TilePath::Right135), Rotation::Clockwise180)
    );

    let tp = offsets_to_tile_placement(Offset(0, -1), Offset(1, 0)).unwrap();
    assert_eq!(
        tp,
        TilePlacement::new(TilePathType::Normal(TilePath::Center90), Rotation::Clockwise270)
    );
}

#[test]
fn eval_placement_messages_name_the_cell() {
    let res = eval_placement(
        (Coordinates(0, 0), Offset(1, 1)),
        &TilePlacementEvent {
            tile_path_type: TilePathType::Normal(TilePath::Diagonal),
            rotation: Rotation::Clockwise90,
            coordinates: Coordinates(0, 1),
        },
    );
    assert!(matches!(res, Err(e) if e.msg == "Tile at row 0, column 1 doesn't align with the rest of the river"));
}

#[test]
fn tile_path_types_and_tiles() {
    assert_eq!(tile_path_to_tile(TilePath::Corner90), Tile::Corner90);
    assert_eq!(TilePathType::from(Tile::Universal), TilePathType::Universal(TilePath::Straight));
    assert_eq!(TilePathType::from(Tile::Left45), TilePathType::Normal(TilePath::Left45));
    assert_eq!(Tile::from(TilePathType::Universal(TilePath::Left45)), Tile::Universal);
    assert_eq!(TilePathType::Universal(TilePath::Left45).score(), 35);
    assert!(TilePathType::tile_into_normal(Tile::Universal).is_err());
    assert_eq!(
        TilePathType::tile_into_universal(Tile::Diagonal).unwrap(),
        TilePathType::Universal(TilePath::Diagonal)
    );
    assert!(Offset(1, -1).is_diagonal());
    assert_eq!(Offset(1, 0).rotate(Rotation::Clockwise90), Offset(0, -1));
    assert_eq!(-Offset(1, -1), Offset(-1, 1));
    assert_eq!(Coordinates(3, 4) + Offset(-1, 1), Coordinates(2, 5));
}

#[test]
fn tile_path_try_from_tile() {
    assert_eq!(TilePath::try_from(Tile::Left45), Ok(TilePath::Left45));
    assert_eq!(
        TilePath::try_from(Tile::Universal),
        Err("Can't convert universal tile to tile path".to_owned())
    );
}

#[test]
fn coordinates_text() {
    assert_eq!(Coordinates(3, -1).to_string(), "row 3, column -1");
}
