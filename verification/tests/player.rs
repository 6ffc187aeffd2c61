use nile::player::{Player, TileArray};
use nile::score::TurnScore;
use nile::tile::{Tile, TileBox};

fn setup() -> (TileBox, Player) {
    let mut tile_box = TileBox::default();
    let target = Player::new("Test".to_owned(), &mut tile_box, false);
    (tile_box, target)
}

#[test]
fn adding_score_changes_score() {
    let (_, mut target) = setup();
    let turn_score = TurnScore { add: 7, sub: 7 };
    let updated_score = target.add_score(turn_score);
    assert_eq!(updated_score, turn_score);
}

/// Adding opposite scores returns the original score
#[test]
fn opposite_returns_original_score() {
    let (_, mut target) = setup();
    let score = TurnScore { add: 30, sub: 10 };
    let mut current_score = target.add_score(score);
    assert_eq!(current_score, score);
    current_score = target.add_score(-score);
    assert_eq!(current_score, TurnScore { add: 0, sub: 0 });
}

#[test]
fn end_turn_updates_scores() {
    let (mut tile_box, mut target) = setup();
    assert!(target.scores().is_empty());
    target.add_score(TurnScore { add: 10, sub: 10 });
    let current_score = target.add_score(TurnScore { add: 25, sub: 60 });
    assert_eq!(current_score, TurnScore { add: 35, sub: 70 });
    assert_eq!(current_score, target.end_turn(&mut tile_box));
    assert_eq!(target.scores(), &vec![TurnScore { add: 35, sub: 70 }]);
}

#[test]
fn end_turn_adds_used_all_tiles_bonus() {
    let (mut tile_box, mut target) = setup();
    for tile in target.tiles().as_slice().to_vec() {
        target.place_tile(tile);
    }
    assert_eq!(TurnScore { add: 20, sub: 0 }, target.end_turn(&mut tile_box));
}

#[test]
fn cant_play_score() {
    let (mut tile_box, mut target) = setup();
    assert!(target.scores().is_empty());
    let expected_score = target
        .tiles()
        .as_slice()
        .iter()
        .fold(0i16, |acc, t| acc - t.score());
    let res = target.cant_play(&mut tile_box);
    assert_eq!(res.score(), expected_score);
    // Previously can't play would return the correct score but store a score with an added 20
    // points for using all tiles.
    assert_eq!(
        target.scores(),
        &vec![TurnScore {
            add: 0,
            sub: -expected_score
        }]
    );
}

#[test]
fn new_player_draws_five_tiles_from_the_front_of_the_box() {
    let mut tile_box = TileBox::default();
    let front: Vec<Tile> = tile_box.tiles().iter().take(5).cloned().collect();
    let target = Player::new("Ann".to_owned(), &mut tile_box, true);
    assert_eq!(target.tiles().as_slice().to_vec(), front);
    assert_eq!(tile_box.len(), 99);
    assert_eq!(target.name(), "Ann");
    assert!(target.is_cpu());
    assert_eq!(target.total_score(), 0);
}

#[test]
fn place_tile_takes_the_first_matching_tile() {
    let mut tile_box = TileBox::new(vec![
        Tile::Straight,
        Tile::Left45,
        Tile::Straight,
        Tile::Universal,
        Tile::Diagonal,
    ]);
    let mut target = Player::new("Bo".to_owned(), &mut tile_box, false);
    let before = target.tiles().as_slice().to_vec();
    assert!(target.place_tile(Tile::Corner90).is_none());
    assert_eq!(target.tiles().as_slice().to_vec(), before);
    if before.contains(&Tile::Straight) {
        assert_eq!(target.place_tile(Tile::Straight), Some(Tile::Straight));
        let mut expected = before.clone();
        let i = before.iter().position(|t| *t == Tile::Straight).unwrap();
        expected.remove(i);
        assert_eq!(target.tiles().as_slice().to_vec(), expected);
        target.return_tile(Tile::Straight);
        expected.push(Tile::Straight);
        assert_eq!(target.tiles().as_slice().to_vec(), expected);
    }
}

#[test]
fn rack_refills_only_as_far_as_the_box_goes() {
    let mut tile_box = TileBox::new(vec![Tile::Straight, Tile::Left45]);
    let mut target = Player::new("Cy".to_owned(), &mut tile_box, false);
    assert_eq!(target.tiles().len(), 2);
    assert_eq!(tile_box.len(), 0);
    target.place_tile(Tile::Straight);
    target.place_tile(Tile::Left45);
    assert!(target.rack_is_empty());
    target.end_turn(&mut tile_box);
    assert!(target.rack_is_empty());
    assert_eq!(target.total_score(), 20);
}

#[test]
fn total_score_sums_completed_turns() {
    let (mut tile_box, mut target) = setup();
    target.add_score(TurnScore::new(100, 30));
    target.end_turn(&mut tile_box);
    target.add_score(TurnScore::new(5, 60));
    target.end_turn(&mut tile_box);
    assert_eq!(target.total_score(), 15);
    assert_eq!(target.current_turn_score(), TurnScore::default());
}

#[test]
fn tile_array_from_tiles() {
    let rack = TileArray::from_vec(vec![Tile::Left135, Tile::Universal]);
    assert_eq!(rack.len(), 2);
    assert_eq!(rack.as_slice(), &[Tile::Left135, Tile::Universal]);
    assert_eq!(rack.clone().as_slice(), rack.as_slice());
    assert_eq!(TileArray::new().len(), 0);
}

#[test]
fn player_return_tile_beyond_a_full_rack() {
    let mut tile_box = TileBox::default();
    let mut player = Player::new("p".to_owned(), &mut tile_box, false);
    assert_eq!(player.tiles().len(), 5);
    player.return_tile(Tile::Universal);
    assert_eq!(player.tiles().len(), 6);
    let s = player.end_turn(&mut tile_box);
    assert_eq!(player.tiles().len(), 6);
    assert_eq!(s, TurnScore::default());
}
