use nile::tile::{CoordinateSet, Coordinates, Tile, TileBox};

#[test]
fn tile_draw_removes_tile_from_box() {
    let mut target = TileBox::default();
    let original_size = target.tiles().len();
    target.draw();
    assert!(target.tiles().len() == original_size - 1);
}

#[test]
fn tile_draw_empty() {
    let mut target = TileBox::new(Vec::new());
    assert!(matches!(target.draw(), None));
}

#[test]
fn tile_discard_inserts() {
    let mut target = TileBox::new(vec![Tile::Corner90, Tile::Straight]);
    let original_size = target.tiles().len();
    let discarded_tiles = vec![Tile::Universal, Tile::Left135];
    let discarded_size = discarded_tiles.len();
    target.discard(discarded_tiles);
    assert_eq!(target.tiles().len(), original_size + discarded_size);
    assert!(target.tiles().contains(&Tile::Universal));
    assert!(target.tiles().contains(&Tile::Left135));
}

#[test]
fn tile_insert_at_random_when_empty() {
    let mut target = TileBox::new(Vec::new());
    target.insert_at_random(Tile::Corner90);
    assert_eq!(target.tiles()[0], Tile::Corner90)
}

#[test]
fn default_box_holds_the_tiles_of_the_game() {
    let target = TileBox::default();
    assert_eq!(target.len(), 104);
    let count = |t: Tile| target.tiles().iter().filter(|x| **x == t).count();
    assert_eq!(count(Tile::Straight), 20);
    assert_eq!(count(Tile::Diagonal), 20);
    assert_eq!(count(Tile::Universal), 4);
    assert_eq!(count(Tile::Left135), 10);
}

#[test]
fn new_box_shuffles_but_keeps_the_tiles() {
    let tiles = vec![Tile::Straight, Tile::Left45, Tile::Left45, Tile::Universal];
    let mut target = TileBox::new(tiles.clone());
    let mut drawn = Vec::new();
    while let Some(t) = target.draw() {
        drawn.push(t);
    }
    let mut a = drawn.iter().map(|t| t.score()).collect::<Vec<_>>();
    let mut b = tiles.iter().map(|t| t.score()).collect::<Vec<_>>();
    a.sort();
    b.sort();
    assert_eq!(a, b);
}

#[test]
fn tile_scores() {
    assert_eq!(Tile::Straight.score(), 10);
    assert_eq!(Tile::Right45.score(), 8);
    assert_eq!(Tile::Left135.score(), 5);
    assert_eq!(Tile::Universal.score(), 35);
    assert_eq!(nile::tile::tile_score(Tile::Corner90), 10);
}

#[test]
fn coordinate_set_operations() {
    let mut s = CoordinateSet::new();
    assert!(s.is_empty());
    assert!(s.insert(Coordinates(1, 2)));
    assert!(!s.insert(Coordinates(1, 2)));
    assert!(s.insert(Coordinates::new(3, 4)));
    assert_eq!(s.len(), 2);
    assert!(s.contains(Coordinates(3, 4)));
    assert!(s.remove(Coordinates(1, 2)));
    assert!(!s.remove(Coordinates(1, 2)));
    assert_eq!(s.to_vec(), vec![Coordinates(3, 4)]);
    s.clear();
    assert!(s.is_empty());
}

#[test]
fn tile_discard_keeps_order_of_box() {
    let mut target = TileBox::new(vec![Tile::Corner90, Tile::Straight, Tile::Diagonal]);
    let before: Vec<Tile> = target.tiles().iter().copied().collect();
    target.discard(vec![Tile::Universal, Tile::Left135]);
    let after: Vec<Tile> = target.tiles().iter().copied().collect();
    assert_eq!(after.len(), 5);
    // the earlier tiles appear in `after` in their order
    let mut k = 0;
    for t in after.iter() {
        if k < before.len() && *t == before[k] {
            k += 1;
        }
    }
    assert_eq!(k, before.len());
    assert!(after.contains(&Tile::Universal));
    assert!(after.contains(&Tile::Left135));
}
