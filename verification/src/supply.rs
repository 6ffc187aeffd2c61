//! The tiles of a game are neither made nor lost: every move takes them from
//! one of the box, the racks and the board to another.
use crate::board::{
    cell_at_index, cell_count, has_tile_at, index_of_cell, lemma_cell_at_index,
    lemma_index_of_cell, on_board, put, view_wf, BoardView, Cell,
};
use crate::nile::{
    advanced, after_cant_play, current, is_new_board, is_new_game, nile_wf, spec_end_turn,
    spec_move, spec_place, spec_remove, spec_rotate, spec_update_path, with_current, NileView,
};
use crate::path::{tile_of_type, TilePath, TilePathType};
use crate::player::{filled, first_index, PlayerView};
use crate::tile::{standard_tiles, Coordinates, Rotation, Tile};
use vstd::multiset::Multiset;
use vstd::prelude::*;

verus! {

broadcast use {vstd::multiset::group_multiset_axioms, vstd::seq_lib::group_to_multiset_ensures};

/// What counting the tiles of a game needs of it: a board of the right
/// shape and a player whose turn it is; every game satisfies it
pub open spec fn countable(n: NileView) -> bool {
    &&& view_wf(n.board)
    &&& 0 <= n.current_turn < n.players.len()
}

/// The tile in the cell at `c`: one tile or none
pub open spec fn cell_tiles(v: BoardView, c: Coordinates) -> Multiset<Tile> {
    if has_tile_at(v, c) {
        Multiset::singleton(tile_of_type(v.cells[c].tile.unwrap().tile_path_type))
    } else {
        Multiset::empty()
    }
}

/// The tiles in the first `k` cells of the board
pub open spec fn tiles_upto(v: BoardView, k: nat) -> Multiset<Tile>
    decreases k,
{
    if k == 0 {
        Multiset::empty()
    } else {
        tiles_upto(v, (k - 1) as nat).add(cell_tiles(v, cell_at_index(k - 1)))
    }
}

/// The tiles on the board
pub open spec fn board_tiles(v: BoardView) -> Multiset<Tile> {
    tiles_upto(v, cell_count())
}

/// The tiles on the racks of the first `k` players
pub open spec fn racks_tiles(ps: Seq<PlayerView>, k: nat) -> Multiset<Tile>
    decreases k,
{
    if k == 0 || k > ps.len() {
        Multiset::empty()
    } else {
        racks_tiles(ps, (k - 1) as nat).add(ps[k - 1].rack.to_multiset())
    }
}

/// Every tile of the game: in the box, on the racks and on the board
pub open spec fn game_tiles(n: NileView) -> Multiset<Tile> {
    n.tile_box.to_multiset().add(racks_tiles(n.players, n.players.len())).add(
        board_tiles(n.board),
    )
}

proof fn lemma_same_cells(v: BoardView, w: BoardView, k: nat)
    requires
        v.cells == w.cells,
    ensures
        tiles_upto(v, k) == tiles_upto(w, k),
    decreases k,
{
    if k > 0 {
        lemma_same_cells(v, w, (k - 1) as nat);
    }
}

/// Replacing the cell at `c` exchanges its tile in the tiles of the first `k`
/// cells, where `c` is one of them
proof fn lemma_put_upto(v: BoardView, c: Coordinates, cell: Cell, k: nat)
    requires
        on_board(c),
        k <= cell_count(),
    ensures
        forall|x: Tile|
            #[trigger] tiles_upto(put(v, c, cell), k).count(x) + (if index_of_cell(c) < k {
                cell_tiles(v, c).count(x)
            } else {
                0
            }) == tiles_upto(v, k).count(x) + (if index_of_cell(c) < k {
                cell_tiles(put(v, c, cell), c).count(x)
            } else {
                0
            }),
    decreases k,
{
    lemma_index_of_cell(c);
    if k > 0 {
        lemma_put_upto(v, c, cell, (k - 1) as nat);
        let d = cell_at_index(k - 1);
        lemma_cell_at_index(k - 1);
        let w = put(v, c, cell);
        if d != c {
            assert(cell_tiles(w, d) == cell_tiles(v, d));
        }
        assert forall|x: Tile|
            #[trigger] tiles_upto(w, k).count(x) + (if index_of_cell(c) < k {
                cell_tiles(v, c).count(x)
            } else {
                0
            }) == tiles_upto(v, k).count(x) + (if index_of_cell(c) < k {
                cell_tiles(w, c).count(x)
            } else {
                0
            }) by {
            assert(tiles_upto(w, k).count(x) == tiles_upto(w, (k - 1) as nat).count(x) + cell_tiles(
                w,
                d,
            ).count(x));
            assert(tiles_upto(v, k).count(x) == tiles_upto(v, (k - 1) as nat).count(x) + cell_tiles(
                v,
                d,
            ).count(x));
            assert(tiles_upto(w, (k - 1) as nat).count(x) + (if index_of_cell(c) < k - 1 {
                cell_tiles(v, c).count(x)
            } else {
                0
            }) == tiles_upto(v, (k - 1) as nat).count(x) + (if index_of_cell(c) < k - 1 {
                cell_tiles(w, c).count(x)
            } else {
                0
            }));
        }
    }
}

/// Replacing the cell at `c` exchanges its tile among the tiles on the board
proof fn lemma_put_board(v: BoardView, c: Coordinates, cell: Cell)
    requires
        on_board(c),
    ensures
        forall|x: Tile|
            #[trigger] board_tiles(put(v, c, cell)).count(x) + cell_tiles(v, c).count(x)
                == board_tiles(v).count(x) + cell_tiles(put(v, c, cell), c).count(x),
{
    lemma_index_of_cell(c);
    lemma_put_upto(v, c, cell, cell_count());
    assert forall|x: Tile|
        #[trigger] board_tiles(put(v, c, cell)).count(x) + cell_tiles(v, c).count(x)
            == board_tiles(v).count(x) + cell_tiles(put(v, c, cell), c).count(x) by {
        assert(tiles_upto(put(v, c, cell), cell_count()).count(x) + cell_tiles(v, c).count(x)
            == tiles_upto(v, cell_count()).count(x) + cell_tiles(put(v, c, cell), c).count(x));
    }
}

/// Replacing the rack of player `i` exchanges it among the tiles of the racks
proof fn lemma_racks_update(ps: Seq<PlayerView>, i: int, p: PlayerView, k: nat)
    requires
        0 <= i < ps.len(),
        k <= ps.len(),
    ensures
        forall|x: Tile|
            #[trigger] racks_tiles(ps.update(i, p), k).count(x) + (if i < k {
                ps[i].rack.to_multiset().count(x)
            } else {
                0
            }) == racks_tiles(ps, k).count(x) + (if i < k {
                p.rack.to_multiset().count(x)
            } else {
                0
            }),
    decreases k,
{
    if k > 0 {
        lemma_racks_update(ps, i, p, (k - 1) as nat);
        let qs = ps.update(i, p);
        assert forall|x: Tile|
            #[trigger] racks_tiles(qs, k).count(x) + (if i < k {
                ps[i].rack.to_multiset().count(x)
            } else {
                0
            }) == racks_tiles(ps, k).count(x) + (if i < k {
                p.rack.to_multiset().count(x)
            } else {
                0
            }) by {
            assert(racks_tiles(qs, k).count(x) == racks_tiles(qs, (k - 1) as nat).count(x)
                + qs[k - 1].rack.to_multiset().count(x));
            assert(racks_tiles(ps, k).count(x) == racks_tiles(ps, (k - 1) as nat).count(x)
                + ps[k - 1].rack.to_multiset().count(x));
            assert(racks_tiles(qs, (k - 1) as nat).count(x) + (if i < k - 1 {
                ps[i].rack.to_multiset().count(x)
            } else {
                0
            }) == racks_tiles(ps, (k - 1) as nat).count(x) + (if i < k - 1 {
                p.rack.to_multiset().count(x)
            } else {
                0
            }));
        }
    }
}

/// Replacing the player whose turn it is exchanges their rack among the
/// tiles of the game
proof fn lemma_with_current(n: NileView, p: PlayerView)
    requires
        0 <= n.current_turn < n.players.len(),
    ensures
        forall|x: Tile|
            #[trigger] game_tiles(with_current(n, p)).count(x) + current(n).rack.to_multiset().count(
                x,
            ) == game_tiles(n).count(x) + p.rack.to_multiset().count(x),
{
    lemma_racks_update(n.players, n.current_turn, p, n.players.len());
    let m = with_current(n, p);
    assert forall|x: Tile|
        #[trigger] game_tiles(m).count(x) + current(n).rack.to_multiset().count(x)
            == game_tiles(n).count(x) + p.rack.to_multiset().count(x) by {
        assert(racks_tiles(m.players, m.players.len()).count(x) + current(n).rack.to_multiset().count(
            x,
        ) == racks_tiles(n.players, n.players.len()).count(x) + p.rack.to_multiset().count(x));
    }
}

/// Passing the turn moves no tile
proof fn lemma_advanced(n: NileView)
    requires
        n.players.len() > 0,
    ensures
        game_tiles(advanced(n)) == game_tiles(n),
{
}

/// The first place where `t` lies on `s`, where it lies at `k`
proof fn lemma_first_index(s: Seq<Tile>, t: Tile, k: int)
    requires
        0 <= k < s.len(),
        s[k] == t,
    ensures
        0 <= first_index(s, t) < s.len(),
        s[first_index(s, t)] == t,
    decreases k,
{
    if exists|i: int| 0 <= i < k && s[i] == t {
        let i = choose|i: int| 0 <= i < k && s[i] == t;
        lemma_first_index(s, t, i);
    } else {
        assert(0 <= k < s.len() && s[k] == t && forall|i: int| 0 <= i < k ==> s[i] != t);
    }
}

/// Drawing from the box moves tiles from the box to the rack
proof fn lemma_filled(rack: Seq<Tile>, tile_box: Seq<Tile>)
    ensures
        forall|x: Tile|
            #[trigger] filled(rack, tile_box).0.to_multiset().count(x) + filled(
                rack,
                tile_box,
            ).1.to_multiset().count(x) == rack.to_multiset().count(x) + tile_box.to_multiset().count(x),
{
    let k = crate::player::draw_count(rack.len(), tile_box.len()) as int;
    let taken = tile_box.take(k);
    let rest = tile_box.skip(k);
    vstd::seq_lib::lemma_multiset_commutative(rack, taken);
    vstd::seq_lib::lemma_multiset_commutative(taken, rest);
    assert(taken + rest =~= tile_box);
    assert forall|x: Tile|
        #[trigger] filled(rack, tile_box).0.to_multiset().count(x) + filled(
            rack,
            tile_box,
        ).1.to_multiset().count(x) == rack.to_multiset().count(x) + tile_box.to_multiset().count(x) by {
        assert((rack + taken).to_multiset().count(x) == rack.to_multiset().count(x) + taken.to_multiset().count(x));
        assert((taken + rest).to_multiset().count(x) == taken.to_multiset().count(x) + rest.to_multiset().count(x));
    }
}

/// The count of `x` among the tiles of the game, place by place
proof fn lemma_game_count(n: NileView, x: Tile)
    ensures
        game_tiles(n).count(x) == n.tile_box.to_multiset().count(x) + racks_tiles(
            n.players,
            n.players.len(),
        ).count(x) + board_tiles(n.board).count(x),
{
}

/// Placing a tile moves it from the rack to the board; when the cell refuses
/// it, it goes back to the rack
pub proof fn lemma_place_keeps_tiles(
    n: NileView,
    tpt: TilePathType,
    c: Coordinates,
    rotation: Rotation,
)
    requires
        countable(n),
    ensures
        game_tiles(spec_place(n, tpt, c, rotation).1) =~= game_tiles(n),
{
    let tile = tile_of_type(tpt);
    let p = current(n);
    let n1 = spec_place(n, tpt, c, rotation).1;
    if !n.has_ended && p.rack.contains(tile) {
        let k = choose|k: int| 0 <= k < p.rack.len() && p.rack[k] == tile;
        lemma_first_index(p.rack, tile, k);
        let j = first_index(p.rack, tile);
        let rack = p.rack.remove(j);
        assert(rack.to_multiset() == p.rack.to_multiset().remove(tile));
        if !(n.board.cells.contains_key(c) && n.board.cells[c].tile is None) {
            let q = PlayerView { rack: rack.push(tile), ..p };
            lemma_with_current(n, q);
            assert(q.rack.to_multiset() =~= p.rack.to_multiset());
            assert forall|x: Tile| #[trigger] game_tiles(n1).count(x) == game_tiles(n).count(x) by {
                assert(game_tiles(n1).count(x) + p.rack.to_multiset().count(x) == game_tiles(n).count(x) + q.rack.to_multiset().count(x));
            }
        } else {
            let cell = Cell {
                bonus: n.board.cells[c].bonus,
                tile: Some(crate::board::TilePlacement { tile_path_type: tpt, rotation }),
            };
            let q = PlayerView {
                rack,
                current: p.current.wrapping_plus(crate::board::spec_cell_score(cell)),
                ..p
            };
            let m = with_current(n, q);
            lemma_with_current(n, q);
            assert(n.board.cells.contains_key(c));
            assert(on_board(c));
            lemma_put_board(n.board, c, cell);
            assert(cell_tiles(n.board, c) =~= Multiset::empty());
            assert(cell_tiles(put(n.board, c, cell), c) =~= Multiset::singleton(tile));
            assert forall|x: Tile| #[trigger] game_tiles(n1).count(x) == game_tiles(n).count(x) by {
                lemma_game_count(n1, x);
                lemma_game_count(m, x);
                lemma_game_count(n, x);
                assert(game_tiles(m).count(x) + p.rack.to_multiset().count(x) == game_tiles(n).count(x) + q.rack.to_multiset().count(x));
                assert(board_tiles(put(n.board, c, cell)).count(x) + cell_tiles(n.board, c).count(x)
                    == board_tiles(n.board).count(x) + cell_tiles(put(n.board, c, cell), c).count(x));
                if x == tile {
                    assert(p.rack.to_multiset().count(x) == q.rack.to_multiset().count(x) + 1);
                } else {
                    assert(p.rack.to_multiset().count(x) == q.rack.to_multiset().count(x));
                }
            }
        }
    }
}

/// Taking back a tile moves it from the board to the rack
pub proof fn lemma_remove_keeps_tiles(n: NileView, c: Coordinates)
    requires
        nile_wf(n),
    ensures
        game_tiles(spec_remove(n, c).1) =~= game_tiles(n),
{
    if !n.has_ended && n.placements.contains(c) {
        let n1 = spec_remove(n, c).1;
        let p = current(n);
        let cell = n.board.cells[c];
        let tp = cell.tile.unwrap();
        let t = tile_of_type(tp.tile_path_type);
        let emptied = Cell { bonus: cell.bonus, tile: None };
        let q = PlayerView {
            rack: p.rack.push(t),
            current: p.current.wrapping_plus(crate::board::spec_cell_score(cell).negated()),
            ..p
        };
        let m = with_current(n, q);
        lemma_with_current(n, q);
        assert(has_tile_at(n.board, c));
        assert(on_board(c));
        lemma_put_board(n.board, c, emptied);
        assert(cell_tiles(n.board, c) =~= Multiset::singleton(t));
        assert(cell_tiles(put(n.board, c, emptied), c) =~= Multiset::empty());
        assert(q.rack.to_multiset() == p.rack.to_multiset().insert(t));
        assert forall|x: Tile| #[trigger] game_tiles(n1).count(x) == game_tiles(n).count(x) by {
            lemma_game_count(n1, x);
            lemma_game_count(m, x);
            lemma_game_count(n, x);
            assert(game_tiles(m).count(x) + p.rack.to_multiset().count(x) == game_tiles(n).count(x) + q.rack.to_multiset().count(x));
            assert(board_tiles(put(n.board, c, emptied)).count(x) + cell_tiles(n.board, c).count(x)
                == board_tiles(n.board).count(x) + cell_tiles(put(n.board, c, emptied), c).count(x));
        }
    }
}

/// Moving a tile keeps it on the board
pub proof fn lemma_move_keeps_tiles(n: NileView, old_c: Coordinates, new_c: Coordinates)
    requires
        nile_wf(n),
    ensures
        game_tiles(spec_move(n, old_c, new_c).1) =~= game_tiles(n),
{
    if !n.has_ended && n.placements.contains(old_c) {
        let p = current(n);
        let old_cell = n.board.cells[old_c];
        let emptied = put(n.board, old_c, Cell { bonus: old_cell.bonus, tile: None });
        if emptied.cells.contains_key(new_c) && emptied.cells[new_c].tile is None {
            let n1 = spec_move(n, old_c, new_c).1;
            let new_cell = Cell { bonus: emptied.cells[new_c].bonus, tile: old_cell.tile };
            let t = tile_of_type(old_cell.tile.unwrap().tile_path_type);
            assert(has_tile_at(n.board, old_c));
            assert(on_board(old_c));
            lemma_put_board(n.board, old_c, Cell { bonus: old_cell.bonus, tile: None });
            assert(cell_tiles(n.board, old_c) =~= Multiset::singleton(t));
            assert(cell_tiles(emptied, old_c) =~= Multiset::empty());
            assert(on_board(new_c));
            lemma_put_board(emptied, new_c, new_cell);
            assert(cell_tiles(emptied, new_c) =~= Multiset::empty());
            assert(cell_tiles(put(emptied, new_c, new_cell), new_c) =~= Multiset::singleton(t));
            let change = crate::board::spec_cell_score(new_cell).plus(
                crate::board::spec_cell_score(old_cell).negated(),
            );
            let q = PlayerView { current: p.current.wrapping_plus(change), ..p };
            let m = with_current(n, q);
            lemma_with_current(n, q);
            assert forall|x: Tile| #[trigger] game_tiles(n1).count(x) == game_tiles(n).count(x) by {
                lemma_game_count(n1, x);
                lemma_game_count(m, x);
                lemma_game_count(n, x);
                assert(game_tiles(m).count(x) + p.rack.to_multiset().count(x) == game_tiles(n).count(x) + q.rack.to_multiset().count(x));
                assert(board_tiles(emptied).count(x) + cell_tiles(n.board, old_c).count(x)
                    == board_tiles(n.board).count(x) + cell_tiles(emptied, old_c).count(x));
                assert(board_tiles(put(emptied, new_c, new_cell)).count(x) + cell_tiles(emptied, new_c).count(x)
                    == board_tiles(emptied).count(x) + cell_tiles(put(emptied, new_c, new_cell), new_c).count(x));
            }
        }
    }
}

/// Turning a tile keeps it where it is
pub proof fn lemma_rotate_keeps_tiles(n: NileView, c: Coordinates, rotation: Rotation)
    requires
        nile_wf(n),
    ensures
        game_tiles(spec_rotate(n, c, rotation).1) =~= game_tiles(n),
{
    if !n.has_ended && n.placements.contains(c) {
        let n1 = spec_rotate(n, c, rotation).1;
        let cell = n.board.cells[c];
        let turned = Cell {
            bonus: cell.bonus,
            tile: Some(crate::board::TilePlacement { rotation, ..cell.tile.unwrap() }),
        };
        assert(has_tile_at(n.board, c));
        assert(on_board(c));
        lemma_put_board(n.board, c, turned);
        assert(cell_tiles(put(n.board, c, turned), c) =~= cell_tiles(n.board, c));
        assert forall|x: Tile| #[trigger] game_tiles(n1).count(x) == game_tiles(n).count(x) by {
            lemma_game_count(n1, x);
            lemma_game_count(n, x);
            assert(board_tiles(put(n.board, c, turned)).count(x) + cell_tiles(n.board, c).count(x)
                == board_tiles(n.board).count(x) + cell_tiles(put(n.board, c, turned), c).count(x));
        }
    }
}

/// Changing the path a universal tile shows keeps the universal tile
pub proof fn lemma_update_path_keeps_tiles(n: NileView, c: Coordinates, tile_path: TilePath)
    requires
        nile_wf(n),
    ensures
        game_tiles(spec_update_path(n, c, tile_path).1) =~= game_tiles(n),
{
    let cell = n.board.cells[c];
    let tp = cell.tile.unwrap();
    if !n.has_ended && n.placements.contains(c) && tp.tile_path_type is Universal {
        let n1 = spec_update_path(n, c, tile_path).1;
        let updated = Cell {
            bonus: cell.bonus,
            tile: Some(
                crate::board::TilePlacement {
                    tile_path_type: TilePathType::Universal(tile_path),
                    rotation: tp.rotation,
                },
            ),
        };
        assert(has_tile_at(n.board, c));
        assert(on_board(c));
        lemma_put_board(n.board, c, updated);
        assert(cell_tiles(put(n.board, c, updated), c) =~= cell_tiles(n.board, c));
        assert forall|x: Tile| #[trigger] game_tiles(n1).count(x) == game_tiles(n).count(x) by {
            lemma_game_count(n1, x);
            lemma_game_count(n, x);
            assert(board_tiles(put(n.board, c, updated)).count(x) + cell_tiles(n.board, c).count(x)
                == board_tiles(n.board).count(x) + cell_tiles(put(n.board, c, updated), c).count(x));
        }
    }
}

/// Ending a turn draws tiles from the box onto the rack
pub proof fn lemma_end_turn_keeps_tiles(n: NileView)
    requires
        countable(n),
    ensures
        game_tiles(spec_end_turn(n).1) =~= game_tiles(n),
{
    if !n.has_ended && n.placements.len() != 0 {
        if let Ok((ends, lp)) = crate::board::spec_validate(n.board, n.placements) {
            let p = current(n);
            let score = if p.rack.len() == 0 {
                p.current.wrapping_plus(crate::score::TurnScore::spec_new(20, 0))
            } else {
                p.current
            };
            let (rack, tile_box) = filled(p.rack, n.tile_box);
            let q = PlayerView {
                rack,
                scores: p.scores.push(score),
                current: crate::score::TurnScore::spec_new(0, 0),
                ..p
            };
            let w = with_current(n, q);
            lemma_with_current(n, q);
            lemma_filled(p.rack, n.tile_box);
            lemma_same_cells(crate::board::with_last(n.board, lp), n.board, cell_count());
            let m = NileView {
                board: crate::board::with_last(n.board, lp),
                tile_box,
                has_ended: ends,
                cant_play_count: 0,
                ..w
            };
            assert(spec_end_turn(n).1 == advanced(m));
            assert forall|x: Tile| #[trigger] game_tiles(m).count(x) == game_tiles(n).count(x) by {
                lemma_game_count(m, x);
                lemma_game_count(w, x);
                lemma_game_count(n, x);
                assert(game_tiles(w).count(x) + p.rack.to_multiset().count(x) == game_tiles(n).count(x) + q.rack.to_multiset().count(x));
                assert(rack.to_multiset().count(x) + tile_box.to_multiset().count(x) == p.rack.to_multiset().count(x) + n.tile_box.to_multiset().count(x));
            }
            assert(game_tiles(m) =~= game_tiles(n));
            lemma_advanced(m);
        }
    }
}

/// Not being able to play puts the rack back into the box, which is
/// shuffled (into `shuffled`) and drawn from anew
pub proof fn lemma_cant_play_keeps_tiles(n: NileView, shuffled: Seq<Tile>)
    requires
        countable(n),
        shuffled.to_multiset() == n.tile_box.to_multiset().add(current(n).rack.to_multiset()),
    ensures
        game_tiles(after_cant_play(n, shuffled)) =~= game_tiles(n),
{
    let p = current(n);
    let (rack, tile_box) = filled(Seq::empty(), shuffled);
    let q = PlayerView {
        rack,
        scores: p.scores.push(
            crate::score::TurnScore::spec_new(0, crate::player::tiles_score(p.rack) as i16),
        ),
        current: crate::score::TurnScore::spec_new(0, 0),
        ..p
    };
    let w = with_current(n, q);
    lemma_with_current(n, q);
    lemma_filled(Seq::empty(), shuffled);
    assert(Seq::<Tile>::empty().to_multiset() =~= Multiset::empty());
    let count = n.cant_play_count + 1;
    let m = NileView {
        tile_box,
        cant_play_count: count,
        has_ended: count == n.players.len(),
        ..w
    };
    assert forall|x: Tile| #[trigger] game_tiles(m).count(x) == game_tiles(n).count(x) by {
        lemma_game_count(m, x);
        lemma_game_count(w, x);
        lemma_game_count(n, x);
        assert(game_tiles(w).count(x) + p.rack.to_multiset().count(x) == game_tiles(n).count(x) + q.rack.to_multiset().count(x));
        assert(rack.to_multiset().count(x) + tile_box.to_multiset().count(x) == Seq::<Tile>::empty().to_multiset().count(x) + shuffled.to_multiset().count(x));
    }
    assert(game_tiles(m) =~= game_tiles(n));
    lemma_advanced(m);
}

/// An empty board holds no tile
proof fn lemma_empty_board(v: BoardView, k: nat)
    requires
        forall|c: Coordinates| #[trigger] v.cells.contains_key(c) ==> v.cells[c].tile is None,
    ensures
        tiles_upto(v, k) =~= Multiset::empty(),
    decreases k,
{
    if k > 0 {
        lemma_empty_board(v, (k - 1) as nat);
        assert(cell_tiles(v, cell_at_index(k - 1)) =~= Multiset::empty());
    }
}

/// Racks dealt five tiles each from `dealt` hold its first tiles
proof fn lemma_dealt_racks(ps: Seq<PlayerView>, dealt: Seq<Tile>, k: nat)
    requires
        k <= ps.len(),
        5 * ps.len() <= dealt.len(),
        forall|i: int| 0 <= i < ps.len() ==> (#[trigger] ps[i]).rack == dealt.subrange(5 * i, 5 * i + 5),
    ensures
        forall|x: Tile|
            #[trigger] racks_tiles(ps, k).count(x) == dealt.take(5 * k as int).to_multiset().count(x),
    decreases k,
{
    if k == 0 {
        assert(dealt.take(0) =~= Seq::<Tile>::empty());
        assert(Seq::<Tile>::empty().to_multiset() =~= Multiset::empty());
    } else {
        lemma_dealt_racks(ps, dealt, (k - 1) as nat);
        let before = dealt.take(5 * (k - 1) as int);
        let rack = dealt.subrange(5 * (k - 1) as int, 5 * k as int);
        assert(before + rack =~= dealt.take(5 * k as int));
        vstd::seq_lib::lemma_multiset_commutative(before, rack);
        assert forall|x: Tile|
            #[trigger] racks_tiles(ps, k).count(x) == dealt.take(5 * k as int).to_multiset().count(x) by {
            assert(racks_tiles(ps, k).count(x) == racks_tiles(ps, (k - 1) as nat).count(x)
                + ps[k - 1].rack.to_multiset().count(x));
            assert((before + rack).to_multiset().count(x) == before.to_multiset().count(x)
                + rack.to_multiset().count(x));
        }
    }
}

/// A new game holds the standard set of tiles, in the box and on the racks
pub proof fn lemma_new_game_tiles(n: NileView, names: Seq<String>, cpu: nat)
    requires
        is_new_game(n, names, cpu),
        names.len() + cpu <= 4,
    ensures
        game_tiles(n) =~= standard_tiles().to_multiset(),
{
    let count = names.len() + cpu;
    let dealt = choose|dealt: Seq<Tile>|
        #![trigger dealt.to_multiset()]
        dealt.to_multiset() == standard_tiles().to_multiset() && dealt.len() == 104 && (forall|
            i: int,
        |
            0 <= i < count ==> (#[trigger] n.players[i]).rack == dealt.subrange(5 * i, 5 * i + 5))
            && n.tile_box == dealt.skip(5 * count as int);
    lemma_dealt_racks(n.players, dealt, count);
    lemma_empty_board(n.board, cell_count());
    let taken = dealt.take(5 * count as int);
    assert(taken + n.tile_box =~= dealt);
    vstd::seq_lib::lemma_multiset_commutative(taken, n.tile_box);
    assert forall|x: Tile| #[trigger] game_tiles(n).count(x) == standard_tiles().to_multiset().count(x) by {
        lemma_game_count(n, x);
        assert((taken + n.tile_box).to_multiset().count(x) == taken.to_multiset().count(x)
            + n.tile_box.to_multiset().count(x));
    }
}

/// Two games that agree on everything but the rack of the player whose turn
/// it is, and hold the same tiles, have that rack's tiles in common
pub proof fn lemma_rack_from_game_tiles(n0: NileView, n1: NileView)
    requires
        0 <= n0.current_turn < n0.players.len(),
        n1.current_turn == n0.current_turn,
        n1.players.len() == n0.players.len(),
        forall|i: int|
            0 <= i < n0.players.len() && i != n0.current_turn ==> #[trigger] n1.players[i]
                == n0.players[i],
        n1.tile_box == n0.tile_box,
        n1.board == n0.board,
        game_tiles(n1) == game_tiles(n0),
    ensures
        current(n1).rack.to_multiset() =~= current(n0).rack.to_multiset(),
{
    let w = with_current(n0, current(n1));
    assert(n1.players =~= w.players);
    lemma_with_current(n0, current(n1));
    assert forall|x: Tile| #[trigger] current(n1).rack.to_multiset().count(x)
        == current(n0).rack.to_multiset().count(x) by {
        lemma_game_count(w, x);
        lemma_game_count(n1, x);
        assert(game_tiles(w).count(x) + current(n0).rack.to_multiset().count(x)
            == game_tiles(n0).count(x) + current(n1).rack.to_multiset().count(x));
    }
}

/// Placing tiles keeps a game countable
proof fn lemma_place_countable(n: NileView, tpt: TilePathType, c: Coordinates, rotation: Rotation)
    requires
        countable(n),
    ensures
        countable(spec_place(n, tpt, c, rotation).1),
{
    let n1 = spec_place(n, tpt, c, rotation).1;
    assert forall|d: Coordinates| #[trigger] n1.board.cells.contains_key(d) <==> on_board(d) by {
        assert(n.board.cells.contains_key(d) <==> on_board(d));
    }
    assert forall|d: Coordinates| #[trigger] n1.board.cells.contains_key(d) implies crate::board::sane_bonus(
        n1.board.cells[d].bonus,
    ) by {
        assert(n.board.cells.contains_key(d));
    }
}

/// Placing a sequence of tiles makes and loses no tile
proof fn lemma_place_all_keeps_tiles(n: NileView, ps: Seq<crate::log::TilePlacementEvent>)
    requires
        countable(n),
    ensures
        countable(crate::nile::place_all(n, ps).1),
        game_tiles(crate::nile::place_all(n, ps).1) == game_tiles(n),
    decreases ps.len(),
{
    if ps.len() > 0 {
        lemma_place_all_keeps_tiles(n, ps.drop_last());
        let (ok, m) = crate::nile::place_all(n, ps.drop_last());
        if ok {
            let p = ps.last();
            lemma_place_keeps_tiles(m, p.tile_path_type, p.coordinates, p.rotation);
            lemma_place_countable(m, p.tile_path_type, p.coordinates, p.rotation);
        }
    }
}

/// A computer player's turn makes and loses no tile: it places tiles from
/// its rack and draws from the box, or takes its tiles back, puts its rack
/// into the box and draws anew
pub proof fn lemma_cpu_turn_keeps_tiles(n0: NileView, n1: NileView)
    requires
        nile_wf(n0),
        crate::nile::cpu_turn(n0, n1),
    ensures
        game_tiles(n1) =~= game_tiles(n0),
{
    if crate::nile::cpu_can_play(n0) {
        let ps = crate::nile::cpu_moves(n0).unwrap().placements;
        lemma_place_all_keeps_tiles(n0, ps);
        lemma_end_turn_keeps_tiles(crate::nile::place_all(n0, ps).1);
    } else {
        let (mid, shuffled) = choose|mid: NileView, shuffled: Seq<Tile>|
            #![trigger after_cant_play(mid, shuffled)]
            crate::nile::rolled_back(n0, mid) && shuffled.to_multiset() == mid.tile_box.to_multiset().add(
                current(mid).rack.to_multiset(),
            ) && n1 == after_cant_play(mid, shuffled);
        let w = with_current(n0, current(mid));
        lemma_with_current(n0, current(mid));
        assert(mid.players =~= w.players);
        assert forall|x: Tile| #[trigger] game_tiles(mid).count(x) == game_tiles(n0).count(x) by {
            assert(game_tiles(w).count(x) + current(n0).rack.to_multiset().count(x)
                == game_tiles(n0).count(x) + current(mid).rack.to_multiset().count(x));
            lemma_game_count(w, x);
            lemma_game_count(mid, x);
        }
        lemma_cant_play_keeps_tiles(mid, shuffled);
    }
}

/// Replaying an event of the log makes and loses no tile, so neither undoing
/// nor redoing does
pub proof fn lemma_dispatch_keeps_tiles(e: crate::nile::EngineView, ev: crate::log::Event)
    requires
        nile_wf(e.nile),
    ensures
        game_tiles(crate::nile::spec_dispatch(e, ev).1.nile) =~= game_tiles(e.nile),
{
    match ev {
        crate::log::Event::PlaceTile(tpe) => lemma_place_keeps_tiles(
            e.nile,
            tpe.tile_path_type,
            tpe.coordinates,
            tpe.rotation,
        ),
        crate::log::Event::RotateTile(re) => lemma_rotate_keeps_tiles(
            e.nile,
            re.new.coordinates,
            re.new.rotation,
        ),
        crate::log::Event::RemoveTile(tpe) => lemma_remove_keeps_tiles(e.nile, tpe.coordinates),
        crate::log::Event::UpdateUniversalPath(uup) => lemma_update_path_keeps_tiles(
            e.nile,
            uup.coordinates,
            uup.new_tile_path,
        ),
        crate::log::Event::MoveTile(mte) => lemma_move_keeps_tiles(e.nile, mte.old, mte.new),
        _ => {},
    }
}

} // verus!
