use super::CPUPlayer;
use crate::board::{
    crossover_fault, empty_at, has_tile_at, in_end_column, on_board, sane_last_placement,
    spec_cell_score, spec_end_cells, Board, BoardView,
};
use crate::log::TilePlacementEvent;
use crate::path::{
    tile_of_type, eval_placement, path_of_tile, spec_eval_placement, spec_tile_paths, step, Offset, TilePath,
    TilePathType,
};
use crate::player::TileArray;
use crate::score::{spec_from_points, TurnScore};
use crate::tile::{spec_rotations, spec_tile_score, Coordinates, Rotation, Tile};
use vstd::multiset::Multiset;
use vstd::prelude::*;

verus! {

/// What the search knows of the game: the board, the score of the player
/// searching, those of the others, and how many players there are
pub struct SearchContext {
    pub board: BoardView,
    pub score: i16,
    pub others: Seq<i16>,
    pub player_count: int,
}

/// A turn in the making: where the river ends, the score so far, the tiles
/// left, and the placements so far
pub struct SearchState {
    pub last: (Coordinates, Offset),
    pub turn_score: TurnScore,
    pub tiles: Seq<Tile>,
    pub placements: Seq<TilePlacementEvent>,
}

/// A set of moves with the score it is rated by
pub struct MovesView {
    pub score: TurnScore,
    pub placements: Seq<TilePlacementEvent>,
}

/// The paths a tile can show: its own, or any for a universal tile
pub open spec fn spec_paths_from_tile(t: Tile) -> Seq<TilePath> {
    match path_of_tile(t) {
        Some(tp) => seq![tp],
        None => spec_tile_paths(),
    }
}

/// Straight and diagonal only have two effective rotations because they're
/// symmetrical
pub open spec fn rotation_count(tp: TilePath) -> nat {
    if tp == TilePath::Straight || tp == TilePath::Diagonal {
        2
    } else {
        4
    }
}

/// The tile path type a rack tile is tried as for `tp`
pub open spec fn type_for(t: Tile, tp: TilePath) -> TilePathType {
    if t == Tile::Universal {
        TilePathType::Universal(tp)
    } else {
        TilePathType::Normal(tp)
    }
}

/// How many of `ps` lie in the end-of-game column
pub open spec fn count_end(ps: Seq<TilePlacementEvent>) -> nat
    decreases ps.len(),
{
    if ps.len() == 0 {
        0
    } else {
        count_end(ps.drop_last()) + if in_end_column(ps.last().coordinates) {
            1nat
        } else {
            0nat
        }
    }
}

/// How many of `scores` are at least `total`
pub open spec fn count_at_least(scores: Seq<i16>, total: int) -> nat
    decreases scores.len(),
{
    if scores.len() == 0 {
        0
    } else {
        count_at_least(scores.drop_last(), total) + if scores.last() >= total {
            1nat
        } else {
            0nat
        }
    }
}

/// The adjustment for where a set of moves leaves the game: a reward for
/// ending it in the lead, a penalty for ending it otherwise; none when the
/// placements are not a valid ending
pub open spec fn end_adjust(
    ctx: SearchContext,
    turn_score: TurnScore,
    placements: Seq<TilePlacementEvent>,
    last: (Coordinates, Offset),
) -> Option<TurnScore> {
    match spec_end_cells(count_end(placements) as int, last) {
        Err(_) => None,
        Ok(ends) => {
            let total = ctx.score + turn_score.spec_score();
            let rank = count_at_least(ctx.others, total) + 1;
            Some(
                if ends && rank == 1 {
                    // Highly incentivize ending the game when winning
                    spec_from_points(1000)
                } else if ends {
                    // Want to penalize ending the game without winning
                    spec_from_points(-100i16)
                } else {
                    TurnScore::spec_new(0, 0)
                },
            )
        },
    }
}

/// The adjustment for the cell the next player has to play into: its score
/// counts against the player, shared by the players
pub open spec fn next_adjust(ctx: SearchContext, c: Coordinates) -> TurnScore {
    if ctx.board.cells.contains_key(c) {
        spec_cell_score(ctx.board.cells[c]).negated().times(2).divided(ctx.player_count as i16)
    } else {
        TurnScore::spec_new(0, 0)
    }
}

/// Whether one of `ps` lies at `a` or at `b`
pub open spec fn touches(ps: Seq<TilePlacementEvent>, a: Coordinates, b: Coordinates) -> bool {
    exists|i: int| 0 <= i < ps.len() && (ps[i].coordinates == a || ps[i].coordinates == b)
}

/// Where the river ends if the `idx`th tile is placed as `tp` rotated by
/// `rotation` in the cell it flows into, when that placement is worth
/// trying: it continues the river onto an empty cell of the board, from
/// which the river can go on to the board or has reached the end-of-game
/// column, touches no placement of this turn nor another tile, and crosses
/// nothing
pub open spec fn candidate(
    ctx: SearchContext,
    st: SearchState,
    idx: int,
    tp: TilePath,
    rotation: Rotation,
) -> Option<(Coordinates, Offset)> {
    let tpt = type_for(st.tiles[idx], tp);
    match spec_eval_placement(st.last, tpt, rotation, step(st.last.0, st.last.1)) {
        Err(_) => None,
        Ok(lp) => {
            let (nc, no) = lp;
            let after = step(nc, no);
            if !ctx.board.cells.contains_key(nc) || (!on_board(after) && !in_end_column(nc))
                || touches(st.placements, nc, after) || !empty_at(ctx.board, nc) || has_tile_at(
                ctx.board,
                after,
            ) || crossover_fault(ctx.board, nc, no) is Some {
                None
            } else {
                Some(lp)
            }
        },
    }
}

/// The placement of the `idx`th tile as `tp` rotated by `rotation` in the
/// cell the river flows into
pub open spec fn placement_for(st: SearchState, idx: int, tp: TilePath, rotation: Rotation) -> TilePlacementEvent {
    TilePlacementEvent {
        tile_path_type: type_for(st.tiles[idx], tp),
        coordinates: step(st.last.0, st.last.1),
        rotation,
    }
}

/// The score of a turn in the making after the `idx`th tile is placed at
/// `nc`: the tile's points, what the cell is worth, and the bonus for
/// using all tiles
pub open spec fn score_after(ctx: SearchContext, st: SearchState, idx: int, nc: Coordinates) -> TurnScore {
    st.turn_score.plus(spec_from_points(spec_tile_score(st.tiles[idx]))).plus(
        spec_cell_score(ctx.board.cells[nc]),
    ).plus(
        if st.tiles.len() == 1 {
            // Bonus for using all tiles
            spec_from_points(20)
        } else {
            TurnScore::spec_new(0, 0)
        },
    )
}

/// The sets of moves found by placing the `idx`th tile as `tp` rotated by
/// `rotation`: the moves up to it, then the best continuation, if any
pub closed spec fn items_for(
    ctx: SearchContext,
    st: SearchState,
    idx: int,
    tp: TilePath,
    rotation: Rotation,
) -> Seq<MovesView>
    decreases st.tiles.len(), 0int, 0int,
{
    if !(0 <= idx < st.tiles.len()) {
        Seq::empty()
    } else {
        match candidate(ctx, st, idx, tp, rotation) {
            None => Seq::empty(),
            Some(lp) => {
                let (nc, no) = lp;
                let placements = st.placements.push(placement_for(st, idx, tp, rotation));
                let new_score = score_after(ctx, st, idx, nc);
                match end_adjust(ctx, new_score, placements, lp) {
                    None => Seq::empty(),
                    Some(adj) => {
                        let set = MovesView {
                            score: new_score.plus(next_adjust(ctx, step(nc, no))).plus(adj),
                            placements,
                        };
                        let further = if st.tiles.len() > 1 && !in_end_column(nc) {
                            match spec_best(
                                ctx,
                                SearchState {
                                    last: lp,
                                    turn_score: new_score,
                                    tiles: st.tiles.remove(idx),
                                    placements,
                                },
                            ) {
                                Some(m) => seq![m],
                                None => Seq::empty(),
                            }
                        } else {
                            Seq::empty()
                        };
                        seq![set] + further
                    },
                }
            },
        }
    }
}

/// The sets of moves found by placing the `idx`th tile as `tp` in each of
/// its first `r` rotations
pub closed spec fn rot_items(
    ctx: SearchContext,
    st: SearchState,
    idx: int,
    tp: TilePath,
    r: nat,
) -> Seq<MovesView>
    decreases st.tiles.len(), 1int, r,
{
    if r == 0 || r > 4 {
        Seq::empty()
    } else {
        rot_items(ctx, st, idx, tp, (r - 1) as nat) + items_for(
            ctx,
            st,
            idx,
            tp,
            spec_rotations()[r - 1],
        )
    }
}

/// The sets of moves found by placing the `idx`th tile as each of the first
/// `p` paths it can show
pub closed spec fn path_items(ctx: SearchContext, st: SearchState, idx: int, p: nat) -> Seq<
    MovesView,
>
    decreases st.tiles.len(), 2int, p,
{
    if p == 0 || !(0 <= idx < st.tiles.len()) || p > spec_paths_from_tile(st.tiles[idx]).len() {
        Seq::empty()
    } else {
        let tp = spec_paths_from_tile(st.tiles[idx])[p - 1];
        path_items(ctx, st, idx, (p - 1) as nat) + rot_items(ctx, st, idx, tp, rotation_count(tp))
    }
}

/// The sets of moves found by placing each of the first `k` tiles
pub closed spec fn tile_items(ctx: SearchContext, st: SearchState, k: nat) -> Seq<MovesView>
    decreases st.tiles.len(), 3int, k,
{
    if k == 0 || k > st.tiles.len() {
        Seq::empty()
    } else {
        tile_items(ctx, st, (k - 1) as nat) + path_items(
            ctx,
            st,
            k - 1,
            spec_paths_from_tile(st.tiles[k - 1]).len(),
        )
    }
}

/// The best of `s` by net score; the last of several equally good ones
pub open spec fn last_max(s: Seq<MovesView>) -> Option<MovesView>
    decreases s.len(),
{
    if s.len() == 0 {
        None
    } else {
        match last_max(s.drop_last()) {
            None => Some(s.last()),
            Some(m) => if s.last().score.spec_score() >= m.score.spec_score() {
                Some(s.last())
            } else {
                Some(m)
            },
        }
    }
}

/// The best set of moves from the turn in the making `st`: every tile on
/// the rack, as every path it can show, in every effective rotation, is
/// tried in the cell the river flows into, and so on from there, and the set
/// with the highest net score wins
pub closed spec fn spec_best(ctx: SearchContext, st: SearchState) -> Option<MovesView>
    decreases st.tiles.len(), 4int, 0int,
{
    last_max(tile_items(ctx, st, st.tiles.len()))
}

} // verus!

verus! {

/// A computer player that tries every set of moves
#[derive(Debug)]
pub struct Brute {
    player_count: usize,
}

/// A set of moves and the score it is rated by
struct PotentialSetOfMoves {
    /// Save score for comparison against others
    score: TurnScore,
    /// Save moves for building final set of events
    placements: Vec<TilePlacementEvent>,
}

spec fn moves_view(m: PotentialSetOfMoves) -> MovesView {
    MovesView { score: m.score, placements: m.placements@ }
}

spec fn opt_moves_view(m: Option<PotentialSetOfMoves>) -> Option<MovesView> {
    match m {
        Some(m) => Some(moves_view(m)),
        None => None,
    }
}

/// A rating of the size a search produces
spec fn rating_fits(s: TurnScore) -> bool {
    -3000 <= s.add <= 7000 && -3000 <= s.sub <= 7000
}

/// The paths a tile can show: its own, or any for a universal tile
fn tile_paths_from_tile(t: Tile) -> (v: Vec<TilePath>)
    ensures
        v@ == spec_paths_from_tile(t),
{
    match t {
        Tile::Straight => vec![TilePath::Straight],
        Tile::Diagonal => vec![TilePath::Diagonal],
        Tile::Center90 => vec![TilePath::Center90],
        Tile::Corner90 => vec![TilePath::Corner90],
        Tile::Left45 => vec![TilePath::Left45],
        Tile::Right45 => vec![TilePath::Right45],
        Tile::Left135 => vec![TilePath::Left135],
        Tile::Right135 => vec![TilePath::Right135],
        Tile::Universal => crate::path::tile_paths(),
    }
}

/// Whether one of `placements` lies at `a` or at `b`
fn any_touches(placements: &Vec<TilePlacementEvent>, a: Coordinates, b: Coordinates) -> (r: bool)
    ensures
        r == touches(placements@, a, b),
{
    let mut i: usize = 0;
    while i < placements.len()
        invariant
            i <= placements.len(),
            forall|j: int|
                0 <= j < i ==> !(placements@[j].coordinates == a || placements@[j].coordinates == b),
        decreases placements.len() - i,
    {
        if placements[i].coordinates == a || placements[i].coordinates == b {
            return true;
        }
        i = i + 1;
    }
    false
}

impl Brute {
    /// The number of players the search shares adjustments among
    pub closed spec fn spec_player_count(&self) -> int {
        self.player_count as int
    }

    pub fn new(player_count: usize) -> (b: Self)
        ensures
            b.spec_player_count() == player_count,
            b.can_search() == (1 <= player_count <= 32767),
    {
        Self { player_count }
    }

    fn next_tile_adjustment(&self, board: &Board, next_coordinates: Coordinates) -> (s: TurnScore)
        requires
            board.wf(),
            1 <= self.player_count <= 32767,
        ensures
            s == next_adjust(
                SearchContext {
                    board: board@,
                    score: 0,
                    others: Seq::empty(),
                    player_count: self.player_count as int,
                },
                next_coordinates,
            ),
            -2070 <= s.add <= 0,
            -2070 <= s.sub <= 0,
    {
        // this should be a function of the number of players. In a two-player game, the
        // game is zero-sum
        match board.cell(next_coordinates) {
            // when player count is 2, it's a zero-sum game, so forced
            // are as valuable as bonuses for the player
            Some(cell) => {
                proof {
                    board.lemma_wf();
                }
                let s = cell.score();
                let n = std::ops::Neg::neg(s);
                let d = n * 2;
                let q = d / (self.player_count as i16);
                proof {
                    assert(-2070 <= q.add <= 0 && -2070 <= q.sub <= 0) by (nonlinear_arith)
                        requires
                            q.add == crate::score::truncating_div(d.add as int, self.player_count as int),
                            q.sub == crate::score::truncating_div(d.sub as int, self.player_count as int),
                            -2070 <= d.add <= 0,
                            -2070 <= d.sub <= 0,
                            1 <= self.player_count,
                    ;
                }
                q
            },
            _ => TurnScore::default(),
        }
    }
}

} // verus!

verus! {

/// The sets of moves in `v`, as contracts see them
spec fn moves_views(v: Seq<PotentialSetOfMoves>) -> Seq<MovesView> {
    v.map_values(|m: PotentialSetOfMoves| moves_view(m))
}

/// The search context of a search by `player_count` players
pub open spec fn context(board: BoardView, score: i16, others: Seq<i16>, player_count: int) -> SearchContext {
    SearchContext { board, score, others, player_count }
}

impl Brute {
    fn end_game_adjustment(
        score: i16,
        other_player_scores: &Vec<i16>,
        board: &Board,
        turn_score: TurnScore,
        tile_placements: &Vec<TilePlacementEvent>,
        last_placement: (Coordinates, Offset),
    ) -> (r: Result<TurnScore, ()>)
        requires
            crate::score::fits_i16(turn_score.spec_score()),
            other_player_scores@.len() < usize::MAX,
        ensures
            match end_adjust(
                context(board@, score, other_player_scores@, 0),
                turn_score,
                tile_placements@,
                last_placement,
            ) {
                None => r is Err,
                Some(a) => r == Ok::<TurnScore, ()>(a),
            },
    {
        let mut end_of_game_cell_count: usize = 0;
        let mut i: usize = 0;
        while i < tile_placements.len()
            invariant
                i <= tile_placements.len(),
                end_of_game_cell_count == count_end(tile_placements@.take(i as int)),
                end_of_game_cell_count <= i,
            decreases tile_placements.len() - i,
        {
            assert(tile_placements@.take(i + 1).drop_last() =~= tile_placements@.take(i as int));
            if board.is_end_game_cell(tile_placements[i].coordinates) {
                end_of_game_cell_count = end_of_game_cell_count + 1;
            }
            i = i + 1;
        }
        assert(tile_placements@.take(i as int) =~= tile_placements@);
        let ends_game = match Board::validate_end_of_game_cells(end_of_game_cell_count, last_placement) {
            Ok(b) => b,
            Err(_) => {
                return Err(());
            },
        };
        let total_score: i32 = score as i32 + turn_score.score() as i32;
        let mut rank: usize = 1;
        let mut k: usize = 0;
        while k < other_player_scores.len()
            invariant
                k <= other_player_scores.len(),
                other_player_scores@.len() < usize::MAX,
                rank == count_at_least(other_player_scores@.take(k as int), total_score as int) + 1,
                rank <= k + 1,
            decreases other_player_scores.len() - k,
        {
            assert(other_player_scores@.take(k + 1).drop_last() =~= other_player_scores@.take(k as int));
            if other_player_scores[k] as i32 >= total_score {
                rank = rank + 1;
            }
            k = k + 1;
        }
        assert(other_player_scores@.take(k as int) =~= other_player_scores@);
        if ends_game && rank == 1 {
            // Highly incentivize ending the game when winning
            Ok(TurnScore::from(1000))
        } else if ends_game {
            // Want to penalize ending the game without winning
            Ok(TurnScore::from(-100))
        } else {
            Ok(TurnScore::default())
        }
    }
}

} // verus!

verus! {

impl Brute {
    /// Where the river ends if the `idx`th tile, shown as `tile_path` and
    /// rotated by `rotation`, is placed in the cell the river flows into,
    /// when that placement is worth trying
    fn candidate_of(
        &self,
        board: &Board,
        last_coordinates: Coordinates,
        last_offset: Offset,
        tiles: &TileArray,
        placements: &Vec<TilePlacementEvent>,
        idx: usize,
        tile: Tile,
        tile_path: TilePath,
        rotation: Rotation,
    ) -> (r: Option<(Coordinates, Offset)>)
        requires
            board.wf(),
            sane_last_placement((last_coordinates, last_offset)),
            idx < tiles@.len(),
            tile == tiles@[idx as int],
        ensures
            r == candidate(
                context(board@, 0, Seq::empty(), 0),
                SearchState {
                    last: (last_coordinates, last_offset),
                    turn_score: TurnScore::spec_new(0, 0),
                    tiles: tiles@,
                    placements: placements@,
                },
                idx as int,
                tile_path,
                rotation,
            ),
            r matches Some(lp) ==> on_board(lp.0) && sane_last_placement(lp),
    {
        let next_coordinates = last_coordinates + last_offset;
        let tile_path_type = if tile == Tile::Universal {
            TilePathType::Universal(tile_path)
        } else {
            TilePathType::Normal(tile_path)
        };
        let placement = TilePlacementEvent {
            coordinates: next_coordinates,
            rotation,
            tile_path_type,
        };
        proof {
            board.lemma_wf();
        }
        if let Ok((next_coordinates, next_offset)) = eval_placement(
            (last_coordinates, last_offset),
            &placement,
        ) {
            if let Some(cell) = board.cell(next_coordinates) {
                proof {
                    crate::board::lemma_placement_offsets_unit(
                        crate::board::TilePlacement { tile_path_type, rotation },
                    );
                }
                let after = next_coordinates + next_offset;
                // If this is an end game cell, the next coordinates don't need
                // to be in bounds
                if !board.in_bounds(after) && !board.is_end_game_cell(next_coordinates) {
                    return None;
                }
                // Can't replay in same place
                if any_touches(placements, next_coordinates, after) || !cell.is_empty()
                    || board.has_tile(after) {
                    return None;
                }
                if board.no_crossover(next_coordinates, next_offset).is_err() {
                    return None;
                }
                return Some((next_coordinates, next_offset));
            }
        }
        None
    }

    /// Tries the `idx`th tile of `tiles`, shown as `tile_path` and rotated by
    /// `rotation`, in the cell the river flows into; adds the sets of moves
    /// it leads to to `potential_placements`
    #[verifier::rlimit(80)]
    fn try_placement(
        &self,
        board: &Board,
        score: i16,
        other_scores: &Vec<i16>,
        last_coordinates: Coordinates,
        last_offset: Offset,
        turn_score: TurnScore,
        tiles: &TileArray,
        placements: &Vec<TilePlacementEvent>,
        idx: usize,
        tile: Tile,
        tile_path: TilePath,
        rotation: Rotation,
        potential_placements: &mut Vec<PotentialSetOfMoves>,
    )
        requires
            board.wf(),
            1 <= self.player_count <= 32767,
            other_scores@.len() < usize::MAX,
            sane_last_placement((last_coordinates, last_offset)),
            tiles@.len() <= 5,
            idx < tiles@.len(),
            tile == tiles@[idx as int],
            0 <= turn_score.add <= 1100 * (5 - tiles@.len()),
            0 <= turn_score.sub <= 1100 * (5 - tiles@.len()),
            forall|j: int|
                0 <= j < old(potential_placements)@.len() ==> rating_fits(
                    #[trigger] old(potential_placements)@[j].score,
                ),
        ensures
            moves_views(final(potential_placements)@) == moves_views(old(potential_placements)@)
                + items_for(
                context(board@, score, other_scores@, self.player_count as int),
                SearchState {
                    last: (last_coordinates, last_offset),
                    turn_score,
                    tiles: tiles@,
                    placements: placements@,
                },
                idx as int,
                tile_path,
                rotation,
            ),
            forall|j: int|
                0 <= j < final(potential_placements)@.len() ==> rating_fits(
                    #[trigger] final(potential_placements)@[j].score,
                ),
        decreases tiles@.len(), 0int,
    {
        let ghost ctx = context(board@, score, other_scores@, self.player_count as int);
        let ghost st = SearchState {
            last: (last_coordinates, last_offset),
            turn_score,
            tiles: tiles@,
            placements: placements@,
        };
        let ghost before = moves_views(potential_placements@);
        let ghost expected = items_for(ctx, st, idx as int, tile_path, rotation);
        let found = self.candidate_of(
            board,
            last_coordinates,
            last_offset,
            tiles,
            placements,
            idx,
            tile,
            tile_path,
            rotation,
        );
        proof {
            assert(candidate(ctx, st, idx as int, tile_path, rotation) == found);
        }
        let (next_coordinates, next_offset) = match found {
            None => {
                assert(moves_views(potential_placements@) =~= before + expected);
                return;
            },
            Some(lp) => lp,
        };
        let placement = TilePlacementEvent {
            coordinates: last_coordinates + last_offset,
            rotation,
            tile_path_type: if tile == Tile::Universal {
                TilePathType::Universal(tile_path)
            } else {
                TilePathType::Normal(tile_path)
            },
        };
        let cell = board.get_cell(next_coordinates.0, next_coordinates.1).unwrap();
        proof {
            board.lemma_wf();
        }
        let after = next_coordinates + next_offset;
        let mut new_placements = placements.clone();
        assert(new_placements@ =~= placements@);
        new_placements.push(placement);
        let bonus = if tiles.len() == 1 {
            // Bonus for using all tiles, given when the last tile of the rack
            // is placed
            TurnScore::from(20)
        } else {
            TurnScore::default()
        };
        let cell_score = cell.score();
        let new_score = turn_score + TurnScore::from(tile.score()) + cell_score + bonus;
        assert(new_score == score_after(ctx, st, idx as int, next_coordinates));
        let end_game_adj = match Brute::end_game_adjustment(
            score,
            other_scores,
            board,
            new_score,
            &new_placements,
            (next_coordinates, next_offset),
        ) {
            Ok(adj) => adj,
            Err(()) => {
                assert(moves_views(potential_placements@) =~= before + expected);
                return;
            },
        };
        let next_adj = self.next_tile_adjustment(board, after);
        let copied = new_placements.clone();
        assert(copied@ =~= new_placements@);
        let set_of_moves = PotentialSetOfMoves {
            placements: copied,
            score: new_score + next_adj + end_game_adj,
        };
        let ghost set_view = moves_view(set_of_moves);
        potential_placements.push(set_of_moves);
        if tiles.len() > 1
            // Don't try to play more tiles if this set of moves
            // will already end the game
             && !board.is_end_game_cell(next_coordinates) {
            // Recurse
            let mut rem_tiles = tiles.clone();
            rem_tiles.remove(idx);
            let further = self.best_moves(
                board,
                score,
                other_scores,
                next_coordinates,
                next_offset,
                new_score,
                &rem_tiles,
                &new_placements,
            );
            match further {
                Some(moves) => {
                    let ghost mv = moves_view(moves);
                    potential_placements.push(moves);
                    assert(moves_views(potential_placements@) =~= before + (seq![set_view] + seq![mv]));
                },
                None => {
                    assert(moves_views(potential_placements@) =~= before + (seq![set_view]
                        + Seq::<MovesView>::empty()));
                },
            }
        } else {
            assert(moves_views(potential_placements@) =~= before + (seq![set_view]
                + Seq::<MovesView>::empty()));
        }
    }

    fn best_moves(
        &self,
        board: &Board,
        score: i16,
        other_scores: &Vec<i16>,
        last_coordinates: Coordinates,
        last_offset: Offset,
        turn_score: TurnScore,
        tiles: &TileArray,
        placements: &Vec<TilePlacementEvent>,
    ) -> (r: Option<PotentialSetOfMoves>)
        requires
            board.wf(),
            1 <= self.player_count <= 32767,
            other_scores@.len() < usize::MAX,
            sane_last_placement((last_coordinates, last_offset)),
            tiles@.len() <= 5,
            0 <= turn_score.add <= 1100 * (5 - tiles@.len()),
            0 <= turn_score.sub <= 1100 * (5 - tiles@.len()),
        ensures
            opt_moves_view(r) == spec_best(
                context(board@, score, other_scores@, self.player_count as int),
                SearchState {
                    last: (last_coordinates, last_offset),
                    turn_score,
                    tiles: tiles@,
                    placements: placements@,
                },
            ),
            r matches Some(m) ==> rating_fits(m.score),
        decreases tiles@.len(), 1int,
    {
        let ghost ctx = context(board@, score, other_scores@, self.player_count as int);
        let ghost st = SearchState {
            last: (last_coordinates, last_offset),
            turn_score,
            tiles: tiles@,
            placements: placements@,
        };
        let mut potential_placements: Vec<PotentialSetOfMoves> = Vec::new();
        let rotations = crate::tile::rotations();
        let slice = tiles.as_slice();
        let mut idx: usize = 0;
        proof {
            assert(moves_views(potential_placements@) =~= tile_items(ctx, st, 0));
        }
        while idx < slice.len()
            invariant
                board.wf(),
                1 <= self.player_count <= 32767,
                other_scores@.len() < usize::MAX,
                sane_last_placement((last_coordinates, last_offset)),
                tiles@.len() <= 5,
                0 <= turn_score.add <= 1100 * (5 - tiles@.len()),
                0 <= turn_score.sub <= 1100 * (5 - tiles@.len()),
                slice@ == tiles@,
                rotations@ == spec_rotations(),
                ctx == context(board@, score, other_scores@, self.player_count as int),
                st == (SearchState {
                    last: (last_coordinates, last_offset),
                    turn_score,
                    tiles: tiles@,
                    placements: placements@,
                }),
                idx <= slice@.len(),
                moves_views(potential_placements@) == tile_items(ctx, st, idx as nat),
                forall|j: int|
                    0 <= j < potential_placements@.len() ==> rating_fits(
                        #[trigger] potential_placements@[j].score,
                    ),
            decreases slice.len() - idx,
        {
            let tile = slice[idx];
            let paths = tile_paths_from_tile(tile);
            let ghost done = tile_items(ctx, st, idx as nat);
            let mut p: usize = 0;
            proof {
                assert(moves_views(potential_placements@) =~= done + path_items(ctx, st, idx as int, 0));
            }
            while p < paths.len()
                invariant
                    board.wf(),
                    1 <= self.player_count <= 32767,
                    other_scores@.len() < usize::MAX,
                    sane_last_placement((last_coordinates, last_offset)),
                    tiles@.len() <= 5,
                    0 <= turn_score.add <= 1100 * (5 - tiles@.len()),
                    0 <= turn_score.sub <= 1100 * (5 - tiles@.len()),
                    slice@ == tiles@,
                    rotations@ == spec_rotations(),
                    ctx == context(board@, score, other_scores@, self.player_count as int),
                    st == (SearchState {
                        last: (last_coordinates, last_offset),
                        turn_score,
                        tiles: tiles@,
                        placements: placements@,
                    }),
                    idx < slice@.len(),
                    tile == tiles@[idx as int],
                    paths@ == spec_paths_from_tile(tile),
                    p <= paths@.len(),
                    done == tile_items(ctx, st, idx as nat),
                    moves_views(potential_placements@) == done + path_items(ctx, st, idx as int, p as nat),
                    forall|j: int|
                        0 <= j < potential_placements@.len() ==> rating_fits(
                            #[trigger] potential_placements@[j].score,
                        ),
                decreases paths.len() - p,
            {
                let tile_path = paths[p];
                // Straight and diagonal only have two effective rotations because
                // they're symettrical
                let count: usize = if tile_path == TilePath::Straight || tile_path == TilePath::Diagonal {
                    2
                } else {
                    4
                };
                let ghost done_paths = path_items(ctx, st, idx as int, p as nat);
                let mut r: usize = 0;
                proof {
                    assert(moves_views(potential_placements@) =~= done + done_paths + rot_items(ctx, st, idx as int, tile_path, 0));
                }
                while r < count
                    invariant
                        board.wf(),
                        1 <= self.player_count <= 32767,
                        other_scores@.len() < usize::MAX,
                        sane_last_placement((last_coordinates, last_offset)),
                        tiles@.len() <= 5,
                        0 <= turn_score.add <= 1100 * (5 - tiles@.len()),
                        0 <= turn_score.sub <= 1100 * (5 - tiles@.len()),
                        rotations@ == spec_rotations(),
                        ctx == context(board@, score, other_scores@, self.player_count as int),
                        st == (SearchState {
                            last: (last_coordinates, last_offset),
                            turn_score,
                            tiles: tiles@,
                            placements: placements@,
                        }),
                        idx < tiles@.len(),
                        tile == tiles@[idx as int],
                        count == rotation_count(tile_path),
                        r <= count,
                        moves_views(potential_placements@) == done + done_paths + rot_items(ctx, st, idx as int, tile_path, r as nat),
                        forall|j: int|
                            0 <= j < potential_placements@.len() ==> rating_fits(
                                #[trigger] potential_placements@[j].score,
                            ),
                    decreases count - r,
                {
                    let ghost so_far = moves_views(potential_placements@);
                    self.try_placement(
                        board,
                        score,
                        other_scores,
                        last_coordinates,
                        last_offset,
                        turn_score,
                        tiles,
                        placements,
                        idx,
                        tile,
                        tile_path,
                        rotations[r],
                        &mut potential_placements,
                    );
                    proof {
                        assert(rot_items(ctx, st, idx as int, tile_path, (r + 1) as nat) == rot_items(ctx, st, idx as int, tile_path, r as nat) + items_for(ctx, st, idx as int, tile_path, spec_rotations()[r as int]));
                        assert(moves_views(potential_placements@) =~= done + done_paths + rot_items(ctx, st, idx as int, tile_path, (r + 1) as nat));
                    }
                    r = r + 1;
                }
                proof {
                    assert(path_items(ctx, st, idx as int, (p + 1) as nat) == done_paths + rot_items(ctx, st, idx as int, tile_path, rotation_count(tile_path)));
                    assert(moves_views(potential_placements@) =~= done + path_items(ctx, st, idx as int, (p + 1) as nat));
                }
                p = p + 1;
            }
            proof {
                assert(tile_items(ctx, st, (idx + 1) as nat) == done + path_items(ctx, st, idx as int, paths@.len()));
            }
            idx = idx + 1;
        }
        let ghost all = moves_views(potential_placements@);
        assert(all == tile_items(ctx, st, tiles@.len()));
        // The last of the best sets of moves
        let mut found = false;
        let mut best_idx: usize = 0;
        let mut i: usize = 0;
        while i < potential_placements.len()
            invariant
                i <= potential_placements@.len(),
                all == moves_views(potential_placements@),
                forall|j: int|
                    0 <= j < potential_placements@.len() ==> rating_fits(
                        #[trigger] potential_placements@[j].score,
                    ),
                found ==> best_idx < i,
                !found ==> i == 0,
                last_max(all.take(i as int)) == if found {
                    Some(all[best_idx as int])
                } else {
                    None
                },
            decreases potential_placements.len() - i,
        {
            proof {
                assert(all.take(i + 1).drop_last() =~= all.take(i as int));
                assert(all.take(i + 1).last() == all[i as int]);
            }
            if !found || potential_placements[i].score.score() >= potential_placements[best_idx].score.score() {
                best_idx = i;
                found = true;
            }
            i = i + 1;
        }
        assert(all.take(i as int) =~= all);
        if found {
            Some(potential_placements.remove(best_idx))
        } else {
            None
        }
    }
}

} // verus!

verus! {

/// The turn the search starts from: the river as it is, nothing scored or
/// placed yet, and the whole rack
pub open spec fn initial_state(board: BoardView, tiles: Seq<Tile>) -> SearchState {
    SearchState {
        last: board.last_placement,
        turn_score: TurnScore::spec_new(0, 0),
        tiles,
        placements: Seq::empty(),
    }
}

impl CPUPlayer for Brute {
    /// The search shares adjustments among the players as 16-bit scores:
    /// it needs between one and `i16::MAX` players
    closed spec fn can_search(&self) -> bool {
        1 <= self.player_count <= 32767
    }

    fn take_turn(
        &mut self,
        tiles: &TileArray,
        board: &Board,
        score: i16,
        other_scores: Vec<i16>,
    ) -> (r: Option<Vec<TilePlacementEvent>>)
        ensures
            match spec_best(
                context(board@, score, other_scores@, old(self).spec_player_count()),
                initial_state(board@, tiles@),
            ) {
                Some(m) => r matches Some(v) && v@ == m.placements,
                None => r is None,
            },
            ({
                let ctx = context(board@, score, other_scores@, old(self).spec_player_count());
                let st = initial_state(board@, tiles@);
                &&& r is Some <==> exists|idx: int, p: int, q: int| #[trigger] legal_first(ctx, st, idx, p, q)
                &&& r is Some ==> continuation(ctx, st, spec_best(ctx, st).unwrap()) && found_from(
                    ctx,
                    st,
                    spec_best(ctx, st).unwrap(),
                )
                &&& forall|m: MovesView|
                    #[trigger] continuation(ctx, st, m) ==> m.score.spec_score() <= spec_best(
                        ctx,
                        st,
                    ).unwrap().score.spec_score()
                &&& (exists|idx: int, p: int, q: int| #[trigger] legal_in_rotation(ctx, st, idx, p, q))
                    ==> r is Some
            }),
    {
        proof {
            board.lemma_wf();
            lemma_best_found(
                context(board@, score, other_scores@, self.spec_player_count()),
                initial_state(board@, tiles@),
            );
            let ctx = context(board@, score, other_scores@, self.spec_player_count());
            let st = initial_state(board@, tiles@);
            if exists|idx: int, p: int, q: int| #[trigger] legal_in_rotation(ctx, st, idx, p, q) {
                let (idx, p, q) = choose|idx: int, p: int, q: int| #[trigger] legal_in_rotation(ctx, st, idx, p, q);
                lemma_search_finds_legal_move(ctx, st, idx, p, q);
            }
        }
        let last_placement = board.last_placement();
        match self.best_moves(
            board,
            score,
            &other_scores,
            last_placement.0,
            last_placement.1,
            TurnScore::default(),
            tiles,
            &Vec::new(),
        ) {
            Some(moves) => Some(moves.placements),
            None => None,
        }
    }
}

} // verus!

verus! {

/// The best set of moves is one of those found, none scores higher, and
/// any found later scores lower
pub proof fn lemma_last_max(s: Seq<MovesView>)
    ensures
        last_max(s) is Some <==> s.len() > 0,
        last_max(s) matches Some(m) ==> exists|i: int|
            0 <= i < s.len() && s[i] == m && forall|j: int|
                i < j < s.len() ==> (#[trigger] s[j]).score.spec_score() < m.score.spec_score(),
        last_max(s) matches Some(m) ==> forall|j: int|
            0 <= j < s.len() ==> (#[trigger] s[j]).score.spec_score() <= m.score.spec_score(),
    decreases s.len(),
{
    if s.len() > 0 {
        let init = s.drop_last();
        lemma_last_max(init);
        match last_max(init) {
            None => {
                assert(s[s.len() - 1] == s.last());
            },
            Some(m) => {
                if s.last().score.spec_score() >= m.score.spec_score() {
                    assert(s[s.len() - 1] == s.last());
                    assert forall|j: int| 0 <= j < s.len() implies (#[trigger] s[j]).score.spec_score()
                        <= s.last().score.spec_score() by {
                        if j < s.len() - 1 {
                            assert(s[j] == init[j]);
                        }
                    }
                } else {
                    let i = choose|i: int|
                        0 <= i < init.len() && init[i] == m && forall|j: int|
                            i < j < init.len() ==> (#[trigger] init[j]).score.spec_score()
                                < m.score.spec_score();
                    assert(s[i] == m);
                    assert forall|j: int| i < j < s.len() implies (#[trigger] s[j]).score.spec_score()
                        < m.score.spec_score() by {
                        if j < s.len() - 1 {
                            assert(s[j] == init[j]);
                        }
                    }
                    assert forall|j: int| 0 <= j < s.len() implies (#[trigger] s[j]).score.spec_score()
                        <= m.score.spec_score() by {
                        if j < s.len() - 1 {
                            assert(s[j] == init[j]);
                        }
                    }
                }
            },
        }
    }
}

/// The computer player's choice scores at least as high as every set of
/// moves it tried
pub proof fn lemma_best_maximizes(ctx: SearchContext, st: SearchState)
    ensures
        spec_best(ctx, st) is Some <==> tile_items(ctx, st, st.tiles.len()).len() > 0,
        spec_best(ctx, st) matches Some(m) ==> tile_items(ctx, st, st.tiles.len()).contains(m)
            && forall|x: MovesView|
            tile_items(ctx, st, st.tiles.len()).contains(x) ==> x.score.spec_score()
                <= m.score.spec_score(),
{
    let s = tile_items(ctx, st, st.tiles.len());
    lemma_last_max(s);
    if let Some(m) = spec_best(ctx, st) {
        assert forall|x: MovesView| s.contains(x) implies x.score.spec_score() <= m.score.spec_score() by {
            let j = choose|j: int| 0 <= j < s.len() && s[j] == x;
        }
    }
}

/// The tiles the placements of `ps` from position `k` on use
pub open spec fn used_tiles(ps: Seq<TilePlacementEvent>, k: int) -> Multiset<Tile> {
    ps.skip(k).map_values(|p: TilePlacementEvent| tile_of_type(p.tile_path_type)).to_multiset()
}

/// The placements `ps` continue, one after another, the river that last
/// flowed from `last.0` through `last.1`: each lies in the cell the river
/// flows into, an empty cell of the board, and joins the river there
pub open spec fn river_chain(board: BoardView, last: (Coordinates, Offset), ps: Seq<TilePlacementEvent>) -> bool
    decreases ps.len(),
{
    if ps.len() == 0 {
        true
    } else {
        let p = ps[0];
        &&& p.coordinates == step(last.0, last.1)
        &&& empty_at(board, p.coordinates)
        &&& spec_eval_placement(last, p.tile_path_type, p.rotation, p.coordinates) matches Ok(lp)
        &&& river_chain(board, lp, ps.drop_first())
    }
}

/// `m` is a legal continuation of the turn in the making `st`: it keeps the
/// placements of `st` and adds at least one, at most one per tile of the
/// rack; the added placements continue the river one after another, each
/// into an empty cell of the board; no added placement shares its cell with
/// another placement; and the added placements use tiles of the rack, each
/// tile once
pub open spec fn found_from(ctx: SearchContext, st: SearchState, m: MovesView) -> bool {
    let k = st.placements.len() as int;
    &&& k < m.placements.len() <= k + st.tiles.len()
    &&& m.placements.take(k) == st.placements
    &&& river_chain(ctx.board, st.last, m.placements.skip(k))
    &&& forall|i: int, j: int|
        0 <= i < j < m.placements.len() && k <= j ==> #[trigger] m.placements[i].coordinates
            != #[trigger] m.placements[j].coordinates
    &&& used_tiles(m.placements, k).subset_of(st.tiles.to_multiset())
}

/// Whether `idx`, `p` and `r` name a tile of the rack, a path it can show and
/// one of that path's effective rotations
pub open spec fn in_range(st: SearchState, idx: int, p: int, r: int) -> bool {
    &&& 0 <= idx < st.tiles.len()
    &&& 0 <= p < spec_paths_from_tile(st.tiles[idx]).len()
    &&& 0 <= r < rotation_count(spec_paths_from_tile(st.tiles[idx])[p])
}

/// The path the `p`th choice for the `idx`th tile shows
pub open spec fn path_choice(st: SearchState, idx: int, p: int) -> TilePath {
    spec_paths_from_tile(st.tiles[idx])[p]
}

/// The sets of moves found by placing the `idx`th tile as its `p`th path in
/// its `r`th rotation
pub open spec fn choice_items(ctx: SearchContext, st: SearchState, idx: int, p: int, r: int) -> Seq<MovesView> {
    items_for(ctx, st, idx, path_choice(st, idx, p), spec_rotations()[r])
}

/// Placing the `idx`th tile as its `p`th path in its `r`th rotation is a
/// legal first move from `st`: the river continues into an empty cell
/// without crossing (`candidate`), and the placements leave the game in a
/// valid state (`end_adjust`)
pub open spec fn legal_first(ctx: SearchContext, st: SearchState, idx: int, p: int, r: int) -> bool {
    &&& in_range(st, idx, p, r)
    &&& candidate(ctx, st, idx, path_choice(st, idx, p), spec_rotations()[r]) matches Some(lp)
    &&& end_adjust(
        ctx,
        score_after(ctx, st, idx, lp.0),
        st.placements.push(placement_for(st, idx, path_choice(st, idx, p), spec_rotations()[r])),
        lp,
    ) is Some
}

/// Where the river ends after that first move
pub open spec fn first_last(ctx: SearchContext, st: SearchState, idx: int, p: int, r: int) -> (Coordinates, Offset) {
    candidate(ctx, st, idx, path_choice(st, idx, p), spec_rotations()[r]).unwrap()
}

/// The set of moves made of that first move alone, with its rating
pub open spec fn first_set(ctx: SearchContext, st: SearchState, idx: int, p: int, r: int) -> MovesView {
    let tp = path_choice(st, idx, p);
    let rotation = spec_rotations()[r];
    let lp = first_last(ctx, st, idx, p, r);
    let placements = st.placements.push(placement_for(st, idx, tp, rotation));
    let new_score = score_after(ctx, st, idx, lp.0);
    MovesView {
        score: new_score.plus(next_adjust(ctx, step(lp.0, lp.1))).plus(
            end_adjust(ctx, new_score, placements, lp).unwrap(),
        ),
        placements,
    }
}

/// The turn in the making after that first move
pub open spec fn after_first(ctx: SearchContext, st: SearchState, idx: int, p: int, r: int) -> SearchState {
    let lp = first_last(ctx, st, idx, p, r);
    SearchState {
        last: lp,
        turn_score: score_after(ctx, st, idx, lp.0),
        tiles: st.tiles.remove(idx),
        placements: st.placements.push(
            placement_for(st, idx, path_choice(st, idx, p), spec_rotations()[r]),
        ),
    }
}

/// Whether the turn may go on after that first move: tiles are left and the
/// river has not reached the end-of-game column
pub open spec fn goes_on(ctx: SearchContext, st: SearchState, idx: int, p: int, r: int) -> bool {
    st.tiles.len() > 1 && !in_end_column(first_last(ctx, st, idx, p, r).0)
}

/// `m` is a set of moves the computer player can make from `st`: a legal
/// first move alone, or a legal first move followed by a set of moves it can
/// make from there
pub open spec fn continuation(ctx: SearchContext, st: SearchState, m: MovesView) -> bool
    decreases st.tiles.len(),
{
    exists|idx: int, p: int, r: int|
        #[trigger] legal_first(ctx, st, idx, p, r) && (m == first_set(ctx, st, idx, p, r) || (
        goes_on(ctx, st, idx, p, r) && continuation(ctx, after_first(ctx, st, idx, p, r), m)))
}

/// A path a tile can show, tried as that tile, is placed as that tile
proof fn lemma_type_for_tile(t: Tile, p: int)
    requires
        0 <= p < spec_paths_from_tile(t).len(),
    ensures
        tile_of_type(type_for(t, spec_paths_from_tile(t)[p])) == t,
{
}

proof fn lemma_concat_contains(a: Seq<MovesView>, b: Seq<MovesView>, x: MovesView)
    ensures
        (a + b).contains(x) <==> a.contains(x) || b.contains(x),
{
    if a.contains(x) {
        let i = choose|i: int| 0 <= i < a.len() && a[i] == x;
        assert((a + b)[i] == x);
    }
    if b.contains(x) {
        let i = choose|i: int| 0 <= i < b.len() && b[i] == x;
        assert((a + b)[a.len() + i] == x);
    }
    if (a + b).contains(x) {
        let i = choose|i: int| 0 <= i < (a + b).len() && (a + b)[i] == x;
        if i < a.len() {
            assert(a[i] == x);
        } else {
            assert(b[i - a.len()] == x);
        }
    }
}

proof fn lemma_rot_mem(ctx: SearchContext, st: SearchState, idx: int, tp: TilePath, r: nat, x: MovesView)
    requires
        r <= 4,
    ensures
        rot_items(ctx, st, idx, tp, r).contains(x) <==> exists|q: int|
            0 <= q < r && #[trigger] items_for(ctx, st, idx, tp, spec_rotations()[q]).contains(x),
    decreases r,
{
    if r > 0 {
        lemma_rot_mem(ctx, st, idx, tp, (r - 1) as nat, x);
        lemma_concat_contains(
            rot_items(ctx, st, idx, tp, (r - 1) as nat),
            items_for(ctx, st, idx, tp, spec_rotations()[r - 1]),
            x,
        );
    }
}

proof fn lemma_path_mem(ctx: SearchContext, st: SearchState, idx: int, p: nat, x: MovesView)
    requires
        0 <= idx < st.tiles.len(),
        p <= spec_paths_from_tile(st.tiles[idx]).len(),
    ensures
        path_items(ctx, st, idx, p).contains(x) <==> exists|pp: int, q: int|
            0 <= pp < p && in_range(st, idx, pp, q) && #[trigger] choice_items(ctx, st, idx, pp, q).contains(x),
    decreases p,
{
    if p > 0 {
        let tp = path_choice(st, idx, p - 1);
        lemma_path_mem(ctx, st, idx, (p - 1) as nat, x);
        lemma_rot_mem(ctx, st, idx, tp, rotation_count(tp), x);
        lemma_concat_contains(
            path_items(ctx, st, idx, (p - 1) as nat),
            rot_items(ctx, st, idx, tp, rotation_count(tp)),
            x,
        );
        if rot_items(ctx, st, idx, tp, rotation_count(tp)).contains(x) {
            let q = choose|q: int|
                0 <= q < rotation_count(tp) && #[trigger] items_for(ctx, st, idx, tp, spec_rotations()[q]).contains(x);
            assert(choice_items(ctx, st, idx, p - 1, q).contains(x));
        }
        if exists|pp: int, q: int|
            0 <= pp < p && in_range(st, idx, pp, q) && #[trigger] choice_items(ctx, st, idx, pp, q).contains(x) {
            let (pp, q) = choose|pp: int, q: int|
                0 <= pp < p && in_range(st, idx, pp, q) && #[trigger] choice_items(ctx, st, idx, pp, q).contains(x);
            if pp == p - 1 {
                assert(items_for(ctx, st, idx, tp, spec_rotations()[q]).contains(x));
            } else {
                assert(exists|pp: int, q: int|
                    0 <= pp < p - 1 && in_range(st, idx, pp, q) && #[trigger] choice_items(ctx, st, idx, pp, q).contains(x));
            }
        }
    }
}

proof fn lemma_tile_mem(ctx: SearchContext, st: SearchState, k: nat, x: MovesView)
    requires
        k <= st.tiles.len(),
    ensures
        tile_items(ctx, st, k).contains(x) <==> exists|idx: int, p: int, r: int|
            0 <= idx < k && in_range(st, idx, p, r) && #[trigger] choice_items(ctx, st, idx, p, r).contains(x),
    decreases k,
{
    if k > 0 {
        let n = spec_paths_from_tile(st.tiles[k - 1]).len();
        lemma_tile_mem(ctx, st, (k - 1) as nat, x);
        lemma_path_mem(ctx, st, k - 1, n, x);
        lemma_concat_contains(tile_items(ctx, st, (k - 1) as nat), path_items(ctx, st, k - 1, n), x);
        if path_items(ctx, st, k - 1, n).contains(x) {
            let (pp, q) = choose|pp: int, q: int|
                0 <= pp < n && in_range(st, k - 1, pp, q) && #[trigger] choice_items(ctx, st, k - 1, pp, q).contains(x);
            assert(choice_items(ctx, st, k - 1, pp, q).contains(x));
        }
        if exists|idx: int, p: int, r: int|
            0 <= idx < k && in_range(st, idx, p, r) && #[trigger] choice_items(ctx, st, idx, p, r).contains(x) {
            let (idx, p, r) = choose|idx: int, p: int, r: int|
                0 <= idx < k && in_range(st, idx, p, r) && #[trigger] choice_items(ctx, st, idx, p, r).contains(x);
            if idx == k - 1 {
                assert(exists|pp: int, q: int|
                    0 <= pp < n && in_range(st, k - 1, pp, q) && #[trigger] choice_items(ctx, st, k - 1, pp, q).contains(x));
            } else {
                assert(exists|idx: int, p: int, r: int|
                    0 <= idx < k - 1 && in_range(st, idx, p, r) && #[trigger] choice_items(ctx, st, idx, p, r).contains(x));
            }
        }
    }
}

/// The sets of moves found by one choice of first move: none unless it is
/// legal; then the move alone, and the best continuation from there, if the
/// turn may go on and one is found
proof fn lemma_choice_items(ctx: SearchContext, st: SearchState, idx: int, p: int, r: int)
    requires
        in_range(st, idx, p, r),
    ensures
        choice_items(ctx, st, idx, p, r).len() > 0 <==> legal_first(ctx, st, idx, p, r),
        legal_first(ctx, st, idx, p, r) ==> choice_items(ctx, st, idx, p, r).contains(
            first_set(ctx, st, idx, p, r),
        ),
        legal_first(ctx, st, idx, p, r) && goes_on(ctx, st, idx, p, r) && spec_best(
            ctx,
            after_first(ctx, st, idx, p, r),
        ) is Some ==> choice_items(ctx, st, idx, p, r).contains(
            spec_best(ctx, after_first(ctx, st, idx, p, r)).unwrap(),
        ),
        forall|x: MovesView|
            #[trigger] choice_items(ctx, st, idx, p, r).contains(x) ==> x == first_set(ctx, st, idx, p, r)
                || (goes_on(ctx, st, idx, p, r) && spec_best(ctx, after_first(ctx, st, idx, p, r))
                == Some(x)),
{
    let s = choice_items(ctx, st, idx, p, r);
    if legal_first(ctx, st, idx, p, r) {
        assert(s[0] == first_set(ctx, st, idx, p, r));
        if goes_on(ctx, st, idx, p, r) {
            if let Some(m) = spec_best(ctx, after_first(ctx, st, idx, p, r)) {
                assert(s[1] == m);
            }
        }
    }
    assert forall|x: MovesView| #[trigger] s.contains(x) implies x == first_set(ctx, st, idx, p, r)
        || (goes_on(ctx, st, idx, p, r) && spec_best(ctx, after_first(ctx, st, idx, p, r)) == Some(x)) by {
        let i = choose|i: int| 0 <= i < s.len() && s[i] == x;
        if i > 0 {
            assert(s[i] == spec_best(ctx, after_first(ctx, st, idx, p, r)).unwrap());
        }
    }
}

/// A legal continuation after a legal first move, with that move in front,
/// is a legal continuation
proof fn lemma_found_extend(ctx: SearchContext, st: SearchState, idx: int, p: int, r: int, m: MovesView)
    requires
        legal_first(ctx, st, idx, p, r),
        found_from(ctx, after_first(ctx, st, idx, p, r), m),
    ensures
        found_from(ctx, st, m),
{
    broadcast use {vstd::multiset::group_multiset_axioms, vstd::seq_lib::group_to_multiset_ensures};

    let k = st.placements.len() as int;
    let tp = path_choice(st, idx, p);
    lemma_type_for_tile(st.tiles[idx], p);
    let pl = placement_for(st, idx, tp, spec_rotations()[r]);
    let ps = st.placements.push(pl);
    let lp = first_last(ctx, st, idx, p, r);
    let t = st.tiles[idx];
    assert(m.placements.take(k + 1) == ps);
    assert(m.placements.take(k) =~= ps.take(k));
    assert(m.placements[k] == ps[k]);
    assert(m.placements.skip(k)[0] == pl);
    assert(m.placements.skip(k).drop_first() =~= m.placements.skip(k + 1));
    assert(river_chain(ctx.board, st.last, m.placements.skip(k)));
    assert forall|i: int, j: int|
        0 <= i < j < m.placements.len() && k <= j implies #[trigger] m.placements[i].coordinates
        != #[trigger] m.placements[j].coordinates by {
        if j == k {
            assert(m.placements.take(k)[i] == m.placements[i]);
            assert(lp.0 == step(st.last.0, st.last.1));
            assert(!touches(st.placements, lp.0, step(lp.0, lp.1)));
            assert(!(st.placements[i].coordinates == lp.0));
        }
    }
    let f = |q: TilePlacementEvent| tile_of_type(q.tile_path_type);
    let rest = m.placements.skip(k + 1).map_values(f);
    assert(m.placements.skip(k).map_values(f) =~= seq![t] + rest);
    vstd::seq_lib::lemma_multiset_commutative(seq![t], rest);
    assert(st.tiles.remove(idx).to_multiset() == st.tiles.to_multiset().remove(t));
    assert(seq![t] =~= Seq::<Tile>::empty().push(t));
    assert(st.tiles.to_multiset().count(t) > 0) by {
        assert(st.tiles.contains(t));
    }
    assert forall|x: Tile| used_tiles(m.placements, k).count(x) <= st.tiles.to_multiset().count(x) by {
        assert(used_tiles(m.placements, k + 1).count(x) <= st.tiles.remove(idx).to_multiset().count(x));
        assert((seq![t] + rest).to_multiset().count(x) == seq![t].to_multiset().count(x)
            + rest.to_multiset().count(x));
    }
    assert(k < m.placements.len() <= k + st.tiles.len());
    assert(m.placements.take(k) == st.placements);
    assert(used_tiles(m.placements, k).subset_of(st.tiles.to_multiset()));
}

/// A legal first move alone is a legal continuation
proof fn lemma_first_found(ctx: SearchContext, st: SearchState, idx: int, p: int, r: int)
    requires
        legal_first(ctx, st, idx, p, r),
    ensures
        found_from(ctx, st, first_set(ctx, st, idx, p, r)),
{
    broadcast use {vstd::multiset::group_multiset_axioms, vstd::seq_lib::group_to_multiset_ensures};

    let k = st.placements.len() as int;
    let m = first_set(ctx, st, idx, p, r);
    let t = st.tiles[idx];
    let lp = first_last(ctx, st, idx, p, r);
    lemma_type_for_tile(t, p);
    let pl = m.placements[k];
    assert(m.placements.take(k) =~= st.placements);
    assert(lp.0 == step(st.last.0, st.last.1));
    assert(pl.coordinates == lp.0);
    assert(m.placements.skip(k)[0] == pl);
    assert(m.placements.skip(k).drop_first() =~= Seq::<TilePlacementEvent>::empty());
    let lp2 = spec_eval_placement(st.last, pl.tile_path_type, pl.rotation, pl.coordinates)->Ok_0;
    assert(river_chain(ctx.board, lp2, Seq::<TilePlacementEvent>::empty()));
    assert(river_chain(ctx.board, st.last, m.placements.skip(k)));
    assert forall|i: int, j: int|
        0 <= i < j < m.placements.len() && k <= j implies #[trigger] m.placements[i].coordinates
        != #[trigger] m.placements[j].coordinates by {
        assert(m.placements[i] == st.placements[i]);
        assert(!touches(st.placements, lp.0, step(lp.0, lp.1)));
        assert(!(st.placements[i].coordinates == lp.0));
    }
    let f = |q: TilePlacementEvent| tile_of_type(q.tile_path_type);
    assert(m.placements.skip(k).map_values(f) =~= Seq::<Tile>::empty().push(t));
    assert(st.tiles.contains(t)) by {
        assert(st.tiles[idx] == t);
    }
    assert(st.tiles.to_multiset().count(t) > 0);
    assert forall|x: Tile| used_tiles(m.placements, k).count(x) <= st.tiles.to_multiset().count(x) by {
        assert(used_tiles(m.placements, k) =~= Multiset::empty().insert(t));
    }
}

/// Every legal continuation is found from `st` in the sense of `found_from`
proof fn lemma_continuation_found(ctx: SearchContext, st: SearchState, m: MovesView)
    requires
        continuation(ctx, st, m),
    ensures
        found_from(ctx, st, m),
    decreases st.tiles.len(),
{
    let (idx, p, r) = choose|idx: int, p: int, r: int|
        #[trigger] legal_first(ctx, st, idx, p, r) && (m == first_set(ctx, st, idx, p, r) || (
        goes_on(ctx, st, idx, p, r) && continuation(ctx, after_first(ctx, st, idx, p, r), m)));
    if m == first_set(ctx, st, idx, p, r) {
        lemma_first_found(ctx, st, idx, p, r);
    } else {
        lemma_continuation_found(ctx, after_first(ctx, st, idx, p, r), m);
        lemma_found_extend(ctx, st, idx, p, r, m);
    }
}

/// The search from `st` finds a set of moves exactly when some legal first
/// move exists; what it finds is a continuation, and no continuation is
/// rated higher
proof fn lemma_best_continuation(ctx: SearchContext, st: SearchState)
    ensures
        spec_best(ctx, st) is Some <==> exists|idx: int, p: int, r: int|
            #[trigger] legal_first(ctx, st, idx, p, r),
        spec_best(ctx, st) matches Some(m) ==> continuation(ctx, st, m),
        forall|m: MovesView|
            #[trigger] continuation(ctx, st, m) ==> spec_best(ctx, st) is Some
                && m.score.spec_score() <= spec_best(ctx, st).unwrap().score.spec_score(),
    decreases st.tiles.len(),
{
    let s = tile_items(ctx, st, st.tiles.len());
    lemma_best_maximizes(ctx, st);
    if exists|idx: int, p: int, r: int| #[trigger] legal_first(ctx, st, idx, p, r) {
        let (idx, p, r) = choose|idx: int, p: int, r: int| #[trigger] legal_first(ctx, st, idx, p, r);
        lemma_choice_items(ctx, st, idx, p, r);
        lemma_tile_mem(ctx, st, st.tiles.len(), first_set(ctx, st, idx, p, r));
        assert(s.contains(first_set(ctx, st, idx, p, r)));
    }
    if let Some(b) = spec_best(ctx, st) {
        lemma_tile_mem(ctx, st, st.tiles.len(), b);
        let (idx, p, r) = choose|idx: int, p: int, r: int|
            0 <= idx < st.tiles.len() && in_range(st, idx, p, r) && #[trigger] choice_items(ctx, st, idx, p, r).contains(b);
        lemma_choice_items(ctx, st, idx, p, r);
        assert(legal_first(ctx, st, idx, p, r));
        if b != first_set(ctx, st, idx, p, r) {
            lemma_best_continuation(ctx, after_first(ctx, st, idx, p, r));
        }
        assert(continuation(ctx, st, b));
    }
    assert forall|m: MovesView| #[trigger] continuation(ctx, st, m) implies spec_best(ctx, st) is Some
        && m.score.spec_score() <= spec_best(ctx, st).unwrap().score.spec_score() by {
        let (idx, p, r) = choose|idx: int, p: int, r: int|
            #[trigger] legal_first(ctx, st, idx, p, r) && (m == first_set(ctx, st, idx, p, r) || (
            goes_on(ctx, st, idx, p, r) && continuation(ctx, after_first(ctx, st, idx, p, r), m)));
        lemma_choice_items(ctx, st, idx, p, r);
        if m == first_set(ctx, st, idx, p, r) {
            lemma_tile_mem(ctx, st, st.tiles.len(), m);
            assert(s.contains(m));
        } else {
            let st1 = after_first(ctx, st, idx, p, r);
            lemma_best_continuation(ctx, st1);
            let b1 = spec_best(ctx, st1).unwrap();
            lemma_tile_mem(ctx, st, st.tiles.len(), b1);
            assert(s.contains(b1));
        }
    }
}

/// The computer player's choice is a legal continuation of the turn: it keeps
/// the placements so far, its new tiles continue the river one after
/// another into empty cells of the board, no two placements share a cell,
/// and its new tiles come from the rack, each tile at most once. It finds a
/// set of moves exactly when some legal first move exists, and no set of
/// moves it can make is rated higher than its choice
pub proof fn lemma_best_found(ctx: SearchContext, st: SearchState)
    ensures
        spec_best(ctx, st) is Some <==> exists|idx: int, p: int, r: int|
            #[trigger] legal_first(ctx, st, idx, p, r),
        spec_best(ctx, st) matches Some(m) ==> continuation(ctx, st, m) && found_from(ctx, st, m),
        forall|m: MovesView|
            #[trigger] continuation(ctx, st, m) ==> found_from(ctx, st, m) && spec_best(ctx, st) is Some
                && m.score.spec_score() <= spec_best(ctx, st).unwrap().score.spec_score(),
{
    lemma_best_continuation(ctx, st);
    if let Some(m) = spec_best(ctx, st) {
        lemma_continuation_found(ctx, st, m);
    }
    assert forall|m: MovesView| #[trigger] continuation(ctx, st, m) implies found_from(ctx, st, m) by {
        lemma_continuation_found(ctx, st, m);
    }
}

/// Placing the `idx`th tile as its `p`th path in the `q`th of all four
/// rotations is a legal first move: the river continues into an empty cell
/// without crossing, and the placements leave the game in a valid state
pub open spec fn legal_in_rotation(ctx: SearchContext, st: SearchState, idx: int, p: int, q: int) -> bool {
    &&& 0 <= idx < st.tiles.len()
    &&& 0 <= p < spec_paths_from_tile(st.tiles[idx]).len()
    &&& 0 <= q < 4
    &&& candidate(ctx, st, idx, path_choice(st, idx, p), spec_rotations()[q]) matches Some(lp)
    &&& end_adjust(
        ctx,
        score_after(ctx, st, idx, lp.0),
        st.placements.push(placement_for(st, idx, path_choice(st, idx, p), spec_rotations()[q])),
        lp,
    ) is Some
}

/// A half turn of a straight or diagonal path joins the same two sides, so it
/// places the river just as the path unturned does
proof fn lemma_half_turn(ctx: SearchContext, st: SearchState, idx: int, tp: TilePath, q: int)
    requires
        0 <= idx < st.tiles.len(),
        tp == TilePath::Straight || tp == TilePath::Diagonal,
        2 <= q < 4,
        sane_last_placement(st.last),
    ensures
        candidate(ctx, st, idx, tp, spec_rotations()[q]) == candidate(
            ctx,
            st,
            idx,
            tp,
            spec_rotations()[q - 2],
        ),
{
    let tpt = type_for(st.tiles[idx], tp);
    let c = step(st.last.0, st.last.1);
    assert(-2 <= c.0 <= 22 && -2 <= c.1 <= 22);
    let (a, b) = crate::path::path_offsets(tp);
    let r1 = spec_rotations()[q];
    let r0 = spec_rotations()[q - 2];
    assert(crate::path::rotated(a, r1) == crate::path::rotated(b, r0));
    assert(crate::path::rotated(b, r1) == crate::path::rotated(a, r0));
    assert(crate::path::rotated(a, r0) != crate::path::rotated(b, r0));
    assert(step(c, crate::path::rotated(a, r0)) != step(c, crate::path::rotated(b, r0)));
    assert(spec_eval_placement(st.last, tpt, spec_rotations()[q], c) == spec_eval_placement(
        st.last,
        tpt,
        spec_rotations()[q - 2],
        c,
    ));
}

/// The rating of a first move's placements does not depend on its rotation
proof fn lemma_end_adjust_rotation(
    ctx: SearchContext,
    turn_score: TurnScore,
    ps: Seq<TilePlacementEvent>,
    a: TilePlacementEvent,
    b: TilePlacementEvent,
    lp: (Coordinates, Offset),
)
    requires
        a.coordinates == b.coordinates,
    ensures
        end_adjust(ctx, turn_score, ps.push(a), lp) == end_adjust(ctx, turn_score, ps.push(b), lp),
{
    assert(ps.push(a).drop_last() =~= ps);
    assert(ps.push(b).drop_last() =~= ps);
    assert(count_end(ps.push(a)) == count_end(ps.push(b)));
}

/// Where a tile legally continues the river in any of the four rotations, it
/// also does so in one of the rotations the search tries
pub proof fn lemma_rotation_tried(ctx: SearchContext, st: SearchState, idx: int, p: int, q: int)
    requires
        legal_in_rotation(ctx, st, idx, p, q),
        sane_last_placement(st.last),
    ensures
        exists|r: int| #[trigger] legal_first(ctx, st, idx, p, r),
{
    let tp = path_choice(st, idx, p);
    if q < rotation_count(tp) {
        assert(legal_first(ctx, st, idx, p, q));
    } else {
        lemma_half_turn(ctx, st, idx, tp, q);
        let lp = candidate(ctx, st, idx, tp, spec_rotations()[q]).unwrap();
        lemma_end_adjust_rotation(
            ctx,
            score_after(ctx, st, idx, lp.0),
            st.placements,
            placement_for(st, idx, tp, spec_rotations()[q]),
            placement_for(st, idx, tp, spec_rotations()[q - 2]),
            lp,
        );
        assert(legal_first(ctx, st, idx, p, q - 2));
    }
}

/// The computer player finds a set of moves whenever some tile of its rack,
/// as some path it can show, in some rotation, legally continues the river
pub proof fn lemma_search_finds_legal_move(ctx: SearchContext, st: SearchState, idx: int, p: int, q: int)
    requires
        legal_in_rotation(ctx, st, idx, p, q),
        sane_last_placement(st.last),
    ensures
        spec_best(ctx, st) is Some,
{
    lemma_rotation_tried(ctx, st, idx, p, q);
    lemma_best_found(ctx, st);
}

} // verus!
