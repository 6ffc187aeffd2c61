use crate::score::{fits_i16, TurnScore};
use crate::tile::{spec_tile_score, Tile, TileBox};
use smallvec::SmallVec;
use std::ops::AddAssign;
use vstd::prelude::*;

verus! {

/// Most tiles a rack holds
pub const MAX_TILES: usize = 5;

/// A player's tiles: a `SmallVec` that keeps up to `MAX_TILES` of them
/// inline. Contracts speak of its tiles through `rack_contents`.
#[verifier::external_body]
#[derive(Debug)]
pub struct TileArray {
    tiles: SmallVec<[Tile; MAX_TILES]>,
}

/// The tiles of a rack, in order
pub uninterp spec fn rack_contents(rack: TileArray) -> Seq<Tile>;

impl View for TileArray {
    type V = Seq<Tile>;

    open spec fn view(&self) -> Seq<Tile> {
        rack_contents(*self)
    }
}

impl TileArray {
    /// Calls `SmallVec::new`: an empty rack
    #[verifier::external_body]
    pub fn new() -> (r: TileArray)
        ensures
            rack_contents(r) == Seq::<Tile>::empty(),
    {
        TileArray { tiles: SmallVec::new() }
    }

    /// Calls `SmallVec::from_vec`: a rack holding `tiles` in order
    #[verifier::external_body]
    pub fn from_vec(tiles: Vec<Tile>) -> (r: TileArray)
        ensures
            rack_contents(r) == tiles@,
    {
        TileArray { tiles: SmallVec::from_vec(tiles) }
    }

    /// Calls `SmallVec::len`: the number of tiles on the rack
    #[verifier::external_body]
    pub fn len(&self) -> (n: usize)
        ensures
            n == rack_contents(*self).len(),
    {
        self.tiles.len()
    }

    /// Calls `SmallVec::push`, which appends `tile`; it panics ("capacity
    /// overflow") only when the grown capacity would not fit in `isize`
    #[verifier::external_body]
    pub(crate) fn push(&mut self, tile: Tile)
        requires
            rack_contents(*old(self)).len() < isize::MAX / 2,
        ensures
            rack_contents(*final(self)) == rack_contents(*old(self)).push(tile),
    {
        self.tiles.push(tile)
    }

    /// Calls `SmallVec::pop`, which takes the last tile off, if any
    #[verifier::external_body]
    pub(crate) fn pop(&mut self) -> (t: Option<Tile>)
        ensures
            rack_contents(*old(self)).len() == 0 ==> t is None && rack_contents(*final(self))
                == rack_contents(*old(self)),
            rack_contents(*old(self)).len() > 0 ==> t == Some(rack_contents(*old(self)).last())
                && rack_contents(*final(self)) == rack_contents(*old(self)).drop_last(),
    {
        self.tiles.pop()
    }

    /// Calls `SmallVec::remove`, which takes out the tile at `index`,
    /// shifting the later ones left; it panics unless `index` is below the
    /// length
    #[verifier::external_body]
    pub(crate) fn remove(&mut self, index: usize) -> (t: Tile)
        requires
            index < rack_contents(*old(self)).len(),
        ensures
            t == rack_contents(*old(self))[index as int],
            rack_contents(*final(self)) == rack_contents(*old(self)).remove(index as int),
    {
        self.tiles.remove(index)
    }

    /// Calls `SmallVec::as_slice`: the tiles of the rack as a slice
    #[verifier::external_body]
    pub fn as_slice(&self) -> (s: &[Tile])
        ensures
            s@ == rack_contents(*self),
    {
        self.tiles.as_slice()
    }
}

impl Clone for TileArray {
    /// Calls `Clone::clone` of `SmallVec`, which copies the tiles in order
    #[verifier::external_body]
    fn clone(&self) -> (r: TileArray)
        ensures
            rack_contents(r) == rack_contents(*self),
    {
        TileArray { tiles: self.tiles.clone() }
    }
}

} // verus!

verus! {

/// The abstract state of a player
pub struct PlayerView {
    pub name: Seq<char>,
    /// The tiles on the rack, in order
    pub rack: Seq<Tile>,
    /// Scores of completed turns
    pub scores: Seq<TurnScore>,
    /// Score of the current turn
    pub current: TurnScore,
    /// Computer-controlled player
    pub is_cpu: bool,
}

/// How many tiles a rack of `rack_len` tiles draws from a box of `box_len`:
/// as many as it lacks, as far as the box has them
pub open spec fn draw_count(rack_len: nat, box_len: nat) -> nat {
    if rack_len >= 5 {
        0
    } else if (5 - rack_len) as nat <= box_len {
        (5 - rack_len) as nat
    } else {
        box_len
    }
}

/// A rack refilled from a box, and what is left in the box: tiles are drawn
/// from the front of the box until the rack holds `MAX_TILES` or the box is
/// empty
pub open spec fn filled(rack: Seq<Tile>, tile_box: Seq<Tile>) -> (Seq<Tile>, Seq<Tile>) {
    let k = draw_count(rack.len(), tile_box.len()) as int;
    (rack + tile_box.take(k), tile_box.skip(k))
}

/// The first index at which `t` lies on `rack`, if it lies there
pub open spec fn first_index(rack: Seq<Tile>, t: Tile) -> int {
    choose|j: int| 0 <= j < rack.len() && rack[j] == t && forall|i: int| 0 <= i < j ==> rack[i] != t
}

/// The points of `tiles` together
pub open spec fn tiles_score(tiles: Seq<Tile>) -> int
    decreases tiles.len(),
{
    if tiles.len() == 0 {
        0
    } else {
        tiles_score(tiles.drop_last()) + spec_tile_score(tiles.last())
    }
}

/// The net points of `scores` together, in 16-bit arithmetic that wraps as a
/// release build does
pub open spec fn total_points(scores: Seq<TurnScore>) -> i16
    decreases scores.len(),
{
    if scores.len() == 0 {
        0
    } else {
        total_points(scores.drop_last()).wrapping_add(
            scores.last().add.wrapping_sub(scores.last().sub),
        )
    }
}

/// The net points of `scores` together, exactly
pub open spec fn exact_total(scores: Seq<TurnScore>) -> int
    decreases scores.len(),
{
    if scores.len() == 0 {
        0
    } else {
        exact_total(scores.drop_last()) + scores.last().spec_score()
    }
}

/// Holds all data related to a single player
#[derive(Debug)]
pub struct Player {
    name: String,
    tile_rack: TileArray,
    /// Scores of completed turns
    scores: Vec<TurnScore>,
    /// Scores of current turn
    current_turn_score: TurnScore,
    /// Computer-controlled player
    is_cpu: bool,
}

impl View for Player {
    type V = PlayerView;

    closed spec fn view(&self) -> PlayerView {
        PlayerView {
            name: self.name@,
            rack: self.tile_rack@,
            scores: self.scores@,
            current: self.current_turn_score,
            is_cpu: self.is_cpu,
        }
    }
}

impl Clone for Player {
    fn clone(&self) -> (p: Self)
        ensures
            p@ == self@,
    {
        let p = Player {
            name: self.name.clone(),
            tile_rack: self.tile_rack.clone(),
            scores: self.scores.clone(),
            current_turn_score: self.current_turn_score,
            is_cpu: self.is_cpu,
        };
        assert(p.scores@ =~= self.scores@);
        p
    }
}

/// Whether a player's rack holds at most `MAX_TILES` tiles
pub open spec fn player_wf(p: PlayerView) -> bool {
    p.rack.len() <= 5
}

impl Player {
    pub fn new(name: String, tile_box: &mut TileBox, is_cpu: bool) -> (p: Self)
        ensures
            p@ == (PlayerView {
                name: name@,
                rack: filled(Seq::empty(), old(tile_box)@).0,
                scores: Seq::empty(),
                current: TurnScore::spec_new(0, 0),
                is_cpu,
            }),
            final(tile_box)@ == filled(Seq::empty(), old(tile_box)@).1,
            player_wf(p@),
    {
        let mut tile_rack = TileArray::new();
        Self::fill_rack(&mut tile_rack, tile_box);
        Self {
            name,
            tile_rack,
            scores: Vec::new(),
            current_turn_score: TurnScore::default(),
            is_cpu,
        }
    }

    /// Refill the player's `tile_rack` and return the total score of the tiles they played in
    /// the current turn.
    pub fn end_turn(&mut self, tile_box: &mut TileBox) -> (s: TurnScore)
        ensures
            s == if old(self)@.rack.len() == 0 {
                old(self)@.current.wrapping_plus(TurnScore::spec_new(20, 0))
            } else {
                old(self)@.current
            },
            final(self)@ == (PlayerView {
                rack: filled(old(self)@.rack, old(tile_box)@).0,
                scores: old(self)@.scores.push(s),
                current: TurnScore::spec_new(0, 0),
                ..old(self)@
            }),
            final(tile_box)@ == filled(old(self)@.rack, old(tile_box)@).1,
            player_wf(old(self)@) ==> player_wf(final(self)@),
    {
        if self.tile_rack.len() == 0 {
            // TODO: this should possibly only apply if the player began
            // their turn with 5 tiles
            // Bonus for using all tiles
            self.add_score(TurnScore::from(20));
        }
        let final_turn_score = self.current_turn_score;
        Self::fill_rack(&mut self.tile_rack, tile_box);
        self.scores.push(final_turn_score);
        self.current_turn_score = TurnScore::default();
        final_turn_score
    }

    pub fn rack_is_empty(&self) -> (b: bool)
        ensures
            b == (self@.rack.len() == 0),
    {
        self.tile_rack.len() == 0
    }

    fn fill_rack(tile_rack: &mut TileArray, tile_box: &mut TileBox)
        ensures
            (final(tile_rack)@, final(tile_box)@) == filled(old(tile_rack)@, old(tile_box)@),
    {
        let ghost r0 = tile_rack@;
        let ghost b0 = tile_box@;
        let ghost k = draw_count(r0.len(), b0.len()) as int;
        let mut j: usize = 0;
        while tile_rack.len() < MAX_TILES
            invariant_except_break
                r0 == old(tile_rack)@,
                b0 == old(tile_box)@,
                k == draw_count(r0.len(), b0.len()),
                0 <= j <= b0.len(),
                r0.len() + j <= 5 || j == 0,
                tile_rack@ == r0 + b0.take(j as int),
                tile_box@ == b0.skip(j as int),
            ensures
                (tile_rack@, tile_box@) == filled(r0, b0),
            decreases 5 - tile_rack@.len(),
        {
            match tile_box.draw() {
                Some(tile) => {
                    tile_rack.push(tile);
                    assert(b0.take(j + 1) =~= b0.take(j as int).push(b0[j as int]));
                    assert(b0.skip(j as int).drop_first() =~= b0.skip(j + 1));
                    j = j + 1;
                },
                None => {
                    assert(j == b0.len());
                    break;
                },
            }
        }
    }

    pub fn tiles(&self) -> (t: &TileArray)
        ensures
            t@ == self@.rack,
    {
        &self.tile_rack
    }

    /// The player is placing a tile of variant `tile`. Validate the player has at least one of
    /// these tiles and remove it from their rack.
    pub fn place_tile(&mut self, tile: Tile) -> (r: Option<Tile>)
        ensures
            r is Some <==> old(self)@.rack.contains(tile),
            r is None ==> final(self)@ == old(self)@,
            r is Some ==> r == Some(tile) && final(self)@ == (PlayerView {
                rack: old(self)@.rack.remove(first_index(old(self)@.rack, tile)),
                ..old(self)@
            }),
    {
        let slice = self.tile_rack.as_slice();
        let mut idx: usize = 0;
        while idx < slice.len()
            invariant
                slice@ == self@.rack,
                idx <= slice@.len(),
                forall|i: int| 0 <= i < idx ==> slice@[i] != tile,
            ensures
                idx <= slice@.len(),
                forall|i: int| 0 <= i < idx ==> slice@[i] != tile,
                idx < slice@.len() ==> slice@[idx as int] == tile,
            decreases slice.len() - idx,
        {
            if slice[idx] == tile {
                break;
            }
            idx = idx + 1;
        }
        if idx < self.tile_rack.len() {
            proof {
                let j = first_index(self@.rack, tile);
                assert(0 <= j < self@.rack.len() && self@.rack[j] == tile && forall|i: int|
                    0 <= i < j ==> self@.rack[i] != tile);
                if j < idx {
                    assert(slice@[j] != tile);
                } else if j > idx {
                    assert(self@.rack[idx as int] == tile);
                }
            }
            let t = self.tile_rack.remove(idx);
            Some(t)
        } else {
            proof {
                if self@.rack.contains(tile) {
                    let k = choose|k: int| 0 <= k < self@.rack.len() && self@.rack[k] == tile;
                    assert(slice@[k] != tile);
                }
            }
            None
        }
    }

    /// The player can't play any tiles and is ending their turn. Discards all their current tiles
    /// and refills their `tile_rack` from `tile_box`.
    pub fn cant_play(&mut self, tile_box: &mut TileBox) -> (s: TurnScore)
        requires
            tiles_score(old(self)@.rack) <= i16::MAX,
            old(tile_box)@.len() + old(self)@.rack.len() < usize::MAX,
        ensures
            s == TurnScore::spec_new(0, tiles_score(old(self)@.rack) as i16),
            exists|shuffled: Seq<Tile>|
                #![trigger filled(Seq::empty(), shuffled)]
                shuffled.to_multiset() == old(tile_box)@.to_multiset().add(
                    old(self)@.rack.to_multiset(),
                ) && final(self)@ == (PlayerView {
                    rack: filled(Seq::empty(), shuffled).0,
                    scores: old(self)@.scores.push(s),
                    current: TurnScore::spec_new(0, 0),
                    ..old(self)@
                }) && final(tile_box)@ == filled(Seq::empty(), shuffled).1,
            player_wf(final(self)@),
    {
        let ghost rack0 = self@.rack;
        let tiles = self.discard_tiles();
        proof {
            lemma_tiles_score_reverse(rack0);
        }
        let mut tile_score: i16 = 0;
        let mut i: usize = 0;
        while i < tiles.len()
            invariant
                i <= tiles.len(),
                tiles_score(tiles@) <= i16::MAX,
                tile_score == tiles_score(tiles@.take(i as int)),
            decreases tiles.len() - i,
        {
            assert(tiles@.take(i + 1).drop_last() =~= tiles@.take(i as int));
            proof {
                lemma_tiles_score_prefix(tiles@, i + 1);
                lemma_tiles_score_prefix(tiles@, i as int);
            }
            tile_score = tile_score + tiles[i].score();
            i = i + 1;
        }
        assert(tiles@.take(i as int) =~= tiles@);
        let turn_score = TurnScore { add: 0, sub: tile_score };
        self.add_score(turn_score);
        tile_box.discard(tiles);
        let ghost shuffled = tile_box@;
        Self::fill_rack(&mut self.tile_rack, tile_box);
        self.scores.push(turn_score);
        self.current_turn_score = TurnScore::default();
        proof {
            rack0.lemma_reverse_to_multiset();
        }
        turn_score
    }

    /// The player removed a tile from the board is returning it to their rack
    pub fn return_tile(&mut self, tile: Tile)
        requires
            old(self)@.rack.len() < isize::MAX / 2,
        ensures
            final(self)@ == (PlayerView { rack: old(self)@.rack.push(tile), ..old(self)@ }),
    {
        self.tile_rack.push(tile);
    }

    pub fn name(&self) -> (n: &str)
        ensures
            n@ == self@.name,
    {
        self.name.as_str()
    }

    /// Modify the current turn score and return the updated turn score
    pub fn add_score(&mut self, score: TurnScore) -> (s: TurnScore)
        ensures
            s == old(self)@.current.wrapping_plus(score),
            final(self)@ == (PlayerView { current: s, ..old(self)@ }),
    {
        self.current_turn_score.add_assign(score);
        self.current_turn_score
    }

    /// Takes all tiles off the rack, last first
    fn discard_tiles(&mut self) -> (tiles: Vec<Tile>)
        ensures
            tiles@ == old(self)@.rack.reverse(),
            final(self)@ == (PlayerView { rack: Seq::empty(), ..old(self)@ }),
    {
        let mut tiles = Vec::with_capacity(self.tile_rack.len());
        let ghost rack0 = self@.rack;
        loop
            invariant_except_break
                rack0 == old(self)@.rack,
                self@ == (PlayerView { rack: self@.rack, ..old(self)@ }),
                rack0 == self@.rack + tiles@.reverse(),
            ensures
                self@ == (PlayerView { rack: Seq::empty(), ..old(self)@ }),
                tiles@ == rack0.reverse(),
            decreases self@.rack.len(),
        {
            let ghost before = self@.rack;
            match self.tile_rack.pop() {
                Some(tile) => {
                    tiles.push(tile);
                    assert(rack0 =~= self@.rack + tiles@.reverse());
                },
                None => {
                    assert(self@.rack =~= Seq::<Tile>::empty());
                    assert(tiles@.reverse().reverse() =~= tiles@);
                    assert(rack0 =~= tiles@.reverse());
                    break;
                },
            }
        }
        tiles
    }

    /// Scores of completed turns
    pub fn scores(&self) -> (s: &Vec<TurnScore>)
        ensures
            s@ == self@.scores,
    {
        &self.scores
    }

    /// Score of the current turn so far
    pub fn current_turn_score(&self) -> (s: TurnScore)
        ensures
            s == self@.current,
    {
        self.current_turn_score
    }

    /// The net points of all completed turns
    pub fn total_score(&self) -> (t: i16)
        ensures
            t == total_points(self@.scores),
    {
        let mut total: i16 = 0;
        let mut i: usize = 0;
        while i < self.scores.len()
            invariant
                i <= self.scores.len(),
                total == total_points(self.scores@.take(i as int)),
            decreases self.scores.len() - i,
        {
            let s = self.scores[i];
            assert(self.scores@.take(i + 1).drop_last() =~= self.scores@.take(i as int));
            total = total.wrapping_add(s.add.wrapping_sub(s.sub));
            i = i + 1;
        }
        assert(self.scores@.take(i as int) =~= self.scores@);
        total
    }

    pub fn is_cpu(&self) -> (b: bool)
        ensures
            b == self@.is_cpu,
    {
        self.is_cpu
    }
}

proof fn lemma_tiles_score_prepend(t: Tile, s: Seq<Tile>)
    ensures
        tiles_score(seq![t] + s) == spec_tile_score(t) + tiles_score(s),
    decreases s.len(),
{
    let u = seq![t] + s;
    assert(tiles_score(u) == tiles_score(u.drop_last()) + spec_tile_score(u.last()));
    if s.len() > 0 {
        lemma_tiles_score_prepend(t, s.drop_last());
        assert(u.drop_last() =~= seq![t] + s.drop_last());
        assert(u.last() == s.last());
    } else {
        assert(u.drop_last() =~= Seq::<Tile>::empty());
        assert(u.last() == t);
    }
}

proof fn lemma_tiles_score_reverse(s: Seq<Tile>)
    ensures
        tiles_score(s.reverse()) == tiles_score(s),
    decreases s.len(),
{
    if s.len() > 0 {
        lemma_tiles_score_reverse(s.drop_last());
        assert(s.reverse() =~= seq![s.last()] + s.drop_last().reverse());
        lemma_tiles_score_prepend(s.last(), s.drop_last().reverse());
    }
}

proof fn lemma_tiles_score_prefix(s: Seq<Tile>, i: int)
    requires
        0 <= i <= s.len(),
    ensures
        0 <= tiles_score(s.take(i)) <= tiles_score(s),
    decreases s.len() - i,
{
    if i < s.len() {
        lemma_tiles_score_prefix(s, i + 1);
        assert(s.take(i + 1).drop_last() =~= s.take(i));
    } else {
        assert(s.take(i) =~= s);
    }
    lemma_tiles_score_bound(s.take(i));
}

pub(crate) proof fn lemma_tiles_score_bound(s: Seq<Tile>)
    ensures
        0 <= tiles_score(s) <= 35 * s.len(),
    decreases s.len(),
{
    if s.len() > 0 {
        lemma_tiles_score_bound(s.drop_last());
    }
}

/// When no partial sum leaves `i16`, the wrapping total is the exact one
pub proof fn lemma_total_points_exact(scores: Seq<TurnScore>)
    requires
        forall|k: int|
            0 <= k <= scores.len() ==> fits_i16(#[trigger] exact_total(scores.take(k))),
        forall|k: int| 0 <= k < scores.len() ==> fits_i16(#[trigger] scores[k].spec_score()),
    ensures
        total_points(scores) == exact_total(scores),
    decreases scores.len(),
{
    if scores.len() > 0 {
        let init = scores.drop_last();
        assert forall|k: int| 0 <= k <= init.len() implies fits_i16(#[trigger] exact_total(init.take(k))) by {
            assert(init.take(k) =~= scores.take(k));
        }
        assert forall|k: int| 0 <= k < init.len() implies fits_i16(#[trigger] init[k].spec_score()) by {
            assert(init[k] == scores[k]);
        }
        lemma_total_points_exact(init);
        assert(scores.take(scores.len() as int) =~= scores);
        assert(scores.take(init.len() as int) =~= init);
        assert(fits_i16(scores[init.len() as int].spec_score()));
    }
}

} // verus!
