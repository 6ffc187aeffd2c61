use rand::rngs::ThreadRng;
use std::collections::VecDeque;
use vstd::prelude::*;

verus! {

broadcast use vstd::seq_lib::group_to_multiset_ensures;

/// Clockwise rotation of a tile placed on the board
#[derive(Copy, Clone, Debug, PartialEq, Eq, Structural)]
pub enum Rotation {
    Clockwise0,
    Clockwise90,
    Clockwise180,
    Clockwise270,
}

/// The number of quarter turns a rotation stands for
pub open spec fn quarter_turns(r: Rotation) -> int {
    match r {
        Rotation::Clockwise0 => 0,
        Rotation::Clockwise90 => 1,
        Rotation::Clockwise180 => 2,
        Rotation::Clockwise270 => 3,
    }
}

/// The rotation that stands for `n` quarter turns, taken modulo four
pub open spec fn rotation_of_quarter_turns(n: int) -> Rotation {
    let k = n % 4;
    if k == 0 {
        Rotation::Clockwise0
    } else if k == 1 {
        Rotation::Clockwise90
    } else if k == 2 {
        Rotation::Clockwise180
    } else {
        Rotation::Clockwise270
    }
}

/// All rotations, in the order of increasing quarter turns
pub open spec fn spec_rotations() -> Seq<Rotation> {
    seq![Rotation::Clockwise0, Rotation::Clockwise90, Rotation::Clockwise180, Rotation::Clockwise270]
}

/// All rotations, in the order of increasing quarter turns
pub fn rotations() -> (r: Vec<Rotation>)
    ensures
        r@ == spec_rotations(),
{
    vec![Rotation::Clockwise0, Rotation::Clockwise90, Rotation::Clockwise180, Rotation::Clockwise270]
}

impl Default for Rotation {
    fn default() -> (r: Self)
        ensures
            r == Rotation::Clockwise0,
    {
        Rotation::Clockwise0
    }
}

/// A unique location on the board: row, then column
#[derive(Copy, Clone, Debug, PartialEq, Eq, Hash, Structural)]
pub struct Coordinates(pub i8, pub i8);

impl Coordinates {
    pub fn new(row: i8, column: i8) -> (c: Self)
        ensures
            c == Coordinates(row, column),
    {
        Coordinates(row, column)
    }
}

/// A set of coordinates
#[derive(Debug)]
pub struct CoordinateSet {
    items: Vec<Coordinates>,
}

impl CoordinateSet {
    #[verifier::type_invariant]
    spec fn no_duplicates(self) -> bool {
        self.items@.no_duplicates()
    }

    /// The coordinates in the set
    pub closed spec fn view(&self) -> Set<Coordinates> {
        self.items@.to_set()
    }

    /// The set is finite
    pub proof fn lemma_finite(&self)
        ensures
            self@.finite(),
    {
        vstd::seq_lib::seq_to_set_is_finite(self.items@);
    }

    /// An empty set
    pub fn new() -> (s: Self)
        ensures
            s@ == Set::<Coordinates>::empty(),
    {
        let s = CoordinateSet { items: Vec::new() };
        assert(s.items@.to_set() =~= Set::<Coordinates>::empty());
        s
    }

    /// The set that holds `c` alone
    pub fn singleton(c: Coordinates) -> (s: Self)
        ensures
            s@ == set![c],
    {
        let mut s = Self::new();
        s.insert(c);
        assert(s@ =~= set![c]);
        s
    }

    /// Whether `c` is in the set
    pub fn contains(&self, c: Coordinates) -> (b: bool)
        ensures
            b == self@.contains(c),
    {
        let mut i: usize = 0;
        while i < self.items.len()
            invariant
                i <= self.items.len(),
                forall|j: int| 0 <= j < i ==> self.items@[j] != c,
            decreases self.items.len() - i,
        {
            if self.items[i] == c {
                assert(self.items@.to_set().contains(self.items@[i as int]));
                return true;
            }
            i = i + 1;
        }
        assert(!self.items@.contains(c));
        false
    }

    /// Adds `c`; returns whether it was not there before
    pub fn insert(&mut self, c: Coordinates) -> (added: bool)
        ensures
            added == !old(self)@.contains(c),
            final(self)@ == old(self)@.insert(c),
    {
        if self.contains(c) {
            assert(self@.insert(c) =~= self@);
            false
        } else {
            proof {
                use_type_invariant(&*self);
            }
            let ghost before = self.items@;
            let mut items = self.items.clone();
            assert(items@ =~= before);
            items.push(c);
            proof {
                assert(items@ == before.push(c));
                assert(items@.no_duplicates()) by {
                    assert forall|i: int, j: int|
                        0 <= i < items@.len() && 0 <= j < items@.len() && i != j
                        implies items@[i] != items@[j] by {
                        if i < before.len() && j < before.len() {
                        } else if i == before.len() {
                            assert(before.contains(before[j]));
                        } else {
                            assert(before.contains(before[i]));
                        }
                    }
                }
            }
            self.items = items;
            proof {
                assert forall|x: Coordinates| self.items@.contains(x) <==> (before.contains(x) || x == c) by {
                    if self.items@.contains(x) {
                        let k = choose|k: int| 0 <= k < self.items@.len() && self.items@[k] == x;
                        if k < before.len() {
                            assert(before[k] == x);
                        }
                    }
                    if before.contains(x) {
                        let k = choose|k: int| 0 <= k < before.len() && before[k] == x;
                        assert(self.items@[k] == x);
                    }
                    if x == c {
                        assert(self.items@[before.len() as int] == c);
                    }
                }
                assert(self.items@.to_set() =~= before.to_set().insert(c));
            }
            true
        }
    }

    /// Removes `c`; returns whether it was there
    pub fn remove(&mut self, c: Coordinates) -> (removed: bool)
        ensures
            removed == old(self)@.contains(c),
            final(self)@ == old(self)@.remove(c),
    {
        proof {
            use_type_invariant(&*self);
        }
        let mut i: usize = 0;
        while i < self.items.len()
            invariant
                i <= self.items.len(),
                forall|j: int| 0 <= j < i ==> self.items@[j] != c,
                self.items@.no_duplicates(),
                *self == *old(self),
            decreases self.items.len() - i,
        {
            if self.items[i] == c {
                let ghost before = self.items@;
                let mut items = self.items.clone();
                assert(items@ =~= before);
                items.remove(i);
                proof {
                    assert(items@ == before.remove(i as int));
                    assert(items@.no_duplicates()) by {
                        assert forall|a: int, b: int|
                            0 <= a < items@.len() && 0 <= b < items@.len() && a != b
                            implies items@[a] != items@[b] by {
                            let a0 = if a < i { a } else { a + 1 };
                            let b0 = if b < i { b } else { b + 1 };
                            assert(items@[a] == before[a0]);
                            assert(items@[b] == before[b0]);
                        }
                    }
                }
                self.items = items;
                proof {
                    assert forall|x: Coordinates| self.items@.contains(x) <==> (before.contains(x) && x != c) by {
                        if self.items@.contains(x) {
                            let k = choose|k: int| 0 <= k < self.items@.len() && self.items@[k] == x;
                            let k0 = if k < i { k } else { k + 1 };
                            assert(before[k0] == x);
                            assert(k0 != i);
                        }
                        if before.contains(x) && x != c {
                            let k = choose|k: int| 0 <= k < before.len() && before[k] == x;
                            assert(k != i);
                            let k1 = if k < i { k } else { k - 1 };
                            assert(self.items@[k1] == x);
                        }
                    }
                    assert(self.items@.to_set() =~= before.to_set().remove(c));
                    assert(before.to_set().contains(c));
                }
                return true;
            }
            i = i + 1;
        }
        assert(!self.items@.contains(c));
        assert(self@.remove(c) =~= self@);
        false
    }

    /// Whether the set is empty
    pub fn is_empty(&self) -> (b: bool)
        ensures
            b == (self@ == Set::<Coordinates>::empty()),
    {
        if self.items.len() == 0 {
            assert(self@ =~= Set::<Coordinates>::empty());
            true
        } else {
            assert(self@.contains(self.items@[0]));
            false
        }
    }

    /// Number of coordinates in the set
    pub fn len(&self) -> (n: usize)
        ensures
            n == self@.len(),
    {
        proof {
            use_type_invariant(self);
            self.items@.unique_seq_to_set();
        }
        self.items.len()
    }

    /// Empties the set
    pub fn clear(&mut self)
        ensures
            final(self)@ == Set::<Coordinates>::empty(),
    {
        self.items = Vec::new();
        assert(self@ =~= Set::<Coordinates>::empty());
    }

    /// The coordinates in the set, each once
    pub fn to_vec(&self) -> (v: Vec<Coordinates>)
        ensures
            v@.to_set() == self@,
            v@.no_duplicates(),
            v@.len() == self@.len(),
    {
        proof {
            use_type_invariant(self);
            self.items@.unique_seq_to_set();
        }
        let mut v: Vec<Coordinates> = Vec::new();
        let mut i: usize = 0;
        while i < self.items.len()
            invariant
                i <= self.items.len(),
                v@ == self.items@.take(i as int),
            decreases self.items.len() - i,
        {
            v.push(self.items[i]);
            assert(self.items@.take(i + 1) =~= self.items@.take(i as int).push(self.items@[i as int]));
            i = i + 1;
        }
        assert(self.items@.take(i as int) =~= self.items@);
        v
    }
}

impl Clone for CoordinateSet {
    fn clone(&self) -> (s: Self)
        ensures
            s@ == self@,
    {
        proof {
            use_type_invariant(self);
        }
        let v = self.to_vec();
        CoordinateSet { items: v }
    }
}

/// A game piece that can be placed on the board
#[derive(Copy, Clone, Debug, PartialEq, Eq, Structural)]
pub enum Tile {
    /// ```text
    /// ---
    /// ```
    Straight,
    /// ```text
    /// \
    ///  \
    ///   \
    /// ```
    Diagonal,
    /// ```text
    ///   |
    ///  /
    /// -
    /// ```
    Center90,
    /// ```text
    ///
    ///  -
    /// / \
    /// ```
    Corner90,
    /// ```text
    ///   /
    /// --
    ///
    /// ```
    Left45,
    /// ```text
    ///
    /// --
    ///   \
    /// ```
    Right45,
    /// ```text
    /// \
    ///  \
    /// ---
    /// ```
    Left135,
    /// ```text
    /// ---
    ///   /
    ///  /
    /// ```
    Right135,
    /// Can represent any one of the other `Tile` variants
    Universal,
}

/// Points a tile is worth
pub open spec fn spec_tile_score(t: Tile) -> i16 {
    match t {
        Tile::Straight | Tile::Diagonal | Tile::Center90 | Tile::Corner90 => 10,
        Tile::Left45 | Tile::Right45 => 8,
        Tile::Left135 | Tile::Right135 => 5,
        Tile::Universal => 35,
    }
}

impl Tile {
    pub fn score(self) -> (s: i16)
        ensures
            s == spec_tile_score(self),
            5 <= s <= 35,
    {
        match self {
            Tile::Straight | Tile::Diagonal | Tile::Center90 | Tile::Corner90 => 10,
            Tile::Left45 | Tile::Right45 => 8,
            Tile::Left135 | Tile::Right135 => 5,
            Tile::Universal => 35,
        }
    }
}

/// Points a tile is worth
pub fn tile_score(tile: Tile) -> (s: i16)
    ensures
        s == spec_tile_score(tile),
{
    tile.score()
}

/// `n` copies of `t`
pub open spec fn copies(t: Tile, n: nat) -> Seq<Tile> {
    Seq::new(n, |i: int| t)
}

/// The tiles of a new game, with the frequencies of the printed board game
pub open spec fn standard_tiles() -> Seq<Tile> {
    copies(Tile::Left135, 10) + copies(Tile::Center90, 10) + copies(Tile::Left45, 10) + copies(
        Tile::Straight,
        20,
    ) + copies(Tile::Right45, 10) + copies(Tile::Right135, 10) + copies(Tile::Diagonal, 20)
        + copies(Tile::Corner90, 10) + copies(Tile::Universal, 4)
}

#[verifier::external_type_specification]
#[verifier::external_body]
pub struct ExThreadRng(ThreadRng);

/// Calls `rand::thread_rng`, which hands out the thread-local random number
/// generator. Nothing is stated of the generator.
#[verifier::external_body]
fn thread_rng() -> ThreadRng {
    rand::thread_rng()
}

/// Calls `rand::seq::SliceRandom::shuffle` on `tiles`. The contract states
/// that the result is a permutation of the input; which permutation comes out
/// depends on the random number generator and is left unsaid.
#[verifier::external_body]
fn shuffle(tiles: &mut Vec<Tile>, rng: &mut ThreadRng)
    ensures
        final(tiles)@.to_multiset() == old(tiles)@.to_multiset(),
{
    rand::seq::SliceRandom::shuffle(tiles.as_mut_slice(), rng)
}

/// Calls `rand::Rng::gen_range(low, high)`, which panics unless `low < high`
/// and otherwise returns a value in `low..high`. Which value depends on the
/// random number generator and is left unsaid.
#[verifier::external_body]
fn gen_range(rng: &mut ThreadRng, low: usize, high: usize) -> (r: usize)
    requires
        low < high,
    ensures
        low <= r < high,
{
    rand::Rng::gen_range(rng, low, high)
}

/// Copies a `rand::rngs::ThreadRng` handle, which refers to the same
/// thread-local generator. Nothing is stated of the copy.
pub assume_specification[ <ThreadRng as Clone>::clone ](rng: &ThreadRng) -> ThreadRng;

/// Holds tiles that can still be drawn by a player
#[derive(Debug)]
pub struct TileBox {
    tiles: VecDeque<Tile>,
    rng: ThreadRng,
}

impl View for TileBox {
    type V = Seq<Tile>;

    /// The tiles in the box, the next one to be drawn first
    closed spec fn view(&self) -> Seq<Tile> {
        self.tiles@
    }
}

impl Clone for TileBox {
    fn clone(&self) -> (b: Self)
        ensures
            b@ == self@,
    {
        let tiles = self.tiles.clone();
        assert(tiles@ =~= self.tiles@);
        TileBox { tiles, rng: self.rng.clone() }
    }
}

impl Default for TileBox {
    /// A box with the tiles of a new game, in random order
    fn default() -> (b: Self)
        ensures
            b@.to_multiset() == standard_tiles().to_multiset(),
    {
        let mut tiles: Vec<Tile> = Vec::with_capacity(104);
        // Frequencies of the printed board game
        Self::push_n(&mut tiles, Tile::Left135, 10);
        Self::push_n(&mut tiles, Tile::Center90, 10);
        Self::push_n(&mut tiles, Tile::Left45, 10);
        Self::push_n(&mut tiles, Tile::Straight, 20);
        Self::push_n(&mut tiles, Tile::Right45, 10);
        Self::push_n(&mut tiles, Tile::Right135, 10);
        Self::push_n(&mut tiles, Tile::Diagonal, 20);
        Self::push_n(&mut tiles, Tile::Corner90, 10);
        Self::push_n(&mut tiles, Tile::Universal, 4);
        assert(tiles@ =~= standard_tiles());
        Self::new(tiles)
    }
}

/// `big` holds the items of `small` at the increasing positions `pos`
pub open spec fn embeds_at(small: Seq<Tile>, big: Seq<Tile>, pos: Seq<int>) -> bool {
    &&& pos.len() == small.len()
    &&& forall|i: int| 0 <= i < pos.len() ==> 0 <= #[trigger] pos[i] < big.len() && big[pos[i]] == small[i]
    &&& forall|i: int, j: int| 0 <= i < j < pos.len() ==> #[trigger] pos[i] < #[trigger] pos[j]
}

/// `big` holds the items of `small` in their order, maybe with others
/// between them
pub open spec fn is_embedded(small: Seq<Tile>, big: Seq<Tile>) -> bool {
    exists|pos: Seq<int>| #[trigger] embeds_at(small, big, pos)
}

/// Inserting an item keeps every embedding: positions at or after the
/// insertion move one up
proof fn lemma_embeds_insert(small: Seq<Tile>, big: Seq<Tile>, pos: Seq<int>, p: int, t: Tile)
    requires
        embeds_at(small, big, pos),
        0 <= p <= big.len(),
    ensures
        embeds_at(
            small,
            big.insert(p, t),
            Seq::new(pos.len(), |i: int| if pos[i] < p { pos[i] } else { pos[i] + 1 }),
        ),
{
    let moved = Seq::new(pos.len(), |i: int| if pos[i] < p { pos[i] } else { pos[i] + 1 });
    let nb = big.insert(p, t);
    assert forall|i: int| 0 <= i < moved.len() implies 0 <= #[trigger] moved[i] < nb.len()
        && nb[moved[i]] == small[i] by {
        assert(0 <= pos[i] < big.len());
    }
    assert forall|i: int, j: int| 0 <= i < j < moved.len() implies #[trigger] moved[i]
        < #[trigger] moved[j] by {
        assert(pos[i] < pos[j]);
    }
}

impl TileBox {
    /// A box holding `tiles` in random order
    pub fn new(tiles: Vec<Tile>) -> (b: Self)
        ensures
            b@.to_multiset() == tiles@.to_multiset(),
    {
        let mut tiles = tiles;
        let mut rng = thread_rng();
        shuffle(&mut tiles, &mut rng);
        let mut deque: VecDeque<Tile> = VecDeque::new();
        let mut i: usize = 0;
        while i < tiles.len()
            invariant
                i <= tiles.len(),
                deque@ == tiles@.take(i as int),
            decreases tiles.len() - i,
        {
            deque.push_back(tiles[i]);
            assert(tiles@.take(i + 1) =~= tiles@.take(i as int).push(tiles@[i as int]));
            i = i + 1;
        }
        assert(tiles@.take(i as int) =~= tiles@);
        Self { tiles: deque, rng }
    }

    fn push_n(tiles: &mut Vec<Tile>, tile: Tile, n: usize)
        ensures
            final(tiles)@ == old(tiles)@ + copies(tile, n as nat),
    {
        let mut i: usize = 0;
        while i < n
            invariant
                i <= n,
                tiles@ == old(tiles)@ + copies(tile, i as nat),
            decreases n - i,
        {
            tiles.push(tile);
            assert(old(tiles)@ + copies(tile, (i + 1) as nat) =~= (old(tiles)@ + copies(
                tile,
                i as nat,
            )).push(tile));
            i = i + 1;
        }
    }

    /// The tiles in the box, the next one to be drawn first
    pub fn tiles(&self) -> (t: &VecDeque<Tile>)
        ensures
            t@ == self@,
    {
        &self.tiles
    }

    /// Number of tiles left in the box
    pub fn len(&self) -> (n: usize)
        ensures
            n == self@.len(),
    {
        self.tiles.len()
    }

    /// Draw a `Tile` if any remain
    pub fn draw(&mut self) -> (t: Option<Tile>)
        ensures
            old(self)@.len() == 0 ==> t is None && final(self)@ == old(self)@,
            old(self)@.len() > 0 ==> t == Some(old(self)@[0]) && final(self)@ == old(
                self,
            )@.drop_first(),
    {
        self.tiles.pop_front()
    }

    /// Puts `tile` at a random place in the box
    pub fn insert_at_random(&mut self, tile: Tile)
        requires
            old(self)@.len() < usize::MAX,
        ensures
            exists|i: int| 0 <= i <= old(self)@.len() && final(self)@ == old(self)@.insert(i, tile),
    {
        // range is exclusive at high end. If there are t tiles, then there
        // are t + 1 insert locations
        let len = self.tiles.len();
        let idx = gen_range(&mut self.rng, 0, len + 1);
        self.tiles.insert(idx, tile);
    }

    /// If a player cannot play, their tiles are returned to the box, each at
    /// a random place
    pub fn discard(&mut self, tiles: Vec<Tile>)
        requires
            old(self)@.len() + tiles@.len() < usize::MAX,
        ensures
            final(self)@.len() == old(self)@.len() + tiles@.len(),
            final(self)@.to_multiset() == old(self)@.to_multiset().add(tiles@.to_multiset()),
            is_embedded(old(self)@, final(self)@),
    {
        let ghost mut pos: Seq<int> = Seq::new(self@.len(), |k: int| k);
        assert(embeds_at(old(self)@, self@, pos));
        let mut i: usize = 0;
        while i < tiles.len()
            invariant
                i <= tiles.len(),
                self@.len() == old(self)@.len() + i,
                old(self)@.len() + tiles@.len() < usize::MAX,
                self@.to_multiset() == old(self)@.to_multiset().add(
                    tiles@.take(i as int).to_multiset(),
                ),
                embeds_at(old(self)@, self@, pos),
            decreases tiles.len() - i,
        {
            let ghost before = self@;
            self.insert_at_random(tiles[i]);
            proof {
                let p = choose|p: int| 0 <= p <= before.len() && self@ == before.insert(p, tiles@[i as int]);
                lemma_embeds_insert(old(self)@, before, pos, p, tiles@[i as int]);
                pos = Seq::new(pos.len(), |k: int| if pos[k] < p { pos[k] } else { pos[k] + 1 });
                assert(tiles@.take(i + 1) =~= tiles@.take(i as int).push(tiles@[i as int]));
            }
            i = i + 1;
        }
        assert(tiles@.take(i as int) =~= tiles@);
        assert(embeds_at(old(self)@, self@, pos));
    }
}

} // verus!
