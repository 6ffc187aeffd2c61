use crate::board::{
    empty_at, has_tile_at, put, rotate_at, spec_cell_score, spec_validate, view_wf, with_last, Board,
    BoardView, Cell, TilePlacement,
};
use crate::error::{error_msg, fault_of, Error, Fault};
use crate::path::{path_of_type, tile_of_type, TilePath, TilePathType};
use crate::player::{filled, first_index, player_wf, Player, PlayerView, TileArray};
use crate::score::TurnScore;
use crate::text::{push_int, push_number, push_text};
use crate::log::{Event, Log, LogView, TilePlacementEvent};
use crate::tile::{standard_tiles, CoordinateSet, Coordinates, Rotation, Tile, TileBox};
use vstd::prelude::*;

verus! {

pub type ActionResult = Result<(), String>;

/// The abstract state of a game
pub struct NileView {
    pub board: BoardView,
    /// Tiles that have not yet been drawn
    pub tile_box: Seq<Tile>,
    pub players: Seq<PlayerView>,
    /// The index in `players` of the player whose turn it is
    pub current_turn: int,
    /// Coordinates where tiles were placed in the current turn
    pub placements: Set<Coordinates>,
    /// Count of consecutive "can't plays"
    pub cant_play_count: int,
    pub has_ended: bool,
}

/// What a game satisfies between the end of a turn and the start of the
/// next
pub open spec fn nile_wf_between(n: NileView) -> bool {
    &&& view_wf(n.board)
    &&& 2 <= n.players.len() <= 4
    &&& 0 <= n.current_turn < n.players.len()
    &&& forall|i: int| 0 <= i < n.players.len() ==> player_wf(#[trigger] n.players[i])
    &&& n.tile_box.len() <= 104
    &&& n.placements.finite()
    &&& forall|c: Coordinates| #[trigger] n.placements.contains(c) ==> has_tile_at(n.board, c)
    &&& 0 <= n.cant_play_count <= n.players.len()
    &&& n.cant_play_count == n.players.len() ==> n.has_ended
}

/// What every game satisfies: the tiles of the player whose turn it is and
/// those they placed this turn are at most a full rack
pub open spec fn nile_wf(n: NileView) -> bool {
    &&& nile_wf_between(n)
    &&& n.players[n.current_turn].rack.len() + n.placements.len() <= 5
}

/// The player whose turn it is
pub open spec fn current(n: NileView) -> PlayerView {
    n.players[n.current_turn]
}

/// `n` with the player whose turn it is replaced by `p`
pub open spec fn with_current(n: NileView, p: PlayerView) -> NileView {
    NileView { players: n.players.update(n.current_turn, p), ..n }
}

/// The game after the turn passes to the next player: the game also ends
/// when that player has no tiles left
pub open spec fn advanced(n: NileView) -> NileView {
    let next = (n.current_turn + 1) % (n.players.len() as int);
    NileView {
        current_turn: next,
        has_ended: n.has_ended || n.players[next].rack.len() == 0,
        placements: Set::empty(),
        ..n
    }
}

/// The name of `t` as debug formatting prints it
pub open spec fn tile_name(t: Tile) -> Seq<char> {
    match t {
        Tile::Straight => "Straight"@,
        Tile::Diagonal => "Diagonal"@,
        Tile::Center90 => "Center90"@,
        Tile::Corner90 => "Corner90"@,
        Tile::Left45 => "Left45"@,
        Tile::Right45 => "Right45"@,
        Tile::Left135 => "Left135"@,
        Tile::Right135 => "Right135"@,
        Tile::Universal => "Universal"@,
    }
}

/// The message of a fault
pub open spec fn fault_msg(f: Fault) -> Seq<char> {
    match f {
        Fault::Msg(m) => m,
        Fault::Cells(_, m) => m,
    }
}

pub open spec fn ended_msg() -> Seq<char> {
    "Game has already ended"@
}

pub open spec fn other_turn_msg() -> Seq<char> {
    "Can't change tiles from another turn"@
}

/// The outcome of placing a tile of type `tpt`, rotated by `rotation`, at
/// `c`: the error message or success, and the game afterwards. When the cell
/// refuses the tile, the tile goes back to the end of the rack.
pub open spec fn spec_place(n: NileView, tpt: TilePathType, c: Coordinates, rotation: Rotation) -> (
    Result<(), Seq<char>>,
    NileView,
) {
    let tile = tile_of_type(tpt);
    let p = current(n);
    if n.has_ended {
        (Err(ended_msg()), n)
    } else if !p.rack.contains(tile) {
        (Err("Player doesn't have a "@ + tile_name(tile)), n)
    } else {
        let rack = p.rack.remove(first_index(p.rack, tile));
        if !empty_at(n.board, c) {
            (
                Err(
                    if has_tile_at(n.board, c) {
                        "There\u{2019}s already a tile there"@
                    } else {
                        "Invalid coordinates"@
                    },
                ),
                with_current(n, PlayerView { rack: rack.push(tile), ..p }),
            )
        } else {
            let cell = Cell {
                bonus: n.board.cells[c].bonus,
                tile: Some(TilePlacement { tile_path_type: tpt, rotation }),
            };
            (
                Ok(()),
                NileView {
                    board: put(n.board, c, cell),
                    placements: n.placements.insert(c),
                    ..with_current(
                        n,
                        PlayerView {
                            rack,
                            current: p.current.wrapping_plus(spec_cell_score(cell)),
                            ..p
                        },
                    )
                },
            )
        }
    }
}

/// The outcome of turning the tile at `c`, placed this turn
pub open spec fn spec_rotate(n: NileView, c: Coordinates, rotation: Rotation) -> (
    Result<(), Seq<char>>,
    NileView,
) {
    if n.has_ended {
        (Err(ended_msg()), n)
    } else if !n.placements.contains(c) {
        (Err(other_turn_msg()), n)
    } else {
        (Ok(()), NileView { board: rotate_at(n.board, c, rotation), ..n })
    }
}

/// The outcome of taking back the tile at `c`, placed this turn: the tile
/// returns to the end of the rack and its score is undone
pub open spec fn spec_remove(n: NileView, c: Coordinates) -> (
    Result<TilePlacement, Seq<char>>,
    NileView,
) {
    let p = current(n);
    let cell = n.board.cells[c];
    let tp = cell.tile.unwrap();
    if n.has_ended {
        (Err(ended_msg()), n)
    } else if !n.placements.contains(c) {
        (Err(other_turn_msg()), n)
    } else {
        (
            Ok(tp),
            NileView {
                board: put(n.board, c, Cell { bonus: cell.bonus, tile: None }),
                placements: n.placements.remove(c),
                ..with_current(
                    n,
                    PlayerView {
                        rack: p.rack.push(tile_of_type(tp.tile_path_type)),
                        current: p.current.wrapping_plus(spec_cell_score(cell).negated()),
                        ..p
                    },
                )
            },
        )
    }
}

/// The outcome of changing the path the universal tile at `c`, placed this
/// turn, shows: the path it showed before
pub open spec fn spec_update_path(n: NileView, c: Coordinates, tile_path: TilePath) -> (
    Result<TilePath, Seq<char>>,
    NileView,
) {
    let cell = n.board.cells[c];
    let tp = cell.tile.unwrap();
    if n.has_ended {
        (Err(ended_msg()), n)
    } else if !n.placements.contains(c) {
        (Err(other_turn_msg()), n)
    } else if tp.tile_path_type is Normal {
        (Err("Cell doesn\u{2019}t contain a universal tile"@), n)
    } else {
        (
            Ok(path_of_type(tp.tile_path_type)),
            NileView {
                board: put(
                    n.board,
                    c,
                    Cell {
                        bonus: cell.bonus,
                        tile: Some(
                            TilePlacement {
                                tile_path_type: TilePathType::Universal(tile_path),
                                rotation: tp.rotation,
                            },
                        ),
                    },
                ),
                ..n
            },
        )
    }
}

/// The outcome of moving the tile at `old_c`, placed this turn, to `new_c`
pub open spec fn spec_move(n: NileView, old_c: Coordinates, new_c: Coordinates) -> (
    Result<(), Seq<char>>,
    NileView,
) {
    let p = current(n);
    let old_cell = n.board.cells[old_c];
    let emptied = put(n.board, old_c, Cell { bonus: old_cell.bonus, tile: None });
    let new_cell = Cell { bonus: emptied.cells[new_c].bonus, tile: old_cell.tile };
    if n.has_ended {
        (Err(ended_msg()), n)
    } else if !n.placements.contains(old_c) {
        (Err(other_turn_msg()), n)
    } else if !empty_at(emptied, new_c) {
        (
            Err(
                if has_tile_at(emptied, new_c) {
                    "There\u{2019}s already a tile there"@
                } else {
                    "Invalid coordinates"@
                },
            ),
            n,
        )
    } else {
        let change = spec_cell_score(new_cell).plus(spec_cell_score(old_cell).negated());
        (
            Ok(()),
            NileView {
                board: put(emptied, new_c, new_cell),
                placements: n.placements.remove(old_c).insert(new_c),
                ..with_current(n, PlayerView { current: p.current.wrapping_plus(change), ..p })
            },
        )
    }
}

/// The outcome of ending a turn in which tiles were placed: the error, or
/// whether the game has ended, and the game afterwards
pub open spec fn spec_end_turn(n: NileView) -> (Result<bool, Seq<char>>, NileView) {
    let p = current(n);
    if n.has_ended {
        (Err(ended_msg()), n)
    } else if n.placements.len() == 0 {
        (
            Err(
                "Can't end turn normally without placing at least one tile. Use can't play if there are no playable moves"@,
            ),
            n,
        )
    } else {
        match spec_validate(n.board, n.placements) {
            Err(f) => (Err(fault_msg(f)), n),
            Ok((ends, lp)) => {
                let score = if p.rack.len() == 0 {
                    p.current.wrapping_plus(TurnScore::spec_new(20, 0))
                } else {
                    p.current
                };
                let (rack, tile_box) = filled(p.rack, n.tile_box);
                let after = advanced(
                    NileView {
                        board: with_last(n.board, lp),
                        tile_box,
                        has_ended: ends,
                        cant_play_count: 0,
                        ..with_current(
                            n,
                            PlayerView {
                                rack,
                                scores: p.scores.push(score),
                                current: TurnScore::spec_new(0, 0),
                                ..p
                            },
                        )
                    },
                );
                (Ok(after.has_ended), after)
            },
        }
    }
}

/// The game after the player whose turn it is could not play: their tiles
/// went back into the box, which was then `shuffled`, and they drew anew
pub open spec fn after_cant_play(n: NileView, shuffled: Seq<Tile>) -> NileView {
    let p = current(n);
    let (rack, tile_box) = filled(Seq::empty(), shuffled);
    let count = n.cant_play_count + 1;
    advanced(
        NileView {
            tile_box,
            cant_play_count: count,
            has_ended: count == n.players.len(),
            ..with_current(
                n,
                PlayerView {
                    rack,
                    scores: p.scores.push(
                        TurnScore::spec_new(0, crate::player::tiles_score(p.rack) as i16),
                    ),
                    current: TurnScore::spec_new(0, 0),
                    ..p
                },
            )
        },
    )
}

/// Holds all game state
#[derive(Debug)]
pub struct Nile {
    // the game board
    board: Board,
    /// tiles that have not yet been drawn
    tile_box: TileBox,
    /// player-specific data
    players: Vec<Player>,
    /// the index in `players` of the player whose turn it is
    current_turn: usize,
    /// coordinates where tiles were place in the current turn. Could be derived from `log` but
    /// keeping it here is faster
    current_turn_placements: CoordinateSet,
    /// Count of consecutive "can't plays"
    cant_play_count: u8,
    /// Whether the game has ended
    has_ended: bool,
}

impl View for Nile {
    type V = NileView;

    closed spec fn view(&self) -> NileView {
        NileView {
            board: self.board@,
            tile_box: self.tile_box@,
            players: self.players@.map_values(|p: Player| p@),
            current_turn: self.current_turn as int,
            placements: self.current_turn_placements@,
            cant_play_count: self.cant_play_count as int,
            has_ended: self.has_ended,
        }
    }
}

impl Clone for Nile {
    fn clone(&self) -> (n: Self)
        ensures
            n@ == self@,
            self.wf() ==> n.wf(),
    {
        let mut players: Vec<Player> = Vec::new();
        let mut i: usize = 0;
        while i < self.players.len()
            invariant
                i <= self.players.len(),
                players@.len() == i,
                forall|j: int| 0 <= j < i ==> (#[trigger] players@[j])@ == self.players@[j]@,
            decreases self.players.len() - i,
        {
            players.push(self.players[i].clone());
            i = i + 1;
        }
        let n = Nile {
            board: self.board.clone(),
            tile_box: self.tile_box.clone(),
            players,
            current_turn: self.current_turn,
            current_turn_placements: self.current_turn_placements.clone(),
            cant_play_count: self.cant_play_count,
            has_ended: self.has_ended,
        };
        assert(n@.players =~= self@.players);
        n
    }
}

} // verus!

verus! {

/// `r` with its message as a sequence of characters
pub open spec fn res_msg<T>(r: Result<T, String>) -> Result<T, Seq<char>> {
    match r {
        Ok(t) => Ok(t),
        Err(m) => Err(m@),
    }
}

/// Whether `v` is the board of a new game
pub open spec fn is_new_board(v: BoardView) -> bool {
    &&& v.last_placement == (Coordinates(10, -1i8), crate::path::Offset(0, 1))
    &&& forall|c: Coordinates| #[trigger] v.cells.contains_key(c) ==> v.cells[c] == (Cell {
        bonus: crate::board::initial_bonus(c),
        tile: None,
    })
}

/// The name of the `k`th computer-controlled player, counting from one
pub open spec fn cpu_name(k: int) -> Seq<char> {
    "cpu"@ + crate::text::int_text(k)
}

/// Whether `n` is a new game for the players `names` and `cpu` computer
/// players: each drew five tiles in turn from a shuffled box of the tiles of
/// the game
pub open spec fn is_new_game(n: NileView, names: Seq<String>, cpu: nat) -> bool {
    let count = names.len() + cpu;
    &&& n.players.len() == count
    &&& forall|i: int|
        0 <= i < names.len() ==> (#[trigger] n.players[i]).name == names[i]@ && !n.players[i].is_cpu
    &&& forall|i: int|
        names.len() <= i < count ==> (#[trigger] n.players[i]).name == cpu_name(
            i - names.len() + 1,
        ) && n.players[i].is_cpu
    &&& forall|i: int|
        0 <= i < count ==> (#[trigger] n.players[i]).scores.len() == 0 && n.players[i].current
            == TurnScore::spec_new(0, 0)
    &&& exists|dealt: Seq<Tile>|
        #![trigger dealt.to_multiset()]
        dealt.to_multiset() == standard_tiles().to_multiset() && dealt.len() == 104 && (forall|
            i: int,
        |
            0 <= i < count ==> (#[trigger] n.players[i]).rack == dealt.subrange(5 * i, 5 * i + 5))
            && n.tile_box == dealt.skip(5 * count as int)
    &&& is_new_board(n.board)
    &&& n.current_turn == 0
    &&& n.placements == Set::<Coordinates>::empty()
    &&& n.cant_play_count == 0
    &&& !n.has_ended
}

/// The debug name of a tile
fn tile_name_str(t: Tile) -> (s: &'static str)
    ensures
        s@ == tile_name(t),
{
    proof {
        reveal_strlit("Straight");
        reveal_strlit("Diagonal");
        reveal_strlit("Center90");
        reveal_strlit("Corner90");
        reveal_strlit("Left45");
        reveal_strlit("Right45");
        reveal_strlit("Left135");
        reveal_strlit("Right135");
        reveal_strlit("Universal");
    }
    match t {
        Tile::Straight => "Straight",
        Tile::Diagonal => "Diagonal",
        Tile::Center90 => "Center90",
        Tile::Corner90 => "Corner90",
        Tile::Left45 => "Left45",
        Tile::Right45 => "Right45",
        Tile::Left135 => "Left135",
        Tile::Right135 => "Right135",
        Tile::Universal => "Universal",
    }
}

proof fn lemma_map_update(ps: Seq<Player>, i: int, p: Player)
    requires
        0 <= i < ps.len(),
    ensures
        ps.update(i, p).map_values(|q: Player| q@) == ps.map_values(|q: Player| q@).update(i, p@),
{
    assert(ps.update(i, p).map_values(|q: Player| q@) =~= ps.map_values(|q: Player| q@).update(
        i,
        p@,
    ));
}

impl Nile {
    /// Invariant of the representation
    pub closed spec fn wf(&self) -> bool {
        &&& self.board.wf()
        &&& nile_wf(self@)
    }

    /// Invariant of the representation between the end of a turn and the
    /// start of the next
    pub closed spec fn wf_between(&self) -> bool {
        &&& self.board.wf()
        &&& nile_wf_between(self@)
    }

    /// A game that satisfies its invariant satisfies `nile_wf`, which the
    /// laws about the game's views ask for
    pub proof fn lemma_wf(&self)
        requires
            self.wf(),
        ensures
            nile_wf(self@),
    {
    }

    /// A new game for the players `player_names` and `cpu_player_count`
    /// computer-controlled players, "cpu1" and on
    pub fn new(player_names: Vec<String>, cpu_player_count: u8) -> (r: Result<Self, String>)
        ensures
            2 <= player_names@.len() + cpu_player_count <= 4 ==> (r matches Ok(n) && n.wf()
                && is_new_game(n@, player_names@, cpu_player_count as nat)),
            !(2 <= player_names@.len() + cpu_player_count <= 4) ==> (r matches Err(m) && m@
                == "Nile is a game for 2-4 players"@),
    {
        proof {
            reveal_strlit("Nile is a game for 2-4 players");
        }
        if player_names.len() > 4 {
            return Err("Nile is a game for 2-4 players".to_owned());
        }
        let player_count = player_names.len() + cpu_player_count as usize;
        if !(2 <= player_count && player_count <= 4) {
            return Err("Nile is a game for 2-4 players".to_owned());
        }
        let mut tile_box = TileBox::default();
        let ghost dealt = tile_box@;
        proof {
            broadcast use vstd::seq_lib::group_to_multiset_ensures;

            assert(standard_tiles().len() == 104);
            assert(dealt.len() == dealt.to_multiset().len());
            assert(standard_tiles().len() == standard_tiles().to_multiset().len());
        }
        let mut players: Vec<Player> = Vec::new();
        let mut i: usize = 0;
        while i < player_names.len()
            invariant
                i <= player_names.len(),
                player_names.len() <= 4,
                dealt.len() == 104,
                players@.len() == i,
                tile_box@ == dealt.skip(5 * i),
                forall|j: int|
                    0 <= j < i ==> (#[trigger] players@[j])@ == (PlayerView {
                        name: player_names@[j]@,
                        rack: dealt.subrange(5 * j, 5 * j + 5),
                        scores: Seq::empty(),
                        current: TurnScore::spec_new(0, 0),
                        is_cpu: false,
                    }),
            decreases player_names.len() - i,
        {
            let ghost before = tile_box@;
            let player = Player::new(player_names[i].clone(), &mut tile_box, false);
            proof {
                assert(before.take(5) =~= dealt.subrange(5 * i, 5 * i + 5));
                assert(Seq::<Tile>::empty() + before.take(5) =~= before.take(5));
                assert(before.skip(5) =~= dealt.skip(5 * (i + 1)));
            }
            players.push(player);
            i = i + 1;
        }
        let mut k: u8 = 1;
        while k <= cpu_player_count
            invariant
                1 <= k <= cpu_player_count + 1,
                player_names.len() + cpu_player_count <= 4,
                dealt.len() == 104,
                players@.len() == player_names.len() + k - 1,
                tile_box@ == dealt.skip(5 * (player_names.len() + k - 1)),
                forall|j: int|
                    0 <= j < player_names.len() ==> (#[trigger] players@[j])@ == (PlayerView {
                        name: player_names@[j]@,
                        rack: dealt.subrange(5 * j, 5 * j + 5),
                        scores: Seq::empty(),
                        current: TurnScore::spec_new(0, 0),
                        is_cpu: false,
                    }),
                forall|j: int|
                    player_names.len() <= j < players@.len() ==> (#[trigger] players@[j])@ == (
                    PlayerView {
                        name: cpu_name(j - player_names.len() + 1),
                        rack: dealt.subrange(5 * j, 5 * j + 5),
                        scores: Seq::empty(),
                        current: TurnScore::spec_new(0, 0),
                        is_cpu: true,
                    }),
            decreases cpu_player_count + 1 - k,
        {
            let mut name = String::new();
            push_text(&mut name, "cpu");
            push_int(&mut name, k as i8);
            proof {
                reveal_strlit("cpu");
            }
            let ghost before = tile_box@;
            let ghost at = players@.len() as int;
            let player = Player::new(name, &mut tile_box, true);
            proof {
                assert(before.take(5) =~= dealt.subrange(5 * at, 5 * at + 5));
                assert(Seq::<Tile>::empty() + before.take(5) =~= before.take(5));
                assert(before.skip(5) =~= dealt.skip(5 * (at + 1)));
            }
            players.push(player);
            k = k + 1;
        }
        let n = Self {
            board: Board::new(),
            tile_box,
            players,
            current_turn: 0,
            current_turn_placements: CoordinateSet::new(),
            cant_play_count: 0,
            has_ended: false,
        };
        proof {
            n.board.lemma_wf();
            n.current_turn_placements.lemma_finite();
            assert(n@.players[0].rack.len() == 5);
            assert forall|j: int| 0 <= j < n@.players.len() implies player_wf(#[trigger] n@.players[j]) by {
                assert(n@.players[j] == n.players@[j]@);
            }
            assert forall|j: int| 0 <= j < n@.players.len() implies (#[trigger] n@.players[j]).rack
                == dealt.subrange(5 * j, 5 * j + 5) by {
                assert(n@.players[j] == n.players@[j]@);
            }
            assert(n@.tile_box.len() <= 104);
        }
        Ok(n)
    }
}

} // verus!

verus! {

impl Nile {
    pub fn board(&self) -> (b: &Board)
        requires
            self.wf(),
        ensures
            b@ == self@.board,
            b.wf(),
    {
        &self.board
    }

    pub fn players(&self) -> (p: &Vec<Player>)
        ensures
            p@.map_values(|q: Player| q@) == self@.players,
    {
        &self.players
    }

    pub fn current_turn(&self) -> (t: usize)
        ensures
            t == self@.current_turn,
    {
        self.current_turn
    }

    pub fn current_player(&self) -> (p: &Player)
        requires
            self.wf(),
        ensures
            p@ == current(self@),
    {
        &self.players[self.current_turn]
    }

    pub fn current_turn_placements(&self) -> (c: &CoordinateSet)
        ensures
            c@ == self@.placements,
    {
        &self.current_turn_placements
    }

    pub fn has_ended(&self) -> (b: bool)
        ensures
            b == self@.has_ended,
    {
        self.has_ended
    }

    /// Number of tiles of the player whose turn it is
    pub fn tile_count(&self) -> (n: usize)
        requires
            self.wf(),
        ensures
            n == current(self@).rack.len(),
    {
        self.players[self.current_turn].tiles().len()
    }

    fn if_not_ended(&self) -> (r: Result<(), String>)
        ensures
            r is Ok <==> !self@.has_ended,
            r matches Err(m) ==> m@ == ended_msg(),
    {
        proof {
            reveal_strlit("Game has already ended");
        }
        if self.has_ended {
            Err("Game has already ended".to_owned())
        } else {
            Ok(())
        }
    }

    pub fn place_tile(
        &mut self,
        tile_path_type: TilePathType,
        coordinates: Coordinates,
        rotation: Rotation,
    ) -> (r: ActionResult)
        requires
            old(self).wf(),
        ensures
            final(self).wf(),
            (res_msg(r), final(self)@) == spec_place(
                old(self)@,
                tile_path_type,
                coordinates,
                rotation,
            ),
    {
        match self.if_not_ended() {
            Ok(()) => {},
            Err(m) => {
                return Err(m);
            },
        }
        let tile = Tile::from(tile_path_type);
        let cur = self.current_turn;
        proof {
            self.board.lemma_wf();
            assert(self.players@[cur as int]@ == current(self@));
        }
        let ghost before = self@;
        match self.players[cur].place_tile(tile) {
            Some(_) => {},
            None => {
                let mut msg = String::new();
                push_text(&mut msg, "Player doesn't have a ");
                push_text(&mut msg, tile_name_str(tile));
                proof {
                    reveal_strlit("Player doesn't have a ");
                    assert(self.players@ =~= old(self).players@.update(cur as int, self.players@[cur as int]));
                    lemma_map_update(old(self).players@, cur as int, self.players@[cur as int]);
                    assert(self@.players =~= before.players);
                }
                return Err(msg);
            },
        }
        proof {
            lemma_map_update(old(self).players@, cur as int, self.players@[cur as int]);
            assert(self.players@ =~= old(self).players@.update(cur as int, self.players@[cur as int]));
        }
        match self.board.place_tile(coordinates, TilePlacement::new(tile_path_type, rotation)) {
            Ok(event_score) => {
                self.players[cur].add_score(event_score);
                let added = self.current_turn_placements.insert(coordinates);
                proof {
                    self.board.lemma_wf();
                    self.current_turn_placements.lemma_finite();
                    assert(!before.placements.contains(coordinates));
                    assert(added);
                    assert(self@.players =~= before.players.update(cur as int, self.players@[cur as int]@));
                    assert forall|c: Coordinates| #[trigger] self@.placements.contains(c) implies has_tile_at(self@.board, c) by {
                        if c != coordinates {
                            assert(before.placements.contains(c));
                        }
                    }
                    assert forall|i: int| 0 <= i < self@.players.len() implies player_wf(#[trigger] self@.players[i]) by {
                        if i != cur {
                            assert(self@.players[i] == before.players[i]);
                        }
                    }
                }
                Ok(())
            },
            Err(e) => {
                // Player's tile rack should be unchanged
                self.players[cur].return_tile(tile);
                proof {
                    assert(self@.players =~= before.players.update(cur as int, self.players@[cur as int]@));
                    assert forall|i: int| 0 <= i < self@.players.len() implies player_wf(#[trigger] self@.players[i]) by {
                        if i != cur {
                            assert(self@.players[i] == before.players[i]);
                        }
                    }
                }
                Err(String::from(e))
            },
        }
    }
}

} // verus!

verus! {

impl Nile {
    pub fn rotate_tile(&mut self, coordinates: Coordinates, rotation: Rotation) -> (r: ActionResult)
        requires
            old(self).wf(),
        ensures
            final(self).wf(),
            (res_msg(r), final(self)@) == spec_rotate(old(self)@, coordinates, rotation),
    {
        match self.if_not_ended() {
            Ok(()) => {},
            Err(m) => {
                return Err(m);
            },
        }
        proof {
            reveal_strlit("Can't change tiles from another turn");
        }
        if !self.current_turn_placements.contains(coordinates) {
            return Err("Can't change tiles from another turn".to_owned());
        }
        let ghost before = self@;
        match self.board.rotate_tile(coordinates, rotation) {
            Ok(()) => {},
            Err(e) => {
                return Err(String::from(e));
            },
        }
        proof {
            self.board.lemma_wf();
            assert forall|c: Coordinates| #[trigger] self@.placements.contains(c) implies has_tile_at(self@.board, c) by {
                assert(before.placements.contains(c));
            }
        }
        Ok(())
    }

    pub fn remove_tile(&mut self, coordinates: Coordinates) -> (r: Result<TilePlacement, String>)
        requires
            old(self).wf(),
        ensures
            final(self).wf(),
            (res_msg(r), final(self)@) == spec_remove(old(self)@, coordinates),
    {
        match self.if_not_ended() {
            Ok(()) => {},
            Err(m) => {
                return Err(m);
            },
        }
        proof {
            reveal_strlit("Can't change tiles from another turn");
            reveal_strlit("No tile there");
        }
        if !self.current_turn_placements.contains(coordinates) {
            return Err("Can't change tiles from another turn".to_owned());
        }
        let ghost before = self@;
        let cur = self.current_turn;
        proof {
            self.current_turn_placements.lemma_finite();
            assert(self.players@[cur as int]@ == current(self@));
            assert(before.placements.len() >= 1) by {
                vstd::set_lib::lemma_set_empty_equivalency_len(before.placements);
            }
        }
        let (tile_placement, event_score) = match self.board.remove_tile(coordinates) {
            Some(x) => x,
            None => {
                return Err("No tile there".to_owned());
            },
        };
        self.players[cur].return_tile(Tile::from(tile_placement.tile_path_type));
        self.players[cur].add_score(event_score);
        let removed = self.current_turn_placements.remove(coordinates);
        assert(removed);
        proof {
            self.board.lemma_wf();
            self.current_turn_placements.lemma_finite();
            lemma_map_update(old(self).players@, cur as int, self.players@[cur as int]);
            assert(self.players@ =~= old(self).players@.update(cur as int, self.players@[cur as int]));
            assert(self@.players =~= before.players.update(cur as int, self.players@[cur as int]@));
            assert forall|c: Coordinates| #[trigger] self@.placements.contains(c) implies has_tile_at(self@.board, c) by {
                assert(before.placements.contains(c));
            }
            assert forall|i: int| 0 <= i < self@.players.len() implies player_wf(#[trigger] self@.players[i]) by {
                if i != cur {
                    assert(self@.players[i] == before.players[i]);
                }
            }
        }
        Ok(tile_placement)
    }

    /// Returns the old `TilePath`
    pub fn update_universal_path(&mut self, coordinates: Coordinates, tile_path: TilePath) -> (r:
        Result<TilePath, String>)
        requires
            old(self).wf(),
        ensures
            final(self).wf(),
            (res_msg(r), final(self)@) == spec_update_path(old(self)@, coordinates, tile_path),
    {
        match self.if_not_ended() {
            Ok(()) => {},
            Err(m) => {
                return Err(m);
            },
        }
        proof {
            reveal_strlit("Can't change tiles from another turn");
        }
        if !self.current_turn_placements.contains(coordinates) {
            return Err("Can't change tiles from another turn".to_owned());
        }
        let ghost before = self@;
        let old_tile_path = match self.board.update_universal_path(coordinates, tile_path) {
            Ok(tp) => tp,
            Err(e) => {
                return Err(String::from(e));
            },
        };
        proof {
            self.board.lemma_wf();
            assert forall|c: Coordinates| #[trigger] self@.placements.contains(c) implies has_tile_at(self@.board, c) by {
                assert(before.placements.contains(c));
            }
        }
        Ok(old_tile_path)
    }

    pub fn move_tile(&mut self, old_coordinates: Coordinates, new_coordinates: Coordinates) -> (r:
        ActionResult)
        requires
            old(self).wf(),
        ensures
            final(self).wf(),
            (res_msg(r), final(self)@) == spec_move(old(self)@, old_coordinates, new_coordinates),
    {
        match self.if_not_ended() {
            Ok(()) => {},
            Err(m) => {
                return Err(m);
            },
        }
        proof {
            reveal_strlit("Can't change tiles from another turn");
        }
        if !self.current_turn_placements.contains(old_coordinates) {
            return Err("Can't change tiles from another turn".to_owned());
        }
        let ghost before = self@;
        let cur = self.current_turn;
        proof {
            self.board.lemma_wf();
            assert(self.players@[cur as int]@ == current(self@));
        }
        let score_change = match self.board.move_tile(old_coordinates, new_coordinates) {
            Ok(s) => s,
            Err(e) => {
                return Err(String::from(e));
            },
        };
        self.players[cur].add_score(score_change);
        let removed = self.current_turn_placements.remove(old_coordinates);
        let added = self.current_turn_placements.insert(new_coordinates);
        proof {
            self.board.lemma_wf();
            self.current_turn_placements.lemma_finite();

            assert(removed);
            if new_coordinates != old_coordinates {
                assert(!before.placements.contains(new_coordinates));
            }
            assert(added);
            lemma_map_update(old(self).players@, cur as int, self.players@[cur as int]);
            assert(self.players@ =~= old(self).players@.update(cur as int, self.players@[cur as int]));
            assert(self@.players =~= before.players.update(cur as int, self.players@[cur as int]@));
            assert forall|c: Coordinates| #[trigger] self@.placements.contains(c) implies has_tile_at(self@.board, c) by {
                if c != new_coordinates {
                    assert(before.placements.contains(c));
                }
            }
            assert forall|i: int| 0 <= i < self@.players.len() implies player_wf(#[trigger] self@.players[i]) by {
                if i != cur {
                    assert(self@.players[i] == before.players[i]);
                }
            }
        }
        Ok(())
    }

    /// Passes the turn to the next player
    pub fn advance_turn(&mut self)
        requires
            old(self).wf_between(),
        ensures
            final(self).wf(),
            final(self)@ == advanced(old(self)@),
            final(self)@.current_turn == (old(self)@.current_turn + 1) % (old(self)@.players.len() as int),
            final(self)@.players == old(self)@.players,
            current(final(self)@).rack.len() == 0 ==> final(self)@.has_ended,
            final(self)@.has_ended <==> old(self)@.has_ended || current(final(self)@).rack.len() == 0,
    {
        self.current_turn = (self.current_turn + 1) % self.players.len();
        proof {
            assert(self.players@[self.current_turn as int]@ == self@.players[self.current_turn as int]);
        }
        self.has_ended = self.has_ended || self.players[self.current_turn].rack_is_empty();
        self.current_turn_placements.clear();
        proof {
            self.current_turn_placements.lemma_finite();
        }
    }
}

} // verus!

verus! {

impl Nile {
    /// Called when the current player _claims_ they can't play any tiles. If successful, ends their
    /// turn
    pub fn cant_play(&mut self) -> (r: Result<bool, String>)
        requires
            old(self).wf(),
        ensures
            final(self).wf(),
            old(self)@.has_ended ==> (r matches Err(m) && m@ == ended_msg()) && final(self)@ == old(
                self,
            )@,
            !old(self)@.has_ended && old(self)@.placements.len() > 0 ==> (r matches Err(m) && m@
                == "Player has placed tiles this turn"@) && final(self)@ == old(self)@,
            !old(self)@.has_ended && old(self)@.placements.len() == 0 ==> r == Ok::<bool, String>(
                final(self)@.has_ended,
            ) && exists|shuffled: Seq<Tile>|
                #![trigger after_cant_play(old(self)@, shuffled)]
                shuffled.to_multiset() == old(self)@.tile_box.to_multiset().add(
                    current(old(self)@).rack.to_multiset(),
                ) && final(self)@ == after_cant_play(old(self)@, shuffled),
            r is Ok && current(final(self)@).rack.len() == 0 ==> final(self)@.has_ended,
    {
        match self.if_not_ended() {
            Ok(()) => {},
            Err(m) => {
                return Err(m);
            },
        }
        proof {
            reveal_strlit("Player has placed tiles this turn");
            self.current_turn_placements.lemma_finite();
            if self@.placements.len() == 0 {
                assert(self@.placements =~= Set::<Coordinates>::empty());
            }
        }
        if !self.current_turn_placements.is_empty() {
            return Err("Player has placed tiles this turn".to_owned());
        }
        let ghost before = self@;
        let player_count = self.players.len();
        let cur = self.current_turn;
        proof {
            assert(self.players@[cur as int]@ == current(self@));
        }
        // whether a move was playable is not checked
        proof {
            crate::player::lemma_tiles_score_bound(self@.players[cur as int].rack);
        }
        let _turn_score = self.players[cur].cant_play(&mut self.tile_box);
        let ghost shuffled = choose|shuffled: Seq<Tile>|
            #![trigger crate::player::filled(Seq::empty(), shuffled)]
            shuffled.to_multiset() == before.tile_box.to_multiset().add(
                current(before).rack.to_multiset(),
            ) && self.players@[cur as int]@ == (PlayerView {
                rack: filled(Seq::empty(), shuffled).0,
                scores: current(before).scores.push(
                    TurnScore::spec_new(0, crate::player::tiles_score(current(before).rack) as i16),
                ),
                current: TurnScore::spec_new(0, 0),
                ..current(before)
            }) && self.tile_box@ == filled(Seq::empty(), shuffled).1;
        self.cant_play_count = self.cant_play_count + 1;
        self.has_ended = self.cant_play_count as usize == player_count;
        proof {
            broadcast use vstd::seq_lib::group_to_multiset_ensures;

            lemma_map_update(old(self).players@, cur as int, self.players@[cur as int]);
            assert(self.players@ =~= old(self).players@.update(cur as int, self.players@[cur as int]));
            assert(self@.players =~= before.players.update(cur as int, self.players@[cur as int]@));
            assert(shuffled.len() == shuffled.to_multiset().len());
            assert(before.tile_box.len() == before.tile_box.to_multiset().len());
            assert(current(before).rack.len() == current(before).rack.to_multiset().len());
            assert forall|i: int| 0 <= i < self@.players.len() implies player_wf(#[trigger] self@.players[i]) by {
                if i != cur {
                    assert(self@.players[i] == before.players[i]);
                }
            }
        }
        self.advance_turn();
        proof {
            assert(self@ == after_cant_play(before, shuffled));
        }
        Ok(self.has_ended)
    }

    /// Called when a human player ends their turn normally (they played at least one tile)
    pub fn end_turn(&mut self) -> (r: Result<bool, String>)
        requires
            old(self).wf(),
        ensures
            final(self).wf(),
            (res_msg(r), final(self)@) == spec_end_turn(old(self)@),
            r is Ok ==> r == Ok::<bool, String>(final(self)@.has_ended),
            r is Ok && current(final(self)@).rack.len() == 0 ==> final(self)@.has_ended,
    {
        match self.if_not_ended() {
            Ok(()) => {},
            Err(m) => {
                return Err(m);
            },
        }
        proof {
            reveal_strlit(
                "Can't end turn normally without placing at least one tile. Use can't play if there are no playable moves",
            );
            self.current_turn_placements.lemma_finite();
            if self@.placements.len() == 0 {
                assert(self@.placements =~= Set::<Coordinates>::empty());
            }
        }
        if self.current_turn_placements.is_empty() {
            return Err(
                "Can't end turn normally without placing at least one tile. Use can't play if there are no playable moves".to_owned(),
            );
        }
        let ghost before = self@;
        let placements = self.current_turn_placements.clone();
        match self.board.validate_turns_moves(placements) {
            Ok(has_ended) => {
                self.has_ended = has_ended;
            },
            Err(e) => {
                let m = String::from(e);
                return Err(m);
            },
        }
        let cur = self.current_turn;
        proof {
            self.board.lemma_wf();
            assert(self.players@[cur as int]@ == current(before));
        }
        let _turn_score = self.players[cur].end_turn(&mut self.tile_box);
        self.cant_play_count = 0;
        proof {
            lemma_map_update(old(self).players@, cur as int, self.players@[cur as int]);
            assert(self.players@ =~= old(self).players@.update(cur as int, self.players@[cur as int]));
            assert(self@.players =~= before.players.update(cur as int, self.players@[cur as int]@));
            assert forall|i: int| 0 <= i < self@.players.len() implies player_wf(#[trigger] self@.players[i]) by {
                if i != cur {
                    assert(self@.players[i] == before.players[i]);
                }
            }
            assert forall|c: Coordinates| #[trigger] self@.placements.contains(c) implies has_tile_at(self@.board, c) by {
                assert(before.placements.contains(c));
            }
        }
        self.advance_turn();
        Ok(self.has_ended)
    }
}

} // verus!

verus! {

/// What the player has selected in the UI
#[derive(Copy, Clone, Debug, PartialEq, Eq, Structural)]
pub enum SelectedTile {
    /// index of selected tile in rack
    Rack(u8),
    Board(Coordinates),
}

/// The abstract state of an engine
pub struct EngineView {
    pub nile: NileView,
    pub selected: Option<SelectedTile>,
    pub log: LogView,
}

/// `c` as debug formatting prints it
pub open spec fn coordinates_debug(c: Coordinates) -> Seq<char> {
    "Coordinates("@ + crate::text::int_text(c.0 as int) + ", "@ + crate::text::int_text(c.1 as int)
        + ")"@
}

/// Appends `c` to `text` as debug formatting prints it
fn push_coordinates_debug(text: &mut String, c: Coordinates)
    ensures
        final(text)@ == old(text)@ + coordinates_debug(c),
{
    push_text(text, "Coordinates(");
    push_int(text, c.0);
    push_text(text, ", ");
    push_int(text, c.1);
    push_text(text, ")");
    proof {
        reveal_strlit("Coordinates(");
        reveal_strlit(", ");
        reveal_strlit(")");
    }
    assert(text@ =~= old(text)@ + coordinates_debug(c));
}

/// `prefix` followed by the decimal text of `n`
fn message_with_number(prefix: &str, n: u8) -> (m: String)
    ensures
        m@ == prefix@ + crate::text::int_text(n as int),
{
    let mut m = String::new();
    push_text(&mut m, prefix);
    push_number(&mut m, n as i16);
    m
}

/// The tile at index `idx` of `rack`, if there is one
fn rack_get(rack: &TileArray, idx: u8) -> (t: Option<Tile>)
    ensures
        (idx as int) < rack@.len() ==> t == Some(rack@[idx as int]),
        (idx as int) >= rack@.len() ==> t is None,
{
    let slice = rack.as_slice();
    if (idx as usize) < slice.len() {
        Some(slice[idx as usize])
    } else {
        None
    }
}

/// Handles high-level game and UI logic. Executes CPU players' moves, handles undo/redo
#[derive(Debug)]
pub struct Engine {
    nile: Nile,
    /// whether the player has selected a tile in the UI. Many actions are performed on the
    /// selected tile
    selected_tile: Option<SelectedTile>,
    /// event log for undoing and redoing
    log: Log,
}

impl View for Engine {
    type V = EngineView;

    closed spec fn view(&self) -> EngineView {
        EngineView { nile: self.nile@, selected: self.selected_tile, log: self.log@ }
    }
}

impl Clone for Engine {
    fn clone(&self) -> (e: Self)
        ensures
            e@ == self@,
            self.wf() ==> e.wf(),
    {
        Engine { nile: self.nile.clone(), selected_tile: self.selected_tile, log: self.log.clone() }
    }
}

impl Engine {
    /// Invariant of the representation
    pub closed spec fn wf(&self) -> bool {
        self.nile.wf()
    }

    /// An engine that satisfies its invariant holds a game that satisfies
    /// `nile_wf`
    pub proof fn lemma_wf(&self)
        requires
            self.wf(),
        ensures
            nile_wf(self@.nile),
    {
    }

    pub fn new(player_names: Vec<String>, cpu_player_count: u8) -> (r: Result<Self, String>)
        ensures
            2 <= player_names@.len() + cpu_player_count <= 4 ==> (r matches Ok(e) && e.wf()
                && is_new_game(e@.nile, player_names@, cpu_player_count as nat) && e@.selected
                is None && e@.log == (LogView {
                events: Seq::empty(),
                redo: Seq::empty(),
                undo: Seq::empty(),
            })),
            !(2 <= player_names@.len() + cpu_player_count <= 4) ==> (r matches Err(m) && m@
                == "Nile is a game for 2-4 players"@),
    {
        let nile = match Nile::new(player_names, cpu_player_count) {
            Ok(n) => n,
            Err(m) => {
                return Err(m);
            },
        };
        Ok(Self { nile, selected_tile: None, log: Log::new() })
    }

    pub fn board(&self) -> (b: &Board)
        requires
            self.wf(),
        ensures
            b@ == self@.nile.board,
            b.wf(),
    {
        self.nile.board()
    }

    pub fn players(&self) -> (p: &Vec<Player>)
        ensures
            p@.map_values(|q: Player| q@) == self@.nile.players,
    {
        self.nile.players()
    }

    pub fn current_turn(&self) -> (t: usize)
        ensures
            t == self@.nile.current_turn,
    {
        self.nile.current_turn()
    }

    pub fn current_player(&self) -> (p: &Player)
        requires
            self.wf(),
        ensures
            p@ == current(self@.nile),
    {
        self.nile.current_player()
    }

    pub fn can_undo(&self) -> (b: bool)
        ensures
            b == (self@.log.undo.len() > 0),
    {
        self.log.can_undo()
    }

    pub fn can_redo(&self) -> (b: bool)
        ensures
            b == (self@.log.redo.len() > 0),
    {
        self.log.can_redo()
    }

    pub fn current_turn_placements(&self) -> (c: &CoordinateSet)
        ensures
            c@ == self@.nile.placements,
    {
        self.nile.current_turn_placements()
    }

    pub fn has_ended(&self) -> (b: bool)
        ensures
            b == self@.nile.has_ended,
    {
        self.nile.has_ended()
    }

    /// Returns the current `SelectedTile` if it exists, whether on the board or the rack
    pub fn selected_tile(&self) -> (s: &Option<SelectedTile>)
        ensures
            *s == self@.selected,
    {
        &self.selected_tile
    }

    /// If a board tile is currently selected, returns its coordinates
    pub fn selected_board_tile(&self) -> (c: Option<Coordinates>)
        ensures
            c == match self@.selected {
                Some(SelectedTile::Board(c)) => Some(c),
                _ => None,
            },
    {
        match self.selected_tile {
            Some(SelectedTile::Board(coordinates)) => Some(coordinates),
            _ => None,
        }
    }

    /// If a rack tile is currently selected, returns its index in the `current_player()`'s
    /// `.tiles()`
    pub fn selected_rack_tile(&self) -> (i: Option<u8>)
        ensures
            i == match self@.selected {
                Some(SelectedTile::Rack(i)) => Some(i),
                _ => None,
            },
    {
        match self.selected_tile {
            Some(SelectedTile::Rack(rack_idx)) => Some(rack_idx),
            _ => None,
        }
    }

    /// Selects the `rack_idx`th tile of the player whose turn it is
    pub fn select_rack_tile(&mut self, rack_idx: u8) -> (r: ActionResult)
        requires
            old(self).wf(),
        ensures
            final(self).wf(),
            (res_msg(r), final(self)@) == spec_select_rack(old(self)@, rack_idx),
    {
        if rack_get(self.current_player().tiles(), rack_idx).is_some() {
            self.selected_tile = Some(SelectedTile::Rack(rack_idx));
            // no `log` call because selections are not undoable events
            Ok(())
        } else {
            Err(message_with_number("Invalid rack index: ", rack_idx))
        }
    }

    /// Selects the tile at `coordinates`, placed this turn
    pub fn select_board_tile(&mut self, coordinates: Coordinates) -> (r: ActionResult)
        requires
            old(self).wf(),
        ensures
            final(self).wf(),
            (res_msg(r), final(self)@) == spec_select_board(old(self)@, coordinates),
    {
        proof {
            reveal_strlit("Can only select tiles from this turn");
        }
        if !self.nile.current_turn_placements.contains(coordinates) {
            return Err("Can only select tiles from this turn".to_owned());
        }
        match self.nile.board.cell(coordinates) {
            None => {
                let mut m = String::new();
                push_text(&mut m, "Invalid ");
                push_coordinates_debug(&mut m, coordinates);
                Err(m)
            },
            Some(cell) => {
                if cell.tile().is_some() {
                    self.selected_tile = Some(SelectedTile::Board(coordinates));
                    Ok(())
                } else {
                    let mut m = String::new();
                    push_text(&mut m, "No tile at ");
                    push_coordinates_debug(&mut m, coordinates);
                    Err(m)
                }
            },
        }
    }
}

} // verus!

verus! {

/// The outcome of an action of the engine that only changes the game: on
/// success the game becomes `n` and `selected`, and `e` is recorded;
/// otherwise only the game changes to `n`
pub open spec fn engine_step(
    old: EngineView,
    res: Result<(), Seq<char>>,
    n: NileView,
    selected: Option<SelectedTile>,
    e: Event,
) -> (Result<(), Seq<char>>, EngineView) {
    match res {
        Ok(()) => (Ok(()), EngineView { nile: n, selected, log: crate::log::record(old.log, e) }),
        Err(m) => (Err(m), EngineView { nile: n, ..old }),
    }
}

/// The outcome of placing the selected tile at `c`: a rack tile is placed
/// unrotated, a board tile is moved
pub open spec fn spec_engine_place(e: EngineView, c: Coordinates) -> (Result<(), Seq<char>>, EngineView) {
    match e.selected {
        None => (Err("No selected tile"@), e),
        Some(SelectedTile::Rack(idx)) => {
            let rack = current(e.nile).rack;
            if idx >= rack.len() {
                (Err("Invalid selected tile index: "@ + crate::text::int_text(idx as int)), e)
            } else {
                let tpt = crate::path::type_of_tile(rack[idx as int]);
                let (res, n) = spec_place(e.nile, tpt, c, Rotation::Clockwise0);
                engine_step(
                    e,
                    res,
                    n,
                    Some(SelectedTile::Board(c)),
                    Event::PlaceTile(
                        TilePlacementEvent {
                            tile_path_type: tpt,
                            coordinates: c,
                            rotation: Rotation::Clockwise0,
                        },
                    ),
                )
            }
        },
        Some(SelectedTile::Board(old_c)) => {
            let (res, n) = spec_move(e.nile, old_c, c);
            engine_step(
                e,
                res,
                n,
                Some(SelectedTile::Board(c)),
                Event::MoveTile(crate::log::RevertableEvent { old: old_c, new: c }),
            )
        },
    }
}

/// The outcome of replaying `ev` on the game; the log stays as it is
pub open spec fn spec_dispatch(e: EngineView, ev: Event) -> (Result<(), Seq<char>>, EngineView) {
    match ev {
        Event::PlaceTile(tpe) => {
            let (res, n) = spec_place(e.nile, tpe.tile_path_type, tpe.coordinates, tpe.rotation);
            match res {
                Ok(()) => (
                    Ok(()),
                    EngineView {
                        nile: n,
                        selected: Some(SelectedTile::Board(tpe.coordinates)),
                        ..e
                    },
                ),
                Err(m) => (Err(m), EngineView { nile: n, ..e }),
            }
        },
        Event::RotateTile(re) => {
            let (res, n) = spec_rotate(e.nile, re.new.coordinates, re.new.rotation);
            (res, EngineView { nile: n, selected: Some(SelectedTile::Board(re.new.coordinates)), ..e })
        },
        Event::RemoveTile(tpe) => {
            let (res, n) = spec_remove(e.nile, tpe.coordinates);
            match res {
                Ok(_) => (Ok(()), EngineView { nile: n, selected: None, ..e }),
                Err(m) => (Err(m), EngineView { nile: n, ..e }),
            }
        },
        Event::UpdateUniversalPath(uup) => {
            let (res, n) = spec_update_path(e.nile, uup.coordinates, uup.new_tile_path);
            (
                match res {
                    Ok(_) => Ok(()),
                    Err(m) => Err(m),
                },
                EngineView { nile: n, selected: Some(SelectedTile::Board(uup.coordinates)), ..e },
            )
        },
        Event::MoveTile(mte) => {
            let (res, n) = spec_move(e.nile, mte.old, mte.new);
            match res {
                Ok(()) => (
                    Ok(()),
                    EngineView { nile: n, selected: Some(SelectedTile::Board(mte.new)), ..e },
                ),
                Err(m) => (Err(m), EngineView { nile: n, ..e }),
            }
        },
        Event::CantPlay => (Err("Unsupported event type: CantPlay"@), e),
        Event::EndTurn => (Err("Unsupported event type: EndTurn"@), e),
    }
}

/// The outcome of undoing: the last undoable event becomes redoable and its
/// revert is replayed
pub open spec fn spec_undo(e: EngineView) -> (Result<(), Seq<char>>, EngineView) {
    if e.nile.has_ended {
        (Err(ended_msg()), e)
    } else {
        let (ev, log) = crate::log::undo_step(e.log);
        match ev {
            None => (Err("Nothing to undo"@), EngineView { log, ..e }),
            Some(ev) => spec_dispatch(EngineView { log, ..e }, ev),
        }
    }
}

/// The outcome of redoing: the last redoable event becomes undoable again
/// and is replayed
pub open spec fn spec_redo(e: EngineView) -> (Result<(), Seq<char>>, EngineView) {
    if e.nile.has_ended {
        (Err(ended_msg()), e)
    } else {
        let (ev, log) = crate::log::redo_step(e.log);
        match ev {
            None => (Err("Nothing to redo"@), EngineView { log, ..e }),
            Some(ev) => spec_dispatch(EngineView { log, ..e }, ev),
        }
    }
}

/// The outcome of selecting the `idx`th tile of the rack
pub open spec fn spec_select_rack(e: EngineView, idx: u8) -> (Result<(), Seq<char>>, EngineView) {
    if (idx as int) < current(e.nile).rack.len() {
        (Ok(()), EngineView { selected: Some(SelectedTile::Rack(idx)), ..e })
    } else {
        (Err("Invalid rack index: "@ + crate::text::int_text(idx as int)), e)
    }
}

/// The outcome of selecting the tile at `c`
pub open spec fn spec_select_board(e: EngineView, c: Coordinates) -> (Result<(), Seq<char>>, EngineView) {
    if e.nile.placements.contains(c) {
        (Ok(()), EngineView { selected: Some(SelectedTile::Board(c)), ..e })
    } else {
        (Err("Can only select tiles from this turn"@), e)
    }
}

/// The outcome of turning the selected board tile to `rotation`
pub open spec fn spec_rotate_selected(e: EngineView, rotation: Rotation) -> (Result<(), Seq<char>>, EngineView) {
    match e.selected {
        Some(SelectedTile::Board(c)) => {
            let cell = e.nile.board.cells[c];
            if !e.nile.board.cells.contains_key(c) {
                (Err("Invalid coordinates"@), e)
            } else if cell.tile is None {
                (Err("No tile there"@), e)
            } else {
                let (res, n) = spec_rotate(e.nile, c, rotation);
                engine_step(
                    e,
                    res,
                    n,
                    e.selected,
                    Event::RotateTile(
                        crate::log::RevertableEvent {
                            old: crate::log::Rotation {
                                coordinates: c,
                                rotation: cell.tile.unwrap().rotation,
                            },
                            new: crate::log::Rotation { coordinates: c, rotation },
                        },
                    ),
                )
            }
        },
        _ => (Err("No selected board tile"@), e),
    }
}

/// The outcome of taking the selected board tile back to the rack
pub open spec fn spec_remove_selected(e: EngineView) -> (Result<(), Seq<char>>, EngineView) {
    match e.selected {
        Some(SelectedTile::Board(c)) => {
            let (res, n) = spec_remove(e.nile, c);
            match res {
                Ok(tp) => (
                    Ok(()),
                    EngineView {
                        nile: n,
                        selected: None,
                        log: crate::log::record(
                            e.log,
                            Event::RemoveTile(
                                TilePlacementEvent {
                                    tile_path_type: tp.tile_path_type,
                                    coordinates: c,
                                    rotation: tp.rotation,
                                },
                            ),
                        ),
                    },
                ),
                Err(m) => (Err(m), e),
            }
        },
        _ => (Err("No selected board tile"@), e),
    }
}

/// The outcome of changing the path the selected universal tile shows
pub open spec fn spec_update_selected(e: EngineView, tile_path: TilePath) -> (Result<(), Seq<char>>, EngineView) {
    match e.selected {
        Some(SelectedTile::Board(c)) => {
            let (res, n) = spec_update_path(e.nile, c, tile_path);
            match res {
                Ok(old_path) => engine_step(
                    e,
                    Ok(()),
                    n,
                    e.selected,
                    Event::UpdateUniversalPath(
                        crate::log::UpdateUniversalPathEvent {
                            coordinates: c,
                            old_tile_path: old_path,
                            new_tile_path: tile_path,
                        },
                    ),
                ),
                Err(m) => (Err(m), e),
            }
        },
        _ => (Err("No selected board tile"@), e),
    }
}

impl Engine {
    /// Places the selected tile at `coordinates`: a tile from the rack is
    /// placed unrotated, a tile on the board is moved there
    pub fn place_tile(&mut self, coordinates: Coordinates) -> (r: ActionResult)
        requires
            old(self).wf(),
        ensures
            final(self).wf(),
            (res_msg(r), final(self)@) == spec_engine_place(old(self)@, coordinates),
    {
        proof {
            reveal_strlit("No selected tile");
        }
        match self.selected_tile {
            Some(SelectedTile::Rack(idx)) => {
                let tile = match rack_get(self.current_player().tiles(), idx) {
                    Some(t) => t,
                    None => {
                        return Err(message_with_number("Invalid selected tile index: ", idx));
                    },
                };
                let tile_path_type = TilePathType::from(tile);
                let rotation = Rotation::default();
                match self.nile.place_tile(tile_path_type, coordinates, rotation) {
                    Ok(()) => {},
                    Err(m) => {
                        return Err(m);
                    },
                }
                self.selected_tile = Some(SelectedTile::Board(coordinates));
                self.log.place_tile(tile_path_type, coordinates, rotation);
                Ok(())
            },
            Some(SelectedTile::Board(old_coordinates)) => {
                match self.nile.move_tile(old_coordinates, coordinates) {
                    Ok(()) => {},
                    Err(m) => {
                        return Err(m);
                    },
                }
                self.selected_tile = Some(SelectedTile::Board(coordinates));
                self.log.move_tile(old_coordinates, coordinates);
                Ok(())
            },
            None => Err("No selected tile".to_owned()),
        }
    }

    /// Turns the selected board tile
    pub fn rotate_selected_tile(&mut self, rotation: Rotation) -> (r: ActionResult)
        requires
            old(self).wf(),
        ensures
            final(self).wf(),
            (res_msg(r), final(self)@) == spec_rotate_selected(old(self)@, rotation),
    {
        proof {
            reveal_strlit("No selected board tile");
            reveal_strlit("Invalid coordinates");
            reveal_strlit("No tile there");
        }
        let coordinates = match self.selected_board_tile() {
            Some(c) => c,
            None => {
                return Err("No selected board tile".to_owned());
            },
        };
        let old_rotation = match self.nile.board().cell(coordinates) {
            None => {
                return Err("Invalid coordinates".to_owned());
            },
            Some(cell) => match cell.tile() {
                None => {
                    return Err("No tile there".to_owned());
                },
                Some(tile) => tile.rotation(),
            },
        };
        match self.nile.rotate_tile(coordinates, rotation) {
            Ok(()) => {},
            Err(m) => {
                return Err(m);
            },
        }
        self.log.rotate_tile(coordinates, old_rotation, rotation);
        Ok(())
    }

    /// Takes the selected board tile back to the rack
    pub fn remove_selected_tile(&mut self) -> (r: ActionResult)
        requires
            old(self).wf(),
        ensures
            final(self).wf(),
            (res_msg(r), final(self)@) == spec_remove_selected(old(self)@),
    {
        proof {
            reveal_strlit("No selected board tile");
        }
        let coordinates = match self.selected_board_tile() {
            Some(c) => c,
            None => {
                return Err("No selected board tile".to_owned());
            },
        };
        let old_tile_placement = match self.nile.remove_tile(coordinates) {
            Ok(tp) => tp,
            Err(m) => {
                return Err(m);
            },
        };
        // TODO: make removed tile in rack the new selected?
        self.selected_tile = None;
        self.log.remove_tile(
            *old_tile_placement.tile_path_type(),
            coordinates,
            old_tile_placement.rotation(),
        );
        Ok(())
    }

    /// Changes the path the selected universal tile shows
    pub fn update_selected_universal_path(&mut self, tile_path: TilePath) -> (r: ActionResult)
        requires
            old(self).wf(),
        ensures
            final(self).wf(),
            (res_msg(r), final(self)@) == spec_update_selected(old(self)@, tile_path),
    {
        proof {
            reveal_strlit("No selected board tile");
        }
        let coordinates = match self.selected_board_tile() {
            Some(c) => c,
            None => {
                return Err("No selected board tile".to_owned());
            },
        };
        let old_tile_path = match self.nile.update_universal_path(coordinates, tile_path) {
            Ok(tp) => tp,
            Err(m) => {
                return Err(m);
            },
        };
        self.log.update_universal_path(coordinates, old_tile_path, tile_path);
        Ok(())
    }

    /// Replays `event` on the game
    fn dispatch(&mut self, event: Event) -> (r: ActionResult)
        requires
            old(self).wf(),
        ensures
            final(self).wf(),
            (res_msg(r), final(self)@) == spec_dispatch(old(self)@, event),
    {
        proof {
            reveal_strlit("Unsupported event type: CantPlay");
            reveal_strlit("Unsupported event type: EndTurn");
        }
        match event {
            Event::PlaceTile(tpe) => {
                match self.nile.place_tile(tpe.tile_path_type, tpe.coordinates, tpe.rotation) {
                    Ok(()) => {},
                    Err(m) => {
                        return Err(m);
                    },
                }
                self.selected_tile = Some(SelectedTile::Board(tpe.coordinates));
            },
            Event::RotateTile(re) => {
                self.selected_tile = Some(SelectedTile::Board(re.new.coordinates));
                match self.nile.rotate_tile(re.new.coordinates, re.new.rotation) {
                    Ok(()) => {},
                    Err(m) => {
                        return Err(m);
                    },
                }
            },
            Event::RemoveTile(tpe) => {
                match self.nile.remove_tile(tpe.coordinates) {
                    Ok(_) => {},
                    Err(m) => {
                        return Err(m);
                    },
                }
                self.selected_tile = None;
            },
            Event::UpdateUniversalPath(uup) => {
                self.selected_tile = Some(SelectedTile::Board(uup.coordinates));
                match self.nile.update_universal_path(uup.coordinates, uup.new_tile_path) {
                    Ok(_) => {},
                    Err(m) => {
                        return Err(m);
                    },
                }
            },
            Event::MoveTile(mte) => {
                match self.nile.move_tile(mte.old, mte.new) {
                    Ok(()) => {},
                    Err(m) => {
                        return Err(m);
                    },
                }
                self.selected_tile = Some(SelectedTile::Board(mte.new));
            },
            Event::CantPlay => {
                return Err("Unsupported event type: CantPlay".to_owned());
            },
            Event::EndTurn => {
                return Err("Unsupported event type: EndTurn".to_owned());
            },
        };
        Ok(())
    }

    /// Attempt to undo an action
    pub fn undo(&mut self) -> (r: ActionResult)
        requires
            old(self).wf(),
        ensures
            final(self).wf(),
            (res_msg(r), final(self)@) == spec_undo(old(self)@),
    {
        match self.nile.if_not_ended() {
            Ok(()) => {},
            Err(m) => {
                return Err(m);
            },
        }
        proof {
            reveal_strlit("Nothing to undo");
        }
        let event = match self.log.begin_undo() {
            Some(e) => e,
            None => {
                return Err("Nothing to undo".to_owned());
            },
        };
        self.dispatch(event)
    }

    /// Attempt to redo a previously-undone action
    pub fn redo(&mut self) -> (r: ActionResult)
        requires
            old(self).wf(),
        ensures
            final(self).wf(),
            (res_msg(r), final(self)@) == spec_redo(old(self)@),
    {
        match self.nile.if_not_ended() {
            Ok(()) => {},
            Err(m) => {
                return Err(m);
            },
        }
        proof {
            reveal_strlit("Nothing to redo");
        }
        let event = match self.log.redo() {
            Some(e) => e,
            None => {
                return Err("Nothing to redo".to_owned());
            },
        };
        self.dispatch(event)
    }
}

} // verus!

verus! {

/// The tiles on all racks together
pub open spec fn racks_total(ps: Seq<PlayerView>) -> nat
    decreases ps.len(),
{
    if ps.len() == 0 {
        0
    } else {
        racks_total(ps.drop_last()) + ps.last().rack.len()
    }
}

/// The tiles not yet on the board: in the box and on the racks
pub open spec fn supply(n: NileView) -> nat {
    n.tile_box.len() + racks_total(n.players)
}

proof fn lemma_racks_total_update(ps: Seq<PlayerView>, i: int, p: PlayerView)
    requires
        0 <= i < ps.len(),
    ensures
        racks_total(ps.update(i, p)) + ps[i].rack.len() == racks_total(ps) + p.rack.len(),
    decreases ps.len(),
{
    if i < ps.len() - 1 {
        lemma_racks_total_update(ps.drop_last(), i, p);
        assert(ps.update(i, p).drop_last() =~= ps.drop_last().update(i, p));
    } else {
        assert(ps.update(i, p).drop_last() =~= ps.drop_last());
    }
}

/// The coordinates of a placement event
pub open spec fn placed_at(e: Event) -> Coordinates {
    e->PlaceTile_0.coordinates
}

/// Whether the undoable events of `e` are exactly the placements of this
/// turn, each placed once, and nothing ended the game
pub open spec fn turn_log_matches(e: EngineView) -> bool {
    &&& !e.nile.has_ended
    &&& e.nile.placements.len() == e.log.undo.len()
    &&& forall|i: int| 0 <= i < e.log.undo.len() ==> #[trigger] e.log.undo[i] is PlaceTile
    &&& forall|i: int, j: int|
        0 <= i < j < e.log.undo.len() ==> placed_at(#[trigger] e.log.undo[i]) != placed_at(
            #[trigger] e.log.undo[j],
        )
    &&& forall|c: Coordinates| #[trigger]
        e.nile.placements.contains(c) <==> exists|i: int|
            0 <= i < e.log.undo.len() && placed_at(#[trigger] e.log.undo[i]) == c
}

/// The placements `ps` applied in order, stopping at the first that fails:
/// whether all succeeded, and the game afterwards
pub open spec fn place_all(n: NileView, ps: Seq<TilePlacementEvent>) -> (bool, NileView)
    decreases ps.len(),
{
    if ps.len() == 0 {
        (true, n)
    } else {
        let (ok, m) = place_all(n, ps.drop_last());
        if !ok {
            (false, m)
        } else {
            let p = ps.last();
            let (res, m2) = spec_place(m, p.tile_path_type, p.coordinates, p.rotation);
            (res is Ok, m2)
        }
    }
}

/// The totals of the players other than the `cur`th among the first `k`
pub open spec fn other_totals(ps: Seq<PlayerView>, cur: int, k: nat) -> Seq<i16>
    decreases k,
{
    if k == 0 || k > ps.len() {
        Seq::empty()
    } else {
        other_totals(ps, cur, (k - 1) as nat) + if k - 1 == cur {
            Seq::empty()
        } else {
            seq![crate::player::total_points(ps[k - 1].scores)]
        }
    }
}

/// The moves the computer player whose turn it is in `n` chooses
pub open spec fn cpu_moves(n: NileView) -> Option<crate::ai::brute::MovesView> {
    crate::ai::brute::spec_best(
        crate::ai::brute::context(
            n.board,
            crate::player::total_points(current(n).scores),
            other_totals(n.players, n.current_turn, n.players.len()),
            n.players.len() as int,
        ),
        crate::ai::brute::initial_state(n.board, current(n).rack),
    )
}

/// What a turn of a computer player did
#[derive(Debug)]
pub struct CPUTurnUpdate {
    pub player_id: usize,
    pub turn_score: TurnScore,
    pub placements: Vec<TilePlacementEvent>,
    pub game_has_ended: bool,
    /// we don't need to display or expose what tiles the cpu actually has
    pub tile_count: usize,
}

impl CPUTurnUpdate {
    /// The tiles the computer player placed, in order
    pub closed spec fn placements_view(&self) -> Seq<TilePlacementEvent> {
        self.placements@
    }

    /// The tiles the computer player placed, in order
    pub fn placements(&self) -> (p: &Vec<TilePlacementEvent>)
        ensures
            p@ == self.placements_view(),
    {
        &self.placements
    }
}

/// The outcome of a turn
#[derive(Debug)]
pub struct EndTurnUpdate {
    pub turn_score: TurnScore,
    tiles: TileArray,
    pub game_has_ended: bool,
}

impl EndTurnUpdate {
    /// The tiles of the player after their turn
    pub closed spec fn tiles_view(&self) -> Seq<Tile> {
        self.tiles@
    }

    /// The tiles of the player after their turn
    pub fn tiles(&self) -> (t: &TileArray)
        ensures
            t@ == self.tiles_view(),
    {
        &self.tiles
    }
}

} // verus!

verus! {

/// What holds during a turn of a computer player that started from `n0`:
/// the undoable events are its placements, which took tiles from its rack
/// onto empty cells of the board; nothing else changed
pub open spec fn cpu_turn_inv(n0: NileView, events0: Seq<Event>, e: EngineView) -> bool {
    let n = e.nile;
    &&& turn_log_matches(e)
    &&& e.log.events == events0
    &&& supply(n) + n.placements.len() == supply(n0)
    &&& n.current_turn == n0.current_turn
    &&& n.tile_box == n0.tile_box
    &&& n.cant_play_count == n0.cant_play_count
    &&& n.players.len() == n0.players.len()
    &&& forall|i: int| 0 <= i < n.players.len() && i != n.current_turn ==> #[trigger] n.players[i] == n0.players[i]
    &&& current(n).name == current(n0).name
    &&& current(n).scores == current(n0).scores
    &&& current(n).is_cpu == current(n0).is_cpu
    &&& crate::supply::game_tiles(n) == crate::supply::game_tiles(n0)
    &&& n.board.last_placement == n0.board.last_placement
    &&& forall|c: Coordinates| #[trigger] n.board.cells.contains_key(c) <==> n0.board.cells.contains_key(c)
    &&& forall|c: Coordinates| n.board.cells.contains_key(c) && !n.placements.contains(c) ==> #[trigger] n.board.cells[c] == n0.board.cells[c]
    &&& forall|c: Coordinates| #[trigger] n.placements.contains(c) ==> n0.board.cells[c] == (Cell { bonus: n.board.cells[c].bonus, tile: None })
}

proof fn lemma_place_step(
    n0: NileView,
    events0: Seq<Event>,
    e: EngineView,
    tpt: TilePathType,
    c: Coordinates,
    rotation: Rotation,
    selected: Option<SelectedTile>,
)
    requires
        cpu_turn_inv(n0, events0, e),
        nile_wf(e.nile),
    ensures
        ({
            let (res, n) = spec_place(e.nile, tpt, c, rotation);
            match res {
                Ok(()) => cpu_turn_inv(
                    n0,
                    events0,
                    EngineView {
                        nile: n,
                        selected,
                        log: crate::log::record(
                            e.log,
                            Event::PlaceTile(TilePlacementEvent { tile_path_type: tpt, coordinates: c, rotation }),
                        ),
                    },
                ),
                Err(_) => cpu_turn_inv(n0, events0, EngineView { nile: n, ..e }),
            }
        }),
{
    let (res, n) = spec_place(e.nile, tpt, c, rotation);
    crate::supply::lemma_place_keeps_tiles(e.nile, tpt, c, rotation);
    let p = current(e.nile);
    let cur = e.nile.current_turn;
    if !e.nile.has_ended && p.rack.contains(tile_of_type(tpt)) {
        let j = first_index(p.rack, tile_of_type(tpt));
        let rack = p.rack.remove(j);
        if empty_at(e.nile.board, c) {
            let ev = Event::PlaceTile(TilePlacementEvent { tile_path_type: tpt, coordinates: c, rotation });
            let e2 = EngineView { nile: n, selected, log: crate::log::record(e.log, ev) };
            lemma_racks_total_update(e.nile.players, cur, n.players[cur]);
            assert(!e.nile.placements.contains(c));
            assert forall|i: int| 0 <= i < e2.log.undo.len() implies #[trigger] e2.log.undo[i] is PlaceTile by {
                if i < e.log.undo.len() {
                    assert(e2.log.undo[i] == e.log.undo[i]);
                }
            }
            assert forall|i: int, k: int|
                0 <= i < k < e2.log.undo.len() implies placed_at(#[trigger] e2.log.undo[i]) != placed_at(
                #[trigger] e2.log.undo[k],
            ) by {
                assert(e2.log.undo[i] == e.log.undo[i]);
                if k == e.log.undo.len() {
                    assert(e.nile.placements.contains(placed_at(e.log.undo[i])));
                } else {
                    assert(e2.log.undo[k] == e.log.undo[k]);
                }
            }
            assert forall|d: Coordinates| #[trigger]
                e2.nile.placements.contains(d) <==> exists|i: int|
                    0 <= i < e2.log.undo.len() && placed_at(#[trigger] e2.log.undo[i]) == d by {
                if d == c {
                    assert(placed_at(e2.log.undo[e.log.undo.len() as int]) == c);
                } else {
                    if e.nile.placements.contains(d) {
                        let i = choose|i: int| 0 <= i < e.log.undo.len() && placed_at(#[trigger] e.log.undo[i]) == d;
                        assert(e2.log.undo[i] == e.log.undo[i]);
                    }
                    if exists|i: int| 0 <= i < e2.log.undo.len() && placed_at(#[trigger] e2.log.undo[i]) == d {
                        let i = choose|i: int| 0 <= i < e2.log.undo.len() && placed_at(#[trigger] e2.log.undo[i]) == d;
                        assert(i < e.log.undo.len());
                        assert(e2.log.undo[i] == e.log.undo[i]);
                    }
                }
            }
            assert(cpu_turn_inv(n0, events0, e2));
        } else {
            lemma_racks_total_update(e.nile.players, cur, n.players[cur]);
            assert(cpu_turn_inv(n0, events0, EngineView { nile: n, ..e }));
        }
    }
}

proof fn lemma_undo_step(n0: NileView, events0: Seq<Event>, e: EngineView)
    requires
        cpu_turn_inv(n0, events0, e),
        nile_wf(e.nile),
        e.log.undo.len() > 0,
    ensures
        spec_undo(e).0 is Ok,
        cpu_turn_inv(n0, events0, spec_undo(e).1),
{
    let last = e.log.undo.last();
    let k = e.log.undo.len() - 1;
    assert(e.log.undo[k] is PlaceTile);
    let c = placed_at(last);
    assert(e.nile.placements.contains(c));
    let (res, n) = spec_remove(e.nile, c);
    crate::supply::lemma_remove_keeps_tiles(e.nile, c);
    let e2 = spec_undo(e).1;
    let cur = e.nile.current_turn;
    lemma_racks_total_update(e.nile.players, cur, n.players[cur]);
    assert(e.nile.placements.finite());
    assert(e2.nile == n);
    assert(e2.log.undo == e.log.undo.drop_last());
    assert forall|i: int| 0 <= i < e2.log.undo.len() implies #[trigger] e2.log.undo[i] is PlaceTile by {
        assert(e2.log.undo[i] == e.log.undo[i]);
    }
    assert forall|i: int, j: int|
        0 <= i < j < e2.log.undo.len() implies placed_at(#[trigger] e2.log.undo[i]) != placed_at(
        #[trigger] e2.log.undo[j],
    ) by {
        assert(e2.log.undo[i] == e.log.undo[i]);
        assert(e2.log.undo[j] == e.log.undo[j]);
    }
    assert forall|d: Coordinates| #[trigger]
        e2.nile.placements.contains(d) <==> exists|i: int|
            0 <= i < e2.log.undo.len() && placed_at(#[trigger] e2.log.undo[i]) == d by {
        if e2.nile.placements.contains(d) {
            let i = choose|i: int| 0 <= i < e.log.undo.len() && placed_at(#[trigger] e.log.undo[i]) == d;
            assert(i != k);
            assert(e2.log.undo[i] == e.log.undo[i]);
        }
        if exists|i: int| 0 <= i < e2.log.undo.len() && placed_at(#[trigger] e2.log.undo[i]) == d {
            let i = choose|i: int| 0 <= i < e2.log.undo.len() && placed_at(#[trigger] e2.log.undo[i]) == d;
            assert(e2.log.undo[i] == e.log.undo[i]);
            assert(placed_at(e.log.undo[i]) != placed_at(e.log.undo[k]));
            assert(e.nile.placements.contains(d));
        }
    }
    assert forall|d: Coordinates|
        n.board.cells.contains_key(d) && !n.placements.contains(d) implies #[trigger] n.board.cells[d]
        == n0.board.cells[d] by {
        if d != c {
            assert(!e.nile.placements.contains(d));
        }
    }
}

} // verus!

verus! {

/// Whether a computer player's turn from `n0` to `n1` brought the game
/// closer to its end: it ended, tiles left the racks and the box for good,
/// or one more player in a row could not play
pub open spec fn progressed(n0: NileView, n1: NileView) -> bool {
    ||| n1.has_ended
    ||| supply(n1) < supply(n0)
    ||| supply(n1) == supply(n0) && n1.cant_play_count == n0.cant_play_count + 1
}

/// The game `mid` after the moves of the computer player whose turn it is in
/// `n0` were all taken back: the board, the box, the other players and the
/// scores are those of `n0`, and the rack holds the same tiles, maybe in
/// another order
pub open spec fn rolled_back(n0: NileView, mid: NileView) -> bool {
    &&& mid.board == n0.board
    &&& mid.current_turn == n0.current_turn
    &&& mid.tile_box == n0.tile_box
    &&& mid.cant_play_count == n0.cant_play_count
    &&& !mid.has_ended
    &&& mid.placements == Set::<Coordinates>::empty()
    &&& supply(mid) == supply(n0)
    &&& mid.players.len() == n0.players.len()
    &&& forall|i: int|
        0 <= i < mid.players.len() && i != mid.current_turn ==> #[trigger] mid.players[i]
            == n0.players[i]
    &&& current(mid).name == current(n0).name
    &&& current(mid).scores == current(n0).scores
    &&& current(mid).is_cpu == current(n0).is_cpu
    &&& current(mid).rack.to_multiset() == current(n0).rack.to_multiset()
}

/// Whether the computer player whose turn it is in `n0` can play the moves
/// it chooses: every tile is placed and the turn ends normally
pub open spec fn cpu_can_play(n0: NileView) -> bool {
    match cpu_moves(n0) {
        Some(m) => place_all(n0, m.placements).0 && spec_end_turn(place_all(n0, m.placements).1).0 is Ok,
        None => false,
    }
}

/// One turn of the computer player whose turn it is in `n0`, which leaves the
/// game as `n1`: it plays the moves it chooses where it can, and otherwise
/// takes them back and claims it cannot play; when it finds no moves at all,
/// it claims so from `n0` itself
pub open spec fn cpu_turn(n0: NileView, n1: NileView) -> bool {
    &&& progressed(n0, n1)
    &&& cpu_can_play(n0) ==> n1 == spec_end_turn(place_all(n0, cpu_moves(n0).unwrap().placements).1).1
    &&& !cpu_can_play(n0) ==> exists|mid: NileView, shuffled: Seq<Tile>|
        #![trigger after_cant_play(mid, shuffled)]
        rolled_back(n0, mid) && shuffled.to_multiset() == mid.tile_box.to_multiset().add(
            current(mid).rack.to_multiset(),
        ) && n1 == after_cant_play(mid, shuffled)
    &&& cpu_moves(n0) is None ==> exists|shuffled: Seq<Tile>|
        #![trigger after_cant_play(n0, shuffled)]
        shuffled.to_multiset() == n0.tile_box.to_multiset().add(current(n0).rack.to_multiset())
            && n1 == after_cant_play(n0, shuffled)
}

/// Step `i` of the run `ns`: a computer player's turn from `ns[i]` to `ns[i + 1]`
pub open spec fn cpu_step(ns: Seq<NileView>, i: int) -> bool {
    !ns[i].has_ended && current(ns[i]).is_cpu && cpu_turn(ns[i], ns[i + 1])
}

/// `ns` is a run of computer players' turns, each state reached from the one
/// before by one turn
pub open spec fn cpu_run(ns: Seq<NileView>) -> bool {
    &&& ns.len() >= 1
    &&& forall|i: int| 0 <= i < ns.len() - 1 ==> #[trigger] cpu_step(ns, i)
}

/// The player whose turn it is in `n0` cannot play; the rack goes back into
/// the box, is drawn anew, and the computer players' turns that follow lead
/// to `n1`
pub open spec fn cant_play_leads_to(n0: NileView, n1: NileView) -> bool {
    exists|shuffled: Seq<Tile>|
        #![trigger after_cant_play(n0, shuffled)]
        shuffled.to_multiset() == n0.tile_box.to_multiset().add(current(n0).rack.to_multiset())
            && cpu_turns_lead_to(after_cant_play(n0, shuffled), n1)
}

/// The computer players' turns that follow in `n0` lead to `n1`, where the
/// game has ended or a human player is to play
pub open spec fn cpu_turns_lead_to(n0: NileView, n1: NileView) -> bool {
    &&& exists|ns: Seq<NileView>| #[trigger] cpu_run(ns) && ns[0] == n0 && ns.last() == n1
    &&& n1.has_ended || !current(n1).is_cpu
}

impl Engine {
    /// Get scores of players other than the current player
    fn other_player_scores(&self) -> (v: Vec<i16>)
        requires
            self.wf(),
        ensures
            v@ == other_totals(self@.nile.players, self@.nile.current_turn, self@.nile.players.len()),
            v@.len() < self@.nile.players.len(),
    {
        let players = self.nile.players();
        let current_turn = self.nile.current_turn();
        let mut scores: Vec<i16> = Vec::new();
        let mut id: usize = 0;
        while id < players.len()
            invariant
                id <= players@.len(),
                players@.map_values(|q: Player| q@) == self@.nile.players,
                current_turn == self@.nile.current_turn,
                0 <= current_turn < players@.len(),
                scores@ == other_totals(self@.nile.players, current_turn as int, id as nat),
                scores@.len() <= id,
                id > current_turn ==> scores@.len() < id,
            decreases players.len() - id,
        {
            if id != current_turn {
                scores.push(players[id].total_score());
            }
            id = id + 1;
        }
        scores
    }

    /// Ends the turn of the player whose turn it is, without letting
    /// computer players play
    fn end_turn_impl(&mut self) -> (r: Result<bool, String>)
        requires
            old(self).wf(),
        ensures
            final(self).wf(),
            ({
                let (res, n) = spec_end_turn(old(self)@.nile);
                match res {
                    Ok(b) => r == Ok::<bool, String>(b) && final(self)@ == (EngineView {
                        nile: n,
                        selected: None,
                        log: crate::log::seal(old(self)@.log, Event::EndTurn),
                    }),
                    Err(m) => (r matches Err(s) && s@ == m) && final(self)@ == old(self)@,
                }
            }),
    {
        let has_ended = match self.nile.end_turn() {
            Ok(b) => b,
            Err(m) => {
                return Err(m);
            },
        };
        self.log.end_turn();
        self.selected_tile = None;
        Ok(has_ended)
    }

    /// Ends the turn of the player whose turn it is as one in which they could
    /// not play, without letting computer players play
    fn cant_play_impl(&mut self) -> (r: Result<bool, String>)
        requires
            old(self).wf(),
        ensures
            final(self).wf(),
            old(self)@.nile.has_ended ==> (r matches Err(m) && m@ == ended_msg()) && final(self)@
                == old(self)@,
            !old(self)@.nile.has_ended && old(self)@.nile.placements.len() > 0 ==> (r matches Err(m)
                && m@ == "Player has placed tiles this turn"@) && final(self)@ == old(self)@,
            !old(self)@.nile.has_ended && old(self)@.nile.placements.len() == 0 ==> r
                == Ok::<bool, String>(final(self)@.nile.has_ended) && final(self)@.selected is None
                && final(self)@.log == crate::log::seal(old(self)@.log, Event::CantPlay) && exists|
                shuffled: Seq<Tile>,
            |
                #![trigger after_cant_play(old(self)@.nile, shuffled)]
                shuffled.to_multiset() == old(self)@.nile.tile_box.to_multiset().add(
                    current(old(self)@.nile).rack.to_multiset(),
                ) && final(self)@.nile == after_cant_play(old(self)@.nile, shuffled),
    {
        let has_ended = match self.nile.cant_play() {
            Ok(b) => b,
            Err(m) => {
                return Err(m);
            },
        };
        self.log.cant_play();
        self.selected_tile = None;
        Ok(has_ended)
    }

    /// Undoes every undoable event of the turn of a computer player
    fn undo_all(&mut self, Ghost(n0): Ghost<NileView>, Ghost(events0): Ghost<Seq<Event>>)
        requires
            old(self).wf(),
            cpu_turn_inv(n0, events0, old(self)@),
        ensures
            final(self).wf(),
            cpu_turn_inv(n0, events0, final(self)@),
            final(self)@.log.undo.len() == 0,
    {
        while self.can_undo()
            invariant
                self.wf(),
                cpu_turn_inv(n0, events0, self@),
            decreases self@.log.undo.len(),
        {
            proof {
                lemma_undo_step(n0, events0, self@);
            }
            self.undo().expect("Undo event");
        }
    }

    /// Places the tiles a computer player chose, in order; when one of them
    /// fails, takes them all back
    fn place_cpu_moves(
        &mut self,
        tile_placement_events: &Vec<TilePlacementEvent>,
        Ghost(n0): Ghost<NileView>,
        Ghost(events0): Ghost<Seq<Event>>,
    ) -> (placed: bool)
        requires
            old(self).wf(),
            cpu_turn_inv(n0, events0, old(self)@),
            old(self)@.nile == n0,
            nile_wf(n0),
        ensures
            final(self).wf(),
            cpu_turn_inv(n0, events0, final(self)@),
            placed == place_all(n0, tile_placement_events@).0,
            placed ==> final(self)@.nile == place_all(n0, tile_placement_events@).1,
            !placed ==> final(self)@.log.undo.len() == 0,
    {
        let mut i: usize = 0;
        while i < tile_placement_events.len()
            invariant
                self.wf(),
                cpu_turn_inv(n0, events0, self@),
                nile_wf(n0),
                i <= tile_placement_events.len(),
                self@.nile == place_all(n0, tile_placement_events@.take(i as int)).1,
                place_all(n0, tile_placement_events@.take(i as int)).0,
            decreases tile_placement_events.len() - i,
        {
            let tpe = tile_placement_events[i];
            proof {
                lemma_place_step(
                    n0,
                    events0,
                    self@,
                    tpe.tile_path_type,
                    tpe.coordinates,
                    tpe.rotation,
                    self@.selected,
                );
                assert(tile_placement_events@.take(i + 1).drop_last() =~= tile_placement_events@.take(
                    i as int,
                ));
            }
            match self.nile.place_tile(tpe.tile_path_type, tpe.coordinates, tpe.rotation) {
                Ok(()) => {
                    // Add to log in case there's a problem with the moves and everything needs to be
                    // undo
                    self.log.place_tile(tpe.tile_path_type, tpe.coordinates, tpe.rotation);
                },
                Err(_) => {
                    self.undo_all(Ghost(n0), Ghost(events0));
                    proof {
                        lemma_place_all_stops(n0, tile_placement_events@, i as int);
                    }
                    return false;
                },
            }
            i = i + 1;
        }
        assert(tile_placement_events@.take(i as int) =~= tile_placement_events@);
        true
    }

    /// The score of the last completed turn of player `player_id`
    fn last_turn_score(&self, player_id: usize) -> (s: TurnScore)
        requires
            self.wf(),
            player_id < self@.nile.players.len(),
            self@.nile.players[player_id as int].scores.len() > 0,
        ensures
            s == self@.nile.players[player_id as int].scores.last(),
    {
        let scores = self.nile.players[player_id].scores();
        scores[scores.len() - 1]
    }

    /// Plays the moves a computer player chose; when one of them or the end
    /// of the turn fails, takes them all back
    fn play_cpu_moves(
        &mut self,
        tile_placement_events: Vec<TilePlacementEvent>,
        player_id: usize,
        Ghost(n0): Ghost<NileView>,
        Ghost(events0): Ghost<Seq<Event>>,
    ) -> (r: Option<CPUTurnUpdate>)
        requires
            old(self).wf(),
            cpu_turn_inv(n0, events0, old(self)@),
            old(self)@.nile == n0,
            nile_wf(n0),
            player_id == n0.current_turn,
        ensures
            final(self).wf(),
            final(self)@.log.undo.len() == 0,
            ({
                let played = place_all(n0, tile_placement_events@).0 && spec_end_turn(
                    place_all(n0, tile_placement_events@).1,
                ).0 is Ok;
                &&& played ==> (r matches Some(u) && u.player_id == player_id
                    && u.game_has_ended == final(self)@.nile.has_ended && u.turn_score
                    == final(self)@.nile.players[player_id as int].scores.last() && u.tile_count
                    == current(final(self)@.nile).rack.len() && u.placements_view()
                    == tile_placement_events@ && final(self)@.nile == spec_end_turn(
                    place_all(n0, tile_placement_events@).1,
                ).1 && final(self)@.nile.placements == Set::<Coordinates>::empty() && progressed(
                    n0,
                    final(self)@.nile,
                ))
                &&& !played ==> r is None && cpu_turn_inv(n0, events0, final(self)@)
            }),
    {
        if !self.place_cpu_moves(&tile_placement_events, Ghost(n0), Ghost(events0)) {
            return None;
        }
        let ghost before_end = self@;
        match self.end_turn_impl() {
            Ok(has_ended) => {
                proof {
                    lemma_end_turn_supply(before_end.nile);
                    assert(before_end.nile.placements.finite());
                }
                Some(
                    CPUTurnUpdate {
                        placements: tile_placement_events,
                        player_id,
                        turn_score: self.last_turn_score(player_id),
                        game_has_ended: has_ended,
                        tile_count: self.nile.tile_count(),
                    },
                )
            },
            Err(_) => {
                self.undo_all(Ghost(n0), Ghost(events0));
                None
            },
        }
    }

    /// Ends the turn of a computer player who played nothing
    fn cpu_cant_play(
        &mut self,
        player_id: usize,
        Ghost(n0): Ghost<NileView>,
        Ghost(events0): Ghost<Seq<Event>>,
    ) -> (u: CPUTurnUpdate)
        requires
            old(self).wf(),
            cpu_turn_inv(n0, events0, old(self)@),
            old(self)@.log.undo.len() == 0,
            nile_wf(n0),
            player_id == n0.current_turn,
        ensures
            final(self).wf(),
            final(self)@.log.undo.len() == 0,
            final(self)@.nile.placements == Set::<Coordinates>::empty(),
            u.player_id == player_id,
            u.game_has_ended == final(self)@.nile.has_ended,
            u.turn_score == final(self)@.nile.players[player_id as int].scores.last(),
            u.tile_count == current(final(self)@.nile).rack.len(),
            u.placements_view().len() == 0,
            progressed(n0, final(self)@.nile),
            exists|mid: NileView, shuffled: Seq<Tile>|
                #![trigger after_cant_play(mid, shuffled)]
                rolled_back(n0, mid) && mid == old(self)@.nile && shuffled.to_multiset()
                    == mid.tile_box.to_multiset().add(current(mid).rack.to_multiset())
                    && final(self)@.nile == after_cant_play(mid, shuffled),
    {
        let ghost mid = self@.nile;
        proof {
            assert(mid.placements.finite());
            assert(mid.placements =~= Set::<Coordinates>::empty());
            assert(mid.board.cells =~= n0.board.cells);
            crate::supply::lemma_rack_from_game_tiles(n0, mid);
            lemma_cant_play_supply(mid);
        }
        let _end_turn_update = self.cant_play_impl().unwrap();
        proof {
            assert(self@.nile.placements =~= Set::<Coordinates>::empty());
        }
        CPUTurnUpdate {
            placements: Vec::new(),
            player_id,
            turn_score: self.last_turn_score(player_id),
            game_has_ended: self.nile.has_ended,
            tile_count: self.nile.tile_count(),
        }
    }

    /// Process a CPU turn: when a computer player is to play, it plays the
    /// moves it chooses, or takes them back and claims it cannot play
    pub fn take_cpu_turn(&mut self) -> (r: Option<CPUTurnUpdate>)
        requires
            old(self).wf(),
            old(self)@.log.undo.len() == 0,
            old(self)@.nile.placements == Set::<Coordinates>::empty(),
        ensures
            final(self).wf(),
            final(self)@.log.undo.len() == 0,
            final(self)@.nile.placements == Set::<Coordinates>::empty(),
            old(self)@.nile.has_ended || !current(old(self)@.nile).is_cpu ==> r is None
                && final(self)@ == old(self)@,
            !old(self)@.nile.has_ended && current(old(self)@.nile).is_cpu ==> ({
                let n0 = old(self)@.nile;
                &&& r matches Some(u)
                &&& u.player_id == n0.current_turn
                &&& u.game_has_ended == final(self)@.nile.has_ended
                &&& u.turn_score == final(self)@.nile.players[n0.current_turn].scores.last()
                &&& u.tile_count == current(final(self)@.nile).rack.len()
                &&& cpu_turn(n0, final(self)@.nile)
                &&& cpu_can_play(n0) ==> u.placements_view() == cpu_moves(n0).unwrap().placements
                &&& !cpu_can_play(n0) ==> u.placements_view().len() == 0
            }),
    {
        if self.nile.has_ended {
            return None;
        }
        let player = self.nile.current_player();
        if !player.is_cpu() {
            return None;
        }
        let player_id = self.nile.current_turn;
        let ghost n0 = self@.nile;
        let ghost events0 = self@.log.events;
        let other_scores = self.other_player_scores();
        proof {
            self.nile.board.lemma_wf();
            assert(player_wf(current(n0)));
        }
        // Hard-code CPU implementation for now
        let mut cpu = crate::ai::Brute::new(self.nile.players.len());
        let lists_of_moves = crate::ai::CPUPlayer::take_turn(
            &mut cpu,
            player.tiles(),
            &self.nile.board,
            player.total_score(),
            other_scores,
        );
        proof {
            assert(self@.nile.placements.len() == 0);
            assert(cpu_turn_inv(n0, events0, self@));
        }
        if let Some(tile_placement_events) = lists_of_moves {
            if let Some(update) = self.play_cpu_moves(
                tile_placement_events,
                player_id,
                Ghost(n0),
                Ghost(events0),
            ) {
                return Some(update);
            }
        }
        // Either no moves to begin with or all returned moves were invalid
        Some(self.cpu_cant_play(player_id, Ghost(n0), Ghost(events0)))
    }
}

/// A failed placement stops the whole sequence
#[verifier::spinoff_prover]
proof fn lemma_place_all_stops(n0: NileView, ps: Seq<TilePlacementEvent>, i: int)
    requires
        0 <= i < ps.len(),
        place_all(n0, ps.take(i)).0,
        spec_place(
            place_all(n0, ps.take(i)).1,
            ps[i].tile_path_type,
            ps[i].coordinates,
            ps[i].rotation,
        ).0 is Err,
    ensures
        !place_all(n0, ps).0,
    decreases ps.len() - i,
{
    if i + 1 == ps.len() {
        assert(ps.take(i + 1) =~= ps);
        assert(ps.drop_last() =~= ps.take(i));
    } else {
        assert(ps.take(i + 1).drop_last() =~= ps.take(i));
        lemma_place_all_false(n0, ps, i + 1);
    }
}

/// Once a placement failed, longer sequences fail too
proof fn lemma_place_all_false(n0: NileView, ps: Seq<TilePlacementEvent>, k: int)
    requires
        0 < k <= ps.len(),
        !place_all(n0, ps.take(k)).0,
    ensures
        !place_all(n0, ps).0,
    decreases ps.len() - k,
{
    if k == ps.len() {
        assert(ps.take(k) =~= ps);
    } else {
        assert(ps.take(k + 1).drop_last() =~= ps.take(k));
        lemma_place_all_false(n0, ps, k + 1);
    }
}

/// Ending a turn moves tiles from the box to the rack only
proof fn lemma_end_turn_supply(n: NileView)
    requires
        nile_wf(n),
        spec_end_turn(n).0 is Ok,
    ensures
        supply(spec_end_turn(n).1) == supply(n),
{
    let p = current(n);
    let (rack, tile_box) = filled(p.rack, n.tile_box);
    let cur = n.current_turn;
    let q = PlayerView { rack, ..p };
    lemma_racks_total_update(n.players, cur, spec_end_turn(n).1.players[cur]);
}

/// Not being able to play keeps the tiles: the rack goes into the box and is
/// drawn anew
proof fn lemma_cant_play_supply(n: NileView)
    requires
        nile_wf(n),
    ensures
        forall|shuffled: Seq<Tile>| #![trigger after_cant_play(n, shuffled)]
            shuffled.to_multiset() == n.tile_box.to_multiset().add(current(n).rack.to_multiset())
                ==> supply(after_cant_play(n, shuffled)) == supply(n),
{
    assert forall|shuffled: Seq<Tile>| #![trigger after_cant_play(n, shuffled)]
        shuffled.to_multiset() == n.tile_box.to_multiset().add(current(n).rack.to_multiset())
            implies supply(after_cant_play(n, shuffled)) == supply(n) by {
        broadcast use vstd::seq_lib::group_to_multiset_ensures;

        assert(shuffled.len() == shuffled.to_multiset().len());
        assert(n.tile_box.len() == n.tile_box.to_multiset().len());
        assert(current(n).rack.len() == current(n).rack.to_multiset().len());
        let cur = n.current_turn;
        lemma_racks_total_update(n.players, cur, after_cant_play(n, shuffled).players[cur]);
    }
}

} // verus!

verus! {

impl Engine {
    /// Lets computer players play until it is a human player's turn or the
    /// game has ended
    fn take_cpu_turns_if_any(&mut self)
        requires
            old(self).wf(),
            old(self)@.log.undo.len() == 0,
            old(self)@.nile.placements == Set::<Coordinates>::empty(),
        ensures
            final(self).wf(),
            final(self)@.log.undo.len() == 0,
            final(self)@.nile.placements == Set::<Coordinates>::empty(),
            cpu_turns_lead_to(old(self)@.nile, final(self)@.nile),
            old(self)@.nile.has_ended || !current(old(self)@.nile).is_cpu ==> final(self)@ == old(
                self,
            )@,
    {
        let ghost mut ns: Seq<NileView> = seq![self@.nile];
        while !self.has_ended() && self.current_player().is_cpu()
            invariant
                self.wf(),
                self@.log.undo.len() == 0,
                self@.nile.placements == Set::<Coordinates>::empty(),
                old(self)@.nile.has_ended || !current(old(self)@.nile).is_cpu ==> self@ == old(
                    self,
                )@,
                cpu_run(ns),
                ns[0] == old(self)@.nile,
                ns.last() == self@.nile,
            ensures
                self.wf(),
                self@.log.undo.len() == 0,
                self@.nile.placements == Set::<Coordinates>::empty(),
                self@.nile.has_ended || !current(self@.nile).is_cpu,
                old(self)@.nile.has_ended || !current(old(self)@.nile).is_cpu ==> self@ == old(
                    self,
                )@,
                cpu_run(ns),
                ns[0] == old(self)@.nile,
                ns.last() == self@.nile,
            decreases
                if self@.nile.has_ended {
                    0int
                } else {
                    1int
                },
                supply(self@.nile),
                4 - self@.nile.cant_play_count,
        {
            let ghost before = self@.nile;
            if self.take_cpu_turn().is_none() {
                break;
            }
            proof {
                let ns1 = ns.push(self@.nile);
                assert forall|i: int| 0 <= i < ns1.len() - 1 implies #[trigger] cpu_step(ns1, i) by {
                    if i < ns.len() - 1 {
                        assert(cpu_step(ns, i));
                    } else {
                        assert(ns1[i] == before);
                    }
                }
                ns = ns1;
            }
        }
        proof {
            assert(cpu_run(ns) && ns[0] == old(self)@.nile && ns.last() == self@.nile);
        }
    }

    /// Ends the turn of the player whose turn it is, who placed tiles; then
    /// computer players play. Returns whether the game has ended.
    pub fn end_turn(&mut self) -> (r: Result<bool, String>)
        requires
            old(self).wf(),
        ensures
            final(self).wf(),
            ({
                let (res, n) = spec_end_turn(old(self)@.nile);
                match res {
                    Err(m) => (r matches Err(s) && s@ == m) && final(self)@ == old(self)@,
                    Ok(_) => {
                        &&& r == Ok::<bool, String>(final(self)@.nile.has_ended)
                        &&& final(self)@.log.undo.len() == 0
                        &&& cpu_turns_lead_to(n, final(self)@.nile)
                        &&& n.has_ended || !current(n).is_cpu ==> final(self)@ == (EngineView {
                            nile: n,
                            selected: None,
                            log: crate::log::seal(old(self)@.log, Event::EndTurn),
                        })
                    },
                }
            }),
    {
        match self.end_turn_impl() {
            Ok(_) => {},
            Err(m) => {
                return Err(m);
            },
        }
        self.take_cpu_turns_if_any();
        Ok(self.has_ended())
    }

    /// The player whose turn it is claims they cannot play; then computer
    /// players play. Returns whether the game has ended.
    pub fn cant_play(&mut self) -> (r: Result<bool, String>)
        requires
            old(self).wf(),
        ensures
            final(self).wf(),
            old(self)@.nile.has_ended ==> (r matches Err(m) && m@ == ended_msg()) && final(self)@
                == old(self)@,
            !old(self)@.nile.has_ended && old(self)@.nile.placements.len() > 0 ==> (r matches Err(m)
                && m@ == "Player has placed tiles this turn"@) && final(self)@ == old(self)@,
            !old(self)@.nile.has_ended && old(self)@.nile.placements.len() == 0 ==> {
                &&& r == Ok::<bool, String>(final(self)@.nile.has_ended)
                &&& final(self)@.log.undo.len() == 0
                &&& cant_play_leads_to(old(self)@.nile, final(self)@.nile)
            },
    {
        match self.cant_play_impl() {
            Ok(_) => {},
            Err(m) => {
                return Err(m);
            },
        }
        proof {
            assert(self@.nile.placements =~= Set::<Coordinates>::empty());
        }
        self.take_cpu_turns_if_any();
        Ok(self.has_ended())
    }
}

} // verus!

verus! {

/// Placing a tile and taking it back has no net effect on the score: the
/// board, the placements of the turn and the score of the turn are as
/// before, and the rack holds the same tiles
pub proof fn lemma_place_then_remove(n: NileView, tpt: TilePathType, c: Coordinates, rotation: Rotation)
    requires
        nile_wf(n),
        spec_place(n, tpt, c, rotation).0 is Ok,
    ensures
        ({
            let n1 = spec_place(n, tpt, c, rotation).1;
            let (res, n2) = spec_remove(n1, c);
            &&& res == Ok::<TilePlacement, Seq<char>>(
                TilePlacement { tile_path_type: tpt, rotation },
            )
            &&& n2.board == n.board
            &&& n2.placements == n.placements
            &&& current(n2).current == current(n).current
            &&& current(n2).rack.to_multiset() == current(n).rack.to_multiset()
            &&& current(n2).scores == current(n).scores
            &&& n2.tile_box == n.tile_box
            &&& n2.current_turn == n.current_turn
            &&& forall|i: int|
                0 <= i < n.players.len() && i != n.current_turn ==> #[trigger] n2.players[i]
                    == n.players[i]
        }),
{
    broadcast use vstd::seq_lib::group_to_multiset_ensures;

    let n1 = spec_place(n, tpt, c, rotation).1;
    let p = current(n);
    let tile = tile_of_type(tpt);
    let j = first_index(p.rack, tile);
    let cell = Cell { bonus: n.board.cells[c].bonus, tile: Some(TilePlacement { tile_path_type: tpt, rotation }) };
    assert(sane_bonus_at(n, c));
    crate::board::lemma_place_then_remove_board(n.board, c, TilePlacement { tile_path_type: tpt, rotation });
    crate::score::lemma_wrapping_undo(p.current, spec_cell_score(cell));
    assert(!n.placements.contains(c));
    assert(n.placements.insert(c).remove(c) =~= n.placements);
    assert(p.rack.remove(j).push(tile).to_multiset() =~= p.rack.to_multiset()) by {
        assert(p.rack[j] == tile);
        assert(p.rack.to_multiset().remove(tile).insert(tile) =~= p.rack.to_multiset());
    }
    let (res, n2) = spec_remove(n1, c);
    assert(n2.players[n.current_turn] == current(n2));
}

/// Whether the bonus of the cell at `c` is of the size the board carries
pub open spec fn sane_bonus_at(n: NileView, c: Coordinates) -> bool {
    n.board.cells.contains_key(c) ==> crate::board::sane_bonus(n.board.cells[c].bonus)
}

/// Moving a tile changes the score of the turn only by the difference of the
/// bonuses of the two cells; between cells of equal bonus it changes nothing
pub proof fn lemma_move_score(n: NileView, old_c: Coordinates, new_c: Coordinates)
    requires
        nile_wf(n),
        spec_move(n, old_c, new_c).0 is Ok,
        n.board.cells[new_c].bonus == n.board.cells[old_c].bonus,
    ensures
        current(spec_move(n, old_c, new_c).1).current == current(n).current,
{
    let old_cell = n.board.cells[old_c];
    let emptied = put(n.board, old_c, Cell { bonus: old_cell.bonus, tile: None });
    assert(emptied.cells[new_c].bonus == old_cell.bonus);
    let new_cell = Cell { bonus: emptied.cells[new_c].bonus, tile: old_cell.tile };
    assert(new_cell == old_cell);
    assert(n.placements.contains(old_c));
    assert(sane_bonus_at(n, old_c));
    let sc = spec_cell_score(old_cell);
    assert(sc.plus(sc.negated()) == TurnScore::spec_new(0, 0));
    let n2 = spec_move(n, old_c, new_c).1;
    assert(n2.players[n.current_turn] == current(n2));
}

/// Passing the turn never un-ends a game
pub proof fn lemma_advance_keeps_end(n: NileView)
    requires
        n.players.len() > 0,
    ensures
        n.has_ended ==> advanced(n).has_ended,
        advanced(n).current_turn == (n.current_turn + 1) % (n.players.len() as int),
{
}

/// Passing the turn moves it to the next player, keeps every player as they
/// are, and ends the game exactly when it had ended or the player whose turn
/// it now is holds no tile
pub proof fn lemma_advance_ends_on_empty_rack(n: NileView)
    requires
        0 <= n.current_turn < n.players.len(),
    ensures
        advanced(n).current_turn == (n.current_turn + 1) % (n.players.len() as int),
        advanced(n).players == n.players,
        current(advanced(n)).rack.len() == 0 ==> advanced(n).has_ended,
        advanced(n).has_ended <==> n.has_ended || current(advanced(n)).rack.len() == 0,
{
}

/// After a turn ends normally, the game has ended whenever the player whose
/// turn it now is holds no tile
pub proof fn lemma_end_turn_to_empty_rack(n: NileView)
    requires
        nile_wf(n),
        spec_end_turn(n).0 is Ok,
    ensures
        current(spec_end_turn(n).1).rack.len() == 0 ==> spec_end_turn(n).1.has_ended,
        spec_end_turn(n).1.current_turn == (n.current_turn + 1) % (n.players.len() as int),
{
}

/// After a player claims they cannot play, the game has ended whenever the
/// player whose turn it now is holds no tile
pub proof fn lemma_cant_play_to_empty_rack(n: NileView, shuffled: Seq<Tile>)
    requires
        nile_wf(n),
    ensures
        current(after_cant_play(n, shuffled)).rack.len() == 0 ==> after_cant_play(n, shuffled).has_ended,
        after_cant_play(n, shuffled).current_turn == (n.current_turn + 1) % (n.players.len() as int),
{
}

} // verus!
