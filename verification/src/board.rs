use crate::error::{self, cell_fault, fault_of, CellError, Error, Fault};
use std::ops::Neg;
use crate::log::TilePlacementEvent;
use crate::path::{
    self, can_step, coordinates_text, eval_placement, inner_coordinates, is_unit_offset,
    message_at, path_of_type, path_offsets, placement_fault_text, push_coordinates, rotated,
    spec_eval_placement, spec_offsets, spec_offsets_to_tile_placement, step, tile_of_type, Offset,
    PlacementFault, TilePath, TilePathType,
};
use crate::text::{int_text, push_int, push_text};
use crate::score::{spec_from_points, TurnScore};
use crate::tile::{spec_tile_score, CoordinateSet, Coordinates, Rotation};
use vstd::prelude::*;

verus! {

/// A tile as it lies on the board
#[derive(Copy, Clone, Debug, PartialEq, Eq, Structural)]
pub struct TilePlacement {
    pub tile_path_type: TilePathType,
    pub rotation: Rotation,
}

impl TilePlacement {
    pub fn new(tile_path_type: TilePathType, rotation: Rotation) -> (t: Self)
        ensures
            t == (TilePlacement { tile_path_type, rotation }),
    {
        Self { tile_path_type, rotation }
    }

    pub fn tile_path_type(&self) -> (t: &TilePathType)
        ensures
            *t == self.tile_path_type,
    {
        &self.tile_path_type
    }

    pub fn rotation(&self) -> (r: Rotation)
        ensures
            r == self.rotation,
    {
        self.rotation
    }

    /// The two offsets through which the river passes the tile, as rotated
    pub fn offsets(&self) -> (v: Vec<Offset>)
        ensures
            v@ == placement_offsets(*self),
    {
        let o = self.tile_path_type.offsets();
        let v = vec![o[0].rotate(self.rotation), o[1].rotate(self.rotation)];
        assert(v@ =~= placement_offsets(*self));
        v
    }
}

/// The two offsets through which the river passes a placed tile
pub open spec fn placement_offsets(tp: TilePlacement) -> Seq<Offset> {
    let (a, b) = path_offsets(path_of_type(tp.tile_path_type));
    seq![rotated(a, tp.rotation), rotated(b, tp.rotation)]
}

/// A square of the board: its bonus (a penalty when negative) and the tile
/// on it, if any
#[derive(Copy, Clone, Debug, PartialEq, Eq, Structural)]
pub struct Cell {
    pub bonus: i16,
    pub tile: Option<TilePlacement>,
}

/// Points of the tile on a cell; none for an empty cell
pub open spec fn placed_tile_score(t: Option<TilePlacement>) -> i16 {
    match t {
        Some(tp) => spec_tile_score(tile_of_type(tp.tile_path_type)),
        None => 0,
    }
}

/// What a cell is worth: its tile's points gained, and its bonus gained or
/// its penalty lost
pub open spec fn spec_cell_score(cell: Cell) -> TurnScore {
    spec_from_points(placed_tile_score(cell.tile)).plus(spec_from_points(cell.bonus))
}

/// A bonus of the size the board carries: at most a thousand points either
/// way, so that scores of cells add up within `i16`
pub open spec fn sane_bonus(b: i16) -> bool {
    -1000 <= b <= 1000
}

/// Whether what `cell` is worth can be counted in `i16`: its tile's points
/// and its bonus together do not pass `i16::MAX`
pub open spec fn score_fits(cell: Cell) -> bool {
    placed_tile_score(cell.tile) + cell.bonus <= i16::MAX
}

impl Default for Cell {
    fn default() -> (c: Self)
        ensures
            c == (Cell { bonus: 0, tile: None }),
    {
        Cell { bonus: 0, tile: None }
    }
}

impl Cell {
    pub fn tile(&self) -> (t: Option<TilePlacement>)
        ensures
            t == self.tile,
    {
        self.tile
    }

    pub fn bonus(&self) -> (b: i16)
        ensures
            b == self.bonus,
    {
        self.bonus
    }

    /// An empty cell with the given bonus
    pub fn with_bonus(bonus: i16) -> (c: Self)
        ensures
            c == (Cell { bonus, tile: None }),
    {
        Self { bonus, tile: None }
    }

    /// Puts `tile` on the cell and returns what the cell is then worth
    pub fn set_tile(&mut self, tile: TilePlacement) -> (s: TurnScore)
        requires
            score_fits(Cell { bonus: old(self).bonus, tile: Some(tile) }),
        ensures
            *final(self) == (Cell { bonus: old(self).bonus, tile: Some(tile) }),
            s == spec_cell_score(*final(self)),
    {
        self.tile = Some(tile);
        self.score()
    }

    /// Takes the tile off the cell, with the score change that undoes what
    /// the cell was worth with it
    pub fn remove_tile(&mut self) -> (r: Option<(TilePlacement, TurnScore)>)
        requires
            score_fits(*old(self)),
            old(self).tile is Some ==> old(self).bonus != i16::MIN,
        ensures
            *final(self) == (Cell { bonus: old(self).bonus, tile: None }),
            match old(self).tile {
                Some(tp) => r == Some((tp, spec_cell_score(*old(self)).negated())),
                None => r is None,
            },
    {
        let old_score = self.score();
        match self.tile {
            Some(tp) => {
                self.tile = None;
                Some((tp, Neg::neg(old_score)))
            },
            None => None,
        }
    }

    pub fn is_empty(&self) -> (b: bool)
        ensures
            b == (self.tile is None),
    {
        self.tile.is_none()
    }

    /// What the cell is worth
    pub fn score(&self) -> (s: TurnScore)
        requires
            score_fits(*self),
        ensures
            s == spec_cell_score(*self),
            self.bonus != i16::MIN ==> s.can_negate(),
            sane_bonus(self.bonus) ==> 0 <= s.add <= 1035 && 0 <= s.sub <= 1000,
    {
        let tile_score: i16 = match self.tile {
            Some(t) => t.tile_path_type.score(),
            None => 0,
        };
        TurnScore::from(tile_score) + TurnScore::from(self.bonus)
    }

    /// Changes the path a universal tile on the cell shows; returns the path
    /// it showed before
    pub fn update_universal_path(&mut self, tile_path: TilePath) -> (r: Result<TilePath, String>)
        ensures
            match old(self).tile {
                None => (r matches Err(m) && m@ == "Cell is empty"@) && *final(self) == *old(self),
                Some(tp) => match tp.tile_path_type {
                    TilePathType::Normal(_) => (r matches Err(m) && m@
                        == "Cell doesn\u{2019}t contain a universal tile"@) && *final(self) == *old(
                        self,
                    ),
                    TilePathType::Universal(old_path) => r == Ok::<TilePath, String>(old_path)
                        && *final(self) == (Cell {
                        bonus: old(self).bonus,
                        tile: Some(
                            TilePlacement {
                                tile_path_type: TilePathType::Universal(tile_path),
                                rotation: tp.rotation,
                            },
                        ),
                    }),
                },
            },
    {
        proof {
            reveal_strlit("Cell is empty");
            reveal_strlit("Cell doesn\u{2019}t contain a universal tile");
        }
        match self.tile {
            None => Err("Cell is empty".to_owned()),
            Some(tp) => match tp.tile_path_type {
                TilePathType::Normal(_) => Err("Cell doesn\u{2019}t contain a universal tile".to_owned()),
                TilePathType::Universal(old_path) => {
                    self.tile = Some(
                        TilePlacement {
                            tile_path_type: TilePathType::Universal(tile_path),
                            rotation: tp.rotation,
                        },
                    );
                    Ok(old_path)
                },
            },
        }
    }
}

} // verus!

verus! {

/// Rows and columns of the main area of the board. The end-of-game column
/// follows it as column `BOARD_DIM`.
pub const BOARD_DIM: usize = 21;

/// Whether `c` names a cell: a row in `0..21` and a column in `0..=21`,
/// column 21 being the end-of-game column
pub open spec fn on_board(c: Coordinates) -> bool {
    0 <= c.0 < 21 && 0 <= c.1 <= 21
}

/// Whether `c` lies in the end-of-game column
pub open spec fn in_end_column(c: Coordinates) -> bool {
    c.1 == 21
}

/// Bonuses of the end-of-game column, top to bottom
pub open spec fn end_bonuses() -> Seq<i16> {
    seq![
        50i16, 50, 50, 50, 75, 75, 100, 100, 150, 200, 500, 200, 150, 100, 100, 75, 75, 50, 50,
        50, 50,
    ]
}

/// Bonuses (positive) and penalties (negative) of the upper half of the main
/// area; the lower half mirrors it across row 10
pub open spec fn half_bonus(row: int, column: int) -> i16 {
    if row == 1 && column == 6 { -80i16 }
    else if row == 1 && column == 10 { -100i16 }
    else if row == 1 && column == 14 { -120i16 }
    else if row == 2 && column == 2 { -40i16 }
    else if row == 2 && column == 3 { -40i16 }
    else if row == 2 && column == 17 { -160i16 }
    else if row == 2 && column == 18 { -160i16 }
    else if row == 3 && column == 2 { -40i16 }
    else if row == 3 && column == 8 { 140 }
    else if row == 3 && column == 12 { 220 }
    else if row == 3 && column == 18 { -160i16 }
    else if row == 4 && column == 2 { -40i16 }
    else if row == 4 && column == 3 { -40i16 }
    else if row == 4 && column == 17 { -160i16 }
    else if row == 4 && column == 18 { -160i16 }
    else if row == 5 && column == 6 { -80i16 }
    else if row == 5 && column == 10 { -100i16 }
    else if row == 5 && column == 14 { -120i16 }
    else if row == 7 && column == 2 { 60 }
    else if row == 7 && column == 10 { 240 }
    else if row == 7 && column == 18 { 250 }
    else if row == 8 && column == 7 { 240 }
    else if row == 8 && column == 13 { 240 }
    else if row == 9 && column == 5 { -60i16 }
    else if row == 9 && column == 9 { -40i16 }
    else if row == 9 && column == 11 { -40i16 }
    else if row == 9 && column == 15 { -140i16 }
    else if row == 10 && column == 10 { -60i16 }
    else if row == 10 && column == 18 { -160i16 }
    else { 0 }
}

/// The bonus a cell of a new board carries
pub open spec fn initial_bonus(c: Coordinates) -> i16 {
    if in_end_column(c) {
        end_bonuses()[c.0 as int]
    } else {
        // Board is reflected across horizontal axis
        half_bonus(if c.0 > 10 { 20 - c.0 } else { c.0 as int }, c.1 as int)
    }
}

/// Whether the last placement of the river is one the board can hold: next
/// to or on the board, leaving through a unit offset
pub open spec fn sane_last_placement(lp: (Coordinates, Offset)) -> bool {
    -1 <= lp.0.0 <= 21 && -1 <= lp.0.1 <= 21 && is_unit_offset(lp.1)
}

/// The abstract state of a board: the cells by their coordinates, and where
/// the river of past turns ends together with the offset it leaves through
pub struct BoardView {
    pub cells: Map<Coordinates, Cell>,
    pub last_placement: (Coordinates, Offset),
}

/// What every board satisfies
pub open spec fn view_wf(v: BoardView) -> bool {
    &&& forall|c: Coordinates| #[trigger] v.cells.contains_key(c) <==> on_board(c)
    &&& forall|c: Coordinates| #[trigger] v.cells.contains_key(c) ==> sane_bonus(v.cells[c].bonus)
    &&& sane_last_placement(v.last_placement)
}

/// The board as `validate_turns_moves` and the search for an escape see it,
/// with the given last placement
pub open spec fn with_last(v: BoardView, lp: (Coordinates, Offset)) -> BoardView {
    BoardView { cells: v.cells, last_placement: lp }
}

/// Whether the cell at `c` holds a tile
pub open spec fn has_tile_at(v: BoardView, c: Coordinates) -> bool {
    v.cells.contains_key(c) && v.cells[c].tile is Some
}

/// Whether the cell at `c` exists and is empty
pub open spec fn empty_at(v: BoardView, c: Coordinates) -> bool {
    v.cells.contains_key(c) && v.cells[c].tile is None
}

/// `v` with the cell at `c` replaced by `cell`
pub open spec fn put(v: BoardView, c: Coordinates, cell: Cell) -> BoardView {
    BoardView { cells: v.cells.insert(c, cell), last_placement: v.last_placement }
}

/// `v` with the tile at `c` turned to `rotation`
pub open spec fn rotate_at(v: BoardView, c: Coordinates, rotation: Rotation) -> BoardView {
    put(
        v,
        c,
        Cell {
            bonus: v.cells[c].bonus,
            tile: Some(TilePlacement { rotation, ..v.cells[c].tile.unwrap() }),
        },
    )
}

/// The board is 21x21 plus a special end of game column
#[derive(Debug)]
pub struct Board {
    last_placement: (Coordinates, Offset),
    cells: Vec<Cell>,
    end_of_game_cells: Vec<Cell>,
}

/// Index of the cell at `c` of the main area in row-major order
pub open spec fn cell_index(c: Coordinates) -> int {
    c.0 * 21 + c.1
}

proof fn lemma_cell_index(c: Coordinates)
    requires
        on_board(c),
        !in_end_column(c),
    ensures
        0 <= cell_index(c) < 441,
{
    assert(0 <= c.0 * 21 + c.1 < 441) by (nonlinear_arith)
        requires
            0 <= c.0 < 21,
            0 <= c.1 < 21,
    ;
}

proof fn lemma_index_cell(i: int)
    requires
        0 <= i < 441,
    ensures
        on_board(Coordinates((i / 21) as i8, (i % 21) as i8)),
        cell_index(Coordinates((i / 21) as i8, (i % 21) as i8)) == i,
        !in_end_column(Coordinates((i / 21) as i8, (i % 21) as i8)),
{
    assert(0 <= i / 21 < 21 && 0 <= i % 21 < 21 && (i / 21) * 21 + i % 21 == i) by (nonlinear_arith)
        requires
            0 <= i < 441,
    ;
}

impl Clone for Board {
    fn clone(&self) -> (b: Self)
        ensures
            self.wf() ==> b.wf(),
            b@ == self@,
    {
        let cells = self.cells.clone();
        let end_of_game_cells = self.end_of_game_cells.clone();
        assert(cells@ =~= self.cells@);
        assert(end_of_game_cells@ =~= self.end_of_game_cells@);
        let b = Board { last_placement: self.last_placement, cells, end_of_game_cells };
        assert(b@.cells =~= self@.cells);
        b
    }
}

impl Board {
    /// Invariant of the representation
    pub closed spec fn wf(&self) -> bool {
        &&& self.cells@.len() == 441
        &&& self.end_of_game_cells@.len() == 21
        &&& forall|i: int| 0 <= i < 441 ==> sane_bonus(#[trigger] self.cells@[i].bonus)
        &&& forall|i: int| 0 <= i < 21 ==> sane_bonus(#[trigger] self.end_of_game_cells@[i].bonus)
        &&& sane_last_placement(self.last_placement)
    }

    spec fn raw_cell(&self, c: Coordinates) -> Cell {
        if in_end_column(c) {
            self.end_of_game_cells@[c.0 as int]
        } else {
            self.cells@[cell_index(c)]
        }
    }

    pub closed spec fn view(&self) -> BoardView {
        BoardView {
            cells: Map::new(|c: Coordinates| on_board(c), |c: Coordinates| self.raw_cell(c)),
            last_placement: self.last_placement,
        }
    }

    /// Every board satisfies `view_wf`
    pub proof fn lemma_wf(&self)
        requires
            self.wf(),
        ensures
            view_wf(self@),
    {
        assert forall|c: Coordinates| #[trigger] self@.cells.contains_key(c) implies sane_bonus(
            self@.cells[c].bonus,
        ) by {
            if !in_end_column(c) {
                lemma_cell_index(c);
            }
        }
    }

    pub fn height(&self) -> (h: usize)
        ensures
            h == 21,
    {
        BOARD_DIM
    }

    pub fn width(&self) -> (w: usize)
        ensures
            w == 21,
    {
        BOARD_DIM
    }

    /// A board at the start of a game: all cells empty, carrying the bonuses
    /// of the printed board game, and the river about to enter the main area
    /// at row 10 from the left
    pub fn new() -> (b: Board)
        ensures
            b.wf(),
            b@.last_placement == (Coordinates(10, -1i8), Offset(0, 1)),
            forall|c: Coordinates| #[trigger] b@.cells.contains_key(c) ==> b@.cells[c] == (Cell {
                bonus: initial_bonus(c),
                tile: None,
            }),
    {
        let mut cells: Vec<Cell> = Vec::with_capacity(441);
        let mut i: usize = 0;
        while i < 441
            invariant
                i <= 441,
                cells@.len() == i,
                forall|j: int|
                    0 <= j < i ==> #[trigger] cells@[j] == (Cell {
                        bonus: initial_bonus(Coordinates((j / 21) as i8, (j % 21) as i8)),
                        tile: None,
                    }),
            decreases 441 - i,
        {
            proof {
                lemma_index_cell(i as int);
            }
            let row = i / BOARD_DIM;
            let col = i % BOARD_DIM;
            // Board is reflected across horizontal axis
            let half_row = if row > 10 { BOARD_DIM - 1 - row } else { row };
            cells.push(Cell::with_bonus(half_bonus_at(half_row, col)));
            i = i + 1;
        }
        let bonus_order: Vec<i16> = vec![50, 50, 50, 50, 75, 75, 100, 100, 150, 200, 500];
        let mut end_of_game_cells: Vec<Cell> = Vec::with_capacity(21);
        // Symmetrical
        let mut k: usize = 0;
        while k < 21
            invariant
                k <= 21,
                bonus_order@ == seq![50i16, 50, 50, 50, 75, 75, 100, 100, 150, 200, 500],
                end_of_game_cells@.len() == k,
                forall|j: int|
                    0 <= j < k ==> #[trigger] end_of_game_cells@[j] == (Cell {
                        bonus: end_bonuses()[j],
                        tile: None,
                    }),
            decreases 21 - k,
        {
            let idx = if k <= 10 { k } else { 20 - k };
            end_of_game_cells.push(Cell::with_bonus(bonus_order[idx]));
            k = k + 1;
        }
        let b = Self {
            // Start arrow placement and offset
            last_placement: (Coordinates(10, -1), Offset(0, 1)),
            cells,
            end_of_game_cells,
        };
        assert forall|c: Coordinates| #[trigger] b@.cells.contains_key(c) implies b@.cells[c] == (
        Cell { bonus: initial_bonus(c), tile: None }) by {
            if !in_end_column(c) {
                lemma_cell_index(c);
                let j = cell_index(c);
                lemma_index_cell(j);
                assert(Coordinates((j / 21) as i8, (j % 21) as i8) == c) by (nonlinear_arith)
                    requires
                        j == c.0 * 21 + c.1,
                        0 <= c.1 < 21,
                        0 <= c.0 < 21,
                ;
            }
        }
        assert forall|i: int| 0 <= i < 441 implies sane_bonus(#[trigger] b.cells@[i].bonus) by {
            lemma_index_cell(i);
        }
        b
    }
}

impl Board {
    /// Where the cell at `c` is stored: in the end-of-game column or the main
    /// area, and at which index
    fn slot(&self, c: Coordinates) -> (r: Option<(bool, usize)>)
        requires
            self.wf(),
        ensures
            r is Some <==> on_board(c),
            r matches Some((end, i)) ==> end == in_end_column(c) && (end ==> i == c.0 as int)
                && (!end ==> i == cell_index(c)),
    {
        if c.1 == BOARD_DIM as i8 {
            if 0 <= c.0 && c.0 < BOARD_DIM as i8 {
                Some((true, c.0 as usize))
            } else {
                None
            }
        } else if self.in_bounds(c) {
            proof {
                lemma_cell_index(c);
            }
            Some((false, c.0 as usize * BOARD_DIM + c.1 as usize))
        } else {
            None
        }
    }

    /// The cell at `coordinates`, if there is one
    pub fn cell(&self, coordinates: Coordinates) -> (r: Option<&Cell>)
        requires
            self.wf(),
        ensures
            match r {
                Some(cell) => self@.cells.contains_key(coordinates) && *cell
                    == self@.cells[coordinates],
                None => !self@.cells.contains_key(coordinates),
            },
    {
        match self.slot(coordinates) {
            Some((true, i)) => Some(&self.end_of_game_cells[i]),
            Some((false, i)) => {
                proof {
                    lemma_cell_index(coordinates);
                }
                Some(&self.cells[i])
            },
            None => None,
        }
    }

    /// A copy of the cell at `row` and `column`
    pub fn get_cell(&self, row: i8, column: i8) -> (r: Result<Cell, String>)
        requires
            self.wf(),
        ensures
            self@.cells.contains_key(Coordinates(row, column)) ==> r == Ok::<Cell, String>(
                self@.cells[Coordinates(row, column)],
            ),
            !self@.cells.contains_key(Coordinates(row, column)) ==> (r matches Err(m) && m@
                == "Invalid coordinates"@),
    {
        proof {
            reveal_strlit("Invalid coordinates");
        }
        match self.cell(Coordinates(row, column)) {
            Some(cell) => Ok(*cell),
            None => Err("Invalid coordinates".to_owned()),
        }
    }

    /// Replaces the cell at `c`
    fn set_cell(&mut self, c: Coordinates, cell: Cell)
        requires
            old(self).wf(),
            on_board(c),
            sane_bonus(cell.bonus),
        ensures
            final(self).wf(),
            final(self)@ == put(old(self)@, c, cell),
    {
        let ghost before = *self;
        if c.1 == BOARD_DIM as i8 {
            self.end_of_game_cells.set(c.0 as usize, cell);
        } else {
            proof {
                lemma_cell_index(c);
            }
            self.cells.set(c.0 as usize * BOARD_DIM + c.1 as usize, cell);
        }
        assert forall|c2: Coordinates| on_board(c2) implies #[trigger] self.raw_cell(c2) == (if c2
            == c { cell } else { before.raw_cell(c2) }) by {
            if !in_end_column(c2) {
                lemma_cell_index(c2);
            }
            if !in_end_column(c) {
                lemma_cell_index(c);
            }
            if c2 != c && !in_end_column(c2) && !in_end_column(c) {
                assert(cell_index(c2) != cell_index(c)) by (nonlinear_arith)
                    requires
                        c2 != c,
                        0 <= c.1 < 21,
                        0 <= c2.1 < 21,
                ;
            }
        }
        assert(self@.cells =~= before@.cells.insert(c, cell));
    }

    /// Places a tile on an empty cell; returns what the cell is then worth
    pub fn place_tile(&mut self, coordinates: Coordinates, tile_placement: TilePlacement) -> (r:
        Result<TurnScore, CellError>)
        requires
            old(self).wf(),
        ensures
            final(self).wf(),
            empty_at(old(self)@, coordinates) ==> {
                let cell = Cell { bonus: old(self)@.cells[coordinates].bonus, tile: Some(tile_placement) };
                &&& r == Ok::<TurnScore, CellError>(spec_cell_score(cell))
                &&& final(self)@ == put(old(self)@, coordinates, cell)
            },
            has_tile_at(old(self)@, coordinates) ==> (r matches Err(e) && e.coordinates@ == set![
                coordinates] && e.msg@ == "There\u{2019}s already a tile there"@),
            !old(self)@.cells.contains_key(coordinates) ==> (r matches Err(e) && e.coordinates@
                == set![coordinates] && e.msg@ == "Invalid coordinates"@),
            r is Err ==> final(self)@ == old(self)@,
    {
        proof {
            reveal_strlit("There\u{2019}s already a tile there");
            reveal_strlit("Invalid coordinates");
            self.lemma_wf();
        }
        match self.cell(coordinates) {
            Some(cell) => {
                if cell.is_empty() {
                    let mut new_cell = *cell;
                    let score = new_cell.set_tile(tile_placement);
                    self.set_cell(coordinates, new_cell);
                    Ok(score)
                } else {
                    Err(CellError::new(coordinates, "There\u{2019}s already a tile there".to_owned()))
                }
            },
            None => Err(CellError::new(coordinates, "Invalid coordinates".to_owned())),
        }
    }

    /// Turns the tile at `coordinates`
    pub fn rotate_tile(&mut self, coordinates: Coordinates, rotation: Rotation) -> (r: Result<
        (),
        CellError,
    >)
        requires
            old(self).wf(),
        ensures
            final(self).wf(),
            has_tile_at(old(self)@, coordinates) ==> r is Ok && final(self)@ == rotate_at(
                old(self)@,
                coordinates,
                rotation,
            ),
            empty_at(old(self)@, coordinates) ==> (r matches Err(e) && e.coordinates@ == set![
                coordinates] && e.msg@ == "Cell is empty"@),
            !old(self)@.cells.contains_key(coordinates) ==> (r matches Err(e) && e.coordinates@
                == set![coordinates] && e.msg@ == "Invalid coordinates"@),
            r is Err ==> final(self)@ == old(self)@,
    {
        proof {
            reveal_strlit("Cell is empty");
            reveal_strlit("Invalid coordinates");
            self.lemma_wf();
        }
        match self.cell(coordinates) {
            Some(cell) => {
                match cell.tile {
                    Some(tile) => {
                        let new_cell = Cell {
                            bonus: cell.bonus,
                            tile: Some(TilePlacement { rotation, ..tile }),
                        };
                        self.set_cell(coordinates, new_cell);
                        Ok(())
                    },
                    None => Err(CellError::new(coordinates, "Cell is empty".to_owned())),
                }
            },
            None => Err(CellError::new(coordinates, "Invalid coordinates".to_owned())),
        }
    }

    /// Takes the tile at `coordinates` off the board, with the score change
    /// that undoes what its cell was worth with it
    pub fn remove_tile(&mut self, coordinates: Coordinates) -> (r: Option<(TilePlacement, TurnScore)>)
        requires
            old(self).wf(),
        ensures
            final(self).wf(),
            has_tile_at(old(self)@, coordinates) ==> {
                let cell = old(self)@.cells[coordinates];
                &&& r == Some((cell.tile.unwrap(), spec_cell_score(cell).negated()))
                &&& final(self)@ == put(old(self)@, coordinates, Cell { bonus: cell.bonus, tile: None })
            },
            !has_tile_at(old(self)@, coordinates) ==> r is None && final(self)@ == old(self)@,
    {
        proof {
            self.lemma_wf();
        }
        match self.cell(coordinates) {
            Some(cell) => {
                let mut new_cell = *cell;
                let r = new_cell.remove_tile();
                if r.is_some() {
                    self.set_cell(coordinates, new_cell);
                }
                r
            },
            None => None,
        }
    }

    /// Changes the path the universal tile at `coordinates` shows; returns
    /// the path it showed before
    pub fn update_universal_path(&mut self, coordinates: Coordinates, tile_path: TilePath) -> (r:
        error::Result<TilePath>)
        requires
            old(self).wf(),
        ensures
            final(self).wf(),
            ({
                let cell = old(self)@.cells[coordinates];
                if !old(self)@.cells.contains_key(coordinates) {
                    r matches Err(Error::Cell(e)) && e.coordinates@ == set![coordinates] && e.msg@
                        == "Invalid coordinates"@
                } else if cell.tile is None {
                    r matches Err(Error::Cell(e)) && e.coordinates@ == set![coordinates] && e.msg@
                        == "Cell is empty"@
                } else if cell.tile.unwrap().tile_path_type is Normal {
                    r matches Err(Error::Cell(e)) && e.coordinates@ == set![coordinates] && e.msg@
                        == "Cell doesn\u{2019}t contain a universal tile"@
                } else {
                    &&& r matches Ok(tp) && tp == path_of_type(cell.tile.unwrap().tile_path_type)
                    &&& final(self)@ == put(
                        old(self)@,
                        coordinates,
                        Cell {
                            bonus: cell.bonus,
                            tile: Some(
                                TilePlacement {
                                    tile_path_type: TilePathType::Universal(tile_path),
                                    rotation: cell.tile.unwrap().rotation,
                                },
                            ),
                        },
                    )
                }
            }),
            r is Err ==> final(self)@ == old(self)@,
    {
        proof {
            reveal_strlit("Invalid coordinates");
            self.lemma_wf();
        }
        match self.cell(coordinates) {
            Some(cell) => {
                let mut new_cell = *cell;
                match new_cell.update_universal_path(tile_path) {
                    Ok(tp) => {
                        self.set_cell(coordinates, new_cell);
                        Ok(tp)
                    },
                    Err(msg) => Err(Error::cell(coordinates, msg)),
                }
            },
            None => Err(Error::cell(coordinates, "Invalid coordinates".to_owned())),
        }
    }

    /// Moves the tile at `old_coordinates` to the empty cell at
    /// `new_coordinates`; returns the change of score
    pub fn move_tile(&mut self, old_coordinates: Coordinates, new_coordinates: Coordinates) -> (r:
        Result<TurnScore, CellError>)
        requires
            old(self).wf(),
        ensures
            final(self).wf(),
            !has_tile_at(old(self)@, old_coordinates) ==> (r matches Err(e) && e.coordinates@
                == set![old_coordinates] && e.msg@
                == "Can\u{2019}t move tile when there\u{2019}s no tile at old coordinates"@),
            ({
                let old_cell = old(self)@.cells[old_coordinates];
                let emptied = put(
                    old(self)@,
                    old_coordinates,
                    Cell { bonus: old_cell.bonus, tile: None },
                );
                let new_cell = Cell { bonus: emptied.cells[new_coordinates].bonus, tile: old_cell.tile };
                has_tile_at(old(self)@, old_coordinates) ==> if empty_at(emptied, new_coordinates) {
                    &&& r == Ok::<TurnScore, CellError>(
                        spec_cell_score(new_cell).plus(spec_cell_score(old_cell).negated()),
                    )
                    &&& final(self)@ == put(emptied, new_coordinates, new_cell)
                } else {
                    r matches Err(e) && e.coordinates@ == set![new_coordinates] && (if has_tile_at(
                        emptied,
                        new_coordinates,
                    ) {
                        e.msg@ == "There\u{2019}s already a tile there"@
                    } else {
                        e.msg@ == "Invalid coordinates"@
                    })
                }
            }),
            r is Err ==> final(self)@ == old(self)@,
    {
        proof {
            reveal_strlit("Can\u{2019}t move tile when there\u{2019}s no tile at old coordinates");
            self.lemma_wf();
        }
        let ghost before = self@;
        let (tile_placement, removal_score) = match self.remove_tile(old_coordinates) {
            Some(x) => x,
            None => {
                return Err(
                    CellError::new(
                        old_coordinates,
                        "Can\u{2019}t move tile when there\u{2019}s no tile at old coordinates".to_owned(),
                    ),
                );
            },
        };
        proof {
            self.lemma_wf();
        }
        match self.place_tile(new_coordinates, tile_placement) {
            Ok(placement_score) => {
                // `removal_score` should already be negative to revert the score effect of placement
                Ok(placement_score + removal_score)
            },
            Err(e) => {
                // Put the tile back
                let _ = self.place_tile(old_coordinates, tile_placement);
                assert(self@.cells =~= before.cells);
                Err(e)
            },
        }
    }

    /// Where the river of past turns ends, and the offset it leaves through
    pub fn last_placement(&self) -> (lp: (Coordinates, Offset))
        ensures
            lp == self@.last_placement,
    {
        self.last_placement
    }

    /// Whether there is a tile at `coordinates`
    pub fn has_tile(&self, coordinates: Coordinates) -> (b: bool)
        requires
            self.wf(),
        ensures
            b == has_tile_at(self@, coordinates),
    {
        match self.cell(coordinates) {
            Some(cell) => !cell.is_empty(),
            None => false,
        }
    }

    /// Whether `coordinates` lie in the end-of-game column
    pub fn is_end_game_cell(&self, coordinates: Coordinates) -> (b: bool)
        ensures
            b == in_end_column(coordinates),
    {
        let Coordinates(_, column) = coordinates;
        column == BOARD_DIM as i8
    }

    /// Whether `coordinates` name a cell of the board
    pub fn in_bounds(&self, coordinates: Coordinates) -> (b: bool)
        ensures
            b == on_board(coordinates),
    {
        0 <= coordinates.0 && coordinates.0 < BOARD_DIM as i8
            // +1 for end of game tile
             && 0 <= coordinates.1 && coordinates.1 < BOARD_DIM as i8 + 1
    }

    /// A new board on which the river of past turns ends at `coordinates`,
    /// leaving through `offset`
    pub fn with_last_placement(coordinates: Coordinates, offset: Offset) -> (b: Self)
        requires
            sane_last_placement((coordinates, offset)),
        ensures
            b.wf(),
            b@.last_placement == (coordinates, offset),
            forall|c: Coordinates| #[trigger] b@.cells.contains_key(c) ==> b@.cells[c] == (Cell {
                bonus: initial_bonus(c),
                tile: None,
            }),
    {
        let mut board = Self::new();
        let ghost fresh = board@;
        board.last_placement = (coordinates, offset);
        assert(board@.cells =~= fresh.cells);
        board
    }
}

impl Default for Board {
    fn default() -> (b: Self)
        ensures
            b.wf(),
            b@.last_placement == (Coordinates(10, -1i8), Offset(0, 1)),
            forall|c: Coordinates| #[trigger] b@.cells.contains_key(c) ==> b@.cells[c] == (Cell {
                bonus: initial_bonus(c),
                tile: None,
            }),
    {
        Self::new()
    }
}

/// The bonus at `row` and `column` of the upper half of the main area
fn half_bonus_at(row: usize, column: usize) -> (b: i16)
    requires
        row <= 10,
        column < 21,
    ensures
        b == half_bonus(row as int, column as int),
{
    match (row, column) {
        (1, 6) => -80,
        (1, 10) => -100,
        (1, 14) => -120,
        (2, 2) => -40,
        (2, 3) => -40,
        (2, 17) => -160,
        (2, 18) => -160,
        (3, 2) => -40,
        (3, 8) => 140,
        (3, 12) => 220,
        (3, 18) => -160,
        (4, 2) => -40,
        (4, 3) => -40,
        (4, 17) => -160,
        (4, 18) => -160,
        (5, 6) => -80,
        (5, 10) => -100,
        (5, 14) => -120,
        (7, 2) => 60,
        (7, 10) => 240,
        (7, 18) => 250,
        (8, 7) => 240,
        (8, 13) => 240,
        (9, 5) => -60,
        (9, 9) => -40,
        (9, 11) => -40,
        (9, 15) => -140,
        (10, 10) => -60,
        (10, 18) => -160,
        _ => 0,
    }
}

} // verus!

verus! {

/// Whether `c` lies within three cells of the board, so that a few unit
/// steps from it stay well inside `i8`
pub open spec fn near_board(c: Coordinates) -> bool {
    -3 <= c.0 <= 24 && -3 <= c.1 <= 24
}

/// Whether the tile `tp`, placed at `from`, leads the river to `to`
pub open spec fn leads_to(tp: TilePlacement, from: Coordinates, to: Coordinates) -> bool {
    step(from, placement_offsets(tp)[0]) == to || step(from, placement_offsets(tp)[1]) == to
}

/// The message of a crossover at `c` over the path between `c1` and `c2`
pub open spec fn crossover_text(c: Coordinates, c1: Coordinates, c2: Coordinates) -> Seq<char> {
    "The river cannot cross over existing path between "@ + coordinates_text(c1) + " and "@
        + coordinates_text(c2) + ". Invalid tile placement at "@ + coordinates_text(c)
}

/// The error of a river leaving `c` diagonally through `o` across a path that
/// already joins the two cells beside that step, if it does so
pub open spec fn crossover_fault(v: BoardView, c: Coordinates, o: Offset) -> Option<Fault> {
    let c1 = step(c, Offset(o.0, 0));
    let c2 = step(c, Offset(0, o.1));
    if o.0 != 0 && o.1 != 0 && has_tile_at(v, c1) && has_tile_at(v, c2) && leads_to(
        v.cells[c1].tile.unwrap(),
        c1,
        c2,
    ) && leads_to(v.cells[c2].tile.unwrap(), c2, c1) {
        Some(Fault::Cells(set![c, c1, c2], crossover_text(c, c1, c2)))
    } else {
        None
    }
}

/// Whether the river at `c` may go on through `o`: no crossover, and an
/// empty cell there
pub open spec fn is_open(v: BoardView, c: Coordinates, o: Offset) -> bool {
    crossover_fault(v, c, o) is None && empty_at(v, step(c, o))
}

/// The open moves from `c` among the first `k` of the eight offsets, in order
pub open spec fn open_prefix(v: BoardView, c: Coordinates, k: nat) -> Seq<Offset>
    decreases k,
{
    if k == 0 {
        Seq::empty()
    } else {
        let p = open_prefix(v, c, (k - 1) as nat);
        let o = spec_offsets()[k - 1];
        if is_open(v, c, o) {
            p.push(o)
        } else {
            p
        }
    }
}

/// The offsets through which the river at `c` may go on, in the order of
/// `spec_offsets`
pub open spec fn spec_open_moves(v: BoardView, c: Coordinates) -> Seq<Offset> {
    open_prefix(v, c, 8)
}

/// `o` as Rust's debug formatting prints it
pub open spec fn offset_text(o: Offset) -> Seq<char> {
    "Offset("@ + int_text(o.0 as int) + ", "@ + int_text(o.1 as int) + ")"@
}

/// The offsets of `s`, as debug formatting prints them, separated by ", "
pub open spec fn offsets_items_text(s: Seq<Offset>) -> Seq<char>
    decreases s.len(),
{
    if s.len() == 0 {
        Seq::empty()
    } else if s.len() == 1 {
        offset_text(s[0])
    } else {
        offsets_items_text(s.drop_last()) + ", "@ + offset_text(s.last())
    }
}

/// `s` as debug formatting prints a list of offsets
pub open spec fn offsets_text(s: Seq<Offset>) -> Seq<char> {
    "["@ + offsets_items_text(s) + "]"@
}

/// The message of a river at `c` that cannot reach the end-of-game column
pub open spec fn encircled_text(c: Coordinates, moves: Seq<Offset>) -> Seq<char> {
    "Encircled river path. There are no paths leading to the end of game column from "@
        + coordinates_text(c) + " with open moves "@ + offsets_text(moves)
}

/// The message of a river that flows off the board at `c`
pub open spec fn off_board_text(c: Coordinates) -> Seq<char> {
    "Invalid river path leading to coordinates: "@ + coordinates_text(c)
        + " that are off the board"@
}

/// The search for an escape, from the river that last flowed from `lp.0`
/// through `lp.1`, having already visited `vis`: whether the river can be
/// continued to the end-of-game column, and the cells visited afterwards.
/// Cells are visited depth first, each at most once over the whole search;
/// `fuel` bounds the depth.
pub closed spec fn search(
    v: BoardView,
    lp: (Coordinates, Offset),
    vis: Set<Coordinates>,
    fuel: nat,
) -> (bool, Set<Coordinates>)
    decreases fuel, 9int,
{
    let c = step(lp.0, lp.1);
    if in_end_column(c) {
        (true, vis)
    } else if !on_board(c) {
        (false, vis.insert(c))
    } else {
        proof {
            lemma_open_prefix_len(v, c, 8);
        }
        explore(v, c, lp.1, vis.insert(c), 0, fuel)
    }
}

/// The search from the cell `c`, which the river entered through
/// `in_offset`, trying its open moves from the `i`th on
pub closed spec fn explore(
    v: BoardView,
    c: Coordinates,
    in_offset: Offset,
    vis: Set<Coordinates>,
    i: int,
    fuel: nat,
) -> (bool, Set<Coordinates>)
    decreases fuel, spec_open_moves(v, c).len() - i,
{
    let moves = spec_open_moves(v, c);
    if i < 0 || i >= moves.len() {
        (false, vis)
    } else {
        let o = moves[i];
        if vis.contains(step(c, o)) {
            explore(v, c, in_offset, vis, i + 1, fuel)
        } else {
            match spec_offsets_to_tile_placement(in_offset, o) {
                None => explore(v, c, in_offset, vis, i + 1, fuel),
                Some(tp) => if !empty_at(v, c) {
                    explore(v, c, in_offset, vis, i + 1, fuel)
                } else {
                    let child = if fuel == 0 {
                        (false, vis)
                    } else {
                        search(
                            put(v, c, Cell { bonus: v.cells[c].bonus, tile: Some(tp) }),
                            (c, o),
                            vis,
                            (fuel - 1) as nat,
                        )
                    };
                    if child.0 {
                        child
                    } else {
                        explore(v, c, in_offset, child.1, i + 1, fuel)
                    }
                },
            }
        }
    }
}

/// Number of cells of the board, the end-of-game column included
pub open spec fn cell_count() -> nat {
    462
}

/// The `k`th cell: the main area in row-major order, then the end-of-game
/// column from the top
pub open spec fn cell_at_index(k: int) -> Coordinates {
    if k < 441 {
        Coordinates((k / 21) as i8, (k % 21) as i8)
    } else {
        Coordinates((k - 441) as i8, 21)
    }
}

/// The index of the cell at `c`
pub open spec fn index_of_cell(c: Coordinates) -> int {
    if in_end_column(c) {
        441 + c.0
    } else {
        cell_index(c)
    }
}

/// How many of the first `k` cells are not in `vis`
pub open spec fn unvisited(vis: Set<Coordinates>, k: nat) -> nat
    decreases k,
{
    if k == 0 {
        0
    } else {
        unvisited(vis, (k - 1) as nat) + if vis.contains(cell_at_index(k - 1)) {
            0nat
        } else {
            1nat
        }
    }
}

/// The error, if any, of a river that last flowed from `lp.0` through `lp.1`
/// and can no longer reach the end-of-game column
pub open spec fn spec_no_encircles(v: BoardView, lp: (Coordinates, Offset)) -> Option<Fault> {
    let c = step(lp.0, lp.1);
    if in_end_column(lp.0) || in_end_column(c) {
        None
    } else if !on_board(c) {
        Some(Fault::Cells(set![c], off_board_text(c)))
    } else if search(v, lp, Set::empty(), cell_count()).0 {
        None
    } else {
        Some(Fault::Cells(set![c], encircled_text(c, spec_open_moves(v, c))))
    }
}

/// The outcome of the end-of-game check: whether the game ends, given how
/// many tiles lie in the end-of-game column and where the river ends
pub open spec fn spec_end_cells(count: int, lp: (Coordinates, Offset)) -> Result<bool, Fault> {
    if count == 1 && lp.1 == Offset(0, 1) && in_end_column(lp.0) {
        Ok(true)
    } else if count == 1 && in_end_column(lp.0) {
        Err(
            Fault::Cells(
                set![lp.0],
                "Tile in end-of-game column at "@ + coordinates_text(lp.0)
                    + " must align with the dot"@,
            ),
        )
    } else if count == 1 {
        Err(
            Fault::Cells(
                set![lp.0],
                "Tile placed in end-of-game column must be the last tile of the river"@,
            ),
        )
    } else if count == 0 {
        Ok(false)
    } else {
        Err(Fault::Msg("Can\u{2019}t play more than one tile in the end-of-game column"@))
    }
}

/// How many of the first `k` cells of the end-of-game column hold a tile
pub open spec fn end_tiles(v: BoardView, k: nat) -> nat
    decreases k,
{
    if k == 0 {
        0
    } else {
        end_tiles(v, (k - 1) as nat) + if has_tile_at(v, Coordinates((k - 1) as i8, 21)) {
            1nat
        } else {
            0nat
        }
    }
}

/// Following the river from `lp` through the tiles of this turn, `turn`
/// being those not yet reached: where it ends, or the first error on the way
pub open spec fn walk(v: BoardView, lp: (Coordinates, Offset), turn: Set<Coordinates>) -> Result<
    (Coordinates, Offset),
    Fault,
>
    decreases turn.len(),
    when turn.finite()
{
    if turn.len() == 0 {
        Ok(lp)
    } else {
        let c = step(lp.0, lp.1);
        if !v.cells.contains_key(c) {
            Err(Fault::Cells(set![c], "Invalid coordinates: "@ + coordinates_text(c)))
        } else if v.cells[c].tile is None {
            Err(Fault::Cells(set![c], "Non-contiguous path. Missing tile at "@ + coordinates_text(c)))
        } else {
            let tp = v.cells[c].tile.unwrap();
            match spec_eval_placement(lp, tp.tile_path_type, tp.rotation, c) {
                Err(f) => Err(Fault::Cells(set![c], placement_fault_text(f, c))),
                Ok(next) => match crossover_fault(v, next.0, next.1) {
                    Some(f) => Err(f),
                    None => if !turn.contains(next.0) {
                        Err(
                            Fault::Cells(
                                set![next.0],
                                "Can\u{2019}t reuse a tile from another turn"@,
                            ),
                        )
                    } else {
                        walk(v, next, turn.remove(next.0))
                    },
                },
            }
        }
    }
}

/// The outcome of validating the moves of a turn, placed at `turn`: whether
/// the game ends and where the river then ends, or the error
pub open spec fn spec_validate(v: BoardView, turn: Set<Coordinates>) -> Result<
    (bool, (Coordinates, Offset)),
    Fault,
> {
    match walk(v, v.last_placement, turn) {
        Err(f) => Err(f),
        Ok(lp) => {
            let n = step(lp.0, lp.1);
            if has_tile_at(v, n) {
                Err(
                    Fault::Cells(
                        set![lp.0, n],
                        "Can\u{2019}t play a tile at "@ + coordinates_text(lp.0)
                            + " because it dead-ends into the rest of the river at "@
                            + coordinates_text(n),
                    ),
                )
            } else {
                match spec_no_encircles(v, lp) {
                    Some(f) => Err(f),
                    None => match spec_end_cells(end_tiles(v, 21) as int, lp) {
                        Err(f) => Err(f),
                        Ok(b) => Ok((b, lp)),
                    },
                }
            }
        },
    }
}

proof fn lemma_open_prefix_len(v: BoardView, c: Coordinates, k: nat)
    ensures
        open_prefix(v, c, k).len() <= k,
        forall|j: int|
            0 <= j < open_prefix(v, c, k).len() ==> is_open(v, c, #[trigger] open_prefix(v, c, k)[j]),
    decreases k,
{
    if k > 0 {
        lemma_open_prefix_len(v, c, (k - 1) as nat);
    }
}

proof fn lemma_offsets_unit()
    ensures
        forall|k: int| 0 <= k < 8 ==> is_unit_offset(#[trigger] spec_offsets()[k]),
{
    assert forall|k: int| 0 <= k < 8 implies is_unit_offset(#[trigger] spec_offsets()[k]) by {
        if k == 0 {
        } else if k == 1 {
        } else if k == 2 {
        } else if k == 3 {
        } else if k == 4 {
        } else if k == 5 {
        } else if k == 6 {
        } else {
        }
    }
}

/// The offsets of a placed tile lead to neighbouring cells
pub proof fn lemma_placement_offsets_unit(tp: TilePlacement)
    ensures
        is_unit_offset(placement_offsets(tp)[0]),
        is_unit_offset(placement_offsets(tp)[1]),
        placement_offsets(tp).len() == 2,
{
    let p = path_of_type(tp.tile_path_type);
    match p {
        TilePath::Straight => {},
        TilePath::Diagonal => {},
        TilePath::Center90 => {},
        TilePath::Corner90 => {},
        TilePath::Left45 => {},
        TilePath::Right45 => {},
        TilePath::Left135 => {},
        TilePath::Right135 => {},
    }
}

pub(crate) proof fn lemma_cell_at_index(k: int)
    requires
        0 <= k < 462,
    ensures
        on_board(cell_at_index(k)),
        index_of_cell(cell_at_index(k)) == k,
{
    if k < 441 {
        lemma_index_cell(k);
    }
}

pub(crate) proof fn lemma_index_of_cell(c: Coordinates)
    requires
        on_board(c),
    ensures
        0 <= index_of_cell(c) < 462,
        cell_at_index(index_of_cell(c)) == c,
{
    if !in_end_column(c) {
        lemma_cell_index(c);
        let j = cell_index(c);
        lemma_index_cell(j);
        assert(Coordinates((j / 21) as i8, (j % 21) as i8) == c) by (nonlinear_arith)
            requires
                j == c.0 * 21 + c.1,
                0 <= c.1 < 21,
                0 <= c.0 < 21,
        ;
    }
}

proof fn lemma_unvisited_bound(vis: Set<Coordinates>, k: nat)
    ensures
        unvisited(vis, k) <= k,
    decreases k,
{
    if k > 0 {
        lemma_unvisited_bound(vis, (k - 1) as nat);
    }
}

proof fn lemma_unvisited_antitone(vis: Set<Coordinates>, more: Set<Coordinates>, k: nat)
    requires
        vis.subset_of(more),
    ensures
        unvisited(more, k) <= unvisited(vis, k),
    decreases k,
{
    if k > 0 {
        lemma_unvisited_antitone(vis, more, (k - 1) as nat);
    }
}

proof fn lemma_unvisited_insert(vis: Set<Coordinates>, n: Coordinates, k: nat)
    requires
        on_board(n),
        !vis.contains(n),
        k <= 462,
    ensures
        unvisited(vis.insert(n), k) + (if index_of_cell(n) < k {
            1int
        } else {
            0int
        }) == unvisited(vis, k),
    decreases k,
{
    lemma_index_of_cell(n);
    if k > 0 {
        lemma_unvisited_insert(vis, n, (k - 1) as nat);
        lemma_cell_at_index(k - 1);
    }
}

} // verus!

verus! {

/// Appends `o` to `text` as debug formatting prints it
fn push_offset(text: &mut String, o: Offset)
    ensures
        final(text)@ == old(text)@ + offset_text(o),
{
    push_text(text, "Offset(");
    push_int(text, o.0);
    push_text(text, ", ");
    push_int(text, o.1);
    push_text(text, ")");
    proof {
        reveal_strlit("Offset(");
        reveal_strlit(", ");
        reveal_strlit(")");
    }
    assert(text@ =~= old(text)@ + offset_text(o));
}

/// Appends `moves` to `text` as debug formatting prints a list of offsets
fn push_offsets(text: &mut String, moves: &Vec<Offset>)
    ensures
        final(text)@ == old(text)@ + offsets_text(moves@),
{
    push_text(text, "[");
    let ghost start = text@;
    let mut i: usize = 0;
    while i < moves.len()
        invariant
            i <= moves.len(),
            text@ == start + offsets_items_text(moves@.take(i as int)),
        decreases moves.len() - i,
    {
        proof {
            reveal_strlit(", ");
        }
        if i > 0 {
            push_text(text, ", ");
        }
        push_offset(text, moves[i]);
        let ghost t = moves@.take(i + 1);
        assert(t.drop_last() =~= moves@.take(i as int));
        assert(t.last() == moves@[i as int]);
        if i == 0 {
            assert(offsets_items_text(t) == offset_text(t[0]));
            assert(text@ =~= start + offsets_items_text(t));
        } else {
            assert(text@ =~= start + offsets_items_text(t));
        }
        i = i + 1;
    }
    assert(moves@.take(i as int) =~= moves@);
    push_text(text, "]");
    proof {
        reveal_strlit("[");
        reveal_strlit("]");
    }
    assert(text@ =~= old(text)@ + offsets_text(moves@));
}

impl Board {
    /// Decides, from how many tiles lie in the end-of-game column and where
    /// the river ends, whether the game has ended, or why the moves are
    /// invalid
    pub fn validate_end_of_game_cells(
        end_of_game_cell_count: usize,
        last_placement: (Coordinates, Offset),
    ) -> (r: error::Result<bool>)
        ensures
            match spec_end_cells(end_of_game_cell_count as int, last_placement) {
                Ok(b) => r == Ok::<bool, Error>(b),
                Err(f) => r matches Err(e) && fault_of(e) == f,
            },
    {
        let (Coordinates(_row, column), offset) = last_placement;
        proof {
            reveal_strlit("Tile in end-of-game column at ");
            reveal_strlit(" must align with the dot");
            reveal_strlit("Tile placed in end-of-game column must be the last tile of the river");
            reveal_strlit("Can\u{2019}t play more than one tile in the end-of-game column");
        }
        if end_of_game_cell_count == 1 && offset == Offset(0, 1) && column == BOARD_DIM as i8 {
            Ok(true)
        } else if end_of_game_cell_count == 1 && column == BOARD_DIM as i8 {
            Err(
                Error::cell(
                    last_placement.0,
                    message_at(
                        "Tile in end-of-game column at ",
                        last_placement.0,
                        " must align with the dot",
                    ),
                ),
            )
        } else if end_of_game_cell_count == 1 {
            Err(
                Error::cell(
                    last_placement.0,
                    "Tile placed in end-of-game column must be the last tile of the river".to_owned(),
                ),
            )
        } else if end_of_game_cell_count == 0 {
            Ok(false)
        } else {
            Err(Error::Msg("Can\u{2019}t play more than one tile in the end-of-game column".to_owned()))
        }
    }

    /// Checks whether a placement would result in a crossover. This is invalid
    /// and can only happen with diagonal offsets. Orthogonal offsets would collide
    /// with another tile and that's handled by other checks.
    ///
    /// A path like the drawing below is invalid.
    /// ```text
    ///  |\ /
    ///  | X
    ///  |/ \
    /// ```
    pub fn no_crossover(&self, coordinates: Coordinates, offset: Offset) -> (r: error::Result<()>)
        requires
            self.wf(),
            near_board(coordinates),
            is_unit_offset(offset),
        ensures
            match crossover_fault(self@, coordinates, offset) {
                None => r is Ok,
                Some(f) => r matches Err(e) && fault_of(e) == f,
            },
    {
        if !offset.is_diagonal() {
            return Ok(());
        }
        let coordinates1 = coordinates + Offset(offset.0, 0);
        let coordinates2 = coordinates + Offset(0, offset.1);
        let t1 = match self.cell(coordinates1) {
            Some(cell) => cell.tile,
            None => None,
        };
        let t2 = match self.cell(coordinates2) {
            Some(cell) => cell.tile,
            None => None,
        };
        if let (Some(tp1), Some(tp2)) = (t1, t2) {
            proof {
                lemma_placement_offsets_unit(tp1);
                lemma_placement_offsets_unit(tp2);
            }
            let o1 = tp1.offsets();
            let o2 = tp2.offsets();
            if (coordinates1 + o1[0] == coordinates2 || coordinates1 + o1[1] == coordinates2) && (
            coordinates2 + o2[0] == coordinates1 || coordinates2 + o2[1] == coordinates1) {
                let mut err_coordinates = CoordinateSet::singleton(coordinates);
                err_coordinates.insert(coordinates1);
                err_coordinates.insert(coordinates2);
                let mut msg = String::new();
                push_text(&mut msg, "The river cannot cross over existing path between ");
                push_coordinates(&mut msg, coordinates1);
                push_text(&mut msg, " and ");
                push_coordinates(&mut msg, coordinates2);
                push_text(&mut msg, ". Invalid tile placement at ");
                push_coordinates(&mut msg, coordinates);
                proof {
                    reveal_strlit("");
                    assert(msg@ =~= crossover_text(coordinates, coordinates1, coordinates2));
                    assert(err_coordinates@ =~= set![coordinates, coordinates1, coordinates2]);
                }
                return Err(Error::cells(err_coordinates, msg));
            }
        }
        Ok(())
    }

    /// The offsets through which the river at `next_coordinates` may go on:
    /// those to an empty cell that do not cross the river
    fn open_moves_from(&self, next_coordinates: Coordinates) -> (moves: Vec<Offset>)
        requires
            self.wf(),
            -2 <= next_coordinates.0 <= 22,
            -2 <= next_coordinates.1 <= 22,
        ensures
            moves@ == spec_open_moves(self@, next_coordinates),
    {
        let all = path::offsets();
        proof {
            lemma_offsets_unit();
        }
        let mut moves: Vec<Offset> = Vec::new();
        let mut i: usize = 0;
        while i < 8
            invariant
                self.wf(),
                -2 <= next_coordinates.0 <= 22,
                -2 <= next_coordinates.1 <= 22,
                i <= 8,
                all@ == spec_offsets(),
                forall|k: int| 0 <= k < 8 ==> is_unit_offset(#[trigger] spec_offsets()[k]),
                moves@ == open_prefix(self@, next_coordinates, i as nat),
            decreases 8 - i,
        {
            let offset = all[i];
            let crosses = match self.no_crossover(next_coordinates, offset) {
                Ok(()) => false,
                Err(_) => true,
            };
            if !crosses {
                let coordinates = next_coordinates + offset;
                match self.cell(coordinates) {
                    Some(cell) => {
                        if cell.is_empty() {
                            moves.push(offset);
                        }
                    },
                    None => {},
                }
            }
            i = i + 1;
        }
        moves
    }

    /// The offsets through which the river may go on from the cell after its
    /// last placement
    pub fn open_moves(&self) -> (moves: Vec<Offset>)
        requires
            self.wf(),
        ensures
            moves@ == spec_open_moves(self@, step(self@.last_placement.0, self@.last_placement.1)),
    {
        let next_coordinates = self.last_placement.0 + self.last_placement.1;
        self.open_moves_from(next_coordinates)
    }
}

} // verus!

verus! {

impl Board {
    /// The depth-first search for an escape of the river that last flowed
    /// from `last_placement.0` through `last_placement.1`. Tiles are tried
    /// on the board itself and taken back when their branch fails.
    fn no_encircles_impl(
        &mut self,
        last_placement: (Coordinates, Offset),
        visited: &mut CoordinateSet,
        Ghost(fuel): Ghost<nat>,
    ) -> (r: Result<(), CellError>)
        requires
            old(self).wf(),
            sane_last_placement(last_placement),
            unvisited(
                old(visited)@.insert(step(last_placement.0, last_placement.1)),
                cell_count(),
            ) <= fuel,
        ensures
            final(self).wf(),
            (r is Ok) == search(old(self)@, last_placement, old(visited)@, fuel).0,
            final(visited)@ == search(old(self)@, last_placement, old(visited)@, fuel).1,
            old(visited)@.subset_of(final(visited)@),
            r is Err ==> final(self)@ == old(self)@,
            r matches Err(e) ==> ({
                let c = step(last_placement.0, last_placement.1);
                &&& e.coordinates@ == set![c]
                &&& e.msg@ == if on_board(c) {
                    encircled_text(c, spec_open_moves(old(self)@, c))
                } else {
                    off_board_text(c)
                }
            }),
        decreases fuel,
    {
        let (last_coordinates, last_offset) = last_placement;
        let coordinates = last_coordinates + last_offset;
        if self.is_end_game_cell(coordinates) {
            return Ok(());
        }
        visited.insert(coordinates);
        if self.cell(coordinates).is_none() {
            proof {
                reveal_strlit("Invalid river path leading to coordinates: ");
                reveal_strlit(" that are off the board");
            }
            return Err(
                CellError::new(
                    coordinates,
                    message_at(
                        "Invalid river path leading to coordinates: ",
                        coordinates,
                        " that are off the board",
                    ),
                ),
            );
        }
        let open_moves = self.open_moves_from(coordinates);
        let ghost v0 = self@;
        let ghost vis0 = old(visited)@;
        let ghost target = explore(v0, coordinates, last_offset, visited@, 0, fuel);
        proof {
            lemma_open_prefix_len(v0, coordinates, 8);
            lemma_open_moves_unit(v0, coordinates, 8);
            assert(vis0.subset_of(visited@));
        }
        let mut i: usize = 0;
        while i < open_moves.len()
            invariant
                self.wf(),
                self@ == v0,
                on_board(coordinates),
                !in_end_column(coordinates),
                coordinates == step(last_placement.0, last_placement.1),
                sane_last_placement(last_placement),
                last_offset == last_placement.1,
                open_moves@ == spec_open_moves(v0, coordinates),
                forall|j: int|
                    0 <= j < open_moves@.len() ==> is_unit_offset(#[trigger] open_moves@[j]),
                forall|j: int|
                    0 <= j < open_moves@.len() ==> is_open(v0, coordinates, #[trigger] open_moves@[j]),
                i <= open_moves.len(),
                explore(v0, coordinates, last_offset, visited@, i as int, fuel) == target,
                target == explore(v0, coordinates, last_offset, vis0.insert(coordinates), 0, fuel),
                v0 == old(self)@,
                vis0 == old(visited)@,
                unvisited(visited@, cell_count()) <= fuel,
                vis0.subset_of(visited@),
            decreases open_moves.len() - i,
        {
            let offset = open_moves[i];
            let next = coordinates + offset;
            if visited.contains(next) {
                i = i + 1;
                continue;
            }
            proof {
                lemma_offsets_unit();
            }
            match path::offsets_to_tile_placement(last_offset, offset) {
                Some(tp) => {
                    let ghost vis_i = visited@;
                    if self.place_tile(coordinates, tp).is_ok() {
                        let ghost placed = self@;
                        proof {
                            lemma_unvisited_insert(vis_i, next, cell_count());
                            lemma_index_of_cell(next);
                        }
                        match self.no_encircles_impl((coordinates, offset), visited, Ghost((fuel - 1) as nat)) {
                            Ok(()) => {
                                proof {
                                    assert(empty_at(v0, coordinates));
                                    assert(fuel > 0);
                                    assert(placed == put(
                                        v0,
                                        coordinates,
                                        Cell { bonus: v0.cells[coordinates].bonus, tile: Some(tp) },
                                    ));
                                    assert(spec_open_moves(v0, coordinates)[i as int] == offset);
                                    assert(!vis_i.contains(step(coordinates, offset)));
                                }
                                return Ok(());
                            },
                            Err(_) => {
                                self.remove_tile(coordinates);
                                proof {
                                    assert(self@.cells =~= v0.cells);
                                    lemma_unvisited_antitone(vis_i, visited@, cell_count());
                                }
                            },
                        }
                    }
                },
                None => {},
            }
            i = i + 1;
        }
        let mut msg = String::new();
        push_text(&mut msg, "Encircled river path. There are no paths leading to the end of game column from ");
        push_coordinates(&mut msg, coordinates);
        push_text(&mut msg, " with open moves ");
        push_offsets(&mut msg, &open_moves);
        proof {
            reveal_strlit("");
            reveal_strlit("Encircled river path. There are no paths leading to the end of game column from ");
            reveal_strlit(" with open moves ");
            assert(msg@ =~= encircled_text(coordinates, spec_open_moves(v0, coordinates)));
        }
        Err(CellError::new(coordinates, msg))
    }

    /// Determines if river is completely encircled and there is not 'escape'.
    /// This indicates one or more moves are invalid
    pub fn no_encircles(&self, last_placement: (Coordinates, Offset)) -> (r: Result<(), CellError>)
        requires
            self.wf(),
            sane_last_placement(last_placement),
        ensures
            match spec_no_encircles(self@, last_placement) {
                None => r is Ok,
                Some(f) => r matches Err(e) && cell_fault(e) == f,
            },
    {
        let (last_coordinates, _) = last_placement;
        if self.is_end_game_cell(last_coordinates) {
            return Ok(());
        }
        let mut visited = CoordinateSet::new();
        let mut copy = self.clone();
        proof {
            lemma_unvisited_bound(
                Set::<Coordinates>::empty().insert(step(last_placement.0, last_placement.1)),
                cell_count(),
            );
        }
        copy.no_encircles_impl(last_placement, &mut visited, Ghost(cell_count()))
    }
}

proof fn lemma_open_moves_unit(v: BoardView, c: Coordinates, k: nat)
    requires
        k <= 8,
    ensures
        forall|j: int|
            0 <= j < open_prefix(v, c, k).len() ==> is_unit_offset(#[trigger] open_prefix(v, c, k)[j]),
    decreases k,
{
    lemma_offsets_unit();
    if k > 0 {
        lemma_open_moves_unit(v, c, (k - 1) as nat);
        let p = open_prefix(v, c, (k - 1) as nat);
        let o = spec_offsets()[k - 1];
        assert(is_unit_offset(o));
        assert forall|j: int|
            0 <= j < open_prefix(v, c, k).len() implies is_unit_offset(
            #[trigger] open_prefix(v, c, k)[j],
        ) by {
            if j < p.len() {
                assert(open_prefix(v, c, k)[j] == p[j]);
            } else {
                assert(open_prefix(v, c, k)[j] == o);
            }
        }
    }
}

} // verus!

verus! {

impl Board {
    /// Called as part of end of turn. Returns whether the game has ended, i.e.
    /// a tile has been placed in the final column of cells.
    pub fn validate_turns_moves(&mut self, turn_coordinates: CoordinateSet) -> (r: error::Result<bool>)
        requires
            old(self).wf(),
        ensures
            final(self).wf(),
            match spec_validate(old(self)@, turn_coordinates@) {
                Ok((b, lp)) => r == Ok::<bool, Error>(b) && final(self)@ == with_last(old(self)@, lp),
                Err(f) => (r matches Err(e) && fault_of(e) == f) && final(self)@ == old(self)@,
            },
    {
        let mut remaining = turn_coordinates;
        let ghost turn0 = remaining@;
        let mut last_placement = self.last_placement;
        let ghost v = self@;
        proof {
            remaining.lemma_finite();
        }
        let ghost outcome = walk(v, last_placement, remaining@);
        proof {
            self.lemma_wf();
            reveal_strlit("");
            reveal_strlit("Invalid coordinates: ");
            reveal_strlit("Non-contiguous path. Missing tile at ");
            reveal_strlit("Can\u{2019}t reuse a tile from another turn");
        }
        while !remaining.is_empty()
            invariant
                self.wf(),
                self@ == v,
                v == old(self)@,
                view_wf(v),
                sane_last_placement(last_placement),
                remaining@.finite(),
                walk(v, last_placement, remaining@) == outcome,
                turn0.finite(),
                turn0 == turn_coordinates@,
                outcome == walk(v, v.last_placement, turn0),
            decreases remaining@.len(),
        {
            proof {
                reveal_strlit("");
                reveal_strlit("Invalid coordinates: ");
                reveal_strlit("Non-contiguous path. Missing tile at ");
                reveal_strlit("Can\u{2019}t reuse a tile from another turn");
                remaining.lemma_finite();
                if remaining@.len() == 0 {
                    assert(remaining@ =~= Set::<Coordinates>::empty());
                }
            }
            let coordinates = last_placement.0 + last_placement.1;
            let cell = match self.cell(coordinates) {
                Some(cell) => cell,
                None => {
                    let msg = message_at("Invalid coordinates: ", coordinates, "");
                    assert(msg@ =~= "Invalid coordinates: "@ + coordinates_text(coordinates));
                    return Err(Error::cell(coordinates, msg));
                },
            };
            let tile = match cell.tile() {
                Some(tile) => tile,
                None => {
                    let msg = message_at("Non-contiguous path. Missing tile at ", coordinates, "");
                    assert(msg@ =~= "Non-contiguous path. Missing tile at "@ + coordinates_text(
                        coordinates,
                    ));
                    return Err(Error::cell(coordinates, msg));
                },
            };
            let placement = TilePlacementEvent {
                tile_path_type: tile.tile_path_type,
                rotation: tile.rotation,
                coordinates,
            };
            last_placement = match eval_placement(last_placement, &placement) {
                Ok(next) => next,
                Err(e) => {
                    return Err(Error::Cell(e));
                },
            };
            proof {
                lemma_placement_offsets_unit(tile);
            }
            match self.no_crossover(last_placement.0, last_placement.1) {
                Ok(()) => {},
                Err(e) => {
                    return Err(e);
                },
            }
            if !remaining.remove(last_placement.0) {
                return Err(
                    Error::cell(
                        last_placement.0,
                        "Can\u{2019}t reuse a tile from another turn".to_owned(),
                    ),
                );
            }
        }
        proof {
            assert(remaining@ =~= Set::<Coordinates>::empty());
        }
        // Check last tile doesn't end in another tile
        let next = last_placement.0 + last_placement.1;
        if self.has_tile(next) {
            let mut err_coordinates = CoordinateSet::singleton(last_placement.0);
            err_coordinates.insert(next);
            let mut msg = String::new();
            push_text(&mut msg, "Can\u{2019}t play a tile at ");
            push_coordinates(&mut msg, last_placement.0);
            push_text(&mut msg, " because it dead-ends into the rest of the river at ");
            push_coordinates(&mut msg, next);
            proof {
                reveal_strlit("Can\u{2019}t play a tile at ");
                reveal_strlit(" because it dead-ends into the rest of the river at ");
                assert(err_coordinates@ =~= set![last_placement.0, next]);
            }
            return Err(Error::cells(err_coordinates, msg));
        }
        // Check if multiple tiles in end of game area
        let mut end_of_game_cell_count: usize = 0;
        let mut k: usize = 0;
        while k < BOARD_DIM
            invariant
                self.wf(),
                self@ == v,
                k <= 21,
                end_of_game_cell_count == end_tiles(v, k as nat),
                end_of_game_cell_count <= k,
            decreases 21 - k,
        {
            assert(v.cells[Coordinates(k as i8, 21)] == self.end_of_game_cells@[k as int]);
            if !self.end_of_game_cells[k].is_empty() {
                end_of_game_cell_count = end_of_game_cell_count + 1;
            }
            k = k + 1;
        }
        // Check this turns doesn't leave the river encircled
        match self.no_encircles(last_placement) {
            Ok(()) => {},
            Err(e) => {
                return Err(Error::Cell(e));
            },
        }
        let has_ended = match Self::validate_end_of_game_cells(end_of_game_cell_count, last_placement) {
            Ok(b) => b,
            Err(e) => {
                return Err(e);
            },
        };
        self.last_placement = last_placement;
        assert(self@.cells =~= v.cells);
        Ok(has_ended)
    }
}

} // verus!

verus! {

/// Setting a tile on a cell and removing it again is undone in score: the
/// removal is worth the negation of what the placement was worth
pub proof fn lemma_set_then_remove_score(bonus: i16, tp: TilePlacement)
    requires
        sane_bonus(bonus),
    ensures
        ({
            let placed = Cell { bonus, tile: Some(tp) };
            &&& spec_cell_score(placed).can_negate()
            &&& spec_cell_score(placed).can_add(spec_cell_score(placed).negated())
            &&& spec_cell_score(placed).plus(spec_cell_score(placed).negated())
                == TurnScore::spec_new(0, 0)
        }),
{
}

/// Placing a tile on an empty cell and removing it leaves the board as it was
pub proof fn lemma_place_then_remove_board(v: BoardView, c: Coordinates, tp: TilePlacement)
    requires
        empty_at(v, c),
    ensures
        put(
            put(v, c, Cell { bonus: v.cells[c].bonus, tile: Some(tp) }),
            c,
            Cell { bonus: v.cells[c].bonus, tile: None },
        ) == v,
{
    assert(put(
        put(v, c, Cell { bonus: v.cells[c].bonus, tile: Some(tp) }),
        c,
        Cell { bonus: v.cells[c].bonus, tile: None },
    ).cells =~= v.cells);
}

/// Moving a tile changes the score of the turn only by the difference of the
/// bonuses of the two cells
pub proof fn lemma_move_score_change(old_cell: Cell, new_bonus: i16)
    requires
        old_cell.tile is Some,
        sane_bonus(old_cell.bonus),
        sane_bonus(new_bonus),
    ensures
        ({
            let new_cell = Cell { bonus: new_bonus, tile: old_cell.tile };
            spec_cell_score(new_cell).plus(spec_cell_score(old_cell).negated()).spec_score()
                == new_bonus - old_cell.bonus
        }),
{
}

/// The river that last flowed from `lp.0` through `lp.1` reaches the
/// end-of-game column by going on through the offsets `path`: at each step it
/// enters an empty cell of the main area, a tile that joins the offset it
/// came in by with the next one goes there, the river crosses nothing, and the
/// cell it flows into next is empty
pub open spec fn river_escapes(v: BoardView, lp: (Coordinates, Offset), path: Seq<Offset>) -> bool
    decreases path.len(),
{
    let c = step(lp.0, lp.1);
    if path.len() == 0 {
        in_end_column(c)
    } else {
        let o = path[0];
        &&& on_board(c)
        &&& !in_end_column(c)
        &&& empty_at(v, c)
        &&& is_open(v, c, o)
        &&& spec_offsets_to_tile_placement(lp.1, o) matches Some(tp)
        &&& river_escapes(
            put(v, c, Cell { bonus: v.cells[c].bonus, tile: Some(tp) }),
            (c, o),
            path.drop_first(),
        )
    }
}

proof fn lemma_search_sound(v: BoardView, lp: (Coordinates, Offset), vis: Set<Coordinates>, fuel: nat)
    ensures
        search(v, lp, vis, fuel).0 ==> exists|path: Seq<Offset>| #[trigger] river_escapes(v, lp, path),
    decreases fuel, 9int,
{
    let c = step(lp.0, lp.1);
    if in_end_column(c) {
        assert(river_escapes(v, lp, Seq::empty()));
    } else if on_board(c) {
        lemma_open_prefix_len(v, c, 8);
        lemma_explore_sound(v, c, lp.1, vis.insert(c), 0, fuel);
        if search(v, lp, vis, fuel).0 {
            let (o, rest) = choose|o: Offset, rest: Seq<Offset>|
                is_open(v, c, o) && empty_at(v, c)
                    && spec_offsets_to_tile_placement(lp.1, o) is Some && #[trigger] river_escapes(
                    put(
                        v,
                        c,
                        Cell {
                            bonus: v.cells[c].bonus,
                            tile: Some(spec_offsets_to_tile_placement(lp.1, o).unwrap()),
                        },
                    ),
                    (c, o),
                    rest,
                );
            let path = seq![o] + rest;
            assert(path.drop_first() =~= rest);
            assert(river_escapes(v, lp, path));
        }
    }
}

proof fn lemma_explore_sound(
    v: BoardView,
    c: Coordinates,
    in_offset: Offset,
    vis: Set<Coordinates>,
    i: int,
    fuel: nat,
)
    ensures
        explore(v, c, in_offset, vis, i, fuel).0 ==> exists|o: Offset, rest: Seq<Offset>|
            is_open(v, c, o) && empty_at(v, c) && spec_offsets_to_tile_placement(in_offset, o) is Some
                && #[trigger] river_escapes(
                put(
                    v,
                    c,
                    Cell {
                        bonus: v.cells[c].bonus,
                        tile: Some(spec_offsets_to_tile_placement(in_offset, o).unwrap()),
                    },
                ),
                (c, o),
                rest,
            ),
    decreases fuel, spec_open_moves(v, c).len() - i,
{
    let moves = spec_open_moves(v, c);
    if 0 <= i < moves.len() {
        let o = moves[i];
        lemma_open_prefix_len(v, c, 8);
        if vis.contains(step(c, o)) {
            lemma_explore_sound(v, c, in_offset, vis, i + 1, fuel);
        } else {
            match spec_offsets_to_tile_placement(in_offset, o) {
                None => {
                    lemma_explore_sound(v, c, in_offset, vis, i + 1, fuel);
                },
                Some(tp) => if !empty_at(v, c) {
                    lemma_explore_sound(v, c, in_offset, vis, i + 1, fuel);
                } else {
                    let w = put(v, c, Cell { bonus: v.cells[c].bonus, tile: Some(tp) });
                    let child = if fuel == 0 {
                        (false, vis)
                    } else {
                        search(w, (c, o), vis, (fuel - 1) as nat)
                    };
                    if fuel > 0 {
                        lemma_search_sound(w, (c, o), vis, (fuel - 1) as nat);
                    }
                    if child.0 {
                        let rest = choose|path: Seq<Offset>| #[trigger] river_escapes(w, (c, o), path);
                        assert(river_escapes(w, (c, o), rest));
                    } else {
                        lemma_explore_sound(v, c, in_offset, child.1, i + 1, fuel);
                    }
                },
            }
        }
    }
}

/// When a river is not encircled, it can be continued to the end-of-game
/// column: unless it has reached that column, some sequence of open moves,
/// each putting a joining tile into an empty cell without crossing the river,
/// leads there
pub proof fn lemma_no_encircles_sound(v: BoardView, lp: (Coordinates, Offset))
    requires
        spec_no_encircles(v, lp) is None,
        !in_end_column(lp.0),
    ensures
        exists|path: Seq<Offset>| #[trigger] river_escapes(v, lp, path),
{
    lemma_search_sound(v, lp, Set::empty(), cell_count());
}

/// The search never marks a cell of the end-of-game column as visited
proof fn lemma_search_keeps_end_unvisited(v: BoardView, lp: (Coordinates, Offset), vis: Set<Coordinates>, fuel: nat)
    ensures
        forall|x: Coordinates|
            in_end_column(x) && #[trigger] search(v, lp, vis, fuel).1.contains(x) ==> vis.contains(x),
    decreases fuel, 9int,
{
    let c = step(lp.0, lp.1);
    if !in_end_column(c) && on_board(c) {
        lemma_open_prefix_len(v, c, 8);
        lemma_explore_keeps_end_unvisited(v, c, lp.1, vis.insert(c), 0, fuel);
        assert(search(v, lp, vis, fuel) == explore(v, c, lp.1, vis.insert(c), 0, fuel));
        assert forall|x: Coordinates|
            in_end_column(x) && #[trigger] search(v, lp, vis, fuel).1.contains(x) implies vis.contains(x) by {
            assert(explore(v, c, lp.1, vis.insert(c), 0, fuel).1.contains(x));
        }
    }
}

proof fn lemma_explore_keeps_end_unvisited(
    v: BoardView,
    c: Coordinates,
    in_offset: Offset,
    vis: Set<Coordinates>,
    i: int,
    fuel: nat,
)
    ensures
        forall|x: Coordinates|
            in_end_column(x) && #[trigger] explore(v, c, in_offset, vis, i, fuel).1.contains(x)
                ==> vis.contains(x),
    decreases fuel, spec_open_moves(v, c).len() - i,
{
    let moves = spec_open_moves(v, c);
    if 0 <= i < moves.len() {
        let o = moves[i];
        if vis.contains(step(c, o)) {
            lemma_explore_keeps_end_unvisited(v, c, in_offset, vis, i + 1, fuel);
            assert(explore(v, c, in_offset, vis, i, fuel) == explore(v, c, in_offset, vis, i + 1, fuel));
        } else {
            match spec_offsets_to_tile_placement(in_offset, o) {
                None => {
                    lemma_explore_keeps_end_unvisited(v, c, in_offset, vis, i + 1, fuel);
                    assert(explore(v, c, in_offset, vis, i, fuel) == explore(v, c, in_offset, vis, i + 1, fuel));
                },
                Some(tp) => if !empty_at(v, c) {
                    lemma_explore_keeps_end_unvisited(v, c, in_offset, vis, i + 1, fuel);
                    assert(explore(v, c, in_offset, vis, i, fuel) == explore(v, c, in_offset, vis, i + 1, fuel));
                } else {
                    let w = put(v, c, Cell { bonus: v.cells[c].bonus, tile: Some(tp) });
                    if fuel > 0 {
                        lemma_search_keeps_end_unvisited(w, (c, o), vis, (fuel - 1) as nat);
                        let child = search(w, (c, o), vis, (fuel - 1) as nat);
                        if !child.0 {
                            lemma_explore_keeps_end_unvisited(v, c, in_offset, child.1, i + 1, fuel);
                            assert forall|x: Coordinates|
                                in_end_column(x) && #[trigger] explore(v, c, in_offset, vis, i, fuel).1.contains(x)
                                    implies vis.contains(x) by {
                                assert(explore(v, c, in_offset, child.1, i + 1, fuel).1.contains(x));
                                assert(child.1.contains(x));
                            }
                        } else {
                            assert forall|x: Coordinates|
                                in_end_column(x) && #[trigger] explore(v, c, in_offset, vis, i, fuel).1.contains(x)
                                    implies vis.contains(x) by {
                                assert(child.1.contains(x));
                            }
                        }
                    } else {
                        lemma_explore_keeps_end_unvisited(v, c, in_offset, vis, i + 1, fuel);
                        assert(explore(v, c, in_offset, vis, i, fuel) == explore(v, c, in_offset, vis, i + 1, fuel));
                    }
                },
            }
        }
    }
}

/// Trying the open moves from the `i`th on reaches the `j`th, which leads
/// straight into the end-of-game column, so the search succeeds
proof fn lemma_explore_reaches_end(
    v: BoardView,
    c: Coordinates,
    in_offset: Offset,
    vis: Set<Coordinates>,
    i: int,
    j: int,
    fuel: nat,
)
    requires
        0 <= i <= j < spec_open_moves(v, c).len(),
        in_end_column(step(c, spec_open_moves(v, c)[j])),
        !vis.contains(step(c, spec_open_moves(v, c)[j])),
        spec_offsets_to_tile_placement(in_offset, spec_open_moves(v, c)[j]) is Some,
        empty_at(v, c),
        fuel >= 1,
    ensures
        explore(v, c, in_offset, vis, i, fuel).0,
    decreases j - i,
{
    let moves = spec_open_moves(v, c);
    let o = moves[i];
    let target = step(c, moves[j]);
    if i < j {
        if vis.contains(step(c, o)) {
            lemma_explore_reaches_end(v, c, in_offset, vis, i + 1, j, fuel);
        } else {
            match spec_offsets_to_tile_placement(in_offset, o) {
                None => lemma_explore_reaches_end(v, c, in_offset, vis, i + 1, j, fuel),
                Some(tp) => {
                    let w = put(v, c, Cell { bonus: v.cells[c].bonus, tile: Some(tp) });
                    lemma_search_keeps_end_unvisited(w, (c, o), vis, (fuel - 1) as nat);
                    let child = search(w, (c, o), vis, (fuel - 1) as nat);
                    if !child.0 {
                        assert(!child.1.contains(target));
                        lemma_explore_reaches_end(v, c, in_offset, child.1, i + 1, j, fuel);
                    }
                },
            }
        }
    } else {
        let tp = spec_offsets_to_tile_placement(in_offset, o).unwrap();
        let w = put(v, c, Cell { bonus: v.cells[c].bonus, tile: Some(tp) });
        assert(search(w, (c, o), vis, (fuel - 1) as nat).0);
    }
}

proof fn lemma_open_prefix_contains(v: BoardView, c: Coordinates, k: nat, o: Offset, j: int)
    requires
        0 <= j < k <= 8,
        spec_offsets()[j] == o,
        is_open(v, c, o),
    ensures
        open_prefix(v, c, k).contains(o),
    decreases k,
{
    if j < k - 1 {
        lemma_open_prefix_contains(v, c, (k - 1) as nat, o, j);
        let p = open_prefix(v, c, (k - 1) as nat);
        let i = choose|i: int| 0 <= i < p.len() && p[i] == o;
        if is_open(v, c, spec_offsets()[k - 1]) {
            assert(open_prefix(v, c, k)[i] == o);
        }
    } else {
        let p = open_prefix(v, c, (k - 1) as nat);
        assert(open_prefix(v, c, k)[p.len() as int] == o);
    }
}

/// The encirclement check tries every one of the eight directions: when the
/// cell the river flows into can pass it on, in any direction, orthogonal or
/// diagonal, straight into the end-of-game column, the river is not
/// encircled
pub proof fn lemma_no_encircles_one_step(v: BoardView, lp: (Coordinates, Offset), o: Offset)
    requires
        !in_end_column(lp.0),
        on_board(step(lp.0, lp.1)),
        !in_end_column(step(lp.0, lp.1)),
        empty_at(v, step(lp.0, lp.1)),
        spec_offsets().contains(o),
        is_open(v, step(lp.0, lp.1), o),
        spec_offsets_to_tile_placement(lp.1, o) is Some,
        in_end_column(step(step(lp.0, lp.1), o)),
    ensures
        spec_no_encircles(v, lp) is None,
{
    let c = step(lp.0, lp.1);
    let j0 = choose|j: int| 0 <= j < spec_offsets().len() && spec_offsets()[j] == o;
    lemma_open_prefix_contains(v, c, 8, o, j0);
    let moves = spec_open_moves(v, c);
    let j = choose|j: int| 0 <= j < moves.len() && moves[j] == o;
    lemma_explore_reaches_end(v, c, lp.1, Set::empty().insert(c), 0, j, cell_count());
}

/// The river that last flowed from `lp.0` through `lp.1` has a forced way
/// out through the offsets `path`: along the way each cell it flows into is
/// empty and has exactly one open move, the next offset of `path`, which a
/// tile can join to the way the river came in and which leads to a cell not
/// in `vis` nor passed before; the last cell has an open move, in any of the
/// eight directions, that a tile can join and that leads straight into the
/// end-of-game column
pub open spec fn forced_escape(
    v: BoardView,
    lp: (Coordinates, Offset),
    path: Seq<Offset>,
    vis: Set<Coordinates>,
) -> bool
    decreases path.len(),
{
    let c = step(lp.0, lp.1);
    if path.len() == 0 {
        in_end_column(c)
    } else {
        let o = path[0];
        &&& on_board(c)
        &&& !in_end_column(c)
        &&& empty_at(v, c)
        &&& spec_offsets().contains(o)
        &&& is_open(v, c, o)
        &&& spec_offsets_to_tile_placement(lp.1, o) matches Some(tp)
        &&& !vis.contains(step(c, o))
        &&& if path.len() == 1 {
            in_end_column(step(c, o))
        } else {
            &&& spec_open_moves(v, c) == seq![o]
            &&& step(c, o) != c
            &&& forced_escape(
                put(v, c, Cell { bonus: v.cells[c].bonus, tile: Some(tp) }),
                (c, o),
                path.drop_first(),
                vis.insert(c),
            )
        }
    }
}

proof fn lemma_forced_search(
    v: BoardView,
    lp: (Coordinates, Offset),
    path: Seq<Offset>,
    vis: Set<Coordinates>,
    fuel: nat,
)
    requires
        forced_escape(v, lp, path, vis),
        fuel >= path.len(),
    ensures
        search(v, lp, vis, fuel).0,
    decreases path.len(),
{
    let c = step(lp.0, lp.1);
    if path.len() > 0 {
        let o = path[0];
        lemma_open_prefix_len(v, c, 8);
        if path.len() == 1 {
            let j0 = choose|j: int| 0 <= j < spec_offsets().len() && spec_offsets()[j] == o;
            lemma_open_prefix_contains(v, c, 8, o, j0);
            let moves = spec_open_moves(v, c);
            let j = choose|j: int| 0 <= j < moves.len() && moves[j] == o;
            lemma_explore_reaches_end(v, c, lp.1, vis.insert(c), 0, j, fuel);
        } else {
            let tp = spec_offsets_to_tile_placement(lp.1, o).unwrap();
            let w = put(v, c, Cell { bonus: v.cells[c].bonus, tile: Some(tp) });
            lemma_forced_search(w, (c, o), path.drop_first(), vis.insert(c), (fuel - 1) as nat);
            assert(spec_open_moves(v, c)[0] == o);
            assert(explore(v, c, lp.1, vis.insert(c), 0, fuel).0);
        }
    }
}

/// The encirclement check follows a forced way out to its end: a river
/// that can only go on one way at a time, in whatever direction, until a
/// cell from which it can enter the end-of-game column, is not encircled
pub proof fn lemma_no_encircles_forced(v: BoardView, lp: (Coordinates, Offset), path: Seq<Offset>)
    requires
        !in_end_column(lp.0),
        forced_escape(v, lp, path, Set::empty()),
        path.len() <= cell_count(),
    ensures
        spec_no_encircles(v, lp) is None,
{
    let c = step(lp.0, lp.1);
    if path.len() > 0 {
        lemma_forced_search(v, lp, path, Set::empty(), cell_count());
    }
}

} // verus!
