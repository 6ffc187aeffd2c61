use crate::board::TilePlacement;
use crate::error::CellError;
use crate::log::TilePlacementEvent;
use crate::text::{int_text, push_int, push_text};
use crate::tile::{quarter_turns, rotations, spec_rotations, Coordinates, Rotation, Tile};
use std::ops::{Add, Neg};
use vstd::prelude::*;
use vstd::std_specs::convert::FromSpecImpl;
use vstd::std_specs::ops::{AddSpecImpl, NegSpecImpl};

verus! {

/// Represents the paths the river can take in a single cell. Similar to
/// `Tile` except without the universal tile, because when placed, a universal
/// tile must represent one of the standard `TilePath`s
#[derive(Copy, Clone, Debug, PartialEq, Eq, Structural)]
pub enum TilePath {
    Straight,
    Diagonal,
    Center90,
    Corner90,
    Left45,
    Right45,
    Left135,
    Right135,
}

/// All tile paths, in declaration order
pub open spec fn spec_tile_paths() -> Seq<TilePath> {
    seq![
        TilePath::Straight,
        TilePath::Diagonal,
        TilePath::Center90,
        TilePath::Corner90,
        TilePath::Left45,
        TilePath::Right45,
        TilePath::Left135,
        TilePath::Right135,
    ]
}

/// All tile paths, in declaration order
pub fn tile_paths() -> (v: Vec<TilePath>)
    ensures
        v@ == spec_tile_paths(),
{
    vec![
        TilePath::Straight,
        TilePath::Diagonal,
        TilePath::Center90,
        TilePath::Corner90,
        TilePath::Left45,
        TilePath::Right45,
        TilePath::Left135,
        TilePath::Right135,
    ]
}

/// An offset on the game board's grid: rows down, then columns right. Used
/// for representing how different tiles can "connect" to form the river.
///
/// Both items of tuple must be of {1, 0, -1}. `Offset(0, 0)` is invalid.
#[derive(Copy, Clone, Debug, PartialEq, Eq, Structural)]
pub struct Offset(pub i8, pub i8);

/// Whether `o` is one of the eight offsets to a neighbouring cell
pub open spec fn is_unit_offset(o: Offset) -> bool {
    -1 <= o.0 <= 1 && -1 <= o.1 <= 1 && !(o.0 == 0 && o.1 == 0)
}

/// The two offsets through which the river enters and leaves a cell holding
/// `tp` unrotated
pub open spec fn path_offsets(tp: TilePath) -> (Offset, Offset) {
    match tp {
        TilePath::Straight => (Offset(0, -1i8), Offset(0, 1)),
        TilePath::Diagonal => (Offset(1, -1i8), Offset(-1i8, 1)),
        TilePath::Center90 => (Offset(1, 0), Offset(0, -1i8)),
        TilePath::Corner90 => (Offset(1, -1i8), Offset(1, 1)),
        TilePath::Left45 => (Offset(1, 0), Offset(-1i8, -1i8)),
        TilePath::Right45 => (Offset(1, 0), Offset(-1i8, 1)),
        TilePath::Left135 => (Offset(1, 0), Offset(1, -1i8)),
        TilePath::Right135 => (Offset(1, 0), Offset(1, 1)),
    }
}

/// `o` turned clockwise by `r`
pub open spec fn rotated(o: Offset, r: Rotation) -> Offset {
    match r {
        Rotation::Clockwise0 => o,
        Rotation::Clockwise90 => Offset(o.1, (-o.0) as i8),
        Rotation::Clockwise180 => Offset((-o.0) as i8, (-o.1) as i8),
        Rotation::Clockwise270 => Offset((-o.1) as i8, o.0),
    }
}

/// Whether the components of `o` can be negated in `i8`
pub open spec fn can_negate(o: Offset) -> bool {
    o.0 != i8::MIN && o.1 != i8::MIN
}

/// `o` pointing the other way
pub open spec fn opposite(o: Offset) -> Offset {
    Offset((-o.0) as i8, (-o.1) as i8)
}

/// The coordinates one `o` away from `c`
pub open spec fn step(c: Coordinates, o: Offset) -> Coordinates {
    Coordinates((c.0 + o.0) as i8, (c.1 + o.1) as i8)
}

/// Whether `step(c, o)` fits in `i8`
pub open spec fn can_step(c: Coordinates, o: Offset) -> bool {
    i8::MIN <= c.0 + o.0 <= i8::MAX && i8::MIN <= c.1 + o.1 <= i8::MAX
}

/// Whether a step of any unit offset from `c` fits in `i8`
pub open spec fn inner_coordinates(c: Coordinates) -> bool {
    i8::MIN < c.0 < i8::MAX && i8::MIN < c.1 < i8::MAX
}

impl TilePath {
    /// The two offsets of the path, unrotated
    pub fn offsets(self) -> (r: [Offset; 2])
        ensures
            r@ == seq![path_offsets(self).0, path_offsets(self).1],
    {
        // Representations of the valid offsets as the cardinal directions making
        // the `TilePath` to `Offset` mappings easier to read
        let sw = Offset(1, -1i8);
        let w = Offset(0, -1i8);
        let nw = Offset(-1i8, -1i8);
        let ne = Offset(-1i8, 1);
        let e = Offset(0, 1);
        let se = Offset(1, 1);
        let s = Offset(1, 0);
        let r = match self {
            TilePath::Straight => [w, e],
            TilePath::Diagonal => [sw, ne],
            TilePath::Center90 => [s, w],
            TilePath::Corner90 => [sw, se],
            TilePath::Left45 => [s, nw],
            TilePath::Right45 => [s, ne],
            TilePath::Left135 => [s, sw],
            TilePath::Right135 => [s, se],
        };
        assert(r@ =~= seq![path_offsets(self).0, path_offsets(self).1]);
        r
    }
}

/// The tile that shows `tp`
pub open spec fn tile_of_path(tp: TilePath) -> Tile {
    match tp {
        TilePath::Straight => Tile::Straight,
        TilePath::Diagonal => Tile::Diagonal,
        TilePath::Center90 => Tile::Center90,
        TilePath::Corner90 => Tile::Corner90,
        TilePath::Left45 => Tile::Left45,
        TilePath::Right45 => Tile::Right45,
        TilePath::Left135 => Tile::Left135,
        TilePath::Right135 => Tile::Right135,
    }
}

/// The path a non-universal tile shows
pub open spec fn path_of_tile(t: Tile) -> Option<TilePath> {
    match t {
        Tile::Straight => Some(TilePath::Straight),
        Tile::Diagonal => Some(TilePath::Diagonal),
        Tile::Center90 => Some(TilePath::Center90),
        Tile::Corner90 => Some(TilePath::Corner90),
        Tile::Left45 => Some(TilePath::Left45),
        Tile::Right45 => Some(TilePath::Right45),
        Tile::Left135 => Some(TilePath::Left135),
        Tile::Right135 => Some(TilePath::Right135),
        Tile::Universal => None,
    }
}

impl From<TilePath> for Tile {
    fn from(tp: TilePath) -> (t: Self) {
        match tp {
            TilePath::Straight => Tile::Straight,
            TilePath::Diagonal => Tile::Diagonal,
            TilePath::Center90 => Tile::Center90,
            TilePath::Corner90 => Tile::Corner90,
            TilePath::Left45 => Tile::Left45,
            TilePath::Right45 => Tile::Right45,
            TilePath::Left135 => Tile::Left135,
            TilePath::Right135 => Tile::Right135,
        }
    }
}

impl FromSpecImpl<TilePath> for Tile {
    open spec fn obeys_from_spec() -> bool {
        true
    }

    open spec fn from_spec(tp: TilePath) -> Tile {
        tile_of_path(tp)
    }
}

/// The tile that shows `tile_path`
pub fn tile_path_to_tile(tile_path: TilePath) -> (t: Tile)
    ensures
        t == tile_of_path(tile_path),
{
    Tile::from(tile_path)
}

/// The refusal to take the universal tile for a path
pub open spec fn universal_path_msg() -> Seq<char> {
    "Can't convert universal tile to tile path"@
}

impl TilePath {
    /// The path a non-universal tile shows; an error for the universal tile
    pub fn try_from(tile: Tile) -> (r: Result<TilePath, String>)
        ensures
            path_of_tile(tile) matches Some(tp) ==> r == Ok::<TilePath, String>(tp),
            path_of_tile(tile) is None ==> (r matches Err(msg) && msg@ == universal_path_msg()),
    {
        match tile {
            Tile::Straight => Ok(TilePath::Straight),
            Tile::Diagonal => Ok(TilePath::Diagonal),
            Tile::Center90 => Ok(TilePath::Center90),
            Tile::Corner90 => Ok(TilePath::Corner90),
            Tile::Left45 => Ok(TilePath::Left45),
            Tile::Right45 => Ok(TilePath::Right45),
            Tile::Left135 => Ok(TilePath::Left135),
            Tile::Right135 => Ok(TilePath::Right135),
            Tile::Universal => Err("Can't convert universal tile to tile path".to_owned()),
        }
    }
}

/// When a universal tile is placed, the player decides which tile path they
/// would like it to represent. For display purposes and because the player can
/// change which path it represent, it is necessary to differentiate between,
/// for example, a straight tile and a universal tile used as a straight path
#[derive(Copy, Clone, Debug, PartialEq, Eq, Structural)]
pub enum TilePathType {
    Normal(TilePath),
    Universal(TilePath),
}

/// The path a tile path type shows
pub open spec fn path_of_type(tpt: TilePathType) -> TilePath {
    match tpt {
        TilePathType::Normal(tp) => tp,
        TilePathType::Universal(tp) => tp,
    }
}

/// The tile that was placed for `tpt`
pub open spec fn tile_of_type(tpt: TilePathType) -> Tile {
    match tpt {
        TilePathType::Normal(tp) => tile_of_path(tp),
        TilePathType::Universal(_) => Tile::Universal,
    }
}

/// The tile path type a rack tile is placed as: universal tiles start out as
/// a straight path
pub open spec fn type_of_tile(t: Tile) -> TilePathType {
    match path_of_tile(t) {
        Some(tp) => TilePathType::Normal(tp),
        None => TilePathType::Universal(TilePath::Straight),
    }
}

impl TilePathType {
    pub fn universal(tp: TilePath) -> (t: Self)
        ensures
            t == TilePathType::Universal(tp),
    {
        TilePathType::Universal(tp)
    }

    pub fn normal(tp: TilePath) -> (t: Self)
        ensures
            t == TilePathType::Normal(tp),
    {
        TilePathType::Normal(tp)
    }

    /// The normal path type of a non-universal tile
    pub fn tile_into_normal(t: Tile) -> (r: Result<TilePathType, String>)
        ensures
            path_of_tile(t) matches Some(tp) ==> r == Ok::<TilePathType, String>(
                TilePathType::Normal(tp),
            ),
            path_of_tile(t) is None ==> (r matches Err(m) && m@ == universal_path_msg()),
    {
        match TilePath::try_from(t) {
            Ok(tp) => Ok(Self::normal(tp)),
            Err(m) => Err(m),
        }
    }

    /// The universal path type showing the path of a non-universal tile
    pub fn tile_into_universal(t: Tile) -> (r: Result<TilePathType, String>)
        ensures
            path_of_tile(t) matches Some(tp) ==> r == Ok::<TilePathType, String>(
                TilePathType::Universal(tp),
            ),
            path_of_tile(t) is None ==> (r matches Err(m) && m@ == universal_path_msg()),
    {
        match TilePath::try_from(t) {
            Ok(tp) => Ok(Self::universal(tp)),
            Err(m) => Err(m),
        }
    }

    pub fn tile_path(&self) -> (tp: TilePath)
        ensures
            tp == path_of_type(*self),
    {
        match self {
            TilePathType::Normal(tp) => *tp,
            TilePathType::Universal(tp) => *tp,
        }
    }

    pub fn tile(&self) -> (t: Tile)
        ensures
            t == tile_of_type(*self),
    {
        match self {
            TilePathType::Normal(tp) => Tile::from(*tp),
            TilePathType::Universal(_) => Tile::Universal,
        }
    }

    pub fn is_universal(&self) -> (b: bool)
        ensures
            b == (*self is Universal),
    {
        matches!(self, TilePathType::Universal(_))
    }

    /// Points the placed tile is worth
    pub fn score(&self) -> (s: i16)
        ensures
            s == crate::tile::spec_tile_score(tile_of_type(*self)),
    {
        self.tile().score()
    }

    /// The two offsets of the path, unrotated
    pub fn offsets(&self) -> (r: [Offset; 2])
        ensures
            r@ == seq![path_offsets(path_of_type(*self)).0, path_offsets(path_of_type(*self)).1],
    {
        self.tile_path().offsets()
    }
}

impl From<Tile> for TilePathType {
    fn from(t: Tile) -> (tpt: Self) {
        match t {
            Tile::Universal => TilePathType::Universal(TilePath::Straight),
            Tile::Straight => TilePathType::Normal(TilePath::Straight),
            Tile::Diagonal => TilePathType::Normal(TilePath::Diagonal),
            Tile::Center90 => TilePathType::Normal(TilePath::Center90),
            Tile::Corner90 => TilePathType::Normal(TilePath::Corner90),
            Tile::Left45 => TilePathType::Normal(TilePath::Left45),
            Tile::Right45 => TilePathType::Normal(TilePath::Right45),
            Tile::Left135 => TilePathType::Normal(TilePath::Left135),
            Tile::Right135 => TilePathType::Normal(TilePath::Right135),
        }
    }
}

impl FromSpecImpl<Tile> for TilePathType {
    open spec fn obeys_from_spec() -> bool {
        true
    }

    open spec fn from_spec(t: Tile) -> TilePathType {
        type_of_tile(t)
    }
}

impl From<TilePathType> for Tile {
    fn from(tpt: TilePathType) -> (t: Self) {
        tpt.tile()
    }
}

impl FromSpecImpl<TilePathType> for Tile {
    open spec fn obeys_from_spec() -> bool {
        true
    }

    open spec fn from_spec(tpt: TilePathType) -> Tile {
        tile_of_type(tpt)
    }
}

impl From<TilePathType> for TilePath {
    fn from(tpt: TilePathType) -> (tp: Self) {
        tpt.tile_path()
    }
}

impl FromSpecImpl<TilePathType> for TilePath {
    open spec fn obeys_from_spec() -> bool {
        true
    }

    open spec fn from_spec(tpt: TilePathType) -> TilePath {
        path_of_type(tpt)
    }
}

impl Offset {
    /// The offset turned clockwise by `rotation`
    pub fn rotate(self, rotation: Rotation) -> (o: Offset)
        requires
            can_negate(self),
        ensures
            o == rotated(self, rotation),
    {
        let Offset(x, y) = self;
        match rotation {
            Rotation::Clockwise0 => Offset(x, y),
            Rotation::Clockwise90 => Offset(y, -x),
            Rotation::Clockwise180 => Offset(-x, -y),
            Rotation::Clockwise270 => Offset(-y, x),
        }
    }

    /// Whether the offset leads to a diagonal neighbour
    pub fn is_diagonal(self) -> (b: bool)
        ensures
            b == (self.0 != 0 && self.1 != 0),
    {
        self.0 != 0 && self.1 != 0
    }
}

impl Neg for Offset {
    type Output = Offset;

    fn neg(self) -> (o: Self::Output) {
        Offset(-self.0, -self.1)
    }
}

impl NegSpecImpl for Offset {
    open spec fn obeys_neg_spec() -> bool {
        true
    }

    open spec fn neg_req(self) -> bool {
        can_negate(self)
    }

    open spec fn neg_spec(self) -> Offset {
        opposite(self)
    }
}

impl Add<Offset> for Coordinates {
    type Output = Self;

    fn add(self, rhs: Offset) -> (c: Self) {
        Coordinates(self.0 + rhs.0, self.1 + rhs.1)
    }
}

impl AddSpecImpl<Offset> for Coordinates {
    open spec fn obeys_add_spec() -> bool {
        true
    }

    open spec fn add_req(self, rhs: Offset) -> bool {
        can_step(self, rhs)
    }

    open spec fn add_spec(self, rhs: Offset) -> Coordinates {
        step(self, rhs)
    }
}

/// The eight offsets to neighbouring cells, clockwise from the upper right
pub open spec fn spec_offsets() -> Seq<Offset> {
    seq![
        Offset(-1i8, 1),
        Offset(0, 1),
        Offset(1, 1),
        Offset(1, 0),
        Offset(1, -1i8),
        Offset(0, -1i8),
        Offset(-1i8, -1i8),
        Offset(-1i8, 0),
    ]
}

/// The eight offsets to neighbouring cells, clockwise from the upper right
pub fn offsets() -> (v: Vec<Offset>)
    ensures
        v@ == spec_offsets(),
{
    vec![
        Offset(-1i8, 1),
        Offset(0, 1),
        Offset(1, 1),
        Offset(1, 0),
        Offset(1, -1i8),
        Offset(0, -1i8),
        Offset(-1i8, -1i8),
        Offset(-1i8, 0),
    ]
}

/// "row R, column C"
pub open spec fn coordinates_text(c: Coordinates) -> Seq<char> {
    "row "@ + int_text(c.0 as int) + ", column "@ + int_text(c.1 as int)
}

/// Appends "row R, column C" to `text`
pub fn push_coordinates(text: &mut String, c: Coordinates)
    ensures
        final(text)@ == old(text)@ + coordinates_text(c),
{
    push_text(text, "row ");
    push_int(text, c.0);
    push_text(text, ", column ");
    push_int(text, c.1);
    proof {
        reveal_strlit("row ");
        reveal_strlit(", column ");
    }
    assert(text@ =~= old(text)@ + coordinates_text(c));
}

impl Coordinates {
    /// "row R, column C"
    pub fn to_string(&self) -> (s: String)
        ensures
            s@ == coordinates_text(*self),
    {
        let mut s = String::new();
        push_coordinates(&mut s, *self);
        s
    }
}

/// `prefix` followed by the text of `c`, then `suffix`
pub fn message_at(prefix: &str, c: Coordinates, suffix: &str) -> (m: String)
    ensures
        m@ == prefix@ + coordinates_text(c) + suffix@,
{
    let mut m = String::new();
    push_text(&mut m, prefix);
    push_coordinates(&mut m, c);
    push_text(&mut m, suffix);
    assert(m@ =~= prefix@ + coordinates_text(c) + suffix@);
    m
}

/// Why a placement does not continue the river
pub enum PlacementFault {
    /// The tile is not in the cell the river flows into
    Misaligned,
    /// No side of the tile, as rotated, faces the cell the river comes from
    NoEntry,
    /// The tile has no second side for the river to leave through
    NoExit,
}

/// The outcome of placing `tpt` rotated by `rotation` at `coordinates` when
/// the river last flowed from `prev.0` towards `prev.1`: the cell placed and
/// the offset through which the river leaves it, or why the placement does
/// not continue the river. The river enters through the first of the tile's
/// two rotated offsets that points back at `prev.0` and leaves through the
/// first one that differs from it.
pub open spec fn spec_eval_placement(
    prev: (Coordinates, Offset),
    tpt: TilePathType,
    rotation: Rotation,
    coordinates: Coordinates,
) -> Result<(Coordinates, Offset), PlacementFault> {
    let (a, b) = path_offsets(path_of_type(tpt));
    let ra = rotated(a, rotation);
    let rb = rotated(b, rotation);
    if step(prev.0, prev.1) != coordinates {
        Err(PlacementFault::Misaligned)
    } else if step(coordinates, ra) == prev.0 {
        if rb != ra {
            Ok((coordinates, rb))
        } else {
            Err(PlacementFault::NoExit)
        }
    } else if step(coordinates, rb) == prev.0 {
        Ok((coordinates, ra))
    } else {
        Err(PlacementFault::NoEntry)
    }
}

/// The message of an error about a placement
pub open spec fn placement_fault_text(fault: PlacementFault, c: Coordinates) -> Seq<char> {
    match fault {
        PlacementFault::Misaligned => "Tile at "@ + coordinates_text(c)
            + " doesn't align with the rest of the river"@,
        PlacementFault::NoEntry => "Tile and rotation at "@ + coordinates_text(c)
            + " don't align with the rest of the river"@,
        PlacementFault::NoExit => "No valid output offset for "@ + coordinates_text(c),
    }
}

/// Given the previous placement, evaluates and validates a single tile
/// placement. The return value of this function can be fed to its next call.
pub fn eval_placement(prev: (Coordinates, Offset), placement: &TilePlacementEvent) -> (r: Result<
    (Coordinates, Offset),
    CellError,
>)
    requires
        can_step(prev.0, prev.1),
        inner_coordinates(placement.coordinates),
    ensures
        match spec_eval_placement(
            prev,
            placement.tile_path_type,
            placement.rotation,
            placement.coordinates,
        ) {
            Ok(next) => r == Ok::<(Coordinates, Offset), CellError>(next),
            Err(fault) => (r matches Err(e) && e.coordinates@ == set![placement.coordinates]
                && e.msg@ == placement_fault_text(fault, placement.coordinates)),
        },
{
    // Handle board boundaries elsewhere
    let new_coordinates = prev.0 + prev.1;
    let c = placement.coordinates;
    proof {
        reveal_strlit("Tile at ");
        reveal_strlit(" doesn't align with the rest of the river");
        reveal_strlit("Tile and rotation at ");
        reveal_strlit(" don't align with the rest of the river");
        reveal_strlit("No valid output offset for ");
        reveal_strlit("");
    }
    if new_coordinates != c {
        return Err(
            CellError::new(
                c,
                message_at("Tile at ", c, " doesn't align with the rest of the river"),
            ),
        );
    }
    let offsets = placement.tile_path_type.offsets();
    let a = offsets[0].rotate(placement.rotation);
    let b = offsets[1].rotate(placement.rotation);
    if c + a == prev.0 {
        // Assumes there's only two offsets
        if b != a {
            Ok((new_coordinates, b))
        } else {
            let m = message_at("No valid output offset for ", c, "");
            assert(m@ =~= placement_fault_text(PlacementFault::NoExit, c));
            Err(CellError::new(c, m))
        }
    } else if c + b == prev.0 {
        Ok((new_coordinates, a))
    } else {
        Err(
            CellError::new(
                c,
                message_at("Tile and rotation at ", c, " don't align with the rest of the river"),
            ),
        )
    }
}

/// Whether `tp` rotated by `r` joins a river arriving through `prev_offset`
/// to one leaving through `new_offset`
pub open spec fn joins(tp: TilePath, r: Rotation, prev_offset: Offset, new_offset: Offset) -> bool {
    let (a, b) = path_offsets(tp);
    let ra = rotated(a, r);
    let rb = rotated(b, r);
    (ra == opposite(prev_offset) && rb == new_offset) || (ra == new_offset && rb == opposite(
        prev_offset,
    ))
}

/// The first path and rotation, trying paths in declaration order and for
/// each path rotations in order of increasing quarter turns, from the `k`th
/// pair on, that joins `prev_offset` to `new_offset`
pub open spec fn first_join_from(prev_offset: Offset, new_offset: Offset, k: nat) -> Option<
    (TilePath, Rotation),
>
    decreases 32 - k,
{
    if k >= 32 {
        None
    } else {
        let tp = spec_tile_paths()[(k / 4) as int];
        let r = spec_rotations()[(k % 4) as int];
        if joins(tp, r, prev_offset, new_offset) {
            Some((tp, r))
        } else {
            first_join_from(prev_offset, new_offset, k + 1)
        }
    }
}

/// The placement `offsets_to_tile_placement` finds for the two offsets
pub open spec fn spec_offsets_to_tile_placement(prev_offset: Offset, new_offset: Offset) -> Option<
    TilePlacement,
> {
    match first_join_from(prev_offset, new_offset, 0) {
        Some((tp, r)) => Some(TilePlacement { tile_path_type: TilePathType::Normal(tp), rotation: r }),
        None => None,
    }
}

/// Returns an `Option`, but it should only return `None` in cases where the set
/// of offsets are invalid, e.g. `Offset(1, 0)` and `Offset(-1i8, 0)`. This set of
/// offsets is invalid because the river would cross over itself.
pub fn offsets_to_tile_placement(prev_offset: Offset, new_offset: Offset) -> (r: Option<
    TilePlacement,
>)
    requires
        can_negate(prev_offset),
    ensures
        r == spec_offsets_to_tile_placement(prev_offset, new_offset),
{
    let paths = tile_paths();
    let rots = rotations();
    let back = Neg::neg(prev_offset);
    let mut i: usize = 0;
    while i < 8
        invariant
            0 <= i <= 8,
            paths@ == spec_tile_paths(),
            rots@ == spec_rotations(),
            back == opposite(prev_offset),
            first_join_from(prev_offset, new_offset, 0) == first_join_from(
                prev_offset,
                new_offset,
                (4 * i) as nat,
            ),
        decreases 8 - i,
    {
        let tp = paths[i];
        let offsets = tp.offsets();
        let mut j: usize = 0;
        while j < 4
            invariant
                0 <= i < 8,
                0 <= j <= 4,
                paths@ == spec_tile_paths(),
                rots@ == spec_rotations(),
                tp == spec_tile_paths()[i as int],
                offsets@ == seq![path_offsets(tp).0, path_offsets(tp).1],
                back == opposite(prev_offset),
                first_join_from(prev_offset, new_offset, 0) == first_join_from(
                    prev_offset,
                    new_offset,
                    (4 * i + j) as nat,
                ),
            decreases 4 - j,
        {
            let r = rots[j];
            let a = offsets[0].rotate(r);
            let b = offsets[1].rotate(r);
            assert(((4 * i + j) as nat) / 4 == i && ((4 * i + j) as nat) % 4 == j);
            // `prev_offset` is flipped because the placement we're looking for is on the
            // "receiving" end of the previous tile's offset
            if (a == back && b == new_offset) || (a == new_offset && b == back) {
                return Some(TilePlacement::new(TilePathType::Normal(tp), r));
            }
            j = j + 1;
        }
        i = i + 1;
    }
    None
}

} // verus!

verus! {

/// The position of `tp` among all tile paths
pub open spec fn path_index(tp: TilePath) -> int {
    match tp {
        TilePath::Straight => 0,
        TilePath::Diagonal => 1,
        TilePath::Center90 => 2,
        TilePath::Corner90 => 3,
        TilePath::Left45 => 4,
        TilePath::Right45 => 5,
        TilePath::Left135 => 6,
        TilePath::Right135 => 7,
    }
}

proof fn lemma_first_join(prev_offset: Offset, new_offset: Offset, k: nat)
    ensures
        match first_join_from(prev_offset, new_offset, k) {
            Some((tp, r)) => joins(tp, r, prev_offset, new_offset),
            None => forall|m: int|
                k <= m < 32 ==> !joins(
                    #[trigger] spec_tile_paths()[m / 4],
                    spec_rotations()[m % 4],
                    prev_offset,
                    new_offset,
                ),
        },
    decreases 32 - k,
{
    if k < 32 {
        lemma_first_join(prev_offset, new_offset, k + 1);
    }
}

/// `offsets_to_tile_placement` finds a tile, placed normally, that joins the
/// two offsets, and finds none only when no path in no rotation joins them
pub proof fn lemma_offsets_to_tile_placement(prev_offset: Offset, new_offset: Offset)
    ensures
        match spec_offsets_to_tile_placement(prev_offset, new_offset) {
            Some(tp) => tp.tile_path_type is Normal && joins(
                path_of_type(tp.tile_path_type),
                tp.rotation,
                prev_offset,
                new_offset,
            ),
            None => forall|tp: TilePath, r: Rotation| !joins(tp, r, prev_offset, new_offset),
        },
{
    lemma_first_join(prev_offset, new_offset, 0);
    if spec_offsets_to_tile_placement(prev_offset, new_offset) is None {
        assert forall|tp: TilePath, r: Rotation| !joins(tp, r, prev_offset, new_offset) by {
            let m = 4 * path_index(tp) + quarter_turns(r);
            assert(m / 4 == path_index(tp) && m % 4 == quarter_turns(r));
            assert(spec_tile_paths()[m / 4] == tp);
            assert(spec_rotations()[m % 4] == r);
        }
    }
}

} // verus!
