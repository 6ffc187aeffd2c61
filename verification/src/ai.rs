use crate::board::Board;
use crate::log::TilePlacementEvent;
use crate::player::TileArray;
use vstd::prelude::*;

pub mod brute;

pub use brute::Brute;

verus! {

/// An automated player to compete with human players and other `CPUPlayer`s
pub trait CPUPlayer {
    /// Whether this player's search can run
    spec fn can_search(&self) -> bool;

    /// The tiles to place this turn, in order, if any are worth placing
    fn take_turn(
        &mut self,
        tiles: &TileArray,
        board: &Board,
        score: i16,
        other_scores: Vec<i16>,
    ) -> Option<Vec<TilePlacementEvent>>
        requires
            old(self).can_search(),
            board.wf(),
            tiles@.len() <= 5,
            other_scores@.len() < usize::MAX,
    ;
}

} // verus!
