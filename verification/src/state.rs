use crate::nile::{
    cant_play_leads_to, cpu_turns_lead_to, current, is_new_game, res_msg, spec_end_turn, spec_engine_place, spec_redo,
    spec_remove_selected, spec_rotate_selected, spec_select_board, spec_select_rack, spec_undo,
    spec_update_selected, Engine, EngineView, SelectedTile,
};
use crate::path::{TilePath, TilePathType};
use crate::player::{total_points, Player, PlayerView};
use crate::text::push_text;
use crate::tile::{self, quarter_turns, rotation_of_quarter_turns, Coordinates};
use crate::utils::update_if_changed;
use vstd::prelude::*;
use vstd::std_specs::cmp::PartialEqSpecImpl;

verus! {

/// Modal state for displaying errors and end-of-game message
#[derive(Debug)]
pub enum Modal {
    Error(String),
    EndOfGame(String),
}

impl Clone for Modal {
    fn clone(&self) -> (m: Self)
        ensures
            m == *self,
    {
        match self {
            Modal::Error(s) => Modal::Error(s.clone()),
            Modal::EndOfGame(s) => Modal::EndOfGame(s.clone()),
        }
    }
}

impl PartialEq for Modal {
    fn eq(&self, other: &Self) -> (r: bool) {
        match (self, other) {
            (Modal::Error(a), Modal::Error(b)) => *a == *b,
            (Modal::EndOfGame(a), Modal::EndOfGame(b)) => *a == *b,
            _ => false,
        }
    }
}

impl PartialEqSpecImpl for Modal {
    open spec fn obeys_eq_spec() -> bool {
        true
    }

    open spec fn eq_spec(&self, other: &Modal) -> bool {
        match (self, other) {
            (Modal::Error(a), Modal::Error(b)) => a@ == b@,
            (Modal::EndOfGame(a), Modal::EndOfGame(b)) => a@ == b@,
            _ => false,
        }
    }
}

/// A modal as contracts see it
pub enum ModalView {
    Error(Seq<char>),
    EndOfGame(Seq<char>),
}

pub open spec fn modal_view(m: Option<Modal>) -> Option<ModalView> {
    match m {
        Some(Modal::Error(s)) => Some(ModalView::Error(s@)),
        Some(Modal::EndOfGame(s)) => Some(ModalView::EndOfGame(s@)),
        None => None,
    }
}

/// Options of a new game
#[derive(Debug, Clone, PartialEq)]
pub struct NewGameOptions {
    pub player_names: Vec<String>,
    pub cpu_player_count: u8,
}

/// A direction to turn a tile in
#[derive(Debug, Clone, Copy, PartialEq, Eq, Structural)]
pub enum Rotation {
    Clockwise,
    Counterclockwise,
}

/// The selection of a rack tile
#[derive(Debug, Clone, Copy, PartialEq, Eq, Structural)]
pub struct SelectRackTile {
    pub rack_idx: u8,
}

/// What the user interface asks of the game
#[derive(Debug)]
pub enum Action {
    NewGame(NewGameOptions),
    SelectRackTile(SelectRackTile),
    SelectBoardTile(Coordinates),
    /// place a tile on the board. It will be moved from its previous location
    PlaceTile(Coordinates),
    RotateSelectedTile(Rotation),
    RemoveSelectedTile,
    UpdateSelectedUniversalPath(TilePath),
    Undo,
    Redo,
    EndTurn,
    CantPlay,
    Dismiss,
}

/// Shared state for a game of nile.
pub struct State {
    /// Main game state
    pub nile: Engine,
    /// Modal state for displaying errors and end-of-game message
    pub modal: Option<Modal>,
}

/// The abstract state of the user interface
pub struct StateView {
    pub nile: EngineView,
    pub modal: Option<ModalView>,
}

pub open spec fn state_view(s: State) -> StateView {
    StateView { nile: s.nile@, modal: modal_view(s.modal) }
}

/// The state after an action of the engine: on an error its message is shown
pub open spec fn after_action(s: StateView, outcome: (Result<(), Seq<char>>, EngineView)) -> StateView {
    match outcome.0 {
        Ok(()) => StateView { nile: outcome.1, ..s },
        Err(m) => StateView { nile: outcome.1, modal: Some(ModalView::Error(m)) },
    }
}

/// The rotation a tile turned one step from `r` has
pub open spec fn turned(r: tile::Rotation, direction: Rotation) -> tile::Rotation {
    match direction {
        Rotation::Clockwise => rotation_of_quarter_turns(quarter_turns(r) + 1),
        Rotation::Counterclockwise => rotation_of_quarter_turns(quarter_turns(r) + 3),
    }
}

/// The highest total among the first `k` players; `i16::MIN` for none
pub open spec fn best_total(ps: Seq<PlayerView>, k: nat) -> i16
    decreases k,
{
    if k == 0 || k > ps.len() {
        i16::MIN
    } else {
        let w = best_total(ps, (k - 1) as nat);
        let t = total_points(ps[k - 1].scores);
        if t > w {
            t
        } else {
            w
        }
    }
}

/// The names of those among the first `k` players whose total is `w`
pub open spec fn names_with_total(ps: Seq<PlayerView>, w: i16, k: nat) -> Seq<Seq<char>>
    decreases k,
{
    if k == 0 || k > ps.len() {
        Seq::empty()
    } else {
        names_with_total(ps, w, (k - 1) as nat) + if total_points(ps[k - 1].scores) == w {
            seq![ps[k - 1].name]
        } else {
            Seq::empty()
        }
    }
}

/// `names` separated by ", "
pub open spec fn joined(names: Seq<Seq<char>>) -> Seq<char>
    decreases names.len(),
{
    if names.len() == 0 {
        Seq::empty()
    } else if names.len() == 1 {
        names[0]
    } else {
        joined(names.drop_last()) + ", "@ + names.last()
    }
}

/// The message at the end of a game: who won, or who tied
pub open spec fn end_of_game_text(ps: Seq<PlayerView>) -> Seq<char> {
    let winners = names_with_total(ps, best_total(ps, ps.len()), ps.len());
    if winners.len() == 1 {
        winners[0] + " has won"@
    } else {
        joined(winners) + " tied"@
    }
}

impl State {
    pub fn new_game(player_names: Vec<String>, cpu_player_count: u8) -> (s: Self)
        requires
            2 <= player_names@.len() + cpu_player_count <= 4,
        ensures
            s.nile.wf(),
            is_new_game(s.nile@.nile, player_names@, cpu_player_count as nat),
            s.nile@.selected is None,
            s.modal is None,
    {
        Self { nile: Engine::new(player_names, cpu_player_count).unwrap(), modal: None }
    }

    pub fn can_undo(&self) -> (b: bool)
        ensures
            b == (self.nile@.log.undo.len() > 0),
    {
        self.nile.can_undo()
    }

    pub fn can_redo(&self) -> (b: bool)
        ensures
            b == (self.nile@.log.redo.len() > 0),
    {
        self.nile.can_redo()
    }

    pub fn has_selected_board_tile(&self) -> (b: bool)
        ensures
            b == (self.nile@.selected matches Some(SelectedTile::Board(_))),
    {
        matches!(self.nile.selected_tile(), Some(SelectedTile::Board(_)))
    }

    /// Whether the selected board tile is a universal tile
    pub fn selected_is_universal(&self) -> (b: bool)
        requires
            self.nile.wf(),
        ensures
            b == match self.nile@.selected {
                Some(SelectedTile::Board(c)) => has_universal_at(self.nile@, c),
                _ => false,
            },
    {
        match self.nile.selected_board_tile() {
            Some(coordinates) => match self.nile.board().cell(coordinates) {
                Some(cell) => match cell.tile() {
                    Some(c) => c.tile_path_type().is_universal(),
                    None => false,
                },
                None => false,
            },
            None => false,
        }
    }
}

/// Whether a universal tile lies at `c`
pub open spec fn has_universal_at(e: EngineView, c: Coordinates) -> bool {
    &&& e.nile.board.cells.contains_key(c)
    &&& e.nile.board.cells[c].tile matches Some(tp)
    &&& tp.tile_path_type is Universal
}

} // verus!

verus! {

/// `r` turned one step in `direction`
fn turn(r: tile::Rotation, direction: Rotation) -> (t: tile::Rotation)
    ensures
        t == turned(r, direction),
{
    let q: usize = match r {
        tile::Rotation::Clockwise0 => 0,
        tile::Rotation::Clockwise90 => 1,
        tile::Rotation::Clockwise180 => 2,
        tile::Rotation::Clockwise270 => 3,
    };
    let step: usize = if direction == Rotation::Clockwise {
        1
    } else {
        3
    };
    let rotations = tile::rotations();
    let t = rotations[(q + step) % 4];
    proof {
        assert(quarter_turns(r) == q);
        assert(t == rotation_of_quarter_turns(q + step)) by {
            assert(((q + step) % 4) as int == (q + step) % 4);
        }
    }
    t
}

impl State {
    fn set_error(&mut self, msg: String) -> (changed: bool)
        ensures
            final(self).nile == old(self).nile,
            modal_view(final(self).modal) == Some(ModalView::Error(msg@)),
            changed == (modal_view(old(self).modal) != Some(ModalView::Error(msg@))),
    {
        let ghost m = msg@;
        update_if_changed(&mut self.modal, Some(Modal::Error(msg)))
    }

    fn dismiss(&mut self) -> (changed: bool)
        ensures
            final(self).nile == old(self).nile,
            final(self).modal is None,
            changed == (old(self).modal is Some),
    {
        update_if_changed(&mut self.modal, None)
    }

    fn set_end_of_game(&mut self) -> (changed: bool)
        requires
            old(self).nile.wf(),
        ensures
            final(self).nile == old(self).nile,
            modal_view(final(self).modal) == Some(
                ModalView::EndOfGame(end_of_game_text(old(self).nile@.nile.players)),
            ),
    {
        let players = self.nile.players();
        let ghost ps = self.nile@.nile.players;
        let mut winning_score: i16 = i16::MIN;
        let mut i: usize = 0;
        while i < players.len()
            invariant
                i <= players@.len(),
                players@.map_values(|q: Player| q@) == ps,
                winning_score == best_total(ps, i as nat),
            decreases players.len() - i,
        {
            let t = players[i].total_score();
            if t > winning_score {
                winning_score = t;
            }
            i = i + 1;
        }
        let mut count: usize = 0;
        let mut text = String::new();
        let mut k: usize = 0;
        while k < players.len()
            invariant
                k <= players@.len(),
                players@.map_values(|q: Player| q@) == ps,
                winning_score == best_total(ps, ps.len()),
                count == names_with_total(ps, winning_score, k as nat).len(),
                count <= k,
                text@ == joined(names_with_total(ps, winning_score, k as nat)),
            decreases players.len() - k,
        {
            proof {
                reveal_strlit(", ");
            }
            if players[k].total_score() == winning_score {
                let ghost before = names_with_total(ps, winning_score, k as nat);
                if count > 0 {
                    push_text(&mut text, ", ");
                }
                push_text(&mut text, players[k].name());
                count = count + 1;
                proof {
                    let after = names_with_total(ps, winning_score, (k + 1) as nat);
                    assert(after == before.push(ps[k as int].name));
                    assert(after.drop_last() =~= before);
                    if before.len() == 0 {
                        assert(text@ =~= joined(after));
                    } else {
                        assert(text@ =~= joined(after));
                    }
                }
            } else {
                proof {
                    assert(names_with_total(ps, winning_score, (k + 1) as nat) =~= names_with_total(
                        ps,
                        winning_score,
                        k as nat,
                    ));
                }
            }
            k = k + 1;
        }
        let msg = if count == 1 {
            push_text(&mut text, " has won");
            text
        } else {
            push_text(&mut text, " tied");
            text
        };
        proof {
            reveal_strlit(" has won");
            reveal_strlit(" tied");
            let winners = names_with_total(ps, winning_score, ps.len());
            if count == 1 {
                assert(joined(winners) == winners[0]);
            }
        }
        update_if_changed(&mut self.modal, Some(Modal::EndOfGame(msg)))
    }

    /// Turns the selected board tile one step in `rotation`
    fn rotate_selected_tile(&mut self, rotation: Rotation) -> (changed: bool)
        requires
            old(self).nile.wf(),
        ensures
            final(self).nile.wf(),
            changed == reduce_changes(Action::RotateSelectedTile(rotation), state_view(*old(self))),
            ({
                let e = old(self).nile@;
                match e.selected {
                    Some(SelectedTile::Board(c)) => if e.nile.board.cells.contains_key(c)
                        && e.nile.board.cells[c].tile is Some {
                        state_view(*final(self)) == after_action(
                            state_view(*old(self)),
                            spec_rotate_selected(
                                e,
                                turned(e.nile.board.cells[c].tile.unwrap().rotation, rotation),
                            ),
                        )
                    } else {
                        state_view(*final(self)) == state_view(*old(self))
                    },
                    _ => state_view(*final(self)) == state_view(*old(self)),
                }
            }),
    {
        match self.nile.selected_board_tile() {
            Some(coordinates) => match self.nile.board().cell(coordinates) {
                Some(cell) => match cell.tile() {
                    Some(tile_placement) => {
                        let new_rotation = turn(tile_placement.rotation(), rotation);
                        match self.nile.rotate_selected_tile(new_rotation) {
                            Ok(()) => true,
                            Err(msg) => self.set_error(msg),
                        }
                    },
                    None => false,
                },
                None => false,
            },
            None => false,
        }
    }

    fn end_turn(&mut self) -> (changed: bool)
        requires
            old(self).nile.wf(),
        ensures
            final(self).nile.wf(),
            changed == reduce_changes(Action::EndTurn, state_view(*old(self))),
            ({
                let (res, n) = spec_end_turn(old(self).nile@.nile);
                match res {
                    Err(m) => state_view(*final(self)) == StateView {
                        nile: old(self).nile@,
                        modal: Some(ModalView::Error(m)),
                    },
                    Ok(_) => {
                        &&& final(self).nile@.log.undo.len() == 0
                        &&& cpu_turns_lead_to(n, final(self).nile@.nile)
                        &&& n.has_ended || !current(n).is_cpu ==> final(self).nile@.nile == n
                        &&& final(self).nile@.nile.has_ended ==> modal_view(final(self).modal) == Some(
                            ModalView::EndOfGame(end_of_game_text(final(self).nile@.nile.players)),
                        )
                        &&& !final(self).nile@.nile.has_ended ==> modal_view(final(self).modal)
                            == modal_view(old(self).modal)
                    },
                }
            }),
    {
        match self.nile.end_turn() {
            Ok(has_ended) => {
                if has_ended {
                    self.set_end_of_game();
                }
                true
            },
            Err(e) => self.set_error(e),
        }
    }

    fn cant_play(&mut self) -> (changed: bool)
        requires
            old(self).nile.wf(),
        ensures
            final(self).nile.wf(),
            changed == reduce_changes(Action::CantPlay, state_view(*old(self))),
            ({
                let e = old(self).nile@;
                if e.nile.has_ended || e.nile.placements.len() > 0 {
                    state_view(*final(self)) == StateView {
                        nile: e,
                        modal: Some(
                            ModalView::Error(
                                if e.nile.has_ended {
                                    crate::nile::ended_msg()
                                } else {
                                    "Player has placed tiles this turn"@
                                },
                            ),
                        ),
                    }
                } else {
                    &&& final(self).nile@.log.undo.len() == 0
                    &&& cant_play_leads_to(e.nile, final(self).nile@.nile)
                    &&& final(self).nile@.nile.has_ended ==> modal_view(final(self).modal) == Some(
                        ModalView::EndOfGame(end_of_game_text(final(self).nile@.nile.players)),
                    )
                    &&& !final(self).nile@.nile.has_ended ==> modal_view(final(self).modal)
                        == modal_view(old(self).modal)
                }
            }),
    {
        match self.nile.cant_play() {
            Ok(has_ended) => {
                if has_ended {
                    self.set_end_of_game();
                }
                true
            },
            Err(e) => self.set_error(e),
        }
    }
}

} // verus!

verus! {

/// Whether an engine action that came out as `r` changes what the user sees:
/// a success always does, an error only when its message is not shown yet
pub open spec fn outcome_changes(s: StateView, r: Result<(), Seq<char>>) -> bool {
    match r {
        Ok(()) => true,
        Err(m) => s.modal != Some(ModalView::Error(m)),
    }
}

/// The message with which the game refuses a "can't play"
pub open spec fn cant_play_refusal(n: crate::nile::NileView) -> Seq<char> {
    if n.has_ended {
        crate::nile::ended_msg()
    } else {
        "Player has placed tiles this turn"@
    }
}

/// What the user sees after `action`, from what they saw before (`s`)
pub open spec fn reduced(action: Action, s: StateView, after: StateView) -> bool {
    let e = s.nile;
    match action {
        Action::NewGame(o) => is_new_game(after.nile.nile, o.player_names@, o.cpu_player_count as nat)
            && after.nile.selected is None && after.modal == s.modal,
        Action::SelectRackTile(t) => after == after_action(s, spec_select_rack(e, t.rack_idx)),
        Action::SelectBoardTile(c) => after == after_action(s, spec_select_board(e, c)),
        Action::PlaceTile(c) => after == after_action(s, spec_engine_place(e, c)),
        Action::RotateSelectedTile(direction) => match e.selected {
            Some(SelectedTile::Board(c)) => if e.nile.board.cells.contains_key(c)
                && e.nile.board.cells[c].tile is Some {
                after == after_action(
                    s,
                    spec_rotate_selected(
                        e,
                        turned(e.nile.board.cells[c].tile.unwrap().rotation, direction),
                    ),
                )
            } else {
                after == s
            },
            _ => after == s,
        },
        Action::RemoveSelectedTile => after == after_action(s, spec_remove_selected(e)),
        Action::UpdateSelectedUniversalPath(tp) => after == after_action(
            s,
            spec_update_selected(e, tp),
        ),
        Action::Undo => after == after_action(s, spec_undo(e)),
        Action::Redo => after == after_action(s, spec_redo(e)),
        Action::EndTurn => match spec_end_turn(e.nile).0 {
            Err(m) => after == StateView { nile: e, modal: Some(ModalView::Error(m)) },
            Ok(_) => {
                let n = spec_end_turn(e.nile).1;
                &&& after.nile.log.undo.len() == 0
                &&& cpu_turns_lead_to(n, after.nile.nile)
                &&& n.has_ended || !current(n).is_cpu ==> after.nile.nile == n
                &&& after.nile.nile.has_ended ==> after.modal == Some(
                    ModalView::EndOfGame(end_of_game_text(after.nile.nile.players)),
                )
                &&& !after.nile.nile.has_ended ==> after.modal == s.modal
            },
        },
        Action::CantPlay => if e.nile.has_ended || e.nile.placements.len() > 0 {
            after == StateView {
                nile: e,
                modal: Some(ModalView::Error(cant_play_refusal(e.nile))),
            }
        } else {
            &&& after.nile.log.undo.len() == 0
            &&& cant_play_leads_to(e.nile, after.nile.nile)
            &&& after.nile.nile.has_ended ==> after.modal == Some(
                ModalView::EndOfGame(end_of_game_text(after.nile.nile.players)),
            )
            &&& !after.nile.nile.has_ended ==> after.modal == s.modal
        },
        Action::Dismiss => after == StateView { nile: e, modal: None },
    }
}

/// Whether `action` changes what the user sees, who saw `s` before it
pub open spec fn reduce_changes(action: Action, s: StateView) -> bool {
    let e = s.nile;
    match action {
        Action::NewGame(_) => true,
        Action::SelectRackTile(t) => outcome_changes(s, spec_select_rack(e, t.rack_idx).0),
        Action::SelectBoardTile(c) => outcome_changes(s, spec_select_board(e, c).0),
        Action::PlaceTile(c) => outcome_changes(s, spec_engine_place(e, c).0),
        Action::RotateSelectedTile(direction) => match e.selected {
            Some(SelectedTile::Board(c)) => e.nile.board.cells.contains_key(c)
                && e.nile.board.cells[c].tile is Some && outcome_changes(
                s,
                spec_rotate_selected(
                    e,
                    turned(e.nile.board.cells[c].tile.unwrap().rotation, direction),
                ).0,
            ),
            _ => false,
        },
        Action::RemoveSelectedTile => outcome_changes(s, spec_remove_selected(e).0),
        Action::UpdateSelectedUniversalPath(tp) => outcome_changes(
            s,
            spec_update_selected(e, tp).0,
        ),
        Action::Undo => outcome_changes(s, spec_undo(e).0),
        Action::Redo => outcome_changes(s, spec_redo(e).0),
        Action::EndTurn => match spec_end_turn(e.nile).0 {
            Err(m) => s.modal != Some(ModalView::Error(m)),
            Ok(_) => true,
        },
        Action::CantPlay => if e.nile.has_ended || e.nile.placements.len() > 0 {
            s.modal != Some(ModalView::Error(cant_play_refusal(e.nile)))
        } else {
            true
        },
        Action::Dismiss => s.modal is Some,
    }
}

impl State {
    /// Applies `action`; errors of the game are shown in the modal. Returns
    /// whether anything the user sees changed
    pub fn reduce(&mut self, action: Action) -> (changed: bool)
        requires
            old(self).nile.wf(),
            action matches Action::NewGame(o) ==> 2 <= o.player_names@.len() + o.cpu_player_count
                <= 4,
        ensures
            final(self).nile.wf(),
            reduced(action, state_view(*old(self)), state_view(*final(self))),
            changed == reduce_changes(action, state_view(*old(self))),
    {
        match action {
            Action::NewGame(NewGameOptions { player_names, cpu_player_count }) => {
                self.nile = Engine::new(player_names, cpu_player_count).expect("nile engine");
                true
            },
            Action::SelectRackTile(select_rack_tile) => match self.nile.select_rack_tile(
                select_rack_tile.rack_idx,
            ) {
                Ok(()) => true,
                Err(e) => self.set_error(e),
            },
            Action::SelectBoardTile(coordinates) => match self.nile.select_board_tile(coordinates) {
                Ok(()) => true,
                Err(e) => self.set_error(e),
            },
            Action::PlaceTile(coordinates) => match self.nile.place_tile(coordinates) {
                Ok(()) => true,
                Err(e) => self.set_error(e),
            },
            Action::RotateSelectedTile(rotation) => self.rotate_selected_tile(rotation),
            Action::RemoveSelectedTile => match self.nile.remove_selected_tile() {
                Ok(()) => true,
                Err(e) => self.set_error(e),
            },
            Action::UpdateSelectedUniversalPath(tile_path) => match self.nile.update_selected_universal_path(
                tile_path,
            ) {
                Ok(()) => true,
                Err(e) => self.set_error(e),
            },
            Action::Undo => match self.nile.undo() {
                Ok(()) => true,
                Err(e) => self.set_error(e),
            },
            Action::Redo => match self.nile.redo() {
                Ok(()) => true,
                Err(e) => self.set_error(e),
            },
            Action::EndTurn => self.end_turn(),
            Action::CantPlay => self.cant_play(),
            Action::Dismiss => self.dismiss(),
        }
    }
}

impl Action {
    /// Applies the action to `state`; errors of the game are shown in the
    /// modal
    pub fn apply(self, state: &mut State)
        requires
            old(state).nile.wf(),
            self matches Action::NewGame(o) ==> 2 <= o.player_names@.len() + o.cpu_player_count <= 4,
        ensures
            final(state).nile.wf(),
            reduced(self, state_view(*old(state)), state_view(*final(state))),
    {
        state.reduce(self);
    }
}

} // verus!
