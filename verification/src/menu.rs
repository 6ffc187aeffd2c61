//! The start menu: the human players' names and the number of CPU players
//! chosen before a game, and the switches between the menu and a game.
use crate::utils::update_if_changed;
use vstd::prelude::*;

verus! {

/// The most players a game can have
pub const MAX_PLAYERS: usize = 4;

/// The most CPU players the menu offers
pub const MAX_CPU_PLAYERS: u8 = 3;

/// State of the start menu and of the switches around a game
pub struct App {
    player_names: Vec<String>,
    has_confirmed: bool,
    cpu_player_count: u8,
    game_number: u32,
    should_show_shortcuts: bool,
    should_show_new_game_form: bool,
}

/// A change of one human player's name
pub struct PlayerNameChange {
    pub idx: usize,
    pub name: String,
}

/// What the user asks of the menu
pub enum Msg {
    AddPlayer,
    PlayerNameChange(PlayerNameChange),
    RemovePlayer,
    AddCpuPlayer,
    RemoveCpuPlayer,
    Confirm,
    SetShouldShowShortcuts(bool),
    SetShouldShowNewGameForm(bool),
    NewGame,
    Reset,
}

/// The menu as contracts see it
pub struct AppView {
    pub player_names: Seq<Seq<char>>,
    pub has_confirmed: bool,
    pub cpu_player_count: u8,
    pub game_number: u32,
    pub should_show_shortcuts: bool,
    pub should_show_new_game_form: bool,
}

impl View for App {
    type V = AppView;

    closed spec fn view(&self) -> AppView {
        AppView {
            player_names: self.player_names@.map_values(|s: String| s@),
            has_confirmed: self.has_confirmed,
            cpu_player_count: self.cpu_player_count,
            game_number: self.game_number,
            should_show_shortcuts: self.should_show_shortcuts,
            should_show_new_game_form: self.should_show_new_game_form,
        }
    }
}

/// The menu before anything was chosen: one unnamed human, one CPU player
pub open spec fn initial_menu(game_number: u32) -> AppView {
    AppView {
        player_names: seq![Seq::empty()],
        has_confirmed: false,
        cpu_player_count: 1,
        game_number,
        should_show_shortcuts: false,
        should_show_new_game_form: false,
    }
}

/// The menu after `msg`, and whether anything changed
pub open spec fn updated(v: AppView, msg: Msg) -> (AppView, bool) {
    match msg {
        Msg::AddPlayer => if v.player_names.len() + v.cpu_player_count < MAX_PLAYERS {
            (AppView { player_names: v.player_names.push(Seq::empty()), ..v }, true)
        } else {
            (v, false)
        },
        Msg::PlayerNameChange(change) => if change.idx < v.player_names.len() {
            (
                AppView {
                    player_names: v.player_names.update(change.idx as int, change.name@),
                    ..v
                },
                true,
            )
        } else {
            (v, false)
        },
        Msg::RemovePlayer => if v.player_names.len() > 0 {
            (AppView { player_names: v.player_names.drop_last(), ..v }, true)
        } else {
            (v, false)
        },
        Msg::AddCpuPlayer => if v.cpu_player_count < MAX_CPU_PLAYERS {
            (AppView { cpu_player_count: (v.cpu_player_count + 1) as u8, ..v }, true)
        } else {
            (v, false)
        },
        Msg::RemoveCpuPlayer => (
            AppView { cpu_player_count: (v.cpu_player_count - 1) as u8, ..v },
            true,
        ),
        Msg::Confirm => (AppView { has_confirmed: true, ..v }, !v.has_confirmed),
        Msg::SetShouldShowShortcuts(b) => (
            AppView { should_show_shortcuts: b, ..v },
            b != v.should_show_shortcuts,
        ),
        Msg::SetShouldShowNewGameForm(b) => (
            AppView { should_show_new_game_form: b, ..v },
            b != v.should_show_new_game_form,
        ),
        Msg::NewGame => (
            AppView { has_confirmed: false, game_number: (v.game_number + 1) as u32, ..v },
            true,
        ),
        Msg::Reset => (
            AppView { player_names: seq![Seq::empty()], cpu_player_count: 1, ..v },
            true,
        ),
    }
}

impl App {
    /// Invariant of the menu: at most four names and at most three CPU players
    pub closed spec fn wf(&self) -> bool {
        &&& self.player_names@.len() <= MAX_PLAYERS
        &&& self.cpu_player_count <= MAX_CPU_PLAYERS
    }

    pub fn create() -> (a: Self)
        ensures
            a.wf(),
            a@ == initial_menu(1),
    {
        let a = Self {
            player_names: vec![String::new()],
            has_confirmed: false,
            cpu_player_count: 1,
            game_number: 1,
            should_show_shortcuts: false,
            should_show_new_game_form: false,
        };
        proof {
            assert(a@.player_names =~= seq![Seq::<char>::empty()]);
        }
        a
    }

    /// Applies `msg` to the menu; returns whether anything changed
    pub fn update(&mut self, msg: Msg) -> (changed: bool)
        requires
            old(self).wf(),
            msg is RemoveCpuPlayer ==> old(self)@.cpu_player_count >= 1,
            msg is NewGame ==> old(self)@.game_number < u32::MAX,
        ensures
            final(self).wf(),
            (final(self)@, changed) == updated(old(self)@, msg),
    {
        let ghost v = self@;
        match msg {
            Msg::AddPlayer => {
                let total_player_count = self.player_names.len() + self.cpu_player_count as usize;
                if total_player_count < MAX_PLAYERS {
                    self.player_names.push(String::new());
                    proof {
                        assert(self@.player_names =~= v.player_names.push(Seq::empty()));
                    }
                    true
                } else {
                    false
                }
            },
            Msg::PlayerNameChange(PlayerNameChange { idx, name }) => {
                if idx < self.player_names.len() {
                    let ghost n = name@;
                    self.player_names.set(idx, name);
                    proof {
                        assert(self@.player_names =~= v.player_names.update(idx as int, n));
                    }
                    true
                } else {
                    false
                }
            },
            Msg::RemovePlayer => {
                let removed = self.player_names.pop().is_some();
                proof {
                    if removed {
                        assert(self@.player_names =~= v.player_names.drop_last());
                    }
                }
                removed
            },
            Msg::AddCpuPlayer => {
                let cpu_player_count = if self.cpu_player_count + 1 < MAX_CPU_PLAYERS {
                    self.cpu_player_count + 1
                } else {
                    MAX_CPU_PLAYERS
                };
                update_if_changed(&mut self.cpu_player_count, cpu_player_count)
            },
            Msg::RemoveCpuPlayer => {
                let cpu_player_count = self.cpu_player_count - 1;
                update_if_changed(&mut self.cpu_player_count, cpu_player_count)
            },
            Msg::Confirm => update_if_changed(&mut self.has_confirmed, true),
            Msg::SetShouldShowShortcuts(should_show_shortcuts) => update_if_changed(
                &mut self.should_show_shortcuts,
                should_show_shortcuts,
            ),
            Msg::SetShouldShowNewGameForm(should_show_new_game_form) => update_if_changed(
                &mut self.should_show_new_game_form,
                should_show_new_game_form,
            ),
            Msg::NewGame => {
                self.has_confirmed = false;
                self.game_number = self.game_number + 1;
                true
            },
            Msg::Reset => {
                self.player_names = vec![String::new()];
                self.cpu_player_count = 1;
                proof {
                    assert(self@.player_names =~= seq![Seq::<char>::empty()]);
                }
                true
            },
        }
    }

    /// Whether a game can start: two to four players in all
    pub fn can_start(&self) -> (b: bool)
        requires
            self.wf(),
        ensures
            b == (2 <= self@.player_names.len() + self@.cpu_player_count <= MAX_PLAYERS),
    {
        let total_player_count = self.player_names.len() + self.cpu_player_count as usize;
        2 <= total_player_count && total_player_count <= MAX_PLAYERS
    }

    /// Whether a player, human or CPU, can be added: fewer than four in all
    pub fn can_add_player(&self) -> (b: bool)
        requires
            self.wf(),
        ensures
            b == (self@.player_names.len() + self@.cpu_player_count < MAX_PLAYERS),
    {
        self.player_names.len() + (self.cpu_player_count as usize) < MAX_PLAYERS
    }

    /// Whether a human player can be removed: one always stays
    pub fn can_remove_player(&self) -> (b: bool)
        ensures
            b == (self@.player_names.len() > 1),
    {
        self.player_names.len() > 1
    }

    /// Whether a CPU player can be removed: there is one, and another player
    /// stays
    pub fn can_remove_cpu_player(&self) -> (b: bool)
        requires
            self.wf(),
        ensures
            b == (self@.player_names.len() + self@.cpu_player_count > 1 && self@.cpu_player_count
                > 0),
    {
        self.player_names.len() + (self.cpu_player_count as usize) > 1 && self.cpu_player_count > 0
    }

    pub fn player_names(&self) -> (p: &Vec<String>)
        ensures
            p@.map_values(|s: String| s@) == self@.player_names,
    {
        &self.player_names
    }

    pub fn has_confirmed(&self) -> (b: bool)
        ensures
            b == self@.has_confirmed,
    {
        self.has_confirmed
    }

    pub fn cpu_player_count(&self) -> (n: u8)
        ensures
            n == self@.cpu_player_count,
    {
        self.cpu_player_count
    }

    pub fn game_number(&self) -> (n: u32)
        ensures
            n == self@.game_number,
    {
        self.game_number
    }

    pub fn should_show_shortcuts(&self) -> (b: bool)
        ensures
            b == self@.should_show_shortcuts,
    {
        self.should_show_shortcuts
    }

    pub fn should_show_new_game_form(&self) -> (b: bool)
        ensures
            b == self@.should_show_new_game_form,
    {
        self.should_show_new_game_form
    }
}

} // verus!
