use nile::constants::const_declaration;
use nile::menu::{App, Msg, PlayerNameChange};

#[test]
fn menu_starts_with_one_human_and_one_cpu() {
    let app = App::create();
    assert_eq!(app.player_names(), &vec![String::new()]);
    assert_eq!(app.cpu_player_count(), 1);
    assert_eq!(app.game_number(), 1);
    assert!(!app.has_confirmed());
    assert!(!app.should_show_shortcuts());
    assert!(!app.should_show_new_game_form());
}

#[test]
fn menu_add_player_stops_at_four() {
    let mut app = App::create();
    assert!(app.update(Msg::AddPlayer));
    assert!(app.update(Msg::AddPlayer));
    assert_eq!(app.player_names().len(), 3);
    // three names and one CPU player make four
    assert!(!app.update(Msg::AddPlayer));
    assert_eq!(app.player_names().len(), 3);
}

#[test]
fn menu_cpu_count_stops_at_three() {
    let mut app = App::create();
    assert!(app.update(Msg::AddCpuPlayer));
    assert!(app.update(Msg::AddCpuPlayer));
    assert_eq!(app.cpu_player_count(), 3);
    assert!(!app.update(Msg::AddCpuPlayer));
    assert_eq!(app.cpu_player_count(), 3);
    assert!(app.update(Msg::RemoveCpuPlayer));
    assert_eq!(app.cpu_player_count(), 2);
}

#[test]
fn menu_rename_player() {
    let mut app = App::create();
    assert!(app.update(Msg::PlayerNameChange(PlayerNameChange {
        idx: 0,
        name: "Ann".to_owned()
    })));
    assert_eq!(app.player_names(), &vec!["Ann".to_owned()]);
    assert!(!app.update(Msg::PlayerNameChange(PlayerNameChange {
        idx: 1,
        name: "Bob".to_owned()
    })));
    assert_eq!(app.player_names(), &vec!["Ann".to_owned()]);
}

#[test]
fn menu_remove_player_until_none() {
    let mut app = App::create();
    assert!(app.update(Msg::RemovePlayer));
    assert!(app.player_names().is_empty());
    assert!(!app.update(Msg::RemovePlayer));
}

#[test]
fn menu_confirm_and_new_game() {
    let mut app = App::create();
    assert!(app.update(Msg::Confirm));
    assert!(app.has_confirmed());
    assert!(!app.update(Msg::Confirm));
    assert!(app.update(Msg::NewGame));
    assert!(!app.has_confirmed());
    assert_eq!(app.game_number(), 2);
}

#[test]
fn menu_switches() {
    let mut app = App::create();
    assert!(app.update(Msg::SetShouldShowShortcuts(true)));
    assert!(!app.update(Msg::SetShouldShowShortcuts(true)));
    assert!(app.should_show_shortcuts());
    assert!(!app.update(Msg::SetShouldShowNewGameForm(false)));
    assert!(app.update(Msg::SetShouldShowNewGameForm(true)));
    assert!(app.should_show_new_game_form());
}

#[test]
fn menu_reset() {
    let mut app = App::create();
    app.update(Msg::AddPlayer);
    app.update(Msg::AddCpuPlayer);
    assert!(app.update(Msg::Reset));
    assert_eq!(app.player_names(), &vec![String::new()]);
    assert_eq!(app.cpu_player_count(), 1);
}

#[test]
fn constants_line() {
    assert_eq!(
        const_declaration("VERSION", "0.1.0"),
        "export const VERSION = \"0.1.0\";\n"
    );
}

#[test]
fn menu_start_needs_two_to_four_players() {
    let mut app = App::create();
    // one human and one CPU player
    assert!(app.can_start());
    assert!(app.can_add_player());
    assert!(app.update(Msg::RemoveCpuPlayer));
    assert!(!app.can_start());
    assert!(!app.can_remove_cpu_player());
    assert!(!app.can_remove_player());
    app.update(Msg::AddPlayer);
    app.update(Msg::AddPlayer);
    app.update(Msg::AddPlayer);
    assert!(app.can_start());
    assert!(!app.can_add_player());
    assert!(app.can_remove_player());
}
