use automancy::gui::{GuiState, OptionsMenuState, PopupState, Screen, SubState, TextField, TextFieldState};

#[test]
fn gui_starts_at_the_main_menu() {
    let g = GuiState::new();
    assert_eq!(g.screen, Screen::MainMenu);
    assert_eq!(g.previous, None);
    assert_eq!(g.substate, SubState::Empty);
    assert_eq!(g.popup, PopupState::Closed);
    assert!(!g.debugger_open);
}

#[test]
fn switching_remembers_the_previous_screen() {
    let mut g = GuiState::new();
    g.switch_screen(Screen::MapLoad);
    assert_eq!(g.screen, Screen::MapLoad);
    assert_eq!(g.previous, Some(Screen::MainMenu));
}

#[test]
fn return_undoes_a_switch() {
    let mut g = GuiState::new();
    g.switch_screen(Screen::Ingame);
    g.switch_screen(Screen::Paused);
    g.return_screen();
    assert_eq!(g.screen, Screen::Ingame);
    assert_eq!(g.previous, None);
    g.return_screen();
    assert_eq!(g.screen, Screen::Ingame);
    assert_eq!(g.previous, None);
}

#[test]
fn switch_with_sub_state() {
    let mut g = GuiState::new();
    g.switch_screen_sub(Screen::Options, SubState::Options(OptionsMenuState::Graphics));
    assert_eq!(g.screen, Screen::Options);
    assert_eq!(g.substate, SubState::Options(OptionsMenuState::Graphics));
    assert_eq!(g.previous, Some(Screen::MainMenu));
}

#[test]
fn conditional_switch() {
    let mut g = GuiState::new();
    let in_menu = |s: &GuiState| s.screen == Screen::MainMenu;
    assert!(g.switch_screen_when(&in_menu, Screen::MapLoad));
    assert_eq!(g.screen, Screen::MapLoad);
    assert!(!g.switch_screen_when(&in_menu, Screen::Options));
    assert_eq!(g.screen, Screen::MapLoad);
    assert_eq!(g.previous, Some(Screen::MainMenu));
}

#[test]
fn text_fields_are_separate() {
    let mut t = TextFieldState::new();
    t.get(TextField::Filter).push_str("iron");
    t.get(TextField::MapName).push_str("world");
    assert_eq!(t.get(TextField::Filter).as_str(), "iron");
    assert_eq!(t.take(TextField::MapName), "world");
    assert_eq!(t.get(TextField::MapName).as_str(), "");
    assert_eq!(t.take(TextField::MapRenaming), "");
    assert_eq!(t.get(TextField::Filter).as_str(), "iron");
}
