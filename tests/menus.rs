use minesweeper::key::Key;
use minesweeper::lose_menu::LoseMenu;
use minesweeper::option_menu::{DifficultyOption, OptionMenu, OptionState, SizeOption, Theme};
use minesweeper::win_menu::WinMenu;

#[test]
fn lose_menu_toggles_and_selects() {
    let mut m = LoseMenu::default();
    m.handle_key_event(Key::Enter);
    assert!(m.restart && !m.coward);
    let mut m = LoseMenu::default();
    m.handle_key_event(Key::Down);
    assert!(m.continue_select);
    m.handle_key_event(Key::Char('x'));
    assert!(m.coward && !m.restart);
    m.handle_key_event(Key::Up);
    assert!(!m.continue_select);
}

#[test]
fn lose_menu_letters() {
    let mut m = LoseMenu::default();
    m.handle_key_event(Key::Char('Q'));
    assert!(m.quit);
    let mut m = LoseMenu::default();
    m.handle_key_event(Key::Char('o'));
    assert!(m.options);
    let mut m = LoseMenu::default();
    m.handle_key_event(Key::Char('r'));
    assert!(m.restart);
    let mut m = LoseMenu::default();
    m.handle_key_event(Key::Char('k'));
    assert_eq!(m, LoseMenu::default());
}

#[test]
fn win_menu_keys() {
    let mut m = WinMenu::default();
    m.handle_key_event(Key::Char('q'));
    assert!(m.quit && !m.restart);
    let mut m = WinMenu::default();
    m.handle_key_event(Key::Char('O'));
    assert!(m.options && !m.restart);
    let mut m = WinMenu::default();
    m.handle_key_event(Key::Left);
    assert!(m.restart);
}

#[test]
fn options_cycle_both_ways() {
    assert_eq!(SizeOption::Max.next(), SizeOption::Small);
    assert_eq!(SizeOption::Small.prev(), SizeOption::Max);
    assert_eq!(SizeOption::Medium.next(), SizeOption::Large);
    assert_eq!(DifficultyOption::Expert.next(), DifficultyOption::Easy);
    assert_eq!(DifficultyOption::Easy.prev(), DifficultyOption::Expert);
    assert_eq!(DifficultyOption::Hard.prev(), DifficultyOption::Medium);
    assert_eq!(Theme::Dark.next(), Theme::Default);
    assert_eq!(Theme::Default.prev(), Theme::Dark);
    assert_eq!(Theme::Light.next(), Theme::Dark);
}

#[test]
fn option_menu_navigation() {
    let mut m = OptionMenu::new(OptionState::default());
    assert_eq!(m.cursor_line, 0);
    m.handle_key_event(Key::Up);
    assert_eq!(m.cursor_line, 0);
    m.handle_key_event(Key::Right);
    assert_eq!(m.state.board_size, SizeOption::Large);
    m.handle_key_event(Key::Down);
    m.handle_key_event(Key::Left);
    assert_eq!(m.state.difficulty, DifficultyOption::Easy);
    m.handle_key_event(Key::Down);
    m.handle_key_event(Key::Left);
    assert_eq!(m.state.theme, Theme::Dark);
    for _ in 0..5 {
        m.handle_key_event(Key::Down);
    }
    assert_eq!(m.cursor_line, 4);
    m.handle_key_event(Key::Enter);
    assert!(m.state.resume && !m.state.restart);
    m.handle_key_event(Key::Up);
    m.handle_key_event(Key::Char(' '));
    assert!(m.state.restart);
}

#[test]
fn option_menu_letters() {
    let mut m = OptionMenu::new(OptionState::default());
    m.handle_key_event(Key::Char('c'));
    assert!(m.state.resume);
    m.handle_key_event(Key::Char('R'));
    assert!(m.state.restart);
    m.handle_key_event(Key::Char('q'));
    assert!(m.state.quit);
    let mut m = OptionMenu::new(OptionState::default());
    m.handle_key_event(Key::Enter);
    assert_eq!(m, OptionMenu::new(OptionState::default()));
}
