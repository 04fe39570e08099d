use minesweeper::game::{Clock, Game, GameState};
use minesweeper::key::Key;
use minesweeper::option_menu::OptionState;
use minesweeper::TileState;

#[test]
fn new_game_starts_centred() {
    let g = Game::new(OptionState::default(), 15, 10, 22);
    assert_eq!(g.cursor, (7, 5));
    assert_eq!(g.state, GameState::Start);
    assert_eq!(g.board.mines_left(), 22);
    assert!(!g.quit && !g.restart);
}

#[test]
fn cursor_stays_on_board() {
    let mut g = Game::new(OptionState::default(), 3, 2, 1);
    assert_eq!(g.cursor, (1, 1));
    g.handle_press(Key::Down);
    assert_eq!(g.cursor, (1, 1));
    g.handle_press(Key::Left);
    g.handle_press(Key::Left);
    assert_eq!(g.cursor, (0, 1));
    g.handle_press(Key::Up);
    assert_eq!(g.cursor, (0, 0));
    g.handle_press(Key::Right);
    g.handle_press(Key::Right);
    g.handle_press(Key::Right);
    assert_eq!(g.cursor, (2, 0));
}

#[test]
fn first_dig_starts_clock_and_play() {
    let mut g = Game::new(OptionState::default(), 15, 10, 22);
    assert_eq!(g.handle_press(Key::Char('x')), Clock::Start);
    assert_eq!(g.state, GameState::Play);
    assert_eq!(g.board.check(7, 5), TileState::Empty);
}

#[test]
fn empty_board_win_stops_clock() {
    let mut g = Game::new(OptionState::default(), 10, 10, 0);
    assert_eq!(g.handle_press(Key::Char('X')), Clock::Start);
    assert!(g.board.game_won());
    assert_eq!(g.handle_press(Key::Char('x')), Clock::Stop);
    assert_eq!(g.state, GameState::Win);
    g.handle_press(Key::Char('k'));
    assert!(g.restart);
}

#[test]
fn flag_only_while_playing() {
    let mut g = Game::new(OptionState::default(), 15, 10, 22);
    g.handle_press(Key::Char('z'));
    assert_eq!(g.board.check(7, 5), TileState::Hidden);
    g.handle_press(Key::Char('x'));
    g.handle_press(Key::Right);
    g.handle_press(Key::Right);
    g.handle_press(Key::Right);
    g.handle_press(Key::Right);
    g.handle_press(Key::Right);
    let (x, y) = g.cursor;
    let before = g.board.check(x, y);
    g.handle_press(Key::Char('z'));
    if before == TileState::Hidden {
        assert_eq!(g.board.check(x, y), TileState::Flagged);
        assert_eq!(g.board.mines_left(), 21);
    } else {
        assert_eq!(g.board.check(x, y), before);
        assert_eq!(g.board.mines_left(), 22);
    }
}

#[test]
fn options_open_and_resume() {
    let mut g = Game::new(OptionState::default(), 15, 10, 22);
    g.handle_press(Key::Char('x'));
    g.handle_press(Key::Char('o'));
    assert_eq!(g.state, GameState::Options);
    assert_eq!(g.prev_state, Some(GameState::Play));
    g.handle_press(Key::Char('c'));
    assert_eq!(g.state, GameState::Play);
    assert!(!g.option_menu.state.resume);
}

#[test]
fn quit_from_board_and_menu() {
    let mut g = Game::new(OptionState::default(), 15, 10, 22);
    g.handle_press(Key::Char('q'));
    assert!(g.quit);
    let mut g = Game::new(OptionState::default(), 15, 10, 22);
    g.handle_press(Key::Char('o'));
    g.handle_press(Key::Char('Q'));
    assert!(g.quit);
}

#[test]
fn lose_then_continue_hides_mine() {
    let mut g = Game::new(OptionState::default(), 15, 10, 22);
    g.handle_press(Key::Char('x'));
    // Walk the board digging until a mine goes off.
    let mut lost = false;
    'outer: for y in 0..10 {
        for x in 0..15 {
            g.cursor = (x, y);
            if g.board.check(x, y) == TileState::Hidden {
                g.handle_press(Key::Char('x'));
                if g.state == GameState::Lose {
                    lost = true;
                    break 'outer;
                }
            }
        }
    }
    assert!(lost);
    let (x, y) = g.cursor;
    assert_eq!(g.board.check(x, y), TileState::Mine);
    g.handle_press(Key::Down);
    g.handle_press(Key::Enter);
    assert_eq!(g.state, GameState::Play);
    assert_eq!(g.board.check(x, y), TileState::Hidden);
    assert!(!g.lose_menu.coward);
}

#[test]
fn lose_menu_options_opens_options() {
    let mut g = Game::new(OptionState::default(), 15, 10, 22);
    g.state = GameState::Lose;
    g.handle_press(Key::Char('o'));
    assert_eq!(g.state, GameState::Options);
    assert_eq!(g.prev_state, Some(GameState::Lose));
    assert!(!g.lose_menu.options);
}

#[test]
fn restart_from_options() {
    let mut g = Game::new(OptionState::default(), 15, 10, 22);
    g.handle_press(Key::Char('o'));
    g.handle_press(Key::Char('r'));
    assert!(g.restart);
    assert!(!g.option_menu.state.restart);
}
