use crate::board::{dig_spec, flag_delta, flag_spec, undo_spec, won, Board};
use crate::generate::{mined_grid, safe_room};
use crate::key::{is_letter, Key};
use crate::lose_menu::{lose_menu_after, LoseMenu};
use crate::model::{in_grid, mine_total, Tile};
use crate::option_menu::{option_menu_after, OptionMenu, OptionState};
use crate::win_menu::{win_menu_after, WinMenu};
use vstd::prelude::*;

verus! {

/// Which screen the game is on.
#[derive(Clone, Copy, Debug, PartialEq, Eq, Structural)]
pub enum GameState {
    /// No dig yet: the mines are placed by the first one.
    Start,
    Play,
    Options,
    Win,
    Lose,
}

/// What the program around the game should do with its clock after a key.
#[derive(Clone, Copy, Debug, PartialEq, Eq, Structural)]
pub enum Clock {
    Keep,
    /// The first dig was made: start timing.
    Start,
    /// The game was won: stop timing and record the time in the win menu.
    Stop,
}

/// A round of the game: the board, the cursor on it, the screen shown and the menus.
#[derive(Debug)]
pub struct Game {
    pub board: Board,
    pub cursor: (usize, usize),
    pub state: GameState,
    pub prev_state: Option<GameState>,
    pub restart: bool,
    pub quit: bool,
    pub option_menu: OptionMenu,
    pub lose_menu: LoseMenu,
    pub win_menu: WinMenu,
}

/// The cursor after a move by (dx, dy); a move off the board is ignored.
pub open spec fn cursor_after(c: (usize, usize), w: int, h: int, dx: int, dy: int) -> (
    usize,
    usize,
) {
    if in_grid(w, h, c.0 + dx, c.1 + dy) {
        ((c.0 + dx) as usize, (c.1 + dy) as usize)
    } else {
        c
    }
}

/// The move that an arrow key asks for, as (dx, dy).
pub open spec fn arrow(key: Key) -> (int, int) {
    match key {
        Key::Left => (-1, 0),
        Key::Right => (1, 0),
        Key::Up => (0, -1),
        Key::Down => (0, 1),
        _ => (0, 0),
    }
}

pub open spec fn is_arrow(key: Key) -> bool {
    key == Key::Left || key == Key::Right || key == Key::Up || key == Key::Down
}

impl Game {
    /// The board is well formed and the cursor lies on it.
    pub open spec fn wf(&self) -> bool {
        &&& self.board.wf()
        &&& self.cursor.0 < self.board.width()
        &&& self.cursor.1 < self.board.height()
    }

    /// Index of the tile under the cursor.
    pub open spec fn cursor_index(&self) -> int {
        self.board.index(self.cursor.0 as int, self.cursor.1 as int)
    }

    /// Everything but the board, the cursor and the screen is as in `o`.
    pub open spec fn same_menus(&self, o: &Game) -> bool {
        &&& self.restart == o.restart
        &&& self.quit == o.quit
        &&& self.option_menu == o.option_menu
        &&& self.lose_menu == o.lose_menu
        &&& self.win_menu == o.win_menu
    }

    /// The board is as in `o`.
    pub open spec fn same_board(&self, o: &Game) -> bool {
        self.board@ == o.board@ && self.board.same_frame(&o.board)
    }

    /// A new round on a fresh `width` by `height` board with `mine_count` mines, the
    /// cursor in the middle.
    pub fn new(options: OptionState, width: usize, height: usize, mine_count: u32) -> (g: Game)
        requires
            (mine_count as int) < width * height,
            width * height <= i32::MAX,
        ensures
            g.wf(),
            g.board.width() == width,
            g.board.height() == height,
            g.board.mine_count() == mine_count,
            g.board.mines_left() == mine_count,
            mine_total(g.board@) == mine_count,
            forall|i: int| 0 <= i < g.board@.len() ==> (#[trigger] g.board@[i]).hidden && !g.board@[i].flag,
            g.cursor == (width / 2, height / 2),
            g.state == GameState::Start,
            g.prev_state.is_none(),
            !g.restart,
            !g.quit,
            g.option_menu == (OptionMenu { cursor_line: 0, state: options }),
            g.lose_menu == (LoseMenu {
                continue_select: false,
                restart: false,
                coward: false,
                options: false,
                quit: false,
            }),
            g.win_menu == (WinMenu { time: 0, restart: false, options: false, quit: false }),
    {
        Game {
            board: Board::new(width, height, mine_count),
            cursor: (width / 2, height / 2),
            state: GameState::Start,
            prev_state: None,
            restart: false,
            quit: false,
            option_menu: OptionMenu::new(options),
            lose_menu: LoseMenu {
                continue_select: false,
                restart: false,
                coward: false,
                options: false,
                quit: false,
            },
            win_menu: WinMenu { time: 0, restart: false, options: false, quit: false },
        }
    }

    /// Moves the cursor by (dx, dy) when that keeps it on the board.
    pub fn move_cursor(&mut self, dx: i8, dy: i8)
        requires
            old(self).wf(),
            -1 <= dx <= 1,
            -1 <= dy <= 1,
        ensures
            final(self).wf(),
            final(self).cursor == cursor_after(
                old(self).cursor,
                old(self).board.width() as int,
                old(self).board.height() as int,
                dx as int,
                dy as int,
            ),
            final(self).same_board(old(self)),
            final(self).same_menus(old(self)),
            final(self).state == old(self).state,
            final(self).prev_state == old(self).prev_state,
    {
        let (x, y) = self.cursor;
        let w = self.board.width();
        let h = self.board.height();
        let ok_x = if dx < 0 {
            x > 0
        } else if dx > 0 {
            x + 1 < w
        } else {
            true
        };
        let ok_y = if dy < 0 {
            y > 0
        } else if dy > 0 {
            y + 1 < h
        } else {
            true
        };
        if ok_x && ok_y {
            let nx = if dx < 0 {
                x - 1
            } else if dx > 0 {
                x + 1
            } else {
                x
            };
            let ny = if dy < 0 {
                y - 1
            } else if dy > 0 {
                y + 1
            } else {
                y
            };
            self.cursor = (nx, ny);
        }
    }
}

/// What a key on the board screen does, `o` before and `f` after, with the clock `c`.
pub open spec fn board_key(o: Game, f: Game, key: Key, c: Clock) -> bool {
    let w = o.board.width() as int;
    let h = o.board.height() as int;
    let cx = o.cursor.0 as int;
    let cy = o.cursor.1 as int;
    &&& f.board.width() == o.board.width()
    &&& f.board.height() == o.board.height()
    &&& f.board.mine_count() == o.board.mine_count()
    &&& f.restart == o.restart
    &&& f.option_menu == o.option_menu
    &&& f.lose_menu == o.lose_menu
    &&& f.win_menu == o.win_menu
    &&& !is_arrow(key) ==> f.cursor == o.cursor
    &&& !is_letter(key, 'o', 'O') ==> f.prev_state == o.prev_state
    &&& !is_letter(key, 'q', 'Q') ==> f.quit == o.quit
    &&& is_arrow(key) ==> {
        &&& f.cursor == cursor_after(o.cursor, w, h, arrow(key).0, arrow(key).1)
        &&& f.same_board(&o)
        &&& f.state == o.state
        &&& c == Clock::Keep
    }
    &&& is_letter(key, 'q', 'Q') ==> {
        &&& f.quit
        &&& f.same_board(&o)
        &&& f.state == o.state
        &&& c == Clock::Keep
    }
    &&& is_letter(key, 'x', 'X') && o.state == GameState::Start ==> {
        &&& (f.state == GameState::Play) == (o.board.mine_count() <= safe_room(w, h, cx, cy))
        &&& f.state != GameState::Play ==> f.state == GameState::Start && f.same_board(&o) && c
            == Clock::Keep
        &&& f.state == GameState::Play ==> c == Clock::Start && !f.board@[f.cursor_index()].hidden
            && !f.board@[f.cursor_index()].mine && f.board.mines_left() == f.board.mine_count()
        &&& f.state == GameState::Play ==> exists|g: Seq<Tile>|
            mined_grid(g, w, h, o.board.mine_count() as int, cx, cy)
            && #[trigger] dig_spec(g, w, h, cx, cy) == (f.board@, false)
    }
    &&& is_letter(key, 'x', 'X') && o.state != GameState::Start ==> {
        let (g, hit) = dig_spec(o.board@, w, h, cx, cy);
        let win = won(f.board@, f.board.mines_left() as int);
        &&& f.board@ == g
        &&& f.board.mines_left() == o.board.mines_left()
        &&& f.state == (if hit {
            GameState::Lose
        } else if win {
            GameState::Win
        } else {
            o.state
        })
        &&& c == (if !hit && win {
            Clock::Stop
        } else {
            Clock::Keep
        })
    }
    &&& is_letter(key, 'z', 'Z') ==> {
        let playing = o.state == GameState::Play;
        let win = won(f.board@, f.board.mines_left() as int);
        &&& f.board@ == (if playing {
            flag_spec(o.board@, o.cursor_index())
        } else {
            o.board@
        })
        &&& f.board.mines_left() == o.board.mines_left() + (if playing {
            flag_delta(o.board@, o.cursor_index())
        } else {
            0
        })
        &&& f.state == (if win {
            GameState::Win
        } else {
            o.state
        })
        &&& c == (if win {
            Clock::Stop
        } else {
            Clock::Keep
        })
    }
    &&& is_letter(key, 'o', 'O') ==> {
        &&& f.prev_state == Some(o.state)
        &&& f.state == GameState::Options
        &&& f.same_board(&o)
        &&& c == Clock::Keep
    }
    &&& !is_arrow(key) && !is_letter(key, 'q', 'Q') && !is_letter(key, 'x', 'X') && !is_letter(
        key,
        'z',
        'Z',
    ) && !is_letter(key, 'o', 'O') ==> {
        &&& f.same_board(&o)
        &&& f.state == o.state
        &&& f.quit == o.quit
        &&& c == Clock::Keep
    }
}

impl Game {
    /// A key on the board screen: arrows move the cursor, `x` digs (the first dig places
    /// the mines), `z` flags, `o` opens the options and `q` quits. Says what the clock
    /// should do.
    pub fn handle_key_event(&mut self, key: Key) -> (c: Clock)
        requires
            old(self).wf(),
        ensures
            final(self).wf(),
            board_key(*old(self), *final(self), key, c),
    {
        match key {
            Key::Left => {
                self.move_cursor(-1, 0);
                Clock::Keep
            },
            Key::Right => {
                self.move_cursor(1, 0);
                Clock::Keep
            },
            Key::Up => {
                self.move_cursor(0, -1);
                Clock::Keep
            },
            Key::Down => {
                self.move_cursor(0, 1);
                Clock::Keep
            },
            Key::Char('q') | Key::Char('Q') => {
                self.quit = true;
                Clock::Keep
            },
            Key::Char('x') | Key::Char('X') => {
                if self.state == GameState::Start {
                    if self.board.first_dig(self.cursor.0, self.cursor.1) {
                        self.state = GameState::Play;
                        Clock::Start
                    } else {
                        Clock::Keep
                    }
                } else {
                    if self.board.dig(self.cursor.0, self.cursor.1).is_err() {
                        self.state = GameState::Lose;
                        Clock::Keep
                    } else if self.board.game_won() {
                        self.state = GameState::Win;
                        Clock::Stop
                    } else {
                        Clock::Keep
                    }
                }
            },
            Key::Char('z') | Key::Char('Z') => {
                if self.state == GameState::Play {
                    self.board.flag(self.cursor.0, self.cursor.1);
                }
                if self.board.game_won() {
                    self.state = GameState::Win;
                    Clock::Stop
                } else {
                    Clock::Keep
                }
            },
            Key::Char('o') | Key::Char('O') => {
                self.prev_state = Some(self.state);
                self.state = GameState::Options;
                Clock::Keep
            },
            _ => Clock::Keep,
        }
    }
}

/// What `settle` does to the game, `o` before and `f` after.
pub open spec fn settle_post(o: Game, f: Game) -> bool {
    let quitting = o.option_menu.state.quit || o.lose_menu.quit || o.win_menu.quit;
    let restarting = o.option_menu.state.restart || o.lose_menu.restart || o.win_menu.restart;
    if quitting {
        &&& f.quit
        &&& f.same_board(&o)
        &&& f.cursor == o.cursor
        &&& f.state == o.state
        &&& f.prev_state == o.prev_state
        &&& f.restart == o.restart
        &&& f.option_menu == o.option_menu
        &&& f.lose_menu == o.lose_menu
        &&& f.win_menu == o.win_menu
    } else if restarting {
        &&& f.restart
        &&& !f.option_menu.state.restart
        &&& f.option_menu == (OptionMenu {
            state: OptionState { restart: false, ..o.option_menu.state },
            ..o.option_menu
        })
        &&& f.same_board(&o)
        &&& f.cursor == o.cursor
        &&& f.state == o.state
        &&& f.prev_state == o.prev_state
        &&& f.quit == o.quit
        &&& f.lose_menu == o.lose_menu
        &&& f.win_menu == o.win_menu
    } else if o.option_menu.state.resume {
        &&& f.state == (match o.prev_state {
            Some(s) => s,
            None => GameState::Play,
        })
        &&& f.option_menu == (OptionMenu {
            state: OptionState { resume: false, ..o.option_menu.state },
            ..o.option_menu
        })
        &&& f.same_board(&o)
        &&& f.cursor == o.cursor
        &&& f.prev_state == o.prev_state
        &&& f.quit == o.quit
        &&& f.restart == o.restart
        &&& f.lose_menu == o.lose_menu
        &&& f.win_menu == o.win_menu
    } else if o.lose_menu.options || o.win_menu.options {
        &&& !f.lose_menu.options
        &&& !f.win_menu.options
        &&& f.lose_menu == (LoseMenu { options: false, ..o.lose_menu })
        &&& f.win_menu == (WinMenu { options: false, ..o.win_menu })
        &&& f.prev_state == Some(o.state)
        &&& f.state == GameState::Options
        &&& f.same_board(&o)
        &&& f.cursor == o.cursor
        &&& f.quit == o.quit
        &&& f.restart == o.restart
        &&& f.option_menu == o.option_menu
    } else if o.lose_menu.coward {
        &&& f.lose_menu == (LoseMenu { coward: false, ..o.lose_menu })
        &&& f.board@ == undo_spec(
            o.board@,
            o.board.width() as int,
            o.cursor.0 as int,
            o.cursor.1 as int,
        )
        &&& f.board.same_frame(&o.board)
        &&& f.state == GameState::Play
        &&& f.cursor == o.cursor
        &&& f.prev_state == o.prev_state
        &&& f.quit == o.quit
        &&& f.restart == o.restart
        &&& f.option_menu == o.option_menu
        &&& f.win_menu == o.win_menu
    } else {
        &&& f.same_board(&o)
        &&& f.same_menus(&o)
        &&& f.cursor == o.cursor
        &&& f.state == o.state
        &&& f.prev_state == o.prev_state
    }
}

/// What `dispatch` does with `key`, `o` before and `f` after, with the clock `c`.
pub open spec fn dispatch_post(o: Game, f: Game, key: Key, c: Clock) -> bool {
    &&& o.state == GameState::Play || o.state == GameState::Start ==> board_key(o, f, key, c)
    &&& o.state == GameState::Options ==> f.option_menu == option_menu_after(o.option_menu, key)
    &&& o.state == GameState::Lose ==> f.lose_menu == lose_menu_after(o.lose_menu, key)
    &&& o.state == GameState::Win ==> f.win_menu == win_menu_after(o.win_menu, key)
    &&& o.state != GameState::Options ==> f.option_menu == o.option_menu
    &&& o.state != GameState::Lose ==> f.lose_menu == o.lose_menu
    &&& o.state != GameState::Win ==> f.win_menu == o.win_menu
    &&& o.state == GameState::Options || o.state == GameState::Lose || o.state == GameState::Win
        ==> {
        &&& f.same_board(&o)
        &&& f.cursor == o.cursor
        &&& f.state == o.state
        &&& f.prev_state == o.prev_state
        &&& f.quit == o.quit
        &&& f.restart == o.restart
        &&& c == Clock::Keep
    }
}

impl Game {
    /// Hands a key to the screen shown: the board, or one of the three menus.
    pub fn dispatch(&mut self, key: Key) -> (c: Clock)
        requires
            old(self).wf(),
        ensures
            final(self).wf(),
            dispatch_post(*old(self), *final(self), key, c),
    {
        match self.state {
            GameState::Play | GameState::Start => self.handle_key_event(key),
            GameState::Options => {
                self.option_menu.handle_key_event(key);
                Clock::Keep
            },
            GameState::Lose => {
                self.lose_menu.handle_key_event(key);
                Clock::Keep
            },
            GameState::Win => {
                self.win_menu.handle_key_event(key);
                Clock::Keep
            },
        }
    }

    /// Acts on what the menus asked for, in this order: quit; restart; resume the game
    /// from the options; open the options from the lose or win menu; go on after a loss,
    /// hiding the mines around the cursor again.
    pub fn settle(&mut self)
        requires
            old(self).wf(),
        ensures
            final(self).wf(),
            settle_post(*old(self), *final(self)),
    {
        if self.option_menu.state.quit || self.lose_menu.quit || self.win_menu.quit {
            self.quit = true;
        } else if self.option_menu.state.restart || self.lose_menu.restart
            || self.win_menu.restart {
            self.option_menu.state.restart = false;
            self.restart = true;
        } else if self.option_menu.state.resume {
            self.state = match self.prev_state {
                Some(s) => s,
                None => GameState::Play,
            };
            self.option_menu.state.resume = false;
        } else if self.lose_menu.options || self.win_menu.options {
            self.lose_menu.options = false;
            self.win_menu.options = false;
            self.handle_key_event(Key::Char('o'));
        } else if self.lose_menu.coward {
            self.lose_menu.coward = false;
            self.board.undo(self.cursor.0, self.cursor.1);
            self.state = GameState::Play;
        }
    }

    /// One key press: handed to the screen shown, then the menus' requests acted on.
    /// Says what the clock should do.
    pub fn handle_press(&mut self, key: Key) -> (c: Clock)
        requires
            old(self).wf(),
        ensures
            final(self).wf(),
            exists|m: Game|
                #[trigger] dispatch_post(*old(self), m, key, c) && settle_post(m, *final(self)),
    {
        let c = self.dispatch(key);
        let ghost m = *self;
        self.settle();
        proof {
            assert(dispatch_post(*old(self), m, key, c) && settle_post(m, *self));
        }
        c
    }
}

} // verus!
