use crate::key::{is_letter, Key};
use vstd::prelude::*;

verus! {

/// Board size choices; `Max` fills the terminal.
#[derive(Clone, Copy, Debug, Default, PartialEq, Eq)]
pub enum SizeOption {
    Small,
    #[default]
    Medium,
    Large,
    Max,
}

/// Difficulty choices, each a density of mines.
#[derive(Clone, Copy, Debug, Default, PartialEq, Eq)]
pub enum DifficultyOption {
    Easy,
    #[default]
    Medium,
    Hard,
    Expert,
}

/// Colour themes.
#[derive(Clone, Copy, Debug, Default, PartialEq, Eq)]
pub enum Theme {
    #[default]
    Default,
    Light,
    Dark,
}

pub open spec fn size_pos(s: SizeOption) -> int {
    match s {
        SizeOption::Small => 0,
        SizeOption::Medium => 1,
        SizeOption::Large => 2,
        SizeOption::Max => 3,
    }
}

pub open spec fn difficulty_pos(d: DifficultyOption) -> int {
    match d {
        DifficultyOption::Easy => 0,
        DifficultyOption::Medium => 1,
        DifficultyOption::Hard => 2,
        DifficultyOption::Expert => 3,
    }
}

pub open spec fn theme_pos(t: Theme) -> int {
    match t {
        Theme::Default => 0,
        Theme::Light => 1,
        Theme::Dark => 2,
    }
}

pub open spec fn size_at(p: int) -> SizeOption {
    if p == 0 {
        SizeOption::Small
    } else if p == 1 {
        SizeOption::Medium
    } else if p == 2 {
        SizeOption::Large
    } else {
        SizeOption::Max
    }
}

pub open spec fn difficulty_at(p: int) -> DifficultyOption {
    if p == 0 {
        DifficultyOption::Easy
    } else if p == 1 {
        DifficultyOption::Medium
    } else if p == 2 {
        DifficultyOption::Hard
    } else {
        DifficultyOption::Expert
    }
}

pub open spec fn theme_at(p: int) -> Theme {
    if p == 0 {
        Theme::Default
    } else if p == 1 {
        Theme::Light
    } else {
        Theme::Dark
    }
}

impl SizeOption {
    /// The next choice, wrapping from the last to the first.
    pub fn next(self) -> (r: SizeOption)
        ensures
            r == size_at((size_pos(self) + 1) % 4),
    {
        match self {
            SizeOption::Small => SizeOption::Medium,
            SizeOption::Medium => SizeOption::Large,
            SizeOption::Large => SizeOption::Max,
            SizeOption::Max => SizeOption::Small,
        }
    }

    /// The previous choice, wrapping from the first to the last.
    pub fn prev(self) -> (r: SizeOption)
        ensures
            r == size_at((size_pos(self) + 3) % 4),
    {
        match self {
            SizeOption::Small => SizeOption::Max,
            SizeOption::Medium => SizeOption::Small,
            SizeOption::Large => SizeOption::Medium,
            SizeOption::Max => SizeOption::Large,
        }
    }
}

impl DifficultyOption {
    /// The next choice, wrapping from the last to the first.
    pub fn next(self) -> (r: DifficultyOption)
        ensures
            r == difficulty_at((difficulty_pos(self) + 1) % 4),
    {
        match self {
            DifficultyOption::Easy => DifficultyOption::Medium,
            DifficultyOption::Medium => DifficultyOption::Hard,
            DifficultyOption::Hard => DifficultyOption::Expert,
            DifficultyOption::Expert => DifficultyOption::Easy,
        }
    }

    /// The previous choice, wrapping from the first to the last.
    pub fn prev(self) -> (r: DifficultyOption)
        ensures
            r == difficulty_at((difficulty_pos(self) + 3) % 4),
    {
        match self {
            DifficultyOption::Easy => DifficultyOption::Expert,
            DifficultyOption::Medium => DifficultyOption::Easy,
            DifficultyOption::Hard => DifficultyOption::Medium,
            DifficultyOption::Expert => DifficultyOption::Hard,
        }
    }
}

impl Theme {
    /// The next theme, wrapping from the last to the first.
    pub fn next(self) -> (r: Theme)
        ensures
            r == theme_at((theme_pos(self) + 1) % 3),
    {
        match self {
            Theme::Default => Theme::Light,
            Theme::Light => Theme::Dark,
            Theme::Dark => Theme::Default,
        }
    }

    /// The previous theme, wrapping from the first to the last.
    pub fn prev(self) -> (r: Theme)
        ensures
            r == theme_at((theme_pos(self) + 2) % 3),
    {
        match self {
            Theme::Default => Theme::Dark,
            Theme::Light => Theme::Default,
            Theme::Dark => Theme::Light,
        }
    }
}

/// The settings chosen in the options menu, and what the player asked for there.
#[derive(Clone, Copy, Debug, Default, PartialEq, Eq)]
pub struct OptionState {
    pub board_size: SizeOption,
    pub difficulty: DifficultyOption,
    pub theme: Theme,
    pub restart: bool,
    pub resume: bool,
    pub quit: bool,
}

/// Line of the options menu that holds the restart button.
pub const RESTART_LINE: u32 = 3;

/// Last line of the options menu, the button that goes back to the game.
pub const CONTINUE_LINE: u32 = 4;

/// The options menu: three selectors (size, difficulty, theme) and two buttons.
#[derive(Clone, Copy, Debug, PartialEq, Eq)]
pub struct OptionMenu {
    pub cursor_line: u32,
    pub state: OptionState,
}

/// The menu after `key` was pressed on `m`.
pub open spec fn option_menu_after(m: OptionMenu, key: Key) -> OptionMenu {
    let st = m.state;
    if key == Key::Left || key == Key::Right {
        let fwd = key == Key::Right;
        // one step forward, or one step back, around four or three choices
        let step4: int = if fwd {
            1
        } else {
            3
        };
        let step3: int = if fwd {
            1
        } else {
            2
        };
        let st2 = if m.cursor_line == 0 {
            OptionState {
                board_size: size_at((size_pos(st.board_size) + step4) % 4),
                ..st
            }
        } else if m.cursor_line == 1 {
            OptionState {
                difficulty: difficulty_at((difficulty_pos(st.difficulty) + step4) % 4),
                ..st
            }
        } else if m.cursor_line == 2 {
            OptionState {
                theme: theme_at((theme_pos(st.theme) + step3) % 3),
                ..st
            }
        } else {
            st
        };
        OptionMenu { state: st2, ..m }
    } else if key == Key::Up {
        let line = if m.cursor_line == 0 {
            0
        } else {
            (m.cursor_line - 1) as u32
        };
        OptionMenu { cursor_line: line, ..m }
    } else if key == Key::Down {
        let line = if m.cursor_line >= CONTINUE_LINE {
            CONTINUE_LINE
        } else {
            (m.cursor_line + 1) as u32
        };
        OptionMenu { cursor_line: line, ..m }
    } else if is_letter(key, 'q', 'Q') {
        OptionMenu { state: OptionState { quit: true, ..st }, ..m }
    } else if is_letter(key, 'o', 'O') || is_letter(key, 'c', 'C') {
        OptionMenu { state: OptionState { resume: true, ..st }, ..m }
    } else if is_letter(key, 'r', 'R') {
        OptionMenu { state: OptionState { restart: true, ..st }, ..m }
    } else if key == Key::Char(' ') || key == Key::Char('x') || key == Key::Enter {
        if m.cursor_line == RESTART_LINE {
            OptionMenu { state: OptionState { restart: true, ..st }, ..m }
        } else if m.cursor_line == CONTINUE_LINE {
            OptionMenu { state: OptionState { resume: true, ..st }, ..m }
        } else {
            m
        }
    } else {
        m
    }
}

impl OptionMenu {
    /// The menu with the cursor on its first line.
    pub fn new(options: OptionState) -> (m: OptionMenu)
        ensures
            m.cursor_line == 0,
            m.state == options,
    {
        OptionMenu { cursor_line: 0, state: options }
    }

    /// Left and right cycle the selector under the cursor; up and down move the cursor;
    /// space, `x` or enter press the button under it; `q`, `o` or `c`, and `r` ask to
    /// quit, to go back to the game, and to restart.
    pub fn handle_key_event(&mut self, key: Key)
        ensures
            *final(self) == option_menu_after(*old(self), key),
    {
        match key {
            Key::Left | Key::Right => {
                let fwd = match key {
                    Key::Right => true,
                    _ => false,
                };
                if self.cursor_line == 0 {
                    self.state.board_size = if fwd {
                        self.state.board_size.next()
                    } else {
                        self.state.board_size.prev()
                    };
                } else if self.cursor_line == 1 {
                    self.state.difficulty = if fwd {
                        self.state.difficulty.next()
                    } else {
                        self.state.difficulty.prev()
                    };
                } else if self.cursor_line == 2 {
                    self.state.theme = if fwd {
                        self.state.theme.next()
                    } else {
                        self.state.theme.prev()
                    };
                }
            },
            Key::Up => {
                if self.cursor_line > 0 {
                    self.cursor_line = self.cursor_line - 1;
                }
            },
            Key::Down => {
                if self.cursor_line < CONTINUE_LINE {
                    self.cursor_line = self.cursor_line + 1;
                } else {
                    self.cursor_line = CONTINUE_LINE;
                }
            },
            Key::Char('q') | Key::Char('Q') => self.state.quit = true,
            Key::Char('o') | Key::Char('O') | Key::Char('c') | Key::Char('C') => {
                self.state.resume = true
            },
            Key::Char('r') | Key::Char('R') => self.state.restart = true,
            Key::Char(' ') | Key::Char('x') | Key::Enter => {
                if self.cursor_line == RESTART_LINE {
                    self.state.restart = true;
                } else if self.cursor_line == CONTINUE_LINE {
                    self.state.resume = true;
                }
            },
            _ => {},
        }
    }
}

} // verus!
