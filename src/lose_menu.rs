use crate::key::{is_letter, Key};
use vstd::prelude::*;

verus! {

/// The menu shown after a mine went off: start a new game or go on after an undo.
#[derive(Clone, Copy, Debug, Default, PartialEq, Eq)]
pub struct LoseMenu {
    pub continue_select: bool,
    pub restart: bool,
    pub coward: bool,
    pub options: bool,
    pub quit: bool,
}

/// The menu after `key` was pressed on `m`.
pub open spec fn lose_menu_after(m: LoseMenu, key: Key) -> LoseMenu {
    if key == Key::Up || key == Key::Down {
        LoseMenu { continue_select: !m.continue_select, ..m }
    } else if is_letter(key, 'q', 'Q') {
        LoseMenu { quit: true, ..m }
    } else if is_letter(key, 'o', 'O') {
        LoseMenu { options: true, ..m }
    } else if is_letter(key, 'r', 'R') {
        LoseMenu { restart: true, ..m }
    } else if key == Key::Char(' ') || key == Key::Char('x') || key == Key::Enter {
        if m.continue_select {
            LoseMenu { coward: true, ..m }
        } else {
            LoseMenu { restart: true, ..m }
        }
    } else {
        m
    }
}

impl LoseMenu {
    /// Up and down switch between the two choices; space, `x` or enter take the selected
    /// one; `q`, `o` and `r` ask to quit, to open the options, or to restart.
    pub fn handle_key_event(&mut self, key: Key)
        ensures
            *final(self) == lose_menu_after(*old(self), key),
    {
        match key {
            Key::Up | Key::Down => self.continue_select = !self.continue_select,
            Key::Char('q') | Key::Char('Q') => self.quit = true,
            Key::Char('o') | Key::Char('O') => self.options = true,
            Key::Char('r') | Key::Char('R') => self.restart = true,
            Key::Char(' ') | Key::Char('x') | Key::Enter => {
                if self.continue_select {
                    self.coward = true
                } else {
                    self.restart = true
                }
            },
            _ => {},
        }
    }
}

} // verus!
