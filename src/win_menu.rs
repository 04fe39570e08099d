use crate::key::{is_letter, Key};
use vstd::prelude::*;

verus! {

/// The menu shown once the game is won, with the time it took in seconds.
#[derive(Clone, Copy, Debug, Default, PartialEq, Eq)]
pub struct WinMenu {
    pub time: u64,
    pub restart: bool,
    pub options: bool,
    pub quit: bool,
}

/// The menu after `key` was pressed on `m`.
pub open spec fn win_menu_after(m: WinMenu, key: Key) -> WinMenu {
    if is_letter(key, 'q', 'Q') {
        WinMenu { quit: true, ..m }
    } else if is_letter(key, 'o', 'O') {
        WinMenu { options: true, ..m }
    } else {
        WinMenu { restart: true, ..m }
    }
}

impl WinMenu {
    /// `q` asks to quit, `o` to open the options; any other key starts a new game.
    pub fn handle_key_event(&mut self, key: Key)
        ensures
            *final(self) == win_menu_after(*old(self), key),
    {
        match key {
            Key::Char('q') | Key::Char('Q') => self.quit = true,
            Key::Char('o') | Key::Char('O') => self.options = true,
            _ => self.restart = true,
        }
    }
}

} // verus!
