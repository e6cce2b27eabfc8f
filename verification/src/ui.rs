//! The decisions of the terminal front end: which screen shows, when the
//! terminal is too small, the ROM menu and the keypad mapping.
use vstd::prelude::*;

use crate::cpu::semantics::{DISPLAY_HEIGHT, DISPLAY_WIDTH};

pub mod emulator;
pub mod menu;

verus! {

/// The screen the front end shows.
#[derive(Clone, Copy, PartialEq, Eq, Structural)]
pub enum State {
    Menu,
    Emulation,
}

impl Default for State {
    fn default() -> (s: Self)
        ensures
            s == State::Menu,
    {
        State::Menu
    }
}

impl State {
    /// What Esc does: from the menu it quits (`None`), from the emulation it
    /// goes back to the menu.
    pub fn on_escape(self) -> (next: Option<State>)
        ensures
            self == State::Menu ==> next is None,
            self == State::Emulation ==> next == Some(State::Menu),
    {
        match self {
            State::Menu => None,
            State::Emulation => Some(State::Menu),
        }
    }

    /// What a key handled by the menu does: when it chose a ROM, the menu
    /// gives way to the emulation of that ROM; otherwise the screen stays.
    pub fn after_menu_key(self, rom_chosen: bool) -> (next: State)
        ensures
            next == if self == State::Menu && rom_chosen {
                State::Emulation
            } else {
                self
            },
    {
        if self == State::Menu && rom_chosen {
            State::Emulation
        } else {
            self
        }
    }
}

/// The smallest terminal that holds the screen: two columns per pixel plus a
/// border, and the title, a blank line and a border around the rows.
pub fn is_too_small(width: u16, height: u16) -> (small: bool)
    ensures
        small == (height < DISPLAY_HEIGHT + 4 || width < DISPLAY_WIDTH * 2 + 2),
{
    height < DISPLAY_HEIGHT as u16 + 4 || width < DISPLAY_WIDTH as u16 * 2 + 2
}

} // verus!
