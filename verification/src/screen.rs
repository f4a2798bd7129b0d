//! Screens and the commands they answer key events with.
//!
//! A screen is one full-screen UI state; the active screen reacts to one
//! key event at a time and answers with a navigation command that the
//! navigator applies to its stack. Drawing is the embedding program's
//! business: it reads the screen state through the accessors.

use vstd::prelude::*;

use crate::app_state::AppState;
use crate::screens::add_screen::add_reacts;
use crate::screens::add_screen::AddShortcutScreen;
use crate::screens::main_screen::main_reacts;
use crate::screens::main_screen::MainScreen;

verus! {

/// The key that a key event carries, reduced to what the screens react to.
#[derive(PartialEq, Eq, Structural, Clone, Copy, Debug)]
pub enum KeyCode {
    Char(char),
    Esc,
    Tab,
    Enter,
    Backspace,
    Other,
}

/// Whether the key was pressed, held down, or released.
#[derive(PartialEq, Eq, Structural, Clone, Copy, Debug)]
pub enum KeyEventKind {
    Press,
    Repeat,
    Release,
}

/// One keyboard event, as the navigator receives it from the terminal.
#[derive(PartialEq, Eq, Structural, Clone, Copy, Debug)]
pub struct KeyEvent {
    pub code: KeyCode,
    pub kind: KeyEventKind,
}

/// What the active screen asks the navigator to do with its stack.
pub enum ScreenCommand {
    /// The key was handled; the stack stays as it is.
    Stay,
    /// The current screen closes, returning to the one below it.
    Close,
    /// A new screen opens on top of the current one.
    Push(Screen),
    /// A new screen replaces the current one without growing the stack.
    Swap(Screen),
    /// The whole application exits; the payload is reserved.
    Quit(bool),
}

/// One UI state: the closed set of screens the application can show.
pub enum Screen {
    Main(MainScreen),
    AddShortcut(AddShortcutScreen),
}

/// How a screen answers an event: its own next state and the command it
/// returns, as [`main_reacts`] and [`add_reacts`] state for each variant.
pub open spec fn screen_reacts(
    old_screen: Screen,
    ev: KeyEvent,
    new_screen: Screen,
    cmd: ScreenCommand,
) -> bool {
    match old_screen {
        Screen::Main(m) => new_screen matches Screen::Main(m2) && main_reacts(m, ev, m2, cmd),
        Screen::AddShortcut(a) => new_screen matches Screen::AddShortcut(a2) && add_reacts(
            a@,
            ev,
            a2@,
            cmd,
        ),
    }
}

impl Screen {
    /// Lets the screen react to one key event, mutating itself and, where a
    /// screen needs to, the shared state; answers with the navigation
    /// command to apply.
    pub fn handle_event(&mut self, key_event: KeyEvent, state: &mut AppState) -> (cmd:
        ScreenCommand)
        ensures
            screen_reacts(*old(self), key_event, *final(self), cmd),
            *final(state) == *old(state),
    {
        match self {
            Screen::Main(m) => m.handle_event(key_event, state),
            Screen::AddShortcut(a) => a.handle_event(key_event, state),
        }
    }
}

} // verus!
