//! The navigator: an ordered stack of screens (bottom opened first, top
//! active) and the rules that turn a screen's command into the next stack.
//!
//! The embedding program runs the loop itself — draw every screen bottom to
//! top, block for a key event, discard releases, then call
//! [`App::handle_top`] and [`App::apply_command`] — because drawing and
//! reading events are its business; the decisions live here.

use vstd::prelude::*;

use crate::app_state::AppState;
use crate::screen::screen_reacts;
use crate::screen::KeyEvent;
use crate::screen::KeyEventKind;
use crate::screen::Screen;
use crate::screen::ScreenCommand;
use crate::screens::main_screen::initial_main;
use crate::screens::main_screen::MainScreen;

verus! {

/// The application: the shared state and the screen stack.
pub struct App {
    pub state: AppState,
    pub screens: Vec<Screen>,
}

/// What a command does to the stack, and whether the application keeps
/// running afterwards: nothing for `Stay`; `Close` pops the top and stops
/// when that empties the stack; `Push` and `Swap` grow and replace the top;
/// `Quit` clears the whole stack at once.
pub open spec fn apply_spec(stack: Seq<Screen>, cmd: ScreenCommand) -> (Seq<Screen>, bool) {
    match cmd {
        ScreenCommand::Stay => (stack, true),
        ScreenCommand::Close => (stack.drop_last(), stack.len() > 1),
        ScreenCommand::Push(s) => (stack.push(s), true),
        ScreenCommand::Swap(s) => (stack.drop_last().push(s), true),
        ScreenCommand::Quit(_) => (Seq::empty(), false),
    }
}

/// Each `Close` shrinks the stack by exactly one screen, and the loop runs
/// on exactly as long as a screen is left: issuing `Close` repeatedly from
/// any stack — in particular from the single entry screen — empties it and
/// terminates the loop, without an error.
pub proof fn lemma_close_steps(stack: Seq<Screen>)
    requires
        stack.len() > 0,
    ensures
        apply_spec(stack, ScreenCommand::Close).0.len() == stack.len() - 1,
        apply_spec(stack, ScreenCommand::Close).1 <==> stack.len() > 1,
        apply_spec(stack, ScreenCommand::Close).0 == stack.subrange(0, stack.len() - 1),
{
    assert(stack.drop_last() =~= stack.subrange(0, stack.len() - 1));
}

/// From a one-screen stack, `Push` yields a two-screen stack with the new
/// screen on top and the original still at the bottom, while `Swap` yields
/// a one-screen stack holding only the new screen; both keep running.
pub proof fn lemma_push_swap_depth(stack: Seq<Screen>, s: Screen)
    requires
        stack.len() == 1,
    ensures
        apply_spec(stack, ScreenCommand::Push(s)).0.len() == 2,
        apply_spec(stack, ScreenCommand::Push(s)).0[0] == stack[0],
        apply_spec(stack, ScreenCommand::Push(s)).0[1] == s,
        apply_spec(stack, ScreenCommand::Push(s)).1,
        apply_spec(stack, ScreenCommand::Swap(s)).0.len() == 1,
        apply_spec(stack, ScreenCommand::Swap(s)).0[0] == s,
        apply_spec(stack, ScreenCommand::Swap(s)).1,
{
}

impl App {
    /// Starts the application on the main screen alone.
    pub fn new(state: AppState) -> (app: App)
        ensures
            app.state == state,
            app.screens@.len() == 1,
            app.screens@[0] == Screen::Main(initial_main()),
    {
        let mut screens: Vec<Screen> = Vec::new();
        screens.push(Screen::Main(MainScreen::new()));
        App { state, screens }
    }

    /// True for the events the navigator dispatches: key releases are
    /// discarded, presses and repeats act.
    pub fn should_dispatch(event: KeyEvent) -> (r: bool)
        ensures
            r == !(event.kind is Release),
    {
        !matches!(event.kind, KeyEventKind::Release)
    }

    /// Hands one key event to the top screen alone and reports the command
    /// it answered; the screens below it stay untouched.
    pub fn handle_top(&mut self, event: KeyEvent) -> (cmd: ScreenCommand)
        requires
            old(self).screens@.len() > 0,
        ensures
            final(self).screens@.len() == old(self).screens@.len(),
            final(self).screens@.drop_last() == old(self).screens@.drop_last(),
            screen_reacts(
                old(self).screens@.last(),
                event,
                final(self).screens@.last(),
                cmd,
            ),
            final(self).state == old(self).state,
    {
        let mut top = self.screens.pop().unwrap();
        let cmd = top.handle_event(event, &mut self.state);
        self.screens.push(top);
        proof {
            assert(self.screens@.drop_last() =~= old(self).screens@.drop_last());
        }
        cmd
    }

    /// Applies one navigation command to the stack as [`apply_spec`] states
    /// it, and reports whether the application keeps running.
    pub fn apply_command(&mut self, cmd: ScreenCommand) -> (running: bool)
        requires
            old(self).screens@.len() > 0,
        ensures
            final(self).screens@ == apply_spec(old(self).screens@, cmd).0,
            running == apply_spec(old(self).screens@, cmd).1,
            final(self).state == old(self).state,
    {
        match cmd {
            ScreenCommand::Stay => true,
            ScreenCommand::Close => {
                let _ = self.screens.pop();
                !self.screens.is_empty()
            },
            ScreenCommand::Push(s) => {
                self.screens.push(s);
                true
            },
            ScreenCommand::Swap(s) => {
                let _ = self.screens.pop();
                self.screens.push(s);
                true
            },
            ScreenCommand::Quit(_) => {
                self.screens.clear();
                proof {
                    assert(self.screens@ =~= Seq::<Screen>::empty());
                }
                false
            },
        }
    }
}

} // verus!
