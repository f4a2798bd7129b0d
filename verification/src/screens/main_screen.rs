//! The table screen listing every stored shortcut, and the column-width
//! calculation its renderer uses.

use vstd::math::max;
use vstd::prelude::*;
use vstd::string::StrSliceExecFns;

use crate::app_state::AppState;
use crate::num::dec_rep;
use crate::screen::KeyCode;
use crate::screen::KeyEvent;
use crate::screen::Screen;
use crate::screen::ScreenCommand;
use crate::screens::add_screen::initial_add_view;
use crate::screens::add_screen::AddShortcutScreen;
use crate::shortcuts::views_of;
use crate::shortcuts::Shortcut;
use crate::shortcuts::ShortcutView;

verus! {

/// The screen showing the ranked table of shortcuts.
pub struct MainScreen {
    selected: usize,
}

/// True for the keys that exit the application from the main screen.
pub open spec fn quit_requested(code: KeyCode) -> bool {
    (code matches KeyCode::Char(c) && c == 'q') || code is Esc
}

/// How the main screen answers one key event: `q` or escape quits, `n`
/// opens a fresh add screen on top, anything else changes nothing. The
/// screen itself and the shared state stay as they are.
pub open spec fn main_reacts(
    old_screen: MainScreen,
    ev: KeyEvent,
    new_screen: MainScreen,
    cmd: ScreenCommand,
) -> bool {
    &&& new_screen == old_screen
    &&& if quit_requested(ev.code) {
        cmd matches ScreenCommand::Quit(flag) && flag
    } else if ev.code matches KeyCode::Char(c) && c == 'n' {
        cmd matches ScreenCommand::Push(s) && s matches Screen::AddShortcut(a) && a@
            == initial_add_view()
    } else {
        cmd is Stay
    }
}

/// The state the main screen opens in: the first table row selected.
pub closed spec fn initial_main() -> MainScreen {
    MainScreen { selected: 0 }
}

/// What the initial main screen selects.
pub proof fn lemma_initial_main()
    ensures
        initial_main().spec_selected() == 0,
{
}

impl MainScreen {
    /// The selected table row, as a mathematical value.
    pub closed spec fn spec_selected(&self) -> usize {
        self.selected
    }

    /// Opens the screen with the first table row selected.
    pub fn new() -> (s: MainScreen)
        ensures
            s == initial_main(),
    {
        MainScreen { selected: 0 }
    }

    /// The selected table row, for drawing.
    pub fn get_selected(&self) -> (r: usize)
        ensures
            r == self.spec_selected(),
    {
        self.selected
    }

    /// Reacts to one key event as [`main_reacts`] states.
    pub fn handle_event(&mut self, key_event: KeyEvent, state: &mut AppState) -> (cmd:
        ScreenCommand)
        ensures
            main_reacts(*old(self), key_event, *final(self), cmd),
            *final(state) == *old(state),
    {
        match key_event.code {
            KeyCode::Char(c) => {
                if c == 'q' {
                    ScreenCommand::Quit(true)
                } else if c == 'n' {
                    ScreenCommand::Push(Screen::AddShortcut(AddShortcutScreen::new()))
                } else {
                    ScreenCommand::Stay
                }
            },
            KeyCode::Esc => ScreenCommand::Quit(true),
            _ => ScreenCommand::Stay,
        }
    }
}

/// The widest printed lookup count among the records, in characters.
pub open spec fn widest_count(s: Seq<ShortcutView>) -> int
    decreases s.len(),
{
    if s.len() == 0 {
        0
    } else {
        max(widest_count(s.drop_last()), dec_rep(s.last().lookup_count as nat).len() as int)
    }
}

/// The widest key combination among the records, in characters.
pub open spec fn widest_combo(s: Seq<ShortcutView>) -> int
    decreases s.len(),
{
    if s.len() == 0 {
        0
    } else {
        max(widest_combo(s.drop_last()), s.last().key_combo.len() as int)
    }
}

/// The widest description among the records, in characters.
pub open spec fn widest_desc(s: Seq<ShortcutView>) -> int
    decreases s.len(),
{
    if s.len() == 0 {
        0
    } else {
        max(widest_desc(s.drop_last()), s.last().description.len() as int)
    }
}

/// The width, in characters, each of the three table columns needs: the
/// widest entry of the column, but no narrower than its header.
pub fn calc_longest_lens(shortcuts: &[Shortcut], headers: &[&str]) -> (r: Vec<usize>)
    requires
        headers@.len() >= 3,
    ensures
        r@.len() == 3,
        r@[0] == max(widest_count(views_of(shortcuts@)), headers@[0]@.len() as int),
        r@[1] == max(widest_combo(views_of(shortcuts@)), headers@[1]@.len() as int),
        r@[2] == max(widest_desc(views_of(shortcuts@)), headers@[2]@.len() as int),
{
    let ghost views = views_of(shortcuts@);
    let n = shortcuts.len();
    let mut w0: usize = 0;
    let mut w1: usize = 0;
    let mut w2: usize = 0;
    let mut i: usize = 0;
    while i < n
        invariant
            n == shortcuts@.len(),
            views == views_of(shortcuts@),
            i <= n,
            w0 == widest_count(views.subrange(0, i as int)),
            w1 == widest_combo(views.subrange(0, i as int)),
            w2 == widest_desc(views.subrange(0, i as int)),
        decreases n - i,
    {
        let sc = &shortcuts[i];
        let mut digits: Vec<char> = Vec::new();
        crate::num::push_dec_u32(sc.get_lookup_count(), &mut digits);
        let cw = digits.len();
        let kw = sc.get_key_combo().unicode_len();
        let dw = sc.get_description().unicode_len();
        proof {
            assert(views.subrange(0, i + 1 as int).drop_last() =~= views.subrange(0, i as int));
            assert(views.subrange(0, i + 1 as int).last() == views[i as int]);
            assert(views[i as int] == shortcuts@[i as int]@);
        }
        if cw > w0 {
            w0 = cw;
        }
        if kw > w1 {
            w1 = kw;
        }
        if dw > w2 {
            w2 = dw;
        }
        i += 1;
    }
    proof {
        assert(views.subrange(0, n as int) =~= views);
    }
    let mut r: Vec<usize> = Vec::new();
    let h0 = headers[0].unicode_len();
    let h1 = headers[1].unicode_len();
    let h2 = headers[2].unicode_len();
    r.push(if h0 > w0 {
        h0
    } else {
        w0
    });
    r.push(if h1 > w1 {
        h1
    } else {
        w1
    });
    r.push(if h2 > w2 {
        h2
    } else {
        w2
    });
    r
}

} // verus!
