//! The overlay screen for typing in a new shortcut.

use vstd::prelude::*;

use crate::app_state::AppState;
use crate::screen::KeyCode;
use crate::screen::KeyEvent;
use crate::screen::ScreenCommand;
use crate::widgets::input::Input;
use crate::widgets::input::InputView;

verus! {

/// Which of the two inputs holds keyboard focus.
#[derive(PartialEq, Eq, Structural, Clone, Copy, Debug)]
pub enum FocusedWidget {
    ShortcutInput,
    DescriptionInput,
}

/// The screen that collects a new key combination and its description.
pub struct AddShortcutScreen {
    shortcut_input: Input,
    description_input: Input,
    focused_widget: Option<FocusedWidget>,
}

/// The mathematical value of an [`AddShortcutScreen`].
pub ghost struct AddShortcutScreenView {
    pub shortcut_input: InputView,
    pub description_input: InputView,
    pub focused_widget: Option<FocusedWidget>,
}

impl View for AddShortcutScreen {
    type V = AddShortcutScreenView;

    closed spec fn view(&self) -> AddShortcutScreenView {
        AddShortcutScreenView {
            shortcut_input: self.shortcut_input@,
            description_input: self.description_input@,
            focused_widget: self.focused_widget,
        }
    }
}

/// The placeholder text both inputs start with.
pub open spec fn placeholder_text() -> Seq<char> {
    seq!['p', 'l', 'a', 'c', 'e', 'h', 'o', 'l', 'd', 'e', 'r', ' ', 't', 'e', 'x', 't']
}

/// The label of the key-combination input.
pub open spec fn shortcut_label() -> Seq<char> {
    seq!['S', 'h', 'o', 'r', 't', 'c', 'u', 't']
}

/// The label of the description input.
pub open spec fn description_label() -> Seq<char> {
    seq!['D', 'e', 's', 'c', 'r', 'i', 'p', 't', 'i', 'o', 'n']
}

/// The state a freshly opened add screen is in: both inputs on their
/// placeholder text, the key-combination input focused.
pub open spec fn initial_add_view() -> AddShortcutScreenView {
    AddShortcutScreenView {
        shortcut_input: InputView {
            label: shortcut_label(),
            text: placeholder_text(),
            focused: false,
        },
        description_input: InputView {
            label: description_label(),
            text: placeholder_text(),
            focused: false,
        },
        focused_widget: Some(FocusedWidget::ShortcutInput),
    }
}

/// How the add screen answers one key event.
///
/// `q` with no focused input closes the screen; tab cycles the focus;
/// escape drops it; anything else is forwarded to the focused input, which
/// leaves all observable state as it was. No key mutates the shared state.
pub open spec fn add_reacts(
    old_view: AddShortcutScreenView,
    ev: KeyEvent,
    new_view: AddShortcutScreenView,
    cmd: ScreenCommand,
) -> bool {
    if ev.code matches KeyCode::Char(c) && c == 'q' && old_view.focused_widget is None {
        new_view == old_view && cmd is Close
    } else if ev.code is Tab {
        new_view == (AddShortcutScreenView {
            focused_widget: match old_view.focused_widget {
                Some(FocusedWidget::ShortcutInput) => Some(FocusedWidget::DescriptionInput),
                Some(FocusedWidget::DescriptionInput) => Some(FocusedWidget::ShortcutInput),
                None => Some(FocusedWidget::ShortcutInput),
            },
            ..old_view
        }) && cmd is Stay
    } else if ev.code is Esc {
        new_view == (AddShortcutScreenView { focused_widget: None, ..old_view }) && cmd is Stay
    } else {
        new_view == old_view && cmd is Stay
    }
}

impl AddShortcutScreen {
    /// Opens the screen in its initial state.
    pub fn new() -> (s: AddShortcutScreen)
        ensures
            s@ == initial_add_view(),
    {
        let s = AddShortcutScreen {
            shortcut_input: Input::new("Shortcut", "placeholder text"),
            description_input: Input::new("Description", "placeholder text"),
            focused_widget: Some(FocusedWidget::ShortcutInput),
        };
        proof {
            reveal_strlit("Shortcut");
            reveal_strlit("Description");
            reveal_strlit("placeholder text");
            assert("Shortcut"@ =~= shortcut_label());
            assert("Description"@ =~= description_label());
            assert("placeholder text"@ =~= placeholder_text());
        }
        s
    }

    /// The key-combination input, for drawing.
    pub fn get_shortcut_input(&self) -> (r: &Input)
        ensures
            r@ == self@.shortcut_input,
    {
        &self.shortcut_input
    }

    /// The description input, for drawing.
    pub fn get_description_input(&self) -> (r: &Input)
        ensures
            r@ == self@.description_input,
    {
        &self.description_input
    }

    /// Which input holds focus, for drawing.
    pub fn get_focused_widget(&self) -> (r: &Option<FocusedWidget>)
        ensures
            r == &self@.focused_widget,
    {
        &self.focused_widget
    }

    /// Reacts to one key event as [`add_reacts`] states.
    pub fn handle_event(&mut self, key_event: KeyEvent, state: &mut AppState) -> (cmd:
        ScreenCommand)
        ensures
            add_reacts(old(self)@, key_event, final(self)@, cmd),
            *final(state) == *old(state),
    {
        self.handle_normal_mode(key_event)
    }

    fn handle_normal_mode(&mut self, key_event: KeyEvent) -> (cmd: ScreenCommand)
        ensures
            add_reacts(old(self)@, key_event, final(self)@, cmd),
    {
        match key_event.code {
            KeyCode::Char(c) => {
                if c == 'q' && self.focused_widget.is_none() {
                    return ScreenCommand::Close;
                }
                // Forwarded to the focused input, which accepts no edits yet.
                ScreenCommand::Stay
            },
            KeyCode::Tab => {
                self.focused_widget = match self.focused_widget {
                    Some(FocusedWidget::ShortcutInput) => Some(FocusedWidget::DescriptionInput),
                    Some(FocusedWidget::DescriptionInput) => Some(FocusedWidget::ShortcutInput),
                    None => Some(FocusedWidget::ShortcutInput),
                };
                ScreenCommand::Stay
            },
            KeyCode::Esc => {
                self.focused_widget = None;
                ScreenCommand::Stay
            },
            _ => ScreenCommand::Stay,
        }
    }
}

} // verus!
