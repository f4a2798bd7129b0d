//! Adding a new shortcut from two typed lines.

use vstd::prelude::*;

use crate::app_state::AppState;
use crate::commands::CommandResult;
use crate::shortcuts::Shortcut;
use crate::shortcuts::ShortcutView;

verus! {

/// The add command.
pub struct Add;

impl Add {
    /// The command's work once both lines have been read: a record with
    /// the typed combination and description, never looked up yet, appended
    /// at the end of the store. The caller saves afterwards.
    pub fn apply(state: &mut AppState, key_combo: String, description: String) -> (r:
        CommandResult)
        ensures
            final(state).shortcuts@ == old(state).shortcuts@.push(
                ShortcutView { lookup_count: 0, key_combo: key_combo@, description: description@ },
            ),
            final(state).shortcuts.spec_save_path() == old(state).shortcuts.spec_save_path(),
            final(state).temp_text == old(state).temp_text,
            r is Continue,
    {
        let ghost expected = ShortcutView {
            lookup_count: 0,
            key_combo: key_combo@,
            description: description@,
        };
        let new_shortcut = Shortcut::from(key_combo, description);
        proof {
            assert(new_shortcut@ == expected);
        }
        state.shortcuts.add_shortcut(new_shortcut);
        CommandResult::Continue
    }
}

} // verus!
