//! Deleting a shortcut from the ranked table.

use vstd::prelude::*;

use crate::app_state::AppState;
use crate::shortcuts::lemma_rank_position;
use crate::shortcuts::outranked_by;

verus! {

/// The remove command.
pub struct Remove;

impl Remove {
    /// The command's work once the chosen row number has been read: the
    /// record at that display position — the one outranked by exactly
    /// `number - 1` others — leaves the store, the records after it
    /// shifting down by one. A row number outside the table changes
    /// nothing. The caller saves afterwards.
    pub fn apply(state: &mut AppState, number: i32) -> (removed: bool)
        ensures
            final(state).temp_text == old(state).temp_text,
            final(state).shortcuts.spec_save_path() == old(state).shortcuts.spec_save_path(),
            removed == (1 <= number <= old(state).shortcuts@.len()),
            !removed ==> final(state).shortcuts@ == old(state).shortcuts@,
            removed ==> exists|t: int|
                {
                    &&& 0 <= t < old(state).shortcuts@.len()
                    &&& (#[trigger] outranked_by(old(state).shortcuts@, t)).len() == number - 1
                    &&& final(state).shortcuts@ == old(state).shortcuts@.remove(t)
                },
    {
        let all = state.shortcuts.get_all_shortcuts();
        let len = all.len();
        proof {
            assert(state.shortcuts@.len() == all@.len());
        }
        if number < 1 {
            return false;
        }
        let idx = (number as usize) - 1;
        if idx >= len {
            return false;
        }
        let sorted = state.shortcuts.get_sorted_indexes();
        let target = sorted[idx];
        proof {
            lemma_rank_position(state.shortcuts@, sorted@, idx as int);
        }
        let _ = state.shortcuts.remove_at(target);
        proof {
            let ghost t = sorted@[idx as int] as int;
            assert(outranked_by(old(state).shortcuts@, t).len() == number - 1);
            assert(final(state).shortcuts@ == old(state).shortcuts@.remove(t));
        }
        true
    }
}

} // verus!
