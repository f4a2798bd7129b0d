//! Looking a shortcut up from the ranked table.

use vstd::prelude::*;

use crate::app_state::AppState;
use crate::shortcuts::incremented;
use crate::shortcuts::lemma_rank_position;
use crate::shortcuts::outranked_by;

verus! {

/// The list command.
pub struct List;

impl List {
    /// The command's work once the chosen row number has been read: the
    /// record at that display position — the one outranked by exactly
    /// `number - 1` others — gets its lookup count raised by five. A row
    /// number outside the table changes nothing. The caller saves
    /// afterwards.
    pub fn apply(state: &mut AppState, number: i32) -> (updated: bool)
        requires
            forall|i: int|
                0 <= i < old(state).shortcuts@.len() ==> (#[trigger] old(
                    state,
                ).shortcuts@[i].lookup_count) + 5 <= u32::MAX,
        ensures
            final(state).temp_text == old(state).temp_text,
            final(state).shortcuts.spec_save_path() == old(state).shortcuts.spec_save_path(),
            updated == (1 <= number <= old(state).shortcuts@.len()),
            !updated ==> final(state).shortcuts@ == old(state).shortcuts@,
            updated ==> exists|t: int|
                {
                    &&& 0 <= t < old(state).shortcuts@.len()
                    &&& (#[trigger] outranked_by(old(state).shortcuts@, t)).len() == number - 1
                    &&& final(state).shortcuts@ == incremented(old(state).shortcuts@, t, 5)
                },
    {
        let all = state.shortcuts.get_all_shortcuts();
        let len = all.len();
        proof {
            assert(state.shortcuts@.len() == all@.len());
        }
        if number < 1 {
            return false;
        }
        let idx = (number as usize) - 1;
        if idx >= len {
            return false;
        }
        let sorted = state.shortcuts.get_sorted_indexes();
        let target = sorted[idx];
        proof {
            lemma_rank_position(state.shortcuts@, sorted@, idx as int);
        }
        state.shortcuts.increment_lookup_count(target, 5);
        proof {
            let ghost t = sorted@[idx as int] as int;
            assert(outranked_by(old(state).shortcuts@, t).len() == number - 1);
            assert(final(state).shortcuts@ == incremented(old(state).shortcuts@, t, 5));
        }
        true
    }
}

} // verus!
