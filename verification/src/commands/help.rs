//! Showing the command summary.

use vstd::prelude::*;

use crate::commands::CommandResult;

verus! {

/// The help command.
pub struct Help;

impl Help {
    /// The command's only decision: print (in the embedding program) and
    /// go on.
    pub fn decide(&self) -> (r: CommandResult)
        ensures
            r is Continue,
    {
        CommandResult::Continue
    }
}

} // verus!
