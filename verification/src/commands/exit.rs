//! Leaving the command loop.

use vstd::prelude::*;

use crate::commands::CommandResult;

verus! {

/// The exit command.
pub struct Exit;

impl Exit {
    /// The command's only decision: stop the loop.
    pub fn decide(&self) -> (r: CommandResult)
        ensures
            r is Exit,
    {
        CommandResult::Exit
    }
}

} // verus!
