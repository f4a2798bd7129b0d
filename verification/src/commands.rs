//! The commands of the line-based interface. Each command's decision core
//! lives here; prompting, table printing and saving stay with the
//! embedding program, which hands the typed values in as plain arguments.

pub mod add;
pub mod exit;
pub mod help;
pub mod list;
pub mod remove;

use vstd::prelude::*;

verus! {

/// Whether the command loop goes on after a command has run.
pub enum CommandResult {
    Continue,
    Exit,
}

} // verus!
