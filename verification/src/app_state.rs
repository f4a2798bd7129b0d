//! The single mutable context lent to whichever screen is active: the
//! shortcut store plus transient cross-screen text.

use vstd::prelude::*;
use vstd::string::StringExecFns;

use crate::shortcuts::Shortcuts;

verus! {

/// The shared application state. Exactly one screen at a time borrows it.
pub struct AppState {
    pub shortcuts: Shortcuts,
    pub temp_text: String,
}

impl AppState {
    /// Wraps a store into the shared state, with the initial scratch text.
    pub fn new(shortcuts: Shortcuts) -> (s: AppState)
        ensures
            s.shortcuts == shortcuts,
            s.temp_text@ == "Hello world"@,
    {
        AppState { shortcuts, temp_text: String::from_str("Hello world") }
    }
}

} // verus!
