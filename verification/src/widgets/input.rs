//! A single-line labelled text input.

use vstd::prelude::*;
use vstd::string::StringExecFns;

verus! {

/// A labelled text box that can hold keyboard focus.
pub struct Input {
    label: String,
    text: String,
    focused: bool,
}

/// The mathematical value of an [`Input`].
pub ghost struct InputView {
    pub label: Seq<char>,
    pub text: Seq<char>,
    pub focused: bool,
}

impl View for Input {
    type V = InputView;

    closed spec fn view(&self) -> InputView {
        InputView { label: self.label@, text: self.text@, focused: self.focused }
    }
}

impl Input {
    /// Builds an unfocused input with the given label and starting text.
    pub fn new(label: &str, text: &str) -> (r: Input)
        ensures
            r@ == (InputView { label: label@, text: text@, focused: false }),
    {
        Input { label: label.to_owned(), text: text.to_owned(), focused: false }
    }

    /// Grants or removes keyboard focus.
    pub fn set_focused(&mut self, focused: bool)
        ensures
            final(self)@ == (InputView { focused, ..old(self)@ }),
    {
        self.focused = focused
    }

    /// The input's label. (Not its text: callers that want what the user
    /// typed read [`Input::get_text`].)
    pub fn get_value(&self) -> (s: &str)
        ensures
            s@ == self@.label,
    {
        &self.label
    }

    /// The text the input currently holds.
    pub fn get_text(&self) -> (s: &str)
        ensures
            s@ == self@.text,
    {
        &self.text
    }

    /// Whether the input holds keyboard focus.
    pub fn get_focused(&self) -> (f: bool)
        ensures
            f == self@.focused,
    {
        self.focused
    }
}

} // verus!
