//! User input coming back from a rendered page.

use vstd::prelude::*;

verus! {

/// One user input from a page.
pub enum UiInput {
    /// The user pressed a button.
    Click,
    /// The user entered text in a text box.
    Text(String),
}

/// The mathematical value of a user input.
pub enum InputV {
    Click,
    Text(Seq<char>),
}

impl View for UiInput {
    type V = InputV;

    open spec fn view(&self) -> InputV {
        match self {
            UiInput::Click => InputV::Click,
            UiInput::Text(s) => InputV::Text(s@),
        }
    }
}

impl Clone for UiInput {
    fn clone(&self) -> (r: Self)
        ensures
            r@ == self@,
    {
        match self {
            UiInput::Click => UiInput::Click,
            UiInput::Text(s) => UiInput::Text(s.clone()),
        }
    }
}

} // verus!
