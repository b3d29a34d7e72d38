//! The library's error type.

use vstd::prelude::*;

verus! {

/// An error of the library, carrying a human-readable message.
#[derive(Debug)]
pub struct AppError {
    details: String,
}

impl View for AppError {
    type V = Seq<char>;

    closed spec fn view(&self) -> Seq<char> {
        self.details@
    }
}

impl AppError {
    /// Builds an error whose message is `msg`.
    pub fn new(msg: &str) -> (r: Self)
        ensures
            r@ == msg@,
    {
        AppError { details: String::from_str(msg) }
    }

    /// The error's message.
    pub fn description(&self) -> (r: &str)
        ensures
            r@ == self@,
    {
        self.details.as_str()
    }
}

} // verus!
