//! Errors of evaluation.

use vstd::prelude::*;

use crate::css::{css_views, CssV, Value};

verus! {

/// An error of evaluation.
#[derive(Debug, PartialEq, Eq)]
pub enum Error {
    /// A variable that no scope defines.
    Undefined(String),
    /// A function got arguments of other types than it takes: the text
    /// names the types it takes, and the values are those it got.
    BadArguments(&'static str, Vec<Value>),
    /// A call of the user function of this name nested deeper than the
    /// scopes allow.
    CallDepth(String),
}

/// The value of an [`Error`]. `Refused` stands for an input that the
/// library leaves out because evaluating it panics: an index that
/// overflows, a negative count of characters to take, a negation that
/// overflows.
pub enum ErrorV {
    Undefined(Seq<char>),
    BadArguments(Seq<char>, Seq<CssV>),
    CallDepth(Seq<char>),
    Refused,
}

impl View for Error {
    type V = ErrorV;

    open spec fn view(&self) -> ErrorV {
        match self {
            Error::Undefined(name) => ErrorV::Undefined(name@),
            Error::BadArguments(kinds, values) => ErrorV::BadArguments(kinds@, css_views(values@)),
            Error::CallDepth(name) => ErrorV::CallDepth(name@),
        }
    }
}

} // verus!
