//! Values as they are written in Sass, before evaluation.

use vstd::prelude::*;

use crate::value::Quotes;

pub mod formal_args;
pub mod value;

verus! {

/// A string as written: its text and its quotes.
#[derive(Clone, Debug, PartialEq, Eq, PartialOrd)]
pub struct SassString {
    pub raw: String,
    pub quotes: Quotes,
}

impl SassString {
    /// The text of an unquoted string; quoted strings have none.
    pub fn single_raw(&self) -> (r: Option<&str>)
        ensures
            match r {
                Some(s) => self.quotes == Quotes::Unquoted && s@ == self.raw@,
                None => self.quotes != Quotes::Unquoted,
            },
    {
        if self.quotes == Quotes::Unquoted {
            Some(self.raw.as_str())
        } else {
            None
        }
    }

    /// The text and the quotes of the string.
    pub fn evaluate(&self) -> (r: (String, Quotes))
        ensures
            r.0@ == self.raw@,
            r.1 == self.quotes,
    {
        (self.raw.clone(), self.quotes)
    }
}

/// A function that a stylesheet defines: its declared arguments and the
/// value that it returns.
#[derive(Debug, PartialEq, Eq)]
pub struct Function {
    pub args: formal_args::FormalArgs,
    pub body: value::Value,
}

/// The arguments of a call, each with its name where it is given by name.
#[derive(Debug, PartialEq, Eq, PartialOrd)]
pub struct CallArgs(pub Vec<(Option<String>, value::Value)>);

} // verus!
