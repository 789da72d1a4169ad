use vstd::prelude::*;

use crate::text::string_of;

verus! {

/// Errors of the parser generator's code emission.
#[derive(Debug)]
pub enum Error {
    UnboundRule(String),
}

/// The text that describes the error.
pub open spec fn spec_message(e: Error) -> Seq<char> {
    match e {
        Error::UnboundRule(rule) => "Referenced rule "@ + rule@ + " does not exist"@,
    }
}

impl Error {
    /// The text that describes the error.
    pub fn message(&self) -> (r: String)
        ensures
            r@ == spec_message(*self),
    {
        match self {
            Error::UnboundRule(rule) => {
                let mut m = string_of("Referenced rule ");
                m.append(rule.as_str());
                m.append(" does not exist");
                m
            },
        }
    }
}

} // verus!
