use vstd::prelude::*;

use crate::text::{decimal, push_decimal, string_of};

verus! {

/// Errors of the assembler.
#[derive(Debug, PartialEq, Eq, Structural)]
pub enum Error {
    IndexOutOfRange(usize),
    NakedBreak,
}

/// The text that describes an assembler error.
pub open spec fn spec_message(e: Error) -> Seq<char> {
    match e {
        Error::IndexOutOfRange(i) => "Index out of range: '"@ + decimal(i as nat),
        Error::NakedBreak => "Naked break"@,
    }
}

impl Error {
    /// The text that describes the error.
    pub fn message(&self) -> (r: String)
        ensures
            r@ == spec_message(*self),
    {
        match self {
            Error::IndexOutOfRange(i) => {
                let mut m = string_of("Index out of range: '");
                push_decimal(&mut m, *i);
                m
            },
            Error::NakedBreak => string_of("Naked break"),
        }
    }
}

} // verus!
