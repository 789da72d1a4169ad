use vstd::prelude::*;

use crate::assembler;
use crate::frontend::diagnostics::{is_plain, Diagnostic, ToDiagnostic};

verus! {

/// Errors of the code generator.
#[derive(Debug, PartialEq, Eq, Structural)]
pub enum Error {
    AssemblerError(assembler::Error),
}

/// The text that describes a code generator error: that of its cause.
pub open spec fn spec_message(e: Error) -> Seq<char> {
    match e {
        Error::AssemblerError(a) => assembler::error::spec_message(a),
    }
}

impl Error {
    /// The text that describes the error.
    pub fn message(&self) -> (r: String)
        ensures
            r@ == spec_message(*self),
    {
        match self {
            Error::AssemblerError(a) => a.message(),
        }
    }
}

impl From<assembler::Error> for Error {
    fn from(e: assembler::Error) -> (r: Self)
        ensures
            r == Error::AssemblerError(e),
    {
        Error::AssemblerError(e)
    }
}

impl vstd::std_specs::convert::FromSpecImpl<assembler::Error> for Error {
    open spec fn obeys_from_spec() -> bool {
        true
    }

    open spec fn from_spec(e: assembler::Error) -> Self {
        Error::AssemblerError(e)
    }
}

impl ToDiagnostic for Error {
    fn to_diagnostic(&self) -> (r: Diagnostic)
        ensures
            is_plain(r, spec_message(*self)),
    {
        Diagnostic::from_message(self.message())
    }
}

} // verus!
