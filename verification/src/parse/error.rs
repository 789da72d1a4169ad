use vstd::prelude::*;

use crate::frontend::diagnostics::{is_at, is_plain, Diagnostic, ToDiagnostic};
use crate::lexer::Span;
use crate::text::string_of;

verus! {

/// Errors of the parser.
#[derive(Debug, Clone, Copy, PartialEq, Eq, Structural)]
pub enum Error {
    ExpectedToken(Span),
    UnexpectedToken(Span),
    ExcessProgram(Span),
    IncompleteProgram,
}

/// The diagnostic of a parse error.
pub open spec fn diagnosed(e: Error, d: Diagnostic) -> bool {
    match e {
        Error::ExpectedToken(span) => is_at(d, "Expected token"@, span),
        Error::UnexpectedToken(span) => is_at(d, "Unexpected token"@, span),
        Error::ExcessProgram(span) => is_at(d, "Unexpected excess characters"@, span),
        Error::IncompleteProgram => is_plain(d, "Incomplete program"@),
    }
}

impl ToDiagnostic for Error {
    fn to_diagnostic(&self) -> (r: Diagnostic)
        ensures
            diagnosed(*self, r),
    {
        match self {
            Error::ExpectedToken(span) => Diagnostic::from_span(string_of("Expected token"), *span),
            Error::UnexpectedToken(span) => Diagnostic::from_span(
                string_of("Unexpected token"),
                *span,
            ),
            Error::ExcessProgram(span) => Diagnostic::from_span(
                string_of("Unexpected excess characters"),
                *span,
            ),
            Error::IncompleteProgram => Diagnostic::from_message(string_of("Incomplete program")),
        }
    }
}

} // verus!
