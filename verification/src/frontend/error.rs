use vstd::prelude::*;

use crate::frontend::diagnostics::{is_at, is_plain, Diagnostic, ToDiagnostic};
use crate::lexer::Error as LexError;
use crate::parse::Error as ParseError;
use crate::text::string_of;

verus! {

/// The diagnostic of a lexer error: the error's own text, or, for input
/// that no token matches, a pointer at the place.
pub open spec fn lex_diagnosed(e: LexError, d: Diagnostic) -> bool {
    match e {
        LexError::NoMatchingToken(span) => is_at(d, "No matching token"@, span),
        _ => is_plain(d, crate::lexer::error::spec_message(e)),
    }
}

impl ToDiagnostic for LexError {
    fn to_diagnostic(&self) -> (r: Diagnostic)
        ensures
            lex_diagnosed(*self, r),
    {
        match self {
            LexError::NoMatchingToken(span) => Diagnostic::from_span(
                string_of("No matching token"),
                *span,
            ),
            _ => Diagnostic::from_message(self.message()),
        }
    }
}

/// Errors of the front end: of the lexer or of the parser.
#[derive(Debug)]
pub enum Error {
    Lex(LexError),
    Parse(ParseError),
}

impl ToDiagnostic for Error {
    fn to_diagnostic(&self) -> (r: Diagnostic)
        ensures
            match *self {
                Error::Lex(e) => lex_diagnosed(e, r),
                Error::Parse(e) => crate::parse::error::diagnosed(e, r),
            },
    {
        match self {
            Error::Lex(err) => err.to_diagnostic(),
            Error::Parse(err) => err.to_diagnostic(),
        }
    }
}

} // verus!
