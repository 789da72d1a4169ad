use vstd::prelude::*;

use super::compiler_error::Error as CompileError;
use super::error::Error as ParseError;
use crate::frontend::diagnostics::{is_plain, Diagnostic, ToDiagnostic};
use crate::frontend::error::lex_diagnosed;
use crate::lexer::Error as LexError;

verus! {

#[verifier::external_type_specification]
#[verifier::external_body]
pub struct ExIoError(std::io::Error);

/// The text of an I/O error (`<std::io::Error as Display>::fmt`, through
/// `to_string`). What it says depends on the operating system, so nothing
/// is stated of it.
#[verifier::external_body]
fn io_error_text(e: &std::io::Error) -> String {
    e.to_string()
}

/// Errors of generating a parser from a grammar description.
#[derive(Debug)]
pub enum ParseGenerateError {
    Lex(LexError),
    Parse(ParseError),
    Compile(CompileError),
    IoError(std::io::Error),
}

impl ToDiagnostic for ParseGenerateError {
    fn to_diagnostic(&self) -> (r: Diagnostic)
        ensures
            match self {
                ParseGenerateError::Lex(e) => lex_diagnosed(*e, r),
                ParseGenerateError::Parse(e) => super::error::diagnosed(*e, r),
                ParseGenerateError::Compile(e) => is_plain(r, super::compiler_error::spec_message(*e)),
                ParseGenerateError::IoError(_) => r.labels@.len() == 0,
            },
    {
        match self {
            ParseGenerateError::Lex(l) => l.to_diagnostic(),
            ParseGenerateError::Parse(p) => p.to_diagnostic(),
            ParseGenerateError::IoError(io) => Diagnostic::from_message(io_error_text(io)),
            ParseGenerateError::Compile(compile) => Diagnostic::from_message(compile.message()),
        }
    }
}

} // verus!
