use vstd::prelude::*;

use super::span::Span;
use crate::text::{decimal, push_char, push_decimal, string_of};

verus! {

/// Errors in a lexical specification or in lexed input.
#[derive(Debug)]
pub enum Error {
    UnterminatedEscape(String),
    UnterminatedRegex(String),
    MalformattedRange(String),
    UnorderedRange(char, char),
    NoMatchingToken(Span),
}

/// The text that describes an error; a span is written as `start..end`.
pub open spec fn spec_message(e: Error) -> Seq<char> {
    match e {
        Error::UnterminatedEscape(s) => "Unterminated escape character: '"@ + s@,
        Error::UnterminatedRegex(s) => "Unterminated regex: '"@ + s@,
        Error::MalformattedRange(s) => "Malformatted range: '"@ + s@,
        Error::UnorderedRange(a, b) => "Unordered range: '"@ + seq![a] + "'-'"@ + seq![b] + "'"@,
        Error::NoMatchingToken(span) => "At pos "@ + decimal(span.start as nat) + ".."@ + decimal(
            span.end as nat,
        ) + ", no matching token"@,
    }
}

impl Error {
    /// The text that describes the error; a span is written as
    /// `start..end`.
    pub fn message(&self) -> (r: String)
        ensures
            r@ == spec_message(*self),
    {
        match self {
            Error::UnterminatedEscape(s) => {
                let mut m = string_of("Unterminated escape character: '");
                m.append(s.as_str());
                m
            },
            Error::UnterminatedRegex(s) => {
                let mut m = string_of("Unterminated regex: '");
                m.append(s.as_str());
                m
            },
            Error::MalformattedRange(s) => {
                let mut m = string_of("Malformatted range: '");
                m.append(s.as_str());
                m
            },
            Error::UnorderedRange(a, b) => {
                let mut m = string_of("Unordered range: '");
                push_char(&mut m, *a);
                m.append("'-'");
                push_char(&mut m, *b);
                m.append("'");
                m
            },
            Error::NoMatchingToken(span) => {
                let mut m = string_of("At pos ");
                push_decimal(&mut m, span.start);
                m.append("..");
                push_decimal(&mut m, span.end);
                m.append(", no matching token");
                m
            },
        }
    }
}

} // verus!
