use vstd::prelude::*;

use crate::lexer::Span;

verus! {

/// A message for the user, with the places in the source it is about.
pub struct Diagnostic {
    pub message: String,
    pub labels: Vec<Label>,
}

/// A place in the source that a diagnostic points at, with an optional
/// note.
pub struct Label {
    pub span: Span,
    pub message: Option<String>,
}

/// The message of `d` is `m`, and `d` points at no place.
pub open spec fn is_plain(d: Diagnostic, m: Seq<char>) -> bool {
    &&& d.message@ == m
    &&& d.labels@.len() == 0
}

/// The message of `d` is `m`, and `d` points, without a note, at `span`
/// alone.
pub open spec fn is_at(d: Diagnostic, m: Seq<char>, span: Span) -> bool {
    &&& d.message@ == m
    &&& d.labels@.len() == 1
    &&& d.labels@[0].span == span
    &&& d.labels@[0].message is None
}

impl Diagnostic {
    /// A diagnostic with the given message and no labels.
    pub fn from_message(message: String) -> (r: Self)
        ensures
            is_plain(r, message@),
    {
        Diagnostic { message, labels: Vec::new() }
    }

    /// A diagnostic with the given message that points at `span`.
    pub fn from_span(message: String, span: Span) -> (r: Self)
        ensures
            is_at(r, message@, span),
    {
        let mut labels: Vec<Label> = Vec::new();
        labels.push(Label { span, message: None });
        Diagnostic { message, labels }
    }
}

/// Turns an error into a diagnostic for the user.
pub trait ToDiagnostic {
    fn to_diagnostic(&self) -> Diagnostic;
}

} // verus!
