use std::hash::Hash;
use vstd::prelude::*;

use super::span::Span;

verus! {

/// The kinds of tokens a lexer produces, with the two that every token
/// language has.
pub trait TokenType: Hash + Eq + Clone + Copy + PartialEq + Sized {
    /// The token that ends the input.
    spec fn spec_eof() -> Self;

    /// The token of blanks between other tokens.
    spec fn spec_whitespace() -> Self;

    /// The token that ends the input.
    fn eof() -> (r: Self)
        ensures
            r == Self::spec_eof(),
    ;

    /// The token of blanks between other tokens.
    fn whitespace() -> (r: Self)
        ensures
            r == Self::spec_whitespace(),
    ;
}

/// The interned text of a token, as the `lasso` interner hands it out.
#[verifier::external_type_specification]
#[verifier::external_body]
pub struct ExSpur(lasso::Spur);

/// `Spur` is `Copy`, and its `Clone` is the derived one: a clone is the
/// same key.
pub assume_specification[ <lasso::Spur as Clone>::clone ](s: &lasso::Spur) -> (r: lasso::Spur)
    ensures
        r == *s,
;

/// A token read from the input: its interned text, its kind and where it
/// stands.
#[derive(Copy, Clone, Debug, PartialEq, Eq, Hash)]
pub struct Token<T: TokenType> {
    pub lexeme: lasso::Spur,
    pub token_type: T,
    pub span: Span,
}

} // verus!
