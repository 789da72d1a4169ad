use vstd::prelude::*;

use crate::lexer::TokenType;
use crate::lox_core::Ordinal;

verus! {

/// The nonterminals of a grammar, each standing for one integer, together
/// with the kind of token that the grammar reads.
pub trait Rule: Ordinal {
    type TokenType: TokenType + Ordinal;
}

} // verus!
