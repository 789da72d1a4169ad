use std::collections::VecDeque;
use vstd::prelude::*;

use crate::lexer::TokenType;
use crate::lox_core::Ordinal;

verus! {

/// Interned text, as the `lasso` interner hands it out.
pub type Ident = lasso::Spur;

/// The tokens of the grammar description language.
#[derive(Clone, Copy, Debug, PartialEq, Eq, Hash, Structural)]
pub enum LParseToken {
    LCurlyBrace,
    RCurlyBrace,
    LSquareBracket,
    RSquareBracket,
    LAngleBracket,
    RAngleBracket,
    Equals,
    Semicolon,
    Colon,
    Comma,
    RustImport,
    GoalRule,
    TokenType,
    Ident,
    EmbeddedRust,
    Whitespace,
    Eof,
}

impl Ordinal for LParseToken {
    const COUNT: usize = 17;

    open spec fn spec_ord(self) -> nat {
        match self {
            LParseToken::LCurlyBrace => 0,
            LParseToken::RCurlyBrace => 1,
            LParseToken::LSquareBracket => 2,
            LParseToken::RSquareBracket => 3,
            LParseToken::LAngleBracket => 4,
            LParseToken::RAngleBracket => 5,
            LParseToken::Equals => 6,
            LParseToken::Semicolon => 7,
            LParseToken::Colon => 8,
            LParseToken::Comma => 9,
            LParseToken::RustImport => 10,
            LParseToken::GoalRule => 11,
            LParseToken::TokenType => 12,
            LParseToken::Ident => 13,
            LParseToken::EmbeddedRust => 14,
            LParseToken::Whitespace => 15,
            LParseToken::Eof => 16,
        }
    }

    fn ord(&self) -> (r: usize) {
        match self {
            LParseToken::LCurlyBrace => 0,
            LParseToken::RCurlyBrace => 1,
            LParseToken::LSquareBracket => 2,
            LParseToken::RSquareBracket => 3,
            LParseToken::LAngleBracket => 4,
            LParseToken::RAngleBracket => 5,
            LParseToken::Equals => 6,
            LParseToken::Semicolon => 7,
            LParseToken::Colon => 8,
            LParseToken::Comma => 9,
            LParseToken::RustImport => 10,
            LParseToken::GoalRule => 11,
            LParseToken::TokenType => 12,
            LParseToken::Ident => 13,
            LParseToken::EmbeddedRust => 14,
            LParseToken::Whitespace => 15,
            LParseToken::Eof => 16,
        }
    }

    proof fn lemma_ord_bound(a: Self) {
    }

    proof fn lemma_ord_injective(a: Self, b: Self) {
    }
}

impl TokenType for LParseToken {
    open spec fn spec_eof() -> Self {
        LParseToken::Eof
    }

    open spec fn spec_whitespace() -> Self {
        LParseToken::Whitespace
    }

    fn eof() -> (r: Self)
        ensures
            r == LParseToken::Eof,
    {
        LParseToken::Eof
    }

    fn whitespace() -> (r: Self)
        ensures
            r == LParseToken::Whitespace,
    {
        LParseToken::Whitespace
    }
}

/// `[bind_to: token]`: a token, bound to a name.
#[derive(Debug, Clone, Copy, PartialEq, Eq)]
pub struct BoundLeaf {
    pub token: Ident,
    pub bind_to: Ident,
}

/// `<bind_to: rule>`: a rule, bound to a name.
#[derive(Debug, Clone, Copy, PartialEq, Eq)]
pub struct BoundRule {
    pub rule: Ident,
    pub bind_to: Ident,
}

/// One bound element of a production.
#[derive(Debug, Clone, Copy, PartialEq, Eq)]
pub enum LNode {
    Leaf(BoundLeaf),
    Rule(BoundRule),
}

/// A production: its bound elements and the code that builds its value.
#[derive(Debug)]
pub struct ProductionDefinition {
    pub definition: VecDeque<LNode>,
    pub semantic_action: Ident,
}

/// A rule: its name, the type of its value and its productions.
#[derive(Debug)]
pub struct LRule {
    pub name: Ident,
    pub return_type: Ident,
    pub productions: VecDeque<ProductionDefinition>,
}

/// A whole grammar description.
#[derive(Debug)]
pub struct LGrammar {
    pub preamble: VecDeque<lasso::Spur>,
    pub goal_rule: Ident,
    pub token_type: Ident,
    pub rules: VecDeque<LRule>,
}

} // verus!
