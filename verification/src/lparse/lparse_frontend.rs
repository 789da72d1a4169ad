use vstd::prelude::*;

use crate::lexer::TokenType;
use crate::lox_core::Ordinal;

verus! {

/// Interned text, as the `lasso` interner hands it out.
pub type Ident = lasso::Spur;

/// The tokens of the grammar description language with repetitions (`<name: rule*>`)
/// and directives next to imports.
#[derive(Clone, Copy, Debug, PartialEq, Eq, Hash, Structural)]
pub enum LParseToken {
    LCurlyBrace,
    RCurlyBrace,
    LSquareBracket,
    RSquareBracket,
    LAngleBracket,
    RAngleBracket,
    Equals,
    Semicolon,
    Colon,
    Comma,
    RustImport,
    GoalRule,
    TokenType,
    Ident,
    EmbeddedRust,
    Whitespace,
    Eof,
    Asterisk,
    RustDirective,
}

impl Ordinal for LParseToken {
    const COUNT: usize = 19;

    open spec fn spec_ord(self) -> nat {
        match self {
            LParseToken::LCurlyBrace => 0,
            LParseToken::RCurlyBrace => 1,
            LParseToken::LSquareBracket => 2,
            LParseToken::RSquareBracket => 3,
            LParseToken::LAngleBracket => 4,
            LParseToken::RAngleBracket => 5,
            LParseToken::Equals => 6,
            LParseToken::Semicolon => 7,
            LParseToken::Colon => 8,
            LParseToken::Comma => 9,
            LParseToken::RustImport => 10,
            LParseToken::GoalRule => 11,
            LParseToken::TokenType => 12,
            LParseToken::Ident => 13,
            LParseToken::EmbeddedRust => 14,
            LParseToken::Whitespace => 15,
            LParseToken::Eof => 16,
            LParseToken::Asterisk => 17,
            LParseToken::RustDirective => 18,
        }
    }

    fn ord(&self) -> (r: usize) {
        match self {
            LParseToken::LCurlyBrace => 0,
            LParseToken::RCurlyBrace => 1,
            LParseToken::LSquareBracket => 2,
            LParseToken::RSquareBracket => 3,
            LParseToken::LAngleBracket => 4,
            LParseToken::RAngleBracket => 5,
            LParseToken::Equals => 6,
            LParseToken::Semicolon => 7,
            LParseToken::Colon => 8,
            LParseToken::Comma => 9,
            LParseToken::RustImport => 10,
            LParseToken::GoalRule => 11,
            LParseToken::TokenType => 12,
            LParseToken::Ident => 13,
            LParseToken::EmbeddedRust => 14,
            LParseToken::Whitespace => 15,
            LParseToken::Eof => 16,
            LParseToken::Asterisk => 17,
            LParseToken::RustDirective => 18,
        }
    }

    proof fn lemma_ord_bound(a: Self) {
    }

    proof fn lemma_ord_injective(a: Self, b: Self) {
    }
}

impl TokenType for LParseToken {
    open spec fn spec_eof() -> Self {
        LParseToken::Eof
    }

    open spec fn spec_whitespace() -> Self {
        LParseToken::Whitespace
    }

    fn eof() -> (r: Self) {
        LParseToken::Eof
    }

    fn whitespace() -> (r: Self) {
        LParseToken::Whitespace
    }
}

/// `[bind_to: token]`: a token, bound to a name.
#[derive(Debug, Clone, Copy, PartialEq, Eq)]
pub struct BoundLeaf {
    pub token: Ident,
    pub bind_to: Ident,
}

/// `<bind_to: rule>`: a rule, bound to a name.
#[derive(Debug, Clone, Copy, PartialEq, Eq)]
pub struct BoundRule {
    pub rule: Ident,
    pub bind_to: Ident,
}

/// One bound element of a production: a token, a rule, or a repetition of
/// a rule (`<bind_to: rule*>`).
#[derive(Debug, Clone, Copy, PartialEq, Eq)]
pub enum LNode {
    Leaf(BoundLeaf),
    Rule(BoundRule),
    Kleene(BoundRule),
}

/// A production: its bound elements and the code that builds its value.
#[derive(Debug)]
pub struct ProductionDefinition {
    pub definition: Vec<LNode>,
    pub semantic_action: Ident,
}

/// A rule: its name, the type of its value if one is written, and its
/// productions.
#[derive(Debug)]
pub struct LRule {
    pub name: Ident,
    pub return_type: Option<Ident>,
    pub productions: Vec<ProductionDefinition>,
}

/// A whole grammar description.
#[derive(Debug)]
pub struct LGrammar {
    pub preamble: Vec<lasso::Spur>,
    pub goal_rule: Ident,
    pub token_type: Ident,
    pub rules: Vec<LRule>,
}

} // verus!
