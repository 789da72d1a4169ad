use vstd::prelude::*;

use crate::lexer::TokenType;
use crate::lox_core::Ordinal;

verus! {

/// Interned text of an identifier, as the `lasso` interner hands it out.
pub type Ident = lasso::Spur;

/// The kinds of tokens of the Lox language.
#[derive(Clone, Copy, Debug, PartialEq, Eq, Hash, Structural)]
pub enum LoxTokenKind {
    WhiteSpace,
    LParen,
    RParen,
    LBrace,
    RBrace,
    LBracket,
    RBracket,
    Comma,
    Dot,
    Minus,
    Plus,
    Semicolon,
    Slash,
    Star,
    Bang,
    BangEqual,
    Equal,
    EqualEqual,
    Greater,
    GreaterEqual,
    Less,
    LessEqual,
    False,
    And,
    Class,
    Else,
    Fun,
    For,
    If,
    Nil,
    Or,
    Return,
    True,
    Var,
    While,
    Break,
    Super,
    Number,
    String,
    Ident,
    Eof,
}

impl Ordinal for LoxTokenKind {
    const COUNT: usize = 41;

    open spec fn spec_ord(self) -> nat {
        match self {
            LoxTokenKind::WhiteSpace => 0,
            LoxTokenKind::LParen => 1,
            LoxTokenKind::RParen => 2,
            LoxTokenKind::LBrace => 3,
            LoxTokenKind::RBrace => 4,
            LoxTokenKind::LBracket => 5,
            LoxTokenKind::RBracket => 6,
            LoxTokenKind::Comma => 7,
            LoxTokenKind::Dot => 8,
            LoxTokenKind::Minus => 9,
            LoxTokenKind::Plus => 10,
            LoxTokenKind::Semicolon => 11,
            LoxTokenKind::Slash => 12,
            LoxTokenKind::Star => 13,
            LoxTokenKind::Bang => 14,
            LoxTokenKind::BangEqual => 15,
            LoxTokenKind::Equal => 16,
            LoxTokenKind::EqualEqual => 17,
            LoxTokenKind::Greater => 18,
            LoxTokenKind::GreaterEqual => 19,
            LoxTokenKind::Less => 20,
            LoxTokenKind::LessEqual => 21,
            LoxTokenKind::False => 22,
            LoxTokenKind::And => 23,
            LoxTokenKind::Class => 24,
            LoxTokenKind::Else => 25,
            LoxTokenKind::Fun => 26,
            LoxTokenKind::For => 27,
            LoxTokenKind::If => 28,
            LoxTokenKind::Nil => 29,
            LoxTokenKind::Or => 30,
            LoxTokenKind::Return => 31,
            LoxTokenKind::True => 32,
            LoxTokenKind::Var => 33,
            LoxTokenKind::While => 34,
            LoxTokenKind::Break => 35,
            LoxTokenKind::Super => 36,
            LoxTokenKind::Number => 37,
            LoxTokenKind::String => 38,
            LoxTokenKind::Ident => 39,
            LoxTokenKind::Eof => 40,
        }
    }

    fn ord(&self) -> (r: usize) {
        match self {
            LoxTokenKind::WhiteSpace => 0,
            LoxTokenKind::LParen => 1,
            LoxTokenKind::RParen => 2,
            LoxTokenKind::LBrace => 3,
            LoxTokenKind::RBrace => 4,
            LoxTokenKind::LBracket => 5,
            LoxTokenKind::RBracket => 6,
            LoxTokenKind::Comma => 7,
            LoxTokenKind::Dot => 8,
            LoxTokenKind::Minus => 9,
            LoxTokenKind::Plus => 10,
            LoxTokenKind::Semicolon => 11,
            LoxTokenKind::Slash => 12,
            LoxTokenKind::Star => 13,
            LoxTokenKind::Bang => 14,
            LoxTokenKind::BangEqual => 15,
            LoxTokenKind::Equal => 16,
            LoxTokenKind::EqualEqual => 17,
            LoxTokenKind::Greater => 18,
            LoxTokenKind::GreaterEqual => 19,
            LoxTokenKind::Less => 20,
            LoxTokenKind::LessEqual => 21,
            LoxTokenKind::False => 22,
            LoxTokenKind::And => 23,
            LoxTokenKind::Class => 24,
            LoxTokenKind::Else => 25,
            LoxTokenKind::Fun => 26,
            LoxTokenKind::For => 27,
            LoxTokenKind::If => 28,
            LoxTokenKind::Nil => 29,
            LoxTokenKind::Or => 30,
            LoxTokenKind::Return => 31,
            LoxTokenKind::True => 32,
            LoxTokenKind::Var => 33,
            LoxTokenKind::While => 34,
            LoxTokenKind::Break => 35,
            LoxTokenKind::Super => 36,
            LoxTokenKind::Number => 37,
            LoxTokenKind::String => 38,
            LoxTokenKind::Ident => 39,
            LoxTokenKind::Eof => 40,
        }
    }

    proof fn lemma_ord_bound(a: Self) {
    }

    proof fn lemma_ord_injective(a: Self, b: Self) {
    }
}

impl TokenType for LoxTokenKind {
    open spec fn spec_eof() -> Self {
        LoxTokenKind::Eof
    }

    open spec fn spec_whitespace() -> Self {
        LoxTokenKind::WhiteSpace
    }

    fn eof() -> (r: Self)
        ensures
            r == LoxTokenKind::Eof,
    {
        LoxTokenKind::Eof
    }

    fn whitespace() -> (r: Self)
        ensures
            r == LoxTokenKind::WhiteSpace,
    {
        LoxTokenKind::WhiteSpace
    }
}

} // verus!
