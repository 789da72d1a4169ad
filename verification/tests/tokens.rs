use lox::frontend::LoxTokenKind;
use lox::lexer::TokenType;
use lox::lox_core::Ordinal;
use lox::parse::{LParseRule, LParseToken};

#[test]
fn ordinals_are_positions() {
    assert_eq!(LoxTokenKind::WhiteSpace.ord(), 0);
    assert_eq!(LoxTokenKind::Eof.ord(), LoxTokenKind::COUNT - 1);
    assert_eq!(LoxTokenKind::COUNT, 41);
    assert_eq!(LParseToken::COUNT, 17);
    assert_eq!(LParseToken::Ident.ord(), 13);
    assert_eq!(LParseRule::COUNT, 12);
    assert_eq!(LParseRule::Grammar.ord(), 11);
}

#[test]
fn token_types_know_eof_and_whitespace() {
    assert_eq!(LoxTokenKind::eof(), LoxTokenKind::Eof);
    assert_eq!(LoxTokenKind::whitespace(), LoxTokenKind::WhiteSpace);
    assert_eq!(LParseToken::eof(), LParseToken::Eof);
    assert_eq!(LParseToken::whitespace(), LParseToken::Whitespace);
}
