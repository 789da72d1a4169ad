use lox::lox_core::Ordinal;
use lox::lparse::first::first;
use lox::lparse::follow::follow;
use lox::lparse::{Grammar, Production, Symbol};
use lox::parse::{lparse_grammar, LParseRule, LParseToken};
use lox::parse::LParseRule as R;
use lox::parse::LParseToken as T;

fn row(table: &[Vec<bool>], rule: LParseRule) -> Vec<LParseToken> {
    let all = [
        LParseToken::LCurlyBrace,
        LParseToken::RCurlyBrace,
        LParseToken::LSquareBracket,
        LParseToken::RSquareBracket,
        LParseToken::LAngleBracket,
        LParseToken::RAngleBracket,
        LParseToken::Equals,
        LParseToken::Semicolon,
        LParseToken::Colon,
        LParseToken::Comma,
        LParseToken::RustImport,
        LParseToken::GoalRule,
        LParseToken::TokenType,
        LParseToken::Ident,
        LParseToken::EmbeddedRust,
        LParseToken::Whitespace,
        LParseToken::Eof,
    ];
    let flags = &table[rule.ord()];
    assert_eq!(flags.len(), LParseToken::COUNT);
    all.iter().copied().filter(|t| flags[t.ord()]).collect()
}

#[test]
fn lparse_grammar_has_its_productions() {
    let g = lparse_grammar();
    assert_eq!(g.target_rule(), LParseRule::Grammar);
    assert_eq!(g.productions().len(), 17);
    assert_eq!(g.productions()[2].rule, LParseRule::Node);
    assert_eq!(
        g.productions()[16].definition,
        vec![
            Symbol::Rule(LParseRule::Preamble),
            Symbol::Rule(LParseRule::SetGoalRule),
            Symbol::Rule(LParseRule::SetTokenType),
            Symbol::Rule(LParseRule::Rules),
        ]
    );
    assert!(g.rule_contains_epsilon(LParseRule::Nodes));
    assert!(g.rule_contains_epsilon(LParseRule::Preamble));
    assert!(!g.rule_contains_epsilon(LParseRule::Node));
    assert!(!g.rule_contains_epsilon(LParseRule::Grammar));
}

#[test]
fn first_sets_of_lparse_grammar() {
    let table = first(&lparse_grammar());
    assert_eq!(table.len(), LParseRule::COUNT);
    assert_eq!(row(&table, R::BoundLeaf), vec![T::LSquareBracket]);
    assert_eq!(row(&table, R::BoundRule), vec![T::LAngleBracket]);
    assert_eq!(row(&table, R::Node), vec![T::LSquareBracket, T::LAngleBracket]);
    assert_eq!(row(&table, R::Nodes), vec![T::LSquareBracket, T::LAngleBracket]);
    assert_eq!(
        row(&table, R::ProductionDefinition),
        vec![T::LSquareBracket, T::LAngleBracket, T::Equals]
    );
    assert_eq!(
        row(&table, R::ProductionDefinitions),
        vec![T::LSquareBracket, T::LAngleBracket, T::Equals]
    );
    assert_eq!(row(&table, R::Rule), vec![T::Ident]);
    assert_eq!(row(&table, R::Rules), vec![T::Ident]);
    assert_eq!(row(&table, R::SetGoalRule), vec![T::GoalRule]);
    assert_eq!(row(&table, R::SetTokenType), vec![T::TokenType]);
    assert_eq!(row(&table, R::Preamble), vec![T::RustImport]);
    // the preamble can be empty, so the goal rule keyword starts a grammar too
    assert_eq!(row(&table, R::Grammar), vec![T::RustImport, T::GoalRule]);
}

#[test]
fn follow_sets_of_lparse_grammar() {
    let table = follow(&lparse_grammar());
    assert_eq!(table.len(), LParseRule::COUNT);
    assert_eq!(row(&table, R::Grammar), vec![T::Eof]);
    assert_eq!(row(&table, R::Rules), vec![T::Eof]);
    assert_eq!(row(&table, R::Rule), vec![T::Ident, T::Eof]);
    assert_eq!(row(&table, R::SetTokenType), vec![T::Ident, T::Eof]);
    assert_eq!(row(&table, R::SetGoalRule), vec![T::TokenType]);
    assert_eq!(row(&table, R::Preamble), vec![T::GoalRule]);
    assert_eq!(row(&table, R::ProductionDefinitions), vec![T::RCurlyBrace]);
    assert_eq!(
        row(&table, R::ProductionDefinition),
        vec![T::RCurlyBrace, T::LSquareBracket, T::LAngleBracket, T::Equals]
    );
    assert_eq!(row(&table, R::Nodes), vec![T::Equals]);
    let node_follow = vec![T::LSquareBracket, T::LAngleBracket, T::Equals];
    assert_eq!(row(&table, R::Node), node_follow);
    assert_eq!(row(&table, R::BoundLeaf), node_follow);
    assert_eq!(row(&table, R::BoundRule), node_follow);
}

#[test]
fn first_looks_past_empty_rules_only() {
    // S := A 'x'; A := ; A := 'y';  =>  FIRST(S) = {x, y}
    let g = Grammar::new(
        R::Grammar,
        vec![
            Production { rule: R::Grammar, definition: vec![Symbol::Rule(R::Node), Symbol::Token(T::Comma)] },
            Production { rule: R::Node, definition: vec![] },
            Production { rule: R::Node, definition: vec![Symbol::Token(T::Colon)] },
            Production { rule: R::Rule, definition: vec![Symbol::Rule(R::Grammar), Symbol::Token(T::Semicolon)] },
        ],
    );
    let fi = first(&g);
    assert_eq!(row(&fi, R::Grammar), vec![T::Colon, T::Comma]);
    assert_eq!(row(&fi, R::Node), vec![T::Colon]);
    assert_eq!(row(&fi, R::Rule), vec![T::Colon, T::Comma]);
    assert_eq!(row(&fi, R::Nodes), Vec::<T>::new());
    let fo = follow(&g);
    assert_eq!(row(&fo, R::Grammar), vec![T::Semicolon, T::Eof]);
    assert_eq!(row(&fo, R::Node), vec![T::Comma]);
    assert_eq!(row(&fo, R::Rule), Vec::<T>::new());
}

#[test]
fn direct_first_sets_ignore_empty_rules() {
    let table = lox::parse::first::first(&lparse_grammar());
    assert_eq!(table.len(), LParseRule::COUNT);
    assert_eq!(row(&table, R::Node), vec![T::LSquareBracket, T::LAngleBracket]);
    assert_eq!(row(&table, R::Nodes), vec![T::LSquareBracket, T::LAngleBracket]);
    // unlike `first` of the LR tables, an empty list of nodes does not let `=` through
    assert_eq!(row(&table, R::ProductionDefinition), vec![T::LSquareBracket, T::LAngleBracket]);
    assert_eq!(row(&table, R::ProductionDefinitions), vec![T::LSquareBracket, T::LAngleBracket]);
    assert_eq!(row(&table, R::Rules), vec![T::Ident]);
    assert_eq!(row(&table, R::Grammar), vec![T::RustImport]);
    assert_eq!(row(&table, R::SetTokenType), vec![T::TokenType]);
}

#[test]
fn follow_through_an_empty_tail_is_the_rules_own() {
    // S := X Y; S := Y 'd'; Y := ;  =>  FOLLOW(X) = FOLLOW(S) = {eof}, and
    // 'd', which follows Y elsewhere, does not follow X.
    let g = Grammar::new(
        R::Grammar,
        vec![
            Production { rule: R::Grammar, definition: vec![Symbol::Rule(R::Node), Symbol::Rule(R::Nodes)] },
            Production { rule: R::Grammar, definition: vec![Symbol::Rule(R::Nodes), Symbol::Token(T::Comma)] },
            Production { rule: R::Nodes, definition: vec![] },
        ],
    );
    let fo = follow(&g);
    assert_eq!(row(&fo, R::Grammar), vec![T::Eof]);
    assert_eq!(row(&fo, R::Node), vec![T::Eof]);
    assert_eq!(row(&fo, R::Nodes), vec![T::Comma, T::Eof]);
}
