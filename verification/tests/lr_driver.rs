use lasso::Rodeo;
use lox::lexer::{Span, Token};
use lox::lox_core::Ordinal;
use lox::lparse::parser::symbol_column;
use lox::lparse::{
    lr_parse, lr_parse_within, Action, Grammar, Node, ParseError, Production, ProductionId, StateId, Symbol,
};
use lox::parse::generated_lparse_parser::ParseRule;
use lox::parse::lparse_frontend::LParseToken;

// Preamble := ;  Preamble := RustImport Preamble ;
fn preamble_grammar() -> Grammar<ParseRule> {
    Grammar::new(
        ParseRule::Preamble,
        vec![
            Production { rule: ParseRule::Preamble, definition: vec![] },
            Production {
                rule: ParseRule::Preamble,
                definition: vec![
                    Symbol::Token(LParseToken::RustImport),
                    Symbol::Rule(ParseRule::Preamble),
                ],
            },
        ],
    )
}

fn tables() -> (Vec<Vec<Action>>, Vec<Vec<Option<StateId>>>) {
    let tokens = LParseToken::COUNT;
    let symbols = LParseToken::COUNT + ParseRule::COUNT;
    let mut action = vec![vec![Action::Shift; tokens]; 3];
    let mut goto = vec![vec![None; symbols]; 3];
    let eof = LParseToken::Eof.ord();
    action[0][eof] = Action::Accept(ProductionId(0));
    action[1][eof] = Action::Reduce(ProductionId(0));
    action[2][eof] = Action::Accept(ProductionId(1));
    let import = symbol_column::<ParseRule>(Symbol::Token(LParseToken::RustImport));
    goto[0][import] = Some(StateId(1));
    goto[1][import] = Some(StateId(1));
    goto[1][symbol_column::<ParseRule>(Symbol::Rule(ParseRule::Preamble))] = Some(StateId(2));
    (action, goto)
}

fn token(rodeo: &mut Rodeo, kind: LParseToken, at: usize) -> Token<LParseToken> {
    Token { lexeme: rodeo.get_or_intern("t"), token_type: kind, span: Span { start: at, end: at + 1 } }
}

#[test]
fn lr_parse_accepts_empty_input() {
    let mut rodeo = Rodeo::new();
    let (action, goto) = tables();
    let toks = vec![token(&mut rodeo, LParseToken::Eof, 0)];
    match lr_parse(&preamble_grammar(), &action, &goto, StateId(0), &toks) {
        Ok(Node::Parent(p)) => {
            assert_eq!(p.rule, ParseRule::Preamble);
            assert!(p.children.is_empty());
        },
        _ => panic!("expected a preamble"),
    }
}

#[test]
fn lr_parse_shifts_and_reduces() {
    let mut rodeo = Rodeo::new();
    let (action, goto) = tables();
    let toks = vec![token(&mut rodeo, LParseToken::RustImport, 0), token(&mut rodeo, LParseToken::Eof, 1)];
    match lr_parse(&preamble_grammar(), &action, &goto, StateId(0), &toks) {
        Ok(Node::Parent(p)) => {
            assert_eq!(p.rule, ParseRule::Preamble);
            assert_eq!(p.children.len(), 2);
            match &p.children[0] {
                Node::Leaf(t) => assert_eq!(t.span, Span { start: 0, end: 1 }),
                _ => panic!("expected the import token"),
            }
            match &p.children[1] {
                Node::Parent(inner) => {
                    assert_eq!(inner.rule, ParseRule::Preamble);
                    assert!(inner.children.is_empty());
                },
                _ => panic!("expected an empty preamble"),
            }
        },
        _ => panic!("expected a preamble"),
    }
}

#[test]
fn lr_parse_reports_each_error() {
    let mut rodeo = Rodeo::new();
    let (action, goto) = tables();
    let g = preamble_grammar();
    let none: Vec<Token<LParseToken>> = vec![];
    assert!(matches!(lr_parse(&g, &action, &goto, StateId(0), &none), Err(ParseError::IncompleteProgram)));
    let cut = vec![token(&mut rodeo, LParseToken::RustImport, 0)];
    assert!(matches!(lr_parse(&g, &action, &goto, StateId(0), &cut), Err(ParseError::IncompleteProgram)));
    let two = vec![
        token(&mut rodeo, LParseToken::RustImport, 0),
        token(&mut rodeo, LParseToken::RustImport, 1),
        token(&mut rodeo, LParseToken::Eof, 2),
    ];
    assert!(matches!(
        lr_parse(&g, &action, &goto, StateId(0), &two),
        Err(ParseError::ExcessProgram(Span { start: 2, end: 3 }))
    ));
    let odd = vec![token(&mut rodeo, LParseToken::Ident, 0), token(&mut rodeo, LParseToken::Eof, 1)];
    assert!(matches!(
        lr_parse(&g, &action, &goto, StateId(0), &odd),
        Err(ParseError::UnexpectedToken(Span { start: 0, end: 1 }))
    ));
}

#[test]
fn lr_parse_within_stops_after_the_given_steps() {
    let mut rodeo = Rodeo::new();
    let (action, goto) = tables();
    let g = preamble_grammar();
    let toks = vec![token(&mut rodeo, LParseToken::RustImport, 0), token(&mut rodeo, LParseToken::Eof, 1)];
    // shift, reduce the empty preamble, then accept: three steps
    assert!(lr_parse_within(&g, &action, &goto, StateId(0), &toks, 2).is_none());
    match lr_parse_within(&g, &action, &goto, StateId(0), &toks, 3) {
        Some(Ok(Node::Parent(p))) => {
            assert_eq!(p.rule, ParseRule::Preamble);
            assert_eq!(p.children.len(), 2);
        },
        _ => panic!("expected a preamble"),
    }
    let odd = vec![token(&mut rodeo, LParseToken::Ident, 0)];
    assert!(matches!(
        lr_parse_within(&g, &action, &goto, StateId(0), &odd, 5),
        Some(Err(ParseError::UnexpectedToken(Span { start: 0, end: 1 })))
    ));
}
