use lasso::Rodeo;
use lox::lexer::{Span, Token};
use lox::lox_core::Ordinal;
use lox::lparse::first::first;
use lox::lparse::follow::follow;
use lox::lparse::lparse_frontend::{BoundLeaf, BoundRule, LNode, LParseToken as T};
use lox::lparse::lparse_parser::{
    __make_grammar, __rule_factory_function_l_grammar, ParseRule as R, RawNode,
};
use lox::lparse::{Node, Parent, Symbol};

fn leaf(rodeo: &mut Rodeo, kind: T, text: &str) -> RawNode {
    Node::Leaf(Token { lexeme: rodeo.get_or_intern(text), token_type: kind, span: Span::trivial() })
}

fn parent(rule: R, children: Vec<RawNode>) -> RawNode {
    Node::Parent(Parent { rule, children })
}

fn repeat(rule: R, items: Vec<RawNode>) -> RawNode {
    let mut list = parent(rule, vec![]);
    for item in items {
        list = parent(rule, vec![list, item]);
    }
    list
}

fn bound(r: &mut Rodeo, rule: R, open: T, name: &str, target: &str, star: bool, close: T) -> RawNode {
    let mut children = vec![
        leaf(r, open, "<"),
        leaf(r, T::Ident, name),
        leaf(r, T::Colon, ":"),
        leaf(r, T::Ident, target),
    ];
    if star {
        children.push(leaf(r, T::Asterisk, "*"));
    }
    children.push(leaf(r, close, ">"));
    parent(R::LNode, vec![parent(rule, children)])
}

fn tree(r: &mut Rodeo) -> RawNode {
    let preamble = repeat(
        R::ReservedPreambleKleene,
        vec![
            parent(R::Preamble, vec![leaf(r, T::RustImport, "use a;")]),
            parent(R::Preamble, vec![leaf(r, T::RustDirective, "#![d]")]),
        ],
    );
    let goal = parent(
        R::SetGoalRule,
        vec![
            leaf(r, T::GoalRule, "goal_rule"),
            leaf(r, T::Equals, "="),
            leaf(r, T::Ident, "Expr"),
            leaf(r, T::Semicolon, ";"),
        ],
    );
    let token_type = parent(
        R::SetTokenType,
        vec![
            leaf(r, T::TokenType, "token_type"),
            leaf(r, T::Equals, "="),
            leaf(r, T::Ident, "Tok"),
            leaf(r, T::Semicolon, ";"),
        ],
    );
    let n = bound(r, R::BoundLeaf, T::LSquareBracket, "n", "Num", false, T::RSquareBracket);
    let t = bound(r, R::BoundRule, T::LAngleBracket, "t", "Term", false, T::RAngleBracket);
    let ts = bound(r, R::BoundKleeneRule, T::LAngleBracket, "ts", "Term", true, T::RAngleBracket);
    let nodes = repeat(R::ReservedLNodeKleene, vec![n, t, ts]);
    let production = parent(
        R::ProductionDefinition,
        vec![
            nodes,
            leaf(r, T::Equals, "="),
            leaf(r, T::RAngleBracket, ">"),
            leaf(r, T::EmbeddedRust, "%mk%"),
            leaf(r, T::Comma, ","),
        ],
    );
    let typed = parent(
        R::LRule,
        vec![
            leaf(r, T::Ident, "Expr"),
            leaf(r, T::Colon, ":"),
            leaf(r, T::EmbeddedRust, "%E%"),
            leaf(r, T::LCurlyBrace, "{"),
            repeat(R::ReservedProductionDefinitionKleene, vec![production]),
            leaf(r, T::RCurlyBrace, "}"),
            leaf(r, T::Semicolon, ";"),
        ],
    );
    let untyped = parent(
        R::LRule,
        vec![
            leaf(r, T::Ident, "Term"),
            leaf(r, T::LCurlyBrace, "{"),
            repeat(R::ReservedProductionDefinitionKleene, vec![]),
            leaf(r, T::RCurlyBrace, "}"),
            leaf(r, T::Semicolon, ";"),
        ],
    );
    let rules = repeat(R::ReservedLRuleKleene, vec![typed, untyped]);
    parent(R::LGrammar, vec![preamble, goal, token_type, rules])
}

#[test]
fn repetitions_build_descriptions_in_order() {
    let mut r = Rodeo::new();
    let t = tree(&mut r);
    let root = match &t {
        Node::Parent(p) => p,
        Node::Leaf(_) => unreachable!(),
    };
    let g = __rule_factory_function_l_grammar(root);
    let text = |s| r.get(s).unwrap();
    assert_eq!(g.preamble, vec![text("use a;"), text("#![d]")]);
    assert_eq!(g.goal_rule, text("Expr"));
    assert_eq!(g.token_type, text("Tok"));
    assert_eq!(g.rules.len(), 2);
    assert_eq!(g.rules[0].name, text("Expr"));
    assert_eq!(g.rules[0].return_type, Some(text("%E%")));
    assert_eq!(g.rules[1].name, text("Term"));
    assert_eq!(g.rules[1].return_type, None);
    assert!(g.rules[1].productions.is_empty());
    let production = &g.rules[0].productions[0];
    assert_eq!(production.semantic_action, text("%mk%"));
    assert_eq!(
        production.definition,
        vec![
            LNode::Leaf(BoundLeaf { token: text("Num"), bind_to: text("n") }),
            LNode::Rule(BoundRule { rule: text("Term"), bind_to: text("t") }),
            LNode::Kleene(BoundRule { rule: text("Term"), bind_to: text("ts") }),
        ]
    );
}

#[test]
fn kleene_grammar_productions_and_tables() {
    let g = __make_grammar();
    assert_eq!(g.target_rule(), R::LGrammar);
    assert_eq!(g.productions().len(), 22);
    assert_eq!(g.productions()[3].rule, R::BoundKleeneRule);
    assert_eq!(g.productions()[3].definition[4], Symbol::Token(T::Asterisk));
    assert!(g.rule_contains_epsilon(R::ReservedLRuleKleene));
    assert!(!g.rule_contains_epsilon(R::LRule));
    let fi = first(&g);
    let f = |table: &Vec<Vec<bool>>, rule: R, tok: T| table[rule.ord()][tok.ord()];
    assert!(f(&fi, R::LGrammar, T::RustImport));
    assert!(f(&fi, R::LGrammar, T::RustDirective));
    assert!(f(&fi, R::LGrammar, T::GoalRule));
    assert!(f(&fi, R::ProductionDefinition, T::Equals));
    assert!(f(&fi, R::ProductionDefinition, T::LAngleBracket));
    let fo = follow(&g);
    assert!(f(&fo, R::LGrammar, T::Eof));
    assert!(f(&fo, R::LRule, T::Ident));
    assert!(f(&fo, R::LRule, T::Eof));
    assert!(f(&fo, R::LNode, T::Equals));
    assert!(!f(&fo, R::LNode, T::Comma));
}
