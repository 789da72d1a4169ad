use lasso::Rodeo;
use lox::lexer::{Span, Token};
use lox::lparse::{Node, Parent, Symbol};
use lox::parse::lparse_grammar::{parse_lparse_grammar, BoundLeaf, BoundRule, LNode, RawNode};
use lox::parse::{LParseRule, LParseToken};

fn leaf(rodeo: &mut Rodeo, kind: LParseToken, text: &str) -> RawNode {
    Node::Leaf(Token { lexeme: rodeo.get_or_intern(text), token_type: kind, span: Span::trivial() })
}

fn parent(rule: LParseRule, children: Vec<RawNode>) -> RawNode {
    Node::Parent(Parent { rule, children })
}

fn bound_leaf(r: &mut Rodeo, name: &str, token: &str) -> RawNode {
    parent(
        LParseRule::BoundLeaf,
        vec![
            leaf(r, LParseToken::LSquareBracket, "["),
            leaf(r, LParseToken::Ident, name),
            leaf(r, LParseToken::Colon, ":"),
            leaf(r, LParseToken::Ident, token),
            leaf(r, LParseToken::RSquareBracket, "]"),
        ],
    )
}

fn bound_rule(r: &mut Rodeo, name: &str, rule: &str) -> RawNode {
    parent(
        LParseRule::BoundRule,
        vec![
            leaf(r, LParseToken::LAngleBracket, "<"),
            leaf(r, LParseToken::Ident, name),
            leaf(r, LParseToken::Colon, ":"),
            leaf(r, LParseToken::Ident, rule),
            leaf(r, LParseToken::RAngleBracket, ">"),
        ],
    )
}

fn rule(r: &mut Rodeo, name: &str, ty: &str, action: &str, nodes: Vec<RawNode>) -> RawNode {
    let mut list = parent(LParseRule::Nodes, vec![]);
    for n in nodes.into_iter().rev() {
        list = parent(LParseRule::Nodes, vec![parent(LParseRule::Node, vec![n]), list]);
    }
    let definition = parent(
        LParseRule::ProductionDefinition,
        vec![
            list,
            leaf(r, LParseToken::Equals, "="),
            leaf(r, LParseToken::RAngleBracket, ">"),
            leaf(r, LParseToken::EmbeddedRust, action),
            leaf(r, LParseToken::Comma, ","),
        ],
    );
    let definitions = parent(
        LParseRule::ProductionDefinitions,
        vec![definition, parent(LParseRule::ProductionDefinitions, vec![])],
    );
    parent(
        LParseRule::Rule,
        vec![
            leaf(r, LParseToken::Ident, name),
            leaf(r, LParseToken::Colon, ":"),
            leaf(r, LParseToken::EmbeddedRust, ty),
            leaf(r, LParseToken::LCurlyBrace, "{"),
            definitions,
            leaf(r, LParseToken::RCurlyBrace, "}"),
            leaf(r, LParseToken::Semicolon, ";"),
        ],
    )
}

fn grammar_tree(r: &mut Rodeo) -> RawNode {
    let preamble = parent(
        LParseRule::Preamble,
        vec![
            leaf(r, LParseToken::RustImport, "use a;"),
            parent(
                LParseRule::Preamble,
                vec![leaf(r, LParseToken::RustImport, "use b;"), parent(LParseRule::Preamble, vec![])],
            ),
        ],
    );
    let goal = parent(
        LParseRule::SetGoalRule,
        vec![
            leaf(r, LParseToken::GoalRule, "goal_rule"),
            leaf(r, LParseToken::Equals, "="),
            leaf(r, LParseToken::Ident, "Expr"),
            leaf(r, LParseToken::Semicolon, ";"),
        ],
    );
    let token_type = parent(
        LParseRule::SetTokenType,
        vec![
            leaf(r, LParseToken::TokenType, "token_type"),
            leaf(r, LParseToken::Equals, "="),
            leaf(r, LParseToken::Ident, "Tok"),
            leaf(r, LParseToken::Semicolon, ";"),
        ],
    );
    let n = bound_leaf(r, "n", "Num");
    let t = bound_rule(r, "t", "Term");
    let first = rule(r, "Expr", "%E%", "%mk_expr%", vec![n, t]);
    let second = rule(r, "Term", "%T%", "%mk_term%", vec![]);
    let rules = parent(
        LParseRule::Rules,
        vec![first, parent(LParseRule::Rules, vec![second, parent(LParseRule::Rules, vec![])])],
    );
    parent(LParseRule::Grammar, vec![preamble, goal, token_type, rules])
}

#[test]
fn grammar_description_from_its_tree() {
    let mut r = Rodeo::new();
    let tree = grammar_tree(&mut r);
    let g = parse_lparse_grammar(&tree);
    let text = |s| r.get(s).unwrap();
    // imports and rules come out last written first
    assert_eq!(g.preamble, vec![text("use b;"), text("use a;")]);
    assert_eq!(g.goal_rule, text("Expr"));
    assert_eq!(g.token_type, text("Tok"));
    assert_eq!(g.rules.len(), 2);
    assert_eq!(g.rules[0].name, text("Term"));
    assert_eq!(g.rules[0].return_type, text("%T%"));
    assert_eq!(g.rules[0].productions.len(), 1);
    assert!(g.rules[0].productions[0].definition.is_empty());
    assert_eq!(g.rules[1].name, text("Expr"));
    let production = &g.rules[1].productions[0];
    assert_eq!(production.semantic_action, text("%mk_expr%"));
    assert_eq!(
        production.definition,
        vec![
            LNode::Leaf(BoundLeaf { token: text("Num"), bind_to: text("n") }),
            LNode::Rule(BoundRule { rule: text("Term"), bind_to: text("t") }),
        ]
    );
}

#[test]
fn node_symbols() {
    let mut r = Rodeo::new();
    let l = leaf(&mut r, LParseToken::Comma, ",");
    assert_eq!(l.symbol(), Symbol::Token(LParseToken::Comma));
    let p = parent(LParseRule::Rules, vec![]);
    assert_eq!(p.symbol(), Symbol::Rule(LParseRule::Rules));
}
