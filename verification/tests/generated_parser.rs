use lasso::Rodeo;
use lox::lexer::{Span, Token};
use lox::lparse::{Node, Parent, Symbol};
use lox::lox_core::Ordinal;
use lox::lparse::first::first;
use lox::lparse::follow::follow;
use lox::parse::generated_lparse_parser::{
    __make_grammar, __rule_factory_function_grammar, ParseRule, RawNode,
};
use lox::parse::lparse_frontend::{BoundLeaf, BoundRule, LNode, LParseToken};
use lox::parse::lparse_grammar;

fn leaf(rodeo: &mut Rodeo, kind: LParseToken, text: &str) -> RawNode {
    Node::Leaf(Token { lexeme: rodeo.get_or_intern(text), token_type: kind, span: Span::trivial() })
}

fn parent(rule: ParseRule, children: Vec<RawNode>) -> RawNode {
    Node::Parent(Parent { rule, children })
}

fn bound_leaf(r: &mut Rodeo, name: &str, token: &str) -> RawNode {
    parent(
        ParseRule::BoundLeaf,
        vec![
            leaf(r, LParseToken::LSquareBracket, "["),
            leaf(r, LParseToken::Ident, name),
            leaf(r, LParseToken::Colon, ":"),
            leaf(r, LParseToken::Ident, token),
            leaf(r, LParseToken::RSquareBracket, "]"),
        ],
    )
}

fn bound_rule(r: &mut Rodeo, name: &str, rule: &str) -> RawNode {
    parent(
        ParseRule::BoundRule,
        vec![
            leaf(r, LParseToken::LAngleBracket, "<"),
            leaf(r, LParseToken::Ident, name),
            leaf(r, LParseToken::Colon, ":"),
            leaf(r, LParseToken::Ident, rule),
            leaf(r, LParseToken::RAngleBracket, ">"),
        ],
    )
}

fn rule(r: &mut Rodeo, name: &str, ty: &str, action: &str, nodes: Vec<RawNode>) -> RawNode {
    let mut list = parent(ParseRule::Nodes, vec![]);
    for n in nodes.into_iter().rev() {
        list = parent(ParseRule::Nodes, vec![parent(ParseRule::Node, vec![n]), list]);
    }
    let definition = parent(
        ParseRule::Production,
        vec![
            list,
            leaf(r, LParseToken::Equals, "="),
            leaf(r, LParseToken::RAngleBracket, ">"),
            leaf(r, LParseToken::EmbeddedRust, action),
            leaf(r, LParseToken::Comma, ","),
        ],
    );
    let definitions = parent(
        ParseRule::Productions,
        vec![definition, parent(ParseRule::Productions, vec![])],
    );
    parent(
        ParseRule::Rule,
        vec![
            leaf(r, LParseToken::Ident, name),
            leaf(r, LParseToken::Colon, ":"),
            leaf(r, LParseToken::EmbeddedRust, ty),
            leaf(r, LParseToken::LCurlyBrace, "{"),
            definitions,
            leaf(r, LParseToken::RCurlyBrace, "}"),
            leaf(r, LParseToken::Semicolon, ";"),
        ],
    )
}

fn grammar_tree(r: &mut Rodeo) -> RawNode {
    let preamble = parent(
        ParseRule::Preamble,
        vec![
            leaf(r, LParseToken::RustImport, "use a;"),
            parent(
                ParseRule::Preamble,
                vec![leaf(r, LParseToken::RustImport, "use b;"), parent(ParseRule::Preamble, vec![])],
            ),
        ],
    );
    let goal = parent(
        ParseRule::SetGoalRule,
        vec![
            leaf(r, LParseToken::GoalRule, "goal_rule"),
            leaf(r, LParseToken::Equals, "="),
            leaf(r, LParseToken::Ident, "Expr"),
            leaf(r, LParseToken::Semicolon, ";"),
        ],
    );
    let token_type = parent(
        ParseRule::SetTokenType,
        vec![
            leaf(r, LParseToken::TokenType, "token_type"),
            leaf(r, LParseToken::Equals, "="),
            leaf(r, LParseToken::Ident, "Tok"),
            leaf(r, LParseToken::Semicolon, ";"),
        ],
    );
    let n = bound_leaf(r, "n", "Num");
    let t = bound_rule(r, "t", "Term");
    let first = rule(r, "Expr", "%E%", "%mk_expr%", vec![n, t]);
    let second = rule(r, "Term", "%T%", "%mk_term%", vec![]);
    let rules = parent(
        ParseRule::Rules,
        vec![first, parent(ParseRule::Rules, vec![second, parent(ParseRule::Rules, vec![])])],
    );
    parent(ParseRule::Grammar, vec![preamble, goal, token_type, rules])
}

#[test]
fn generated_factories_keep_source_order() {
    let mut r = Rodeo::new();
    let tree = grammar_tree(&mut r);
    let root = match &tree {
        Node::Parent(p) => p,
        Node::Leaf(_) => unreachable!(),
    };
    let g = __rule_factory_function_grammar(root);
    let text = |s| r.get(s).unwrap();
    assert_eq!(g.preamble, vec![text("use a;"), text("use b;")]);
    assert_eq!(g.goal_rule, text("Expr"));
    assert_eq!(g.token_type, text("Tok"));
    assert_eq!(g.rules.len(), 2);
    assert_eq!(g.rules[0].name, text("Expr"));
    assert_eq!(g.rules[1].name, text("Term"));
    assert_eq!(g.rules[1].return_type, text("%T%"));
    assert!(g.rules[1].productions[0].definition.is_empty());
    let production = &g.rules[0].productions[0];
    assert_eq!(production.semantic_action, text("%mk_expr%"));
    assert_eq!(
        production.definition,
        vec![
            LNode::Leaf(BoundLeaf { token: text("Num"), bind_to: text("n") }),
            LNode::Rule(BoundRule { rule: text("Term"), bind_to: text("t") }),
        ]
    );
}

#[test]
fn generated_grammar_mirrors_the_description_grammar() {
    let generated = __make_grammar();
    let described = lparse_grammar::lparse_grammar();
    assert_eq!(generated.target_rule(), ParseRule::Grammar);
    assert_eq!(generated.productions().len(), described.productions().len());
    for (a, b) in generated.productions().iter().zip(described.productions().iter()) {
        assert_eq!(a.rule.ord(), b.rule.ord());
        assert_eq!(a.definition.len(), b.definition.len());
        for (x, y) in a.definition.iter().zip(b.definition.iter()) {
            match (x, y) {
                (Symbol::Token(t), Symbol::Token(u)) => assert_eq!(t, u),
                (Symbol::Rule(r), Symbol::Rule(q)) => assert_eq!(r.ord(), q.ord()),
                _ => panic!("symbols of different kinds"),
            }
        }
    }
    assert_eq!(generated.productions()[6].rule, ParseRule::Production);
    assert!(generated.productions()[4].definition.is_empty());
    let fi = first(&generated);
    let fo = follow(&generated);
    assert_eq!(fi, first(&described));
    assert_eq!(fo, follow(&described));
    assert!(fi[ParseRule::Grammar.ord()][LParseToken::GoalRule.ord()]);
    assert!(fo[ParseRule::Rules.ord()][LParseToken::Eof.ord()]);
}
