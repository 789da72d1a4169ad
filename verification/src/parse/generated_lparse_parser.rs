use std::collections::VecDeque;
use vstd::prelude::*;

use super::lparse_frontend::{
    BoundLeaf, BoundRule, Ident, LGrammar, LNode, LParseToken, LRule, ProductionDefinition,
};
use super::lparse_grammar::{grammar_is, lparse_productions, LParseRule};
use crate::lox_core::Ordinal;
use crate::lparse::{Grammar, Node, Parent, Production, Rule, Symbol};

verus! {

/// The rules of the grammar description language, as the generated parser
/// names them.
#[derive(Clone, Copy, Debug, PartialEq, Eq, Hash, Structural)]
pub enum ParseRule {
    BoundLeaf,
    BoundRule,
    Node,
    Nodes,
    Production,
    Productions,
    Rule,
    Rules,
    SetGoalRule,
    SetTokenType,
    Preamble,
    Grammar,
}

impl Ordinal for ParseRule {
    const COUNT: usize = 12;

    open spec fn spec_ord(self) -> nat {
        match self {
            ParseRule::BoundLeaf => 0,
            ParseRule::BoundRule => 1,
            ParseRule::Node => 2,
            ParseRule::Nodes => 3,
            ParseRule::Production => 4,
            ParseRule::Productions => 5,
            ParseRule::Rule => 6,
            ParseRule::Rules => 7,
            ParseRule::SetGoalRule => 8,
            ParseRule::SetTokenType => 9,
            ParseRule::Preamble => 10,
            ParseRule::Grammar => 11,
        }
    }

    fn ord(&self) -> (r: usize) {
        match self {
            ParseRule::BoundLeaf => 0,
            ParseRule::BoundRule => 1,
            ParseRule::Node => 2,
            ParseRule::Nodes => 3,
            ParseRule::Production => 4,
            ParseRule::Productions => 5,
            ParseRule::Rule => 6,
            ParseRule::Rules => 7,
            ParseRule::SetGoalRule => 8,
            ParseRule::SetTokenType => 9,
            ParseRule::Preamble => 10,
            ParseRule::Grammar => 11,
        }
    }

    proof fn lemma_ord_bound(a: Self) {
    }

    proof fn lemma_ord_injective(a: Self, b: Self) {
    }
}


impl Rule for ParseRule {
    type TokenType = LParseToken;
}

/// The productions of the generated parser's grammar, in order: each rule
/// with its definition.
pub open spec fn generated_productions() -> Seq<(ParseRule, Seq<Symbol<ParseRule>>)> {
    seq![
            (ParseRule::BoundLeaf, seq![Symbol::Token(LParseToken::LSquareBracket), Symbol::Token(LParseToken::Ident), Symbol::Token(LParseToken::Colon), Symbol::Token(LParseToken::Ident), Symbol::Token(LParseToken::RSquareBracket)]),
            (ParseRule::BoundRule, seq![Symbol::Token(LParseToken::LAngleBracket), Symbol::Token(LParseToken::Ident), Symbol::Token(LParseToken::Colon), Symbol::Token(LParseToken::Ident), Symbol::Token(LParseToken::RAngleBracket)]),
            (ParseRule::Node, seq![Symbol::Rule(ParseRule::BoundLeaf)]),
            (ParseRule::Node, seq![Symbol::Rule(ParseRule::BoundRule)]),
            (ParseRule::Nodes, seq![]),
            (ParseRule::Nodes, seq![Symbol::Rule(ParseRule::Node), Symbol::Rule(ParseRule::Nodes)]),
            (ParseRule::Production, seq![Symbol::Rule(ParseRule::Nodes), Symbol::Token(LParseToken::Equals), Symbol::Token(LParseToken::RAngleBracket), Symbol::Token(LParseToken::EmbeddedRust), Symbol::Token(LParseToken::Comma)]),
            (ParseRule::Productions, seq![]),
            (ParseRule::Productions, seq![Symbol::Rule(ParseRule::Production), Symbol::Rule(ParseRule::Productions)]),
            (ParseRule::Rule, seq![Symbol::Token(LParseToken::Ident), Symbol::Token(LParseToken::Colon), Symbol::Token(LParseToken::EmbeddedRust), Symbol::Token(LParseToken::LCurlyBrace), Symbol::Rule(ParseRule::Productions), Symbol::Token(LParseToken::RCurlyBrace), Symbol::Token(LParseToken::Semicolon)]),
            (ParseRule::Rules, seq![]),
            (ParseRule::Rules, seq![Symbol::Rule(ParseRule::Rule), Symbol::Rule(ParseRule::Rules)]),
            (ParseRule::SetGoalRule, seq![Symbol::Token(LParseToken::GoalRule), Symbol::Token(LParseToken::Equals), Symbol::Token(LParseToken::Ident), Symbol::Token(LParseToken::Semicolon)]),
            (ParseRule::SetTokenType, seq![Symbol::Token(LParseToken::TokenType), Symbol::Token(LParseToken::Equals), Symbol::Token(LParseToken::Ident), Symbol::Token(LParseToken::Semicolon)]),
            (ParseRule::Preamble, seq![]),
            (ParseRule::Preamble, seq![Symbol::Token(LParseToken::RustImport), Symbol::Rule(ParseRule::Preamble)]),
            (ParseRule::Grammar, seq![Symbol::Rule(ParseRule::Preamble), Symbol::Rule(ParseRule::SetGoalRule), Symbol::Rule(ParseRule::SetTokenType), Symbol::Rule(ParseRule::Rules)]),
    ]
}

/// The grammar of the grammar description language that the generated
/// parser reads, whose goal is a whole grammar.
pub fn __make_grammar() -> (g: Grammar<ParseRule>)
    ensures
        grammar_is(&g, ParseRule::Grammar, generated_productions()),
{
    let productions: Vec<Production<ParseRule>> = vec![
        Production {
            rule: ParseRule::BoundLeaf,
            definition: vec![
                Symbol::Token(LParseToken::LSquareBracket),
                Symbol::Token(LParseToken::Ident),
                Symbol::Token(LParseToken::Colon),
                Symbol::Token(LParseToken::Ident),
                Symbol::Token(LParseToken::RSquareBracket),
            ],
        },
        Production {
            rule: ParseRule::BoundRule,
            definition: vec![
                Symbol::Token(LParseToken::LAngleBracket),
                Symbol::Token(LParseToken::Ident),
                Symbol::Token(LParseToken::Colon),
                Symbol::Token(LParseToken::Ident),
                Symbol::Token(LParseToken::RAngleBracket),
            ],
        },
        Production {
            rule: ParseRule::Node,
            definition: vec![
                Symbol::Rule(ParseRule::BoundLeaf),
            ],
        },
        Production {
            rule: ParseRule::Node,
            definition: vec![
                Symbol::Rule(ParseRule::BoundRule),
            ],
        },
        Production {
            rule: ParseRule::Nodes,
            definition: vec![],
        },
        Production {
            rule: ParseRule::Nodes,
            definition: vec![
                Symbol::Rule(ParseRule::Node),
                Symbol::Rule(ParseRule::Nodes),
            ],
        },
        Production {
            rule: ParseRule::Production,
            definition: vec![
                Symbol::Rule(ParseRule::Nodes),
                Symbol::Token(LParseToken::Equals),
                Symbol::Token(LParseToken::RAngleBracket),
                Symbol::Token(LParseToken::EmbeddedRust),
                Symbol::Token(LParseToken::Comma),
            ],
        },
        Production {
            rule: ParseRule::Productions,
            definition: vec![],
        },
        Production {
            rule: ParseRule::Productions,
            definition: vec![
                Symbol::Rule(ParseRule::Production),
                Symbol::Rule(ParseRule::Productions),
            ],
        },
        Production {
            rule: ParseRule::Rule,
            definition: vec![
                Symbol::Token(LParseToken::Ident),
                Symbol::Token(LParseToken::Colon),
                Symbol::Token(LParseToken::EmbeddedRust),
                Symbol::Token(LParseToken::LCurlyBrace),
                Symbol::Rule(ParseRule::Productions),
                Symbol::Token(LParseToken::RCurlyBrace),
                Symbol::Token(LParseToken::Semicolon),
            ],
        },
        Production {
            rule: ParseRule::Rules,
            definition: vec![],
        },
        Production {
            rule: ParseRule::Rules,
            definition: vec![
                Symbol::Rule(ParseRule::Rule),
                Symbol::Rule(ParseRule::Rules),
            ],
        },
        Production {
            rule: ParseRule::SetGoalRule,
            definition: vec![
                Symbol::Token(LParseToken::GoalRule),
                Symbol::Token(LParseToken::Equals),
                Symbol::Token(LParseToken::Ident),
                Symbol::Token(LParseToken::Semicolon),
            ],
        },
        Production {
            rule: ParseRule::SetTokenType,
            definition: vec![
                Symbol::Token(LParseToken::TokenType),
                Symbol::Token(LParseToken::Equals),
                Symbol::Token(LParseToken::Ident),
                Symbol::Token(LParseToken::Semicolon),
            ],
        },
        Production {
            rule: ParseRule::Preamble,
            definition: vec![],
        },
        Production {
            rule: ParseRule::Preamble,
            definition: vec![
                Symbol::Token(LParseToken::RustImport),
                Symbol::Rule(ParseRule::Preamble),
            ],
        },
        Production {
            rule: ParseRule::Grammar,
            definition: vec![
                Symbol::Rule(ParseRule::Preamble),
                Symbol::Rule(ParseRule::SetGoalRule),
                Symbol::Rule(ParseRule::SetTokenType),
                Symbol::Rule(ParseRule::Rules),
            ],
        },
    ];
    let g = Grammar::new(ParseRule::Grammar, productions);
    proof {
        assert(g.spec_productions()[0].definition@ =~= generated_productions()[0].1);
        assert(g.spec_productions()[1].definition@ =~= generated_productions()[1].1);
        assert(g.spec_productions()[2].definition@ =~= generated_productions()[2].1);
        assert(g.spec_productions()[3].definition@ =~= generated_productions()[3].1);
        assert(g.spec_productions()[4].definition@ =~= generated_productions()[4].1);
        assert(g.spec_productions()[5].definition@ =~= generated_productions()[5].1);
        assert(g.spec_productions()[6].definition@ =~= generated_productions()[6].1);
        assert(g.spec_productions()[7].definition@ =~= generated_productions()[7].1);
        assert(g.spec_productions()[8].definition@ =~= generated_productions()[8].1);
        assert(g.spec_productions()[9].definition@ =~= generated_productions()[9].1);
        assert(g.spec_productions()[10].definition@ =~= generated_productions()[10].1);
        assert(g.spec_productions()[11].definition@ =~= generated_productions()[11].1);
        assert(g.spec_productions()[12].definition@ =~= generated_productions()[12].1);
        assert(g.spec_productions()[13].definition@ =~= generated_productions()[13].1);
        assert(g.spec_productions()[14].definition@ =~= generated_productions()[14].1);
        assert(g.spec_productions()[15].definition@ =~= generated_productions()[15].1);
        assert(g.spec_productions()[16].definition@ =~= generated_productions()[16].1);
        assert forall|p: int| 0 <= p < generated_productions().len() implies (#[trigger] g.spec_productions()[p]).rule
            == generated_productions()[p].0 && g.spec_productions()[p].definition@
            == generated_productions()[p].1 by {
            if p == 0 {
            } else if p == 1 {
            } else if p == 2 {
            } else if p == 3 {
            } else if p == 4 {
            } else if p == 5 {
            } else if p == 6 {
            } else if p == 7 {
            } else if p == 8 {
            } else if p == 9 {
            } else if p == 10 {
            } else if p == 11 {
            } else if p == 12 {
            } else if p == 13 {
            } else if p == 14 {
            } else if p == 15 {
            } else if p == 16 {
            }
        }
    }
    g
}

/// Symbol `a` of the generated parser's grammar stands for symbol `b` of
/// the grammar description language's grammar: the same token, or rules
/// of the same ordinal.
pub open spec fn same_symbol(a: Symbol<ParseRule>, b: Symbol<LParseRule>) -> bool {
    match (a, b) {
        (Symbol::Token(t), Symbol::Token(u)) => t == u,
        (Symbol::Rule(r), Symbol::Rule(q)) => r.spec_ord() == q.spec_ord(),
        _ => false,
    }
}

/// The grammar that the generated parser reads is the grammar of the
/// grammar description language: both have the rule `Grammar` as their
/// goal and the same productions in the same order, each of a rule of the
/// same ordinal and with the same symbols, once `Production` and
/// `Productions` are read as `ProductionDefinition` and
/// `ProductionDefinitions` and every other rule as the rule of the same
/// name.
pub proof fn lemma_generated_grammar_is_lparse_grammar(
    generated: Grammar<ParseRule>,
    lparse: Grammar<LParseRule>,
)
    requires
        grammar_is(&generated, ParseRule::Grammar, generated_productions()),
        grammar_is(&lparse, LParseRule::Grammar, lparse_productions()),
    ensures
        generated.spec_goal().spec_ord() == lparse.spec_goal().spec_ord(),
        generated.spec_productions().len() == lparse.spec_productions().len(),
        forall|p: int|
            0 <= p < generated.spec_productions().len() ==> {
                let a = #[trigger] generated.spec_productions()[p];
                let b = lparse.spec_productions()[p];
                &&& a.rule.spec_ord() == b.rule.spec_ord()
                &&& a.definition@.len() == b.definition@.len()
                &&& forall|k: int|
                    0 <= k < a.definition@.len() ==> same_symbol(
                        #[trigger] a.definition@[k],
                        b.definition@[k],
                    )
            },
{
    let gp = generated_productions();
    let lp = lparse_productions();
    assert forall|p: int| 0 <= p < gp.len() implies {
        &&& gp[p].0.spec_ord() == lp[p].0.spec_ord()
        &&& gp[p].1.len() == lp[p].1.len()
        &&& forall|k: int| 0 <= k < gp[p].1.len() ==> same_symbol(#[trigger] gp[p].1[k], lp[p].1[k])
    } by {
        if p == 0 {
        } else if p == 1 {
        } else if p == 2 {
        } else if p == 3 {
        } else if p == 4 {
        } else if p == 5 {
        } else if p == 6 {
        } else if p == 7 {
        } else if p == 8 {
        } else if p == 9 {
        } else if p == 10 {
        } else if p == 11 {
        } else if p == 12 {
        } else if p == 13 {
        } else if p == 14 {
        } else if p == 15 {
        } else {
        }
    }
    assert forall|p: int| 0 <= p < generated.spec_productions().len() implies {
        let a = #[trigger] generated.spec_productions()[p];
        let b = lparse.spec_productions()[p];
        &&& a.rule.spec_ord() == b.rule.spec_ord()
        &&& a.definition@.len() == b.definition@.len()
        &&& forall|k: int| 0 <= k < a.definition@.len() ==> same_symbol(#[trigger] a.definition@[k], b.definition@[k])
    } by {
        assert(lparse.spec_productions()[p].rule == lp[p].0);
        assert(gp[p].1.len() == lp[p].1.len());
        assert forall|k: int| 0 <= k < gp[p].1.len() implies same_symbol(#[trigger] gp[p].1[k], lp[p].1[k]) by {
        }
    }
}

/// A parse tree node of the generated parser.
pub type RawNode = Node<ParseRule>;

/// An inner parse tree node of the generated parser.
pub type ParentNode = Parent<ParseRule>;

/// Node `n` is a token of kind `kind`.
pub open spec fn leaf_is(n: RawNode, kind: LParseToken) -> bool {
    n matches Node::Leaf(t) && t.token_type == kind
}

/// The interned text of token node `n`.
pub open spec fn lexeme_of(n: RawNode) -> Ident {
    match n {
        Node::Leaf(t) => t.lexeme,
        Node::Parent(_) => arbitrary(),
    }
}

/// The inner node that `n` is.
pub open spec fn parent_of(n: RawNode) -> ParentNode {
    match n {
        Node::Parent(q) => q,
        Node::Leaf(_) => arbitrary(),
    }
}

/// The children of `p` are tokens of the kinds `kinds`, in order.
pub open spec fn leaves_are(p: ParentNode, kinds: Seq<LParseToken>) -> bool {
    &&& p.children@.len() == kinds.len()
    &&& forall|i: int| 0 <= i < kinds.len() ==> leaf_is(#[trigger] p.children@[i], kinds[i])
}

/// `p` is a well formed `[bind_to: token]`.
pub open spec fn bound_leaf_ok(p: ParentNode) -> bool {
    &&& p.rule == ParseRule::BoundLeaf
    &&& leaves_are(
        p,
        seq![
            LParseToken::LSquareBracket,
            LParseToken::Ident,
            LParseToken::Colon,
            LParseToken::Ident,
            LParseToken::RSquareBracket,
        ],
    )
}

pub open spec fn bound_leaf_of(p: ParentNode) -> BoundLeaf {
    BoundLeaf { token: lexeme_of(p.children@[3]), bind_to: lexeme_of(p.children@[1]) }
}

/// `p` is a well formed `<bind_to: rule>`.
pub open spec fn bound_rule_ok(p: ParentNode) -> bool {
    &&& p.rule == ParseRule::BoundRule
    &&& leaves_are(
        p,
        seq![
            LParseToken::LAngleBracket,
            LParseToken::Ident,
            LParseToken::Colon,
            LParseToken::Ident,
            LParseToken::RAngleBracket,
        ],
    )
}

pub open spec fn bound_rule_of(p: ParentNode) -> BoundRule {
    BoundRule { rule: lexeme_of(p.children@[3]), bind_to: lexeme_of(p.children@[1]) }
}

/// `p` is a well formed node: one bound token or one bound rule.
pub open spec fn node_ok(p: ParentNode) -> bool {
    &&& p.rule == ParseRule::Node
    &&& p.children@.len() == 1
    &&& p.children@[0] matches Node::Parent(inner)
    &&& (inner.rule == ParseRule::BoundLeaf && bound_leaf_ok(inner)) || (inner.rule
        == ParseRule::BoundRule && bound_rule_ok(inner))
}

pub open spec fn node_of(p: ParentNode) -> LNode {
    let inner = parent_of(p.children@[0]);
    if inner.rule == ParseRule::BoundLeaf {
        LNode::Leaf(bound_leaf_of(inner))
    } else {
        LNode::Rule(bound_rule_of(inner))
    }
}

/// `p` is a well formed `goal_rule = name;`.
pub open spec fn set_goal_rule_ok(p: ParentNode) -> bool {
    &&& p.rule == ParseRule::SetGoalRule
    &&& leaves_are(
        p,
        seq![LParseToken::GoalRule, LParseToken::Equals, LParseToken::Ident, LParseToken::Semicolon],
    )
}

/// `p` is a well formed `token_type = name;`.
pub open spec fn set_token_type_ok(p: ParentNode) -> bool {
    &&& p.rule == ParseRule::SetTokenType
    &&& leaves_are(
        p,
        seq![LParseToken::TokenType, LParseToken::Equals, LParseToken::Ident, LParseToken::Semicolon],
    )
}

/// The interned text of token node `n`, which must be a token.
fn leaf_lexeme(n: &RawNode) -> (r: Ident)
    requires
        n is Leaf,
    ensures
        r == lexeme_of(*n),
{
    match n {
        Node::Leaf(t) => t.lexeme,
        Node::Parent(_) => unreached(),
    }
}

fn __rule_factory_function_bound_leaf(node: &ParentNode) -> (r: BoundLeaf)
    requires
        bound_leaf_ok(*node),
    ensures
        r == bound_leaf_of(*node),
{
    proof {
        assert(leaf_is(node.children@[1], LParseToken::Ident));
        assert(leaf_is(node.children@[3], LParseToken::Ident));
    }
    BoundLeaf { token: leaf_lexeme(&node.children[3]), bind_to: leaf_lexeme(&node.children[1]) }
}

fn __rule_factory_function_bound_rule(node: &ParentNode) -> (r: BoundRule)
    requires
        bound_rule_ok(*node),
    ensures
        r == bound_rule_of(*node),
{
    proof {
        assert(leaf_is(node.children@[1], LParseToken::Ident));
        assert(leaf_is(node.children@[3], LParseToken::Ident));
    }
    BoundRule { rule: leaf_lexeme(&node.children[3]), bind_to: leaf_lexeme(&node.children[1]) }
}

fn __rule_factory_function_node(node: &ParentNode) -> (r: LNode)
    requires
        node_ok(*node),
    ensures
        r == node_of(*node),
{
    match &node.children[0] {
        Node::Parent(inner) => {
            if inner.rule == ParseRule::BoundLeaf {
                LNode::Leaf(__rule_factory_function_bound_leaf(inner))
            } else {
                LNode::Rule(__rule_factory_function_bound_rule(inner))
            }
        },
        Node::Leaf(_) => unreached(),
    }
}

fn __rule_factory_function_set_goal_rule(node: &ParentNode) -> (r: Ident)
    requires
        set_goal_rule_ok(*node),
    ensures
        r == lexeme_of(node.children@[2]),
{
    proof {
        assert(leaf_is(node.children@[2], LParseToken::Ident));
    }
    leaf_lexeme(&node.children[2])
}

fn __rule_factory_function_set_token_type(node: &ParentNode) -> (r: Ident)
    requires
        set_token_type_ok(*node),
    ensures
        r == lexeme_of(node.children@[2]),
{
    proof {
        assert(leaf_is(node.children@[2], LParseToken::Ident));
    }
    leaf_lexeme(&node.children[2])
}

/// `p` is a well formed list of nodes: empty, or a node then a list.
pub open spec fn nodes_ok(p: ParentNode) -> bool
    decreases p,
{
    if p.rule != ParseRule::Nodes {
        false
    } else if p.children@.len() == 0 {
        true
    } else if p.children@.len() == 2 {
        match (p.children@[0], p.children@[1]) {
            (Node::Parent(first), Node::Parent(rest)) => {
                &&& first.rule == ParseRule::Node
                &&& node_ok(first)
                &&& rest.rule == ParseRule::Nodes
                &&& nodes_ok(rest)
            },
            _ => false,
        }
    } else {
        false
    }
}

/// The nodes of a list of nodes, in order.
pub open spec fn nodes_of(p: ParentNode) -> Seq<LNode>
    decreases p,
{
    if p.children@.len() == 2 {
        match (p.children@[0], p.children@[1]) {
            (Node::Parent(first), Node::Parent(rest)) => seq![node_of(first)] + nodes_of(rest),
            _ => Seq::empty(),
        }
    } else {
        Seq::empty()
    }
}

fn __rule_factory_function_nodes(node: &ParentNode) -> (r: VecDeque<LNode>)
    requires
        nodes_ok(*node),
    ensures
        r@ == nodes_of(*node),
    decreases node,
{
    if node.children.len() == 0 {
        VecDeque::new()
    } else {
        match (&node.children[0], &node.children[1]) {
            (Node::Parent(node_0), Node::Parent(node_1)) => {
                let head = __rule_factory_function_node(node_0);
                let tail = __rule_factory_function_nodes(node_1);
                let mut all = tail;
                all.push_front(head);
                all
            },
            _ => unreached(),
        }
    }
}

/// What a production holds: its bound elements and its semantic action.
pub open spec fn definition_view(d: ProductionDefinition) -> (Seq<LNode>, Ident) {
    (d.definition@, d.semantic_action)
}

/// What a rule holds: its name, its value type and its productions.
pub open spec fn rule_view(r: LRule) -> (Ident, Ident, Seq<(Seq<LNode>, Ident)>) {
    (r.name, r.return_type, r.productions@.map_values(|d: ProductionDefinition| definition_view(d)))
}

/// What a grammar description holds: its imports, goal rule, token type and
/// rules.
pub open spec fn grammar_view(g: LGrammar) -> (
    Seq<Ident>,
    Ident,
    Ident,
    Seq<(Ident, Ident, Seq<(Seq<LNode>, Ident)>)>,
) {
    (g.preamble@, g.goal_rule, g.token_type, g.rules@.map_values(|r: LRule| rule_view(r)))
}

/// `p` is a well formed production: `nodes => %action%,`.
pub open spec fn production_definition_ok(p: ParentNode) -> bool {
    &&& p.rule == ParseRule::Production
    &&& p.children@.len() == 5
    &&& p.children@[0] matches Node::Parent(nodes)
    &&& nodes.rule == ParseRule::Nodes
    &&& nodes_ok(nodes)
    &&& leaf_is(p.children@[1], LParseToken::Equals)
    &&& leaf_is(p.children@[2], LParseToken::RAngleBracket)
    &&& leaf_is(p.children@[3], LParseToken::EmbeddedRust)
    &&& leaf_is(p.children@[4], LParseToken::Comma)
}

pub open spec fn production_definition_of(p: ParentNode) -> (Seq<LNode>, Ident) {
    (nodes_of(parent_of(p.children@[0])), lexeme_of(p.children@[3]))
}

fn __rule_factory_function_production(node: &ParentNode) -> (r: ProductionDefinition)
    requires
        production_definition_ok(*node),
    ensures
        definition_view(r) == production_definition_of(*node),
{
    match &node.children[0] {
        Node::Parent(nodes_inner) => ProductionDefinition {
            definition: __rule_factory_function_nodes(nodes_inner),
            semantic_action: leaf_lexeme(&node.children[3]),
        },
        Node::Leaf(_) => unreached(),
    }
}

/// `p` is a well formed list of productions.
pub open spec fn production_definitions_ok(p: ParentNode) -> bool
    decreases p,
{
    if p.rule != ParseRule::Productions {
        false
    } else if p.children@.len() == 0 {
        true
    } else if p.children@.len() == 2 {
        match (p.children@[0], p.children@[1]) {
            (Node::Parent(first), Node::Parent(rest)) => {
                &&& first.rule == ParseRule::Production
                &&& production_definition_ok(first)
                &&& rest.rule == ParseRule::Productions
                &&& production_definitions_ok(rest)
            },
            _ => false,
        }
    } else {
        false
    }
}

/// The productions of a list of productions, in order.
pub open spec fn production_definitions_of(p: ParentNode) -> Seq<(Seq<LNode>, Ident)>
    decreases p,
{
    if p.children@.len() == 2 {
        match (p.children@[0], p.children@[1]) {
            (Node::Parent(first), Node::Parent(rest)) => seq![production_definition_of(first)]
                + production_definitions_of(rest),
            _ => Seq::empty(),
        }
    } else {
        Seq::empty()
    }
}

fn __rule_factory_function_productions(node: &ParentNode) -> (r: VecDeque<ProductionDefinition>)
    requires
        production_definitions_ok(*node),
    ensures
        r@.map_values(|d: ProductionDefinition| definition_view(d)) == production_definitions_of(*node),
    decreases node,
{
    if node.children.len() == 0 {
        let r: VecDeque<ProductionDefinition> = VecDeque::new();
        proof {
            assert(r@.map_values(|d: ProductionDefinition| definition_view(d)) =~= Seq::empty());
        }
        r
    } else {
        match (&node.children[0], &node.children[1]) {
            (Node::Parent(node_0), Node::Parent(node_1)) => {
                let head = __rule_factory_function_production(node_0);
                let tail = __rule_factory_function_productions(node_1);
                let ghost tail_view = tail@;
                let mut all = tail;
                all.push_front(head);
                proof {
                    assert(all@.map_values(|d: ProductionDefinition| definition_view(d)) =~= seq![
                        production_definition_of(*node_0),
                    ] + production_definitions_of(*node_1));
                }
                all
            },
            _ => unreached(),
        }
    }
}

/// `p` is a well formed rule: `name: %type% { productions };`.
pub open spec fn rule_ok(p: ParentNode) -> bool {
    &&& p.rule == ParseRule::Rule
    &&& p.children@.len() == 7
    &&& leaf_is(p.children@[0], LParseToken::Ident)
    &&& leaf_is(p.children@[1], LParseToken::Colon)
    &&& leaf_is(p.children@[2], LParseToken::EmbeddedRust)
    &&& leaf_is(p.children@[3], LParseToken::LCurlyBrace)
    &&& p.children@[4] matches Node::Parent(definitions)
    &&& definitions.rule == ParseRule::Productions
    &&& production_definitions_ok(definitions)
    &&& leaf_is(p.children@[5], LParseToken::RCurlyBrace)
    &&& leaf_is(p.children@[6], LParseToken::Semicolon)
}

pub open spec fn rule_of(p: ParentNode) -> (Ident, Ident, Seq<(Seq<LNode>, Ident)>) {
    (
        lexeme_of(p.children@[0]),
        lexeme_of(p.children@[2]),
        production_definitions_of(parent_of(p.children@[4])),
    )
}

fn __rule_factory_function_rule(node: &ParentNode) -> (r: LRule)
    requires
        rule_ok(*node),
    ensures
        rule_view(r) == rule_of(*node),
{
    match &node.children[4] {
        Node::Parent(production_definitions_inner) => LRule {
            name: leaf_lexeme(&node.children[0]),
            return_type: leaf_lexeme(&node.children[2]),
            productions: __rule_factory_function_productions(production_definitions_inner),
        },
        Node::Leaf(_) => unreached(),
    }
}

/// `p` is a well formed list of rules.
pub open spec fn rules_ok(p: ParentNode) -> bool
    decreases p,
{
    if p.rule != ParseRule::Rules {
        false
    } else if p.children@.len() == 0 {
        true
    } else if p.children@.len() == 2 {
        match (p.children@[0], p.children@[1]) {
            (Node::Parent(first), Node::Parent(rest)) => {
                &&& first.rule == ParseRule::Rule
                &&& rule_ok(first)
                &&& rest.rule == ParseRule::Rules
                &&& rules_ok(rest)
            },
            _ => false,
        }
    } else {
        false
    }
}

/// The rules of a list of rules, in order.
pub open spec fn rules_of(p: ParentNode) -> Seq<(Ident, Ident, Seq<(Seq<LNode>, Ident)>)>
    decreases p,
{
    if p.children@.len() == 2 {
        match (p.children@[0], p.children@[1]) {
            (Node::Parent(first), Node::Parent(rest)) => seq![rule_of(first)] + rules_of(rest),
            _ => Seq::empty(),
        }
    } else {
        Seq::empty()
    }
}

fn __rule_factory_function_rules(node: &ParentNode) -> (r: VecDeque<LRule>)
    requires
        rules_ok(*node),
    ensures
        r@.map_values(|x: LRule| rule_view(x)) == rules_of(*node),
    decreases node,
{
    if node.children.len() == 0 {
        let r: VecDeque<LRule> = VecDeque::new();
        proof {
            assert(r@.map_values(|x: LRule| rule_view(x)) =~= Seq::empty());
        }
        r
    } else {
        match (&node.children[0], &node.children[1]) {
            (Node::Parent(node_0), Node::Parent(node_1)) => {
                let head = __rule_factory_function_rule(node_0);
                let tail = __rule_factory_function_rules(node_1);
                let mut all = tail;
                all.push_front(head);
                proof {
                    assert(all@.map_values(|x: LRule| rule_view(x)) =~= seq![rule_of(*node_0)]
                        + rules_of(*node_1));
                }
                all
            },
            _ => unreached(),
        }
    }
}

/// `p` is a well formed preamble: imports, each followed by the rest.
pub open spec fn preamble_ok(p: ParentNode) -> bool
    decreases p,
{
    if p.rule != ParseRule::Preamble {
        false
    } else if p.children@.len() == 0 {
        true
    } else if p.children@.len() == 2 {
        match (p.children@[0], p.children@[1]) {
            (Node::Leaf(import), Node::Parent(rest)) => {
                &&& import.token_type == LParseToken::RustImport
                &&& rest.rule == ParseRule::Preamble
                &&& preamble_ok(rest)
            },
            _ => false,
        }
    } else {
        false
    }
}

/// The imports of a preamble, in order.
pub open spec fn preamble_of(p: ParentNode) -> Seq<Ident>
    decreases p,
{
    if p.children@.len() == 2 {
        match (p.children@[0], p.children@[1]) {
            (Node::Leaf(import), Node::Parent(rest)) => seq![import.lexeme] + preamble_of(rest),
            _ => Seq::empty(),
        }
    } else {
        Seq::empty()
    }
}

fn __rule_factory_function_preamble(node: &ParentNode) -> (r: VecDeque<Ident>)
    requires
        preamble_ok(*node),
    ensures
        r@ == preamble_of(*node),
    decreases node,
{
    if node.children.len() == 0 {
        VecDeque::new()
    } else {
        match (&node.children[0], &node.children[1]) {
            (Node::Leaf(node_0), Node::Parent(node_1)) => {
                let import = node_0.lexeme;
                let tail = __rule_factory_function_preamble(node_1);
                let mut all = tail;
                all.push_front(import);
                all
            },
            _ => unreached(),
        }
    }
}

/// `p` is a well formed grammar description.
pub open spec fn grammar_ok(p: ParentNode) -> bool {
    &&& p.rule == ParseRule::Grammar
    &&& p.children@.len() == 4
    &&& p.children@[0] matches Node::Parent(preamble)
    &&& preamble_ok(preamble)
    &&& p.children@[1] matches Node::Parent(goal)
    &&& set_goal_rule_ok(goal)
    &&& p.children@[2] matches Node::Parent(token_type)
    &&& set_token_type_ok(token_type)
    &&& p.children@[3] matches Node::Parent(rules)
    &&& rules_ok(rules)
}

pub open spec fn grammar_of(p: ParentNode) -> (
    Seq<Ident>,
    Ident,
    Ident,
    Seq<(Ident, Ident, Seq<(Seq<LNode>, Ident)>)>,
) {
    (
        preamble_of(parent_of(p.children@[0])),
        lexeme_of(parent_of(p.children@[1]).children@[2]),
        lexeme_of(parent_of(p.children@[2]).children@[2]),
        rules_of(parent_of(p.children@[3])),
    )
}

/// Builds the description of a grammar from the parse tree of a whole
/// grammar, which must be one that the generated parser's grammar gives.
pub fn __rule_factory_function_grammar(node: &ParentNode) -> (r: LGrammar)
    requires
        grammar_ok(*node),
    ensures
        grammar_view(r) == grammar_of(*node),
{
    match (&node.children[0], &node.children[1], &node.children[2], &node.children[3]) {
        (
            Node::Parent(preamble),
            Node::Parent(set_goal_rule_inner),
            Node::Parent(set_token_type_inner),
            Node::Parent(rules_inner),
        ) => LGrammar {
            preamble: __rule_factory_function_preamble(preamble),
            goal_rule: __rule_factory_function_set_goal_rule(set_goal_rule_inner),
            token_type: __rule_factory_function_set_token_type(set_token_type_inner),
            rules: __rule_factory_function_rules(rules_inner),
        },
        _ => unreached(),
    }
}

/// The number of elements written in a list: one for each level, the
/// later elements being nested in the second child.
pub open spec fn list_length(p: ParentNode) -> nat
    decreases p,
{
    if p.children@.len() == 2 {
        match p.children@[1] {
            Node::Parent(rest) => 1 + list_length(rest),
            _ => 1,
        }
    } else {
        0
    }
}

/// A list of nodes yields one for each written, in the order written:
/// a list `[first, rest]` yields the one of `first`, then those of
/// `rest`.
pub proof fn lemma_nodes_keep_all(p: ParentNode)
    requires
        nodes_ok(p),
    ensures
        nodes_of(p).len() == list_length(p),
        p.children@.len() == 2 ==> (p.children@[0] matches Node::Parent(first) && p.children@[1] matches Node::Parent(rest) && {
            let all = nodes_of(p);
            &&& all.len() == nodes_of(rest).len() + 1
            &&& all[0] == node_of(first)
            &&& all.drop_first() == nodes_of(rest)
        }),
    decreases p,
{
    if p.children@.len() == 2 {
        match (p.children@[0], p.children@[1]) {
            (Node::Parent(first), Node::Parent(rest)) => {
                lemma_nodes_keep_all(rest);
                assert(nodes_of(p).drop_first() =~= nodes_of(rest));
            },
            _ => {},
        }
    }
}

/// A list of productions yields one for each written, in the order written:
/// a list `[first, rest]` yields the one of `first`, then those of
/// `rest`.
pub proof fn lemma_productions_keep_all(p: ParentNode)
    requires
        production_definitions_ok(p),
    ensures
        production_definitions_of(p).len() == list_length(p),
        p.children@.len() == 2 ==> (p.children@[0] matches Node::Parent(first) && p.children@[1] matches Node::Parent(rest) && {
            let all = production_definitions_of(p);
            &&& all.len() == production_definitions_of(rest).len() + 1
            &&& all[0] == production_definition_of(first)
            &&& all.drop_first() == production_definitions_of(rest)
        }),
    decreases p,
{
    if p.children@.len() == 2 {
        match (p.children@[0], p.children@[1]) {
            (Node::Parent(first), Node::Parent(rest)) => {
                lemma_productions_keep_all(rest);
                assert(production_definitions_of(p).drop_first() =~= production_definitions_of(rest));
            },
            _ => {},
        }
    }
}

/// A list of rules yields one for each written, in the order written:
/// a list `[first, rest]` yields the one of `first`, then those of
/// `rest`.
pub proof fn lemma_rules_keep_all(p: ParentNode)
    requires
        rules_ok(p),
    ensures
        rules_of(p).len() == list_length(p),
        p.children@.len() == 2 ==> (p.children@[0] matches Node::Parent(first) && p.children@[1] matches Node::Parent(rest) && {
            let all = rules_of(p);
            &&& all.len() == rules_of(rest).len() + 1
            &&& all[0] == rule_of(first)
            &&& all.drop_first() == rules_of(rest)
        }),
    decreases p,
{
    if p.children@.len() == 2 {
        match (p.children@[0], p.children@[1]) {
            (Node::Parent(first), Node::Parent(rest)) => {
                lemma_rules_keep_all(rest);
                assert(rules_of(p).drop_first() =~= rules_of(rest));
            },
            _ => {},
        }
    }
}

/// A list of imports yields one for each written, in the order written:
/// a list `[first, rest]` yields the one of `first`, then those of
/// `rest`.
pub proof fn lemma_imports_keep_all(p: ParentNode)
    requires
        preamble_ok(p),
    ensures
        preamble_of(p).len() == list_length(p),
        p.children@.len() == 2 ==> (p.children@[0] matches Node::Leaf(import) && p.children@[1] matches Node::Parent(rest) && {
            let all = preamble_of(p);
            &&& all.len() == preamble_of(rest).len() + 1
            &&& all[0] == import.lexeme
            &&& all.drop_first() == preamble_of(rest)
        }),
    decreases p,
{
    if p.children@.len() == 2 {
        match (p.children@[0], p.children@[1]) {
            (Node::Leaf(import), Node::Parent(rest)) => {
                lemma_imports_keep_all(rest);
                assert(preamble_of(p).drop_first() =~= preamble_of(rest));
            },
            _ => {},
        }
    }
}

} // verus!
