use vstd::prelude::*;

use super::grammar::{Grammar, Production, Symbol};
use super::lparse_frontend::{
    BoundLeaf, BoundRule, Ident, LGrammar, LNode, LParseToken, LRule, ProductionDefinition,
};
use super::parser::{Node, Parent};
use super::rule::Rule;
use crate::lox_core::Ordinal;
use crate::parse::lparse_grammar::grammar_is;

verus! {

/// The rules of the grammar description language with repetitions; the
/// `Reserved*Kleene` rules stand for the repetitions.
#[derive(Clone, Copy, Debug, PartialEq, Eq, Hash, Structural)]
pub enum ParseRule {
    LGrammar,
    BoundLeaf,
    BoundRule,
    BoundKleeneRule,
    LNode,
    ProductionDefinition,
    LRule,
    SetGoalRule,
    SetTokenType,
    Preamble,
    ReservedLNodeKleene,
    ReservedProductionDefinitionKleene,
    ReservedPreambleKleene,
    ReservedLRuleKleene,
}

impl Ordinal for ParseRule {
    const COUNT: usize = 14;

    open spec fn spec_ord(self) -> nat {
        match self {
            ParseRule::LGrammar => 0,
            ParseRule::BoundLeaf => 1,
            ParseRule::BoundRule => 2,
            ParseRule::BoundKleeneRule => 3,
            ParseRule::LNode => 4,
            ParseRule::ProductionDefinition => 5,
            ParseRule::LRule => 6,
            ParseRule::SetGoalRule => 7,
            ParseRule::SetTokenType => 8,
            ParseRule::Preamble => 9,
            ParseRule::ReservedLNodeKleene => 10,
            ParseRule::ReservedProductionDefinitionKleene => 11,
            ParseRule::ReservedPreambleKleene => 12,
            ParseRule::ReservedLRuleKleene => 13,
        }
    }

    fn ord(&self) -> (r: usize) {
        match self {
            ParseRule::LGrammar => 0,
            ParseRule::BoundLeaf => 1,
            ParseRule::BoundRule => 2,
            ParseRule::BoundKleeneRule => 3,
            ParseRule::LNode => 4,
            ParseRule::ProductionDefinition => 5,
            ParseRule::LRule => 6,
            ParseRule::SetGoalRule => 7,
            ParseRule::SetTokenType => 8,
            ParseRule::Preamble => 9,
            ParseRule::ReservedLNodeKleene => 10,
            ParseRule::ReservedProductionDefinitionKleene => 11,
            ParseRule::ReservedPreambleKleene => 12,
            ParseRule::ReservedLRuleKleene => 13,
        }
    }

    proof fn lemma_ord_bound(a: Self) {
    }

    proof fn lemma_ord_injective(a: Self, b: Self) {
    }
}

impl Rule for ParseRule {
    type TokenType = LParseToken;
}

/// The productions of the grammar description language with repetitions,
/// in order: each rule with its definition. A repetition is a left
/// recursive rule that can be empty.
pub open spec fn kleene_productions() -> Seq<(ParseRule, Seq<Symbol<ParseRule>>)> {
    seq![
        (ParseRule::LGrammar, seq![Symbol::Rule(ParseRule::ReservedPreambleKleene), Symbol::Rule(ParseRule::SetGoalRule), Symbol::Rule(ParseRule::SetTokenType), Symbol::Rule(ParseRule::ReservedLRuleKleene)]),
        (ParseRule::BoundLeaf, seq![Symbol::Token(LParseToken::LSquareBracket), Symbol::Token(LParseToken::Ident), Symbol::Token(LParseToken::Colon), Symbol::Token(LParseToken::Ident), Symbol::Token(LParseToken::RSquareBracket)]),
        (ParseRule::BoundRule, seq![Symbol::Token(LParseToken::LAngleBracket), Symbol::Token(LParseToken::Ident), Symbol::Token(LParseToken::Colon), Symbol::Token(LParseToken::Ident), Symbol::Token(LParseToken::RAngleBracket)]),
        (ParseRule::BoundKleeneRule, seq![Symbol::Token(LParseToken::LAngleBracket), Symbol::Token(LParseToken::Ident), Symbol::Token(LParseToken::Colon), Symbol::Token(LParseToken::Ident), Symbol::Token(LParseToken::Asterisk), Symbol::Token(LParseToken::RAngleBracket)]),
        (ParseRule::LNode, seq![Symbol::Rule(ParseRule::BoundLeaf)]),
        (ParseRule::LNode, seq![Symbol::Rule(ParseRule::BoundRule)]),
        (ParseRule::LNode, seq![Symbol::Rule(ParseRule::BoundKleeneRule)]),
        (ParseRule::ProductionDefinition, seq![Symbol::Rule(ParseRule::ReservedLNodeKleene), Symbol::Token(LParseToken::Equals), Symbol::Token(LParseToken::RAngleBracket), Symbol::Token(LParseToken::EmbeddedRust), Symbol::Token(LParseToken::Comma)]),
        (ParseRule::LRule, seq![Symbol::Token(LParseToken::Ident), Symbol::Token(LParseToken::Colon), Symbol::Token(LParseToken::EmbeddedRust), Symbol::Token(LParseToken::LCurlyBrace), Symbol::Rule(ParseRule::ReservedProductionDefinitionKleene), Symbol::Token(LParseToken::RCurlyBrace), Symbol::Token(LParseToken::Semicolon)]),
        (ParseRule::LRule, seq![Symbol::Token(LParseToken::Ident), Symbol::Token(LParseToken::LCurlyBrace), Symbol::Rule(ParseRule::ReservedProductionDefinitionKleene), Symbol::Token(LParseToken::RCurlyBrace), Symbol::Token(LParseToken::Semicolon)]),
        (ParseRule::SetGoalRule, seq![Symbol::Token(LParseToken::GoalRule), Symbol::Token(LParseToken::Equals), Symbol::Token(LParseToken::Ident), Symbol::Token(LParseToken::Semicolon)]),
        (ParseRule::SetTokenType, seq![Symbol::Token(LParseToken::TokenType), Symbol::Token(LParseToken::Equals), Symbol::Token(LParseToken::Ident), Symbol::Token(LParseToken::Semicolon)]),
        (ParseRule::Preamble, seq![Symbol::Token(LParseToken::RustImport)]),
        (ParseRule::Preamble, seq![Symbol::Token(LParseToken::RustDirective)]),
        (ParseRule::ReservedLNodeKleene, seq![]),
        (ParseRule::ReservedLNodeKleene, seq![Symbol::Rule(ParseRule::ReservedLNodeKleene), Symbol::Rule(ParseRule::LNode)]),
        (ParseRule::ReservedProductionDefinitionKleene, seq![]),
        (ParseRule::ReservedProductionDefinitionKleene, seq![Symbol::Rule(ParseRule::ReservedProductionDefinitionKleene), Symbol::Rule(ParseRule::ProductionDefinition)]),
        (ParseRule::ReservedPreambleKleene, seq![]),
        (ParseRule::ReservedPreambleKleene, seq![Symbol::Rule(ParseRule::ReservedPreambleKleene), Symbol::Rule(ParseRule::Preamble)]),
        (ParseRule::ReservedLRuleKleene, seq![]),
        (ParseRule::ReservedLRuleKleene, seq![Symbol::Rule(ParseRule::ReservedLRuleKleene), Symbol::Rule(ParseRule::LRule)]),
    ]
}

/// The grammar of the grammar description language with repetitions,
/// whose goal is a whole grammar.
pub fn __make_grammar() -> (g: Grammar<ParseRule>)
    ensures
        grammar_is(&g, ParseRule::LGrammar, kleene_productions()),
{
    let productions: Vec<Production<ParseRule>> = vec![
        Production {
            rule: ParseRule::LGrammar,
            definition: vec![
                Symbol::Rule(ParseRule::ReservedPreambleKleene),
                Symbol::Rule(ParseRule::SetGoalRule),
                Symbol::Rule(ParseRule::SetTokenType),
                Symbol::Rule(ParseRule::ReservedLRuleKleene),
            ],
        },
        Production {
            rule: ParseRule::BoundLeaf,
            definition: vec![
                Symbol::Token(LParseToken::LSquareBracket),
                Symbol::Token(LParseToken::Ident),
                Symbol::Token(LParseToken::Colon),
                Symbol::Token(LParseToken::Ident),
                Symbol::Token(LParseToken::RSquareBracket),
            ],
        },
        Production {
            rule: ParseRule::BoundRule,
            definition: vec![
                Symbol::Token(LParseToken::LAngleBracket),
                Symbol::Token(LParseToken::Ident),
                Symbol::Token(LParseToken::Colon),
                Symbol::Token(LParseToken::Ident),
                Symbol::Token(LParseToken::RAngleBracket),
            ],
        },
        Production {
            rule: ParseRule::BoundKleeneRule,
            definition: vec![
                Symbol::Token(LParseToken::LAngleBracket),
                Symbol::Token(LParseToken::Ident),
                Symbol::Token(LParseToken::Colon),
                Symbol::Token(LParseToken::Ident),
                Symbol::Token(LParseToken::Asterisk),
                Symbol::Token(LParseToken::RAngleBracket),
            ],
        },
        Production {
            rule: ParseRule::LNode,
            definition: vec![
                Symbol::Rule(ParseRule::BoundLeaf),
            ],
        },
        Production {
            rule: ParseRule::LNode,
            definition: vec![
                Symbol::Rule(ParseRule::BoundRule),
            ],
        },
        Production {
            rule: ParseRule::LNode,
            definition: vec![
                Symbol::Rule(ParseRule::BoundKleeneRule),
            ],
        },
        Production {
            rule: ParseRule::ProductionDefinition,
            definition: vec![
                Symbol::Rule(ParseRule::ReservedLNodeKleene),
                Symbol::Token(LParseToken::Equals),
                Symbol::Token(LParseToken::RAngleBracket),
                Symbol::Token(LParseToken::EmbeddedRust),
                Symbol::Token(LParseToken::Comma),
            ],
        },
        Production {
            rule: ParseRule::LRule,
            definition: vec![
                Symbol::Token(LParseToken::Ident),
                Symbol::Token(LParseToken::Colon),
                Symbol::Token(LParseToken::EmbeddedRust),
                Symbol::Token(LParseToken::LCurlyBrace),
                Symbol::Rule(ParseRule::ReservedProductionDefinitionKleene),
                Symbol::Token(LParseToken::RCurlyBrace),
                Symbol::Token(LParseToken::Semicolon),
            ],
        },
        Production {
            rule: ParseRule::LRule,
            definition: vec![
                Symbol::Token(LParseToken::Ident),
                Symbol::Token(LParseToken::LCurlyBrace),
                Symbol::Rule(ParseRule::ReservedProductionDefinitionKleene),
                Symbol::Token(LParseToken::RCurlyBrace),
                Symbol::Token(LParseToken::Semicolon),
            ],
        },
        Production {
            rule: ParseRule::SetGoalRule,
            definition: vec![
                Symbol::Token(LParseToken::GoalRule),
                Symbol::Token(LParseToken::Equals),
                Symbol::Token(LParseToken::Ident),
                Symbol::Token(LParseToken::Semicolon),
            ],
        },
        Production {
            rule: ParseRule::SetTokenType,
            definition: vec![
                Symbol::Token(LParseToken::TokenType),
                Symbol::Token(LParseToken::Equals),
                Symbol::Token(LParseToken::Ident),
                Symbol::Token(LParseToken::Semicolon),
            ],
        },
        Production {
            rule: ParseRule::Preamble,
            definition: vec![
                Symbol::Token(LParseToken::RustImport),
            ],
        },
        Production {
            rule: ParseRule::Preamble,
            definition: vec![
                Symbol::Token(LParseToken::RustDirective),
            ],
        },
        Production { rule: ParseRule::ReservedLNodeKleene, definition: vec![] },
        Production {
            rule: ParseRule::ReservedLNodeKleene,
            definition: vec![
                Symbol::Rule(ParseRule::ReservedLNodeKleene),
                Symbol::Rule(ParseRule::LNode),
            ],
        },
        Production { rule: ParseRule::ReservedProductionDefinitionKleene, definition: vec![] },
        Production {
            rule: ParseRule::ReservedProductionDefinitionKleene,
            definition: vec![
                Symbol::Rule(ParseRule::ReservedProductionDefinitionKleene),
                Symbol::Rule(ParseRule::ProductionDefinition),
            ],
        },
        Production { rule: ParseRule::ReservedPreambleKleene, definition: vec![] },
        Production {
            rule: ParseRule::ReservedPreambleKleene,
            definition: vec![
                Symbol::Rule(ParseRule::ReservedPreambleKleene),
                Symbol::Rule(ParseRule::Preamble),
            ],
        },
        Production { rule: ParseRule::ReservedLRuleKleene, definition: vec![] },
        Production {
            rule: ParseRule::ReservedLRuleKleene,
            definition: vec![
                Symbol::Rule(ParseRule::ReservedLRuleKleene),
                Symbol::Rule(ParseRule::LRule),
            ],
        },
    ];
    let g = Grammar::new(ParseRule::LGrammar, productions);
    proof {
        assert(g.spec_productions()[0].definition@ =~= kleene_productions()[0].1);
        assert(g.spec_productions()[1].definition@ =~= kleene_productions()[1].1);
        assert(g.spec_productions()[2].definition@ =~= kleene_productions()[2].1);
        assert(g.spec_productions()[3].definition@ =~= kleene_productions()[3].1);
        assert(g.spec_productions()[4].definition@ =~= kleene_productions()[4].1);
        assert(g.spec_productions()[5].definition@ =~= kleene_productions()[5].1);
        assert(g.spec_productions()[6].definition@ =~= kleene_productions()[6].1);
        assert(g.spec_productions()[7].definition@ =~= kleene_productions()[7].1);
        assert(g.spec_productions()[8].definition@ =~= kleene_productions()[8].1);
        assert(g.spec_productions()[9].definition@ =~= kleene_productions()[9].1);
        assert(g.spec_productions()[10].definition@ =~= kleene_productions()[10].1);
        assert(g.spec_productions()[11].definition@ =~= kleene_productions()[11].1);
        assert(g.spec_productions()[12].definition@ =~= kleene_productions()[12].1);
        assert(g.spec_productions()[13].definition@ =~= kleene_productions()[13].1);
        assert(g.spec_productions()[14].definition@ =~= kleene_productions()[14].1);
        assert(g.spec_productions()[15].definition@ =~= kleene_productions()[15].1);
        assert(g.spec_productions()[16].definition@ =~= kleene_productions()[16].1);
        assert(g.spec_productions()[17].definition@ =~= kleene_productions()[17].1);
        assert(g.spec_productions()[18].definition@ =~= kleene_productions()[18].1);
        assert(g.spec_productions()[19].definition@ =~= kleene_productions()[19].1);
        assert(g.spec_productions()[20].definition@ =~= kleene_productions()[20].1);
        assert(g.spec_productions()[21].definition@ =~= kleene_productions()[21].1);
        assert forall|p: int| 0 <= p < kleene_productions().len() implies (#[trigger] g.spec_productions()[p]).rule
            == kleene_productions()[p].0 && g.spec_productions()[p].definition@
            == kleene_productions()[p].1 by {
            if p == 0 {
            } else if p == 1 {
            } else if p == 2 {
            } else if p == 3 {
            } else if p == 4 {
            } else if p == 5 {
            } else if p == 6 {
            } else if p == 7 {
            } else if p == 8 {
            } else if p == 9 {
            } else if p == 10 {
            } else if p == 11 {
            } else if p == 12 {
            } else if p == 13 {
            } else if p == 14 {
            } else if p == 15 {
            } else if p == 16 {
            } else if p == 17 {
            } else if p == 18 {
            } else if p == 19 {
            } else if p == 20 {
            } else if p == 21 {
            }
        }
    }
    g
}

/// A parse tree node of the grammar description language with
/// repetitions.
pub type RawNode = Node<ParseRule>;

/// An inner parse tree node of the grammar description language with
/// repetitions.
pub type ParentNode = Parent<ParseRule>;

/// Node `n` is a token of kind `kind`.
pub open spec fn leaf_is(n: RawNode, kind: LParseToken) -> bool {
    n matches Node::Leaf(t) && t.token_type == kind
}

/// The interned text of token node `n`.
pub open spec fn lexeme_of(n: RawNode) -> Ident {
    match n {
        Node::Leaf(t) => t.lexeme,
        Node::Parent(_) => arbitrary(),
    }
}

/// The inner node that `n` is.
pub open spec fn parent_of(n: RawNode) -> ParentNode {
    match n {
        Node::Parent(q) => q,
        Node::Leaf(_) => arbitrary(),
    }
}

/// The children of `p` are tokens of the kinds `kinds`, in order.
pub open spec fn leaves_are(p: ParentNode, kinds: Seq<LParseToken>) -> bool {
    &&& p.children@.len() == kinds.len()
    &&& forall|i: int| 0 <= i < kinds.len() ==> leaf_is(#[trigger] p.children@[i], kinds[i])
}

/// `p` is a well formed `[bind_to: token]`.
pub open spec fn bound_leaf_ok(p: ParentNode) -> bool {
    &&& p.rule == ParseRule::BoundLeaf
    &&& leaves_are(
        p,
        seq![
            LParseToken::LSquareBracket,
            LParseToken::Ident,
            LParseToken::Colon,
            LParseToken::Ident,
            LParseToken::RSquareBracket,
        ],
    )
}

pub open spec fn bound_leaf_of(p: ParentNode) -> BoundLeaf {
    BoundLeaf { token: lexeme_of(p.children@[3]), bind_to: lexeme_of(p.children@[1]) }
}

/// `p` is a well formed `<bind_to: rule>`.
pub open spec fn bound_rule_ok(p: ParentNode) -> bool {
    &&& p.rule == ParseRule::BoundRule
    &&& leaves_are(
        p,
        seq![
            LParseToken::LAngleBracket,
            LParseToken::Ident,
            LParseToken::Colon,
            LParseToken::Ident,
            LParseToken::RAngleBracket,
        ],
    )
}

/// `p` is a well formed `<bind_to: rule*>`.
pub open spec fn bound_kleene_rule_ok(p: ParentNode) -> bool {
    &&& p.rule == ParseRule::BoundKleeneRule
    &&& leaves_are(
        p,
        seq![
            LParseToken::LAngleBracket,
            LParseToken::Ident,
            LParseToken::Colon,
            LParseToken::Ident,
            LParseToken::Asterisk,
            LParseToken::RAngleBracket,
        ],
    )
}

/// The rule and name of a bound rule or a bound repetition.
pub open spec fn bound_rule_of(p: ParentNode) -> BoundRule {
    BoundRule { rule: lexeme_of(p.children@[3]), bind_to: lexeme_of(p.children@[1]) }
}

/// `p` is a well formed node: one bound token, rule or repetition.
pub open spec fn l_node_ok(p: ParentNode) -> bool {
    &&& p.rule == ParseRule::LNode
    &&& p.children@.len() == 1
    &&& p.children@[0] matches Node::Parent(inner)
    &&& {
        ||| inner.rule == ParseRule::BoundLeaf && bound_leaf_ok(inner)
        ||| inner.rule == ParseRule::BoundRule && bound_rule_ok(inner)
        ||| inner.rule == ParseRule::BoundKleeneRule && bound_kleene_rule_ok(inner)
    }
}

pub open spec fn l_node_of(p: ParentNode) -> LNode {
    let inner = parent_of(p.children@[0]);
    if inner.rule == ParseRule::BoundLeaf {
        LNode::Leaf(bound_leaf_of(inner))
    } else if inner.rule == ParseRule::BoundRule {
        LNode::Rule(bound_rule_of(inner))
    } else {
        LNode::Kleene(bound_rule_of(inner))
    }
}

/// `p` is a well formed repetition of nodes: empty, or a repetition then
/// a node.
pub open spec fn l_nodes_ok(p: ParentNode) -> bool
    decreases p,
{
    if p.rule != ParseRule::ReservedLNodeKleene {
        false
    } else if p.children@.len() == 0 {
        true
    } else if p.children@.len() == 2 {
        match (p.children@[0], p.children@[1]) {
            (Node::Parent(first), Node::Parent(last)) => {
                &&& first.rule == ParseRule::ReservedLNodeKleene
                &&& l_nodes_ok(first)
                &&& last.rule == ParseRule::LNode
                &&& l_node_ok(last)
            },
            _ => false,
        }
    } else {
        false
    }
}

/// The nodes of a repetition of nodes, in order.
pub open spec fn l_nodes_of(p: ParentNode) -> Seq<LNode>
    decreases p,
{
    if p.children@.len() == 2 {
        match (p.children@[0], p.children@[1]) {
            (Node::Parent(first), Node::Parent(last)) => l_nodes_of(first).push(l_node_of(last)),
            _ => Seq::empty(),
        }
    } else {
        Seq::empty()
    }
}

/// What a production holds: its bound elements and its semantic action.
pub open spec fn definition_view(d: ProductionDefinition) -> (Seq<LNode>, Ident) {
    (d.definition@, d.semantic_action)
}

/// What a rule holds: its name, its value type if written, and its
/// productions.
pub open spec fn rule_view(r: LRule) -> (Ident, Option<Ident>, Seq<(Seq<LNode>, Ident)>) {
    (r.name, r.return_type, r.productions@.map_values(|d: ProductionDefinition| definition_view(d)))
}

/// What a grammar description holds: its imports and directives, goal
/// rule, token type and rules.
pub open spec fn grammar_view(g: LGrammar) -> (
    Seq<Ident>,
    Ident,
    Ident,
    Seq<(Ident, Option<Ident>, Seq<(Seq<LNode>, Ident)>)>,
) {
    (g.preamble@, g.goal_rule, g.token_type, g.rules@.map_values(|r: LRule| rule_view(r)))
}

/// `p` is a well formed production: `nodes => %action%,`.
pub open spec fn production_definition_ok(p: ParentNode) -> bool {
    &&& p.rule == ParseRule::ProductionDefinition
    &&& p.children@.len() == 5
    &&& p.children@[0] matches Node::Parent(nodes)
    &&& nodes.rule == ParseRule::ReservedLNodeKleene
    &&& l_nodes_ok(nodes)
    &&& leaf_is(p.children@[1], LParseToken::Equals)
    &&& leaf_is(p.children@[2], LParseToken::RAngleBracket)
    &&& leaf_is(p.children@[3], LParseToken::EmbeddedRust)
    &&& leaf_is(p.children@[4], LParseToken::Comma)
}

pub open spec fn production_definition_of(p: ParentNode) -> (Seq<LNode>, Ident) {
    (l_nodes_of(parent_of(p.children@[0])), lexeme_of(p.children@[3]))
}

/// `p` is a well formed repetition of productions.
pub open spec fn production_definitions_ok(p: ParentNode) -> bool
    decreases p,
{
    if p.rule != ParseRule::ReservedProductionDefinitionKleene {
        false
    } else if p.children@.len() == 0 {
        true
    } else if p.children@.len() == 2 {
        match (p.children@[0], p.children@[1]) {
            (Node::Parent(first), Node::Parent(last)) => {
                &&& first.rule == ParseRule::ReservedProductionDefinitionKleene
                &&& production_definitions_ok(first)
                &&& last.rule == ParseRule::ProductionDefinition
                &&& production_definition_ok(last)
            },
            _ => false,
        }
    } else {
        false
    }
}

/// The productions of a repetition of productions, in order.
pub open spec fn production_definitions_of(p: ParentNode) -> Seq<(Seq<LNode>, Ident)>
    decreases p,
{
    if p.children@.len() == 2 {
        match (p.children@[0], p.children@[1]) {
            (Node::Parent(first), Node::Parent(last)) => production_definitions_of(first).push(
                production_definition_of(last),
            ),
            _ => Seq::empty(),
        }
    } else {
        Seq::empty()
    }
}

/// `p` is a well formed rule: `name: %type% { productions };` or
/// `name { productions };`.
pub open spec fn l_rule_ok(p: ParentNode) -> bool {
    &&& p.rule == ParseRule::LRule
    &&& leaf_is(p.children@[0], LParseToken::Ident)
    &&& {
        ||| {
            &&& p.children@.len() == 7
            &&& leaf_is(p.children@[1], LParseToken::Colon)
            &&& leaf_is(p.children@[2], LParseToken::EmbeddedRust)
            &&& leaf_is(p.children@[3], LParseToken::LCurlyBrace)
            &&& p.children@[4] matches Node::Parent(definitions)
            &&& definitions.rule == ParseRule::ReservedProductionDefinitionKleene
            &&& production_definitions_ok(definitions)
            &&& leaf_is(p.children@[5], LParseToken::RCurlyBrace)
            &&& leaf_is(p.children@[6], LParseToken::Semicolon)
        }
        ||| {
            &&& p.children@.len() == 5
            &&& leaf_is(p.children@[1], LParseToken::LCurlyBrace)
            &&& p.children@[2] matches Node::Parent(definitions)
            &&& definitions.rule == ParseRule::ReservedProductionDefinitionKleene
            &&& production_definitions_ok(definitions)
            &&& leaf_is(p.children@[3], LParseToken::RCurlyBrace)
            &&& leaf_is(p.children@[4], LParseToken::Semicolon)
        }
    }
}

pub open spec fn l_rule_of(p: ParentNode) -> (Ident, Option<Ident>, Seq<(Seq<LNode>, Ident)>) {
    if p.children@.len() == 7 {
        (
            lexeme_of(p.children@[0]),
            Some(lexeme_of(p.children@[2])),
            production_definitions_of(parent_of(p.children@[4])),
        )
    } else {
        (lexeme_of(p.children@[0]), None, production_definitions_of(parent_of(p.children@[2])))
    }
}

/// `p` is a well formed repetition of rules.
pub open spec fn l_rules_ok(p: ParentNode) -> bool
    decreases p,
{
    if p.rule != ParseRule::ReservedLRuleKleene {
        false
    } else if p.children@.len() == 0 {
        true
    } else if p.children@.len() == 2 {
        match (p.children@[0], p.children@[1]) {
            (Node::Parent(first), Node::Parent(last)) => {
                &&& first.rule == ParseRule::ReservedLRuleKleene
                &&& l_rules_ok(first)
                &&& last.rule == ParseRule::LRule
                &&& l_rule_ok(last)
            },
            _ => false,
        }
    } else {
        false
    }
}

/// The rules of a repetition of rules, in order.
pub open spec fn l_rules_of(p: ParentNode) -> Seq<(Ident, Option<Ident>, Seq<(Seq<LNode>, Ident)>)>
    decreases p,
{
    if p.children@.len() == 2 {
        match (p.children@[0], p.children@[1]) {
            (Node::Parent(first), Node::Parent(last)) => l_rules_of(first).push(l_rule_of(last)),
            _ => Seq::empty(),
        }
    } else {
        Seq::empty()
    }
}

/// `p` is a well formed import or directive.
pub open spec fn preamble_ok(p: ParentNode) -> bool {
    &&& p.rule == ParseRule::Preamble
    &&& p.children@.len() == 1
    &&& leaf_is(p.children@[0], LParseToken::RustImport) || leaf_is(
        p.children@[0],
        LParseToken::RustDirective,
    )
}

/// `p` is a well formed repetition of imports and directives.
pub open spec fn preambles_ok(p: ParentNode) -> bool
    decreases p,
{
    if p.rule != ParseRule::ReservedPreambleKleene {
        false
    } else if p.children@.len() == 0 {
        true
    } else if p.children@.len() == 2 {
        match (p.children@[0], p.children@[1]) {
            (Node::Parent(first), Node::Parent(last)) => {
                &&& first.rule == ParseRule::ReservedPreambleKleene
                &&& preambles_ok(first)
                &&& last.rule == ParseRule::Preamble
                &&& preamble_ok(last)
            },
            _ => false,
        }
    } else {
        false
    }
}

/// The imports and directives of a repetition of them, in order.
pub open spec fn preambles_of(p: ParentNode) -> Seq<Ident>
    decreases p,
{
    if p.children@.len() == 2 {
        match (p.children@[0], p.children@[1]) {
            (Node::Parent(first), Node::Parent(last)) => preambles_of(first).push(
                lexeme_of(last.children@[0]),
            ),
            _ => Seq::empty(),
        }
    } else {
        Seq::empty()
    }
}

/// The number of elements written in a repetition: one for each level,
/// the earlier elements being nested in the first child.
pub open spec fn repetition_length(p: ParentNode) -> nat
    decreases p,
{
    if p.children@.len() == 2 {
        match p.children@[0] {
            Node::Parent(first) => repetition_length(first) + 1,
            _ => 1,
        }
    } else {
        0
    }
}

/// A repetition of nodes yields one for each written, in the order
/// written: a repetition `[first, last]` yields those of `first`, then
/// the one of `last`.
pub proof fn lemma_nodes_keep_all(p: ParentNode)
    requires
        l_nodes_ok(p),
    ensures
        l_nodes_of(p).len() == repetition_length(p),
        p.children@.len() == 2 ==> (p.children@[0] matches Node::Parent(first) && p.children@[1] matches Node::Parent(last) && {
            let all = l_nodes_of(p);
            let before = l_nodes_of(first);
            &&& all.len() == before.len() + 1
            &&& all.take(before.len() as int) == before
            &&& all.last() == l_node_of(last)
        }),
    decreases p,
{
    if p.children@.len() == 2 {
        match (p.children@[0], p.children@[1]) {
            (Node::Parent(first), Node::Parent(last)) => {
                lemma_nodes_keep_all(first);
                assert(l_nodes_of(p).take(l_nodes_of(first).len() as int) =~= l_nodes_of(first));
            },
            _ => {},
        }
    }
}

/// A repetition of productions yields one for each written, in the order
/// written: a repetition `[first, last]` yields those of `first`, then
/// the one of `last`.
pub proof fn lemma_productions_keep_all(p: ParentNode)
    requires
        production_definitions_ok(p),
    ensures
        production_definitions_of(p).len() == repetition_length(p),
        p.children@.len() == 2 ==> (p.children@[0] matches Node::Parent(first) && p.children@[1] matches Node::Parent(last) && {
            let all = production_definitions_of(p);
            let before = production_definitions_of(first);
            &&& all.len() == before.len() + 1
            &&& all.take(before.len() as int) == before
            &&& all.last() == production_definition_of(last)
        }),
    decreases p,
{
    if p.children@.len() == 2 {
        match (p.children@[0], p.children@[1]) {
            (Node::Parent(first), Node::Parent(last)) => {
                lemma_productions_keep_all(first);
                assert(production_definitions_of(p).take(production_definitions_of(first).len() as int) =~= production_definitions_of(first));
            },
            _ => {},
        }
    }
}

/// A repetition of rules yields one for each written, in the order
/// written: a repetition `[first, last]` yields those of `first`, then
/// the one of `last`.
pub proof fn lemma_rules_keep_all(p: ParentNode)
    requires
        l_rules_ok(p),
    ensures
        l_rules_of(p).len() == repetition_length(p),
        p.children@.len() == 2 ==> (p.children@[0] matches Node::Parent(first) && p.children@[1] matches Node::Parent(last) && {
            let all = l_rules_of(p);
            let before = l_rules_of(first);
            &&& all.len() == before.len() + 1
            &&& all.take(before.len() as int) == before
            &&& all.last() == l_rule_of(last)
        }),
    decreases p,
{
    if p.children@.len() == 2 {
        match (p.children@[0], p.children@[1]) {
            (Node::Parent(first), Node::Parent(last)) => {
                lemma_rules_keep_all(first);
                assert(l_rules_of(p).take(l_rules_of(first).len() as int) =~= l_rules_of(first));
            },
            _ => {},
        }
    }
}

/// A repetition of imports and directives yields one for each written, in the order
/// written: a repetition `[first, last]` yields those of `first`, then
/// the one of `last`.
pub proof fn lemma_preambles_keep_all(p: ParentNode)
    requires
        preambles_ok(p),
    ensures
        preambles_of(p).len() == repetition_length(p),
        p.children@.len() == 2 ==> (p.children@[0] matches Node::Parent(first) && p.children@[1] matches Node::Parent(last) && {
            let all = preambles_of(p);
            let before = preambles_of(first);
            &&& all.len() == before.len() + 1
            &&& all.take(before.len() as int) == before
            &&& all.last() == lexeme_of(last.children@[0])
        }),
    decreases p,
{
    if p.children@.len() == 2 {
        match (p.children@[0], p.children@[1]) {
            (Node::Parent(first), Node::Parent(last)) => {
                lemma_preambles_keep_all(first);
                assert(preambles_of(p).take(preambles_of(first).len() as int) =~= preambles_of(first));
            },
            _ => {},
        }
    }
}

/// `p` is a well formed `goal_rule = name;`.
pub open spec fn set_goal_rule_ok(p: ParentNode) -> bool {
    &&& p.rule == ParseRule::SetGoalRule
    &&& leaves_are(
        p,
        seq![LParseToken::GoalRule, LParseToken::Equals, LParseToken::Ident, LParseToken::Semicolon],
    )
}

/// `p` is a well formed `token_type = name;`.
pub open spec fn set_token_type_ok(p: ParentNode) -> bool {
    &&& p.rule == ParseRule::SetTokenType
    &&& leaves_are(
        p,
        seq![LParseToken::TokenType, LParseToken::Equals, LParseToken::Ident, LParseToken::Semicolon],
    )
}

/// `p` is a well formed grammar description.
pub open spec fn l_grammar_ok(p: ParentNode) -> bool {
    &&& p.rule == ParseRule::LGrammar
    &&& p.children@.len() == 4
    &&& p.children@[0] matches Node::Parent(preamble)
    &&& preambles_ok(preamble)
    &&& p.children@[1] matches Node::Parent(goal)
    &&& set_goal_rule_ok(goal)
    &&& p.children@[2] matches Node::Parent(token_type)
    &&& set_token_type_ok(token_type)
    &&& p.children@[3] matches Node::Parent(rules)
    &&& l_rules_ok(rules)
}

pub open spec fn l_grammar_of(p: ParentNode) -> (
    Seq<Ident>,
    Ident,
    Ident,
    Seq<(Ident, Option<Ident>, Seq<(Seq<LNode>, Ident)>)>,
) {
    (
        preambles_of(parent_of(p.children@[0])),
        lexeme_of(parent_of(p.children@[1]).children@[2]),
        lexeme_of(parent_of(p.children@[2]).children@[2]),
        l_rules_of(parent_of(p.children@[3])),
    )
}

/// The interned text of token node `n`, which must be a token.
fn leaf_lexeme(n: &RawNode) -> (r: Ident)
    requires
        n is Leaf,
    ensures
        r == lexeme_of(*n),
{
    match n {
        Node::Leaf(t) => t.lexeme,
        Node::Parent(_) => unreached(),
    }
}

/// Builds the description of a grammar from the parse tree of a whole
/// grammar, which must be one that this grammar gives.
pub fn __rule_factory_function_l_grammar(node: &ParentNode) -> (r: LGrammar)
    requires
        l_grammar_ok(*node),
    ensures
        grammar_view(r) == l_grammar_of(*node),
{
    match (&node.children[0], &node.children[1], &node.children[2], &node.children[3]) {
        (Node::Parent(node_0), Node::Parent(node_1), Node::Parent(node_2), Node::Parent(node_3)) => {
            let preamble = __rule_factory_function_reserved_preamble_kleene(node_0);
            let goalrule = __rule_factory_function_set_goal_rule(node_1);
            let tokentype = __rule_factory_function_set_token_type(node_2);
            let rules = __rule_factory_function_reserved_l_rule_kleene(node_3);
            LGrammar { preamble, goal_rule: goalrule, token_type: tokentype, rules }
        },
        _ => unreached(),
    }
}

fn __rule_factory_function_bound_leaf(node: &ParentNode) -> (r: BoundLeaf)
    requires
        bound_leaf_ok(*node),
    ensures
        r == bound_leaf_of(*node),
{
    proof {
        assert(leaf_is(node.children@[1], LParseToken::Ident));
        assert(leaf_is(node.children@[3], LParseToken::Ident));
    }
    let bind_to = leaf_lexeme(&node.children[1]);
    let token = leaf_lexeme(&node.children[3]);
    BoundLeaf { token: token, bind_to: bind_to }
}

fn __rule_factory_function_bound_rule(node: &ParentNode) -> (r: BoundRule)
    requires
        bound_rule_ok(*node),
    ensures
        r == bound_rule_of(*node),
{
    proof {
        assert(leaf_is(node.children@[1], LParseToken::Ident));
        assert(leaf_is(node.children@[3], LParseToken::Ident));
    }
    let bind_to = leaf_lexeme(&node.children[1]);
    let token = leaf_lexeme(&node.children[3]);
    BoundRule { rule: token, bind_to: bind_to }
}

fn __rule_factory_function_bound_kleene_rule(node: &ParentNode) -> (r: BoundRule)
    requires
        bound_kleene_rule_ok(*node),
    ensures
        r == bound_rule_of(*node),
{
    proof {
        assert(leaf_is(node.children@[1], LParseToken::Ident));
        assert(leaf_is(node.children@[3], LParseToken::Ident));
    }
    let bind_to = leaf_lexeme(&node.children[1]);
    let token = leaf_lexeme(&node.children[3]);
    BoundRule { rule: token, bind_to }
}

fn __rule_factory_function_l_node(node: &ParentNode) -> (r: LNode)
    requires
        l_node_ok(*node),
    ensures
        r == l_node_of(*node),
{
    match &node.children[0] {
        Node::Parent(node_0) => {
            if node_0.rule == ParseRule::BoundLeaf {
                let leaf = __rule_factory_function_bound_leaf(node_0);
                LNode::Leaf(leaf)
            } else if node_0.rule == ParseRule::BoundRule {
                let rule = __rule_factory_function_bound_rule(node_0);
                LNode::Rule(rule)
            } else {
                let rule = __rule_factory_function_bound_kleene_rule(node_0);
                LNode::Kleene(rule)
            }
        },
        Node::Leaf(_) => unreached(),
    }
}

fn __rule_factory_function_production_definition(node: &ParentNode) -> (r: ProductionDefinition)
    requires
        production_definition_ok(*node),
    ensures
        definition_view(r) == production_definition_of(*node),
{
    match &node.children[0] {
        Node::Parent(node_0) => {
            let definition = __rule_factory_function_reserved_l_node_kleene(node_0);
            let semantic_action = leaf_lexeme(&node.children[3]);
            ProductionDefinition { definition: definition, semantic_action: semantic_action }
        },
        Node::Leaf(_) => unreached(),
    }
}

fn __rule_factory_function_l_rule(node: &ParentNode) -> (r: LRule)
    requires
        l_rule_ok(*node),
    ensures
        rule_view(r) == l_rule_of(*node),
{
    if node.children.len() == 7 {
        match &node.children[4] {
            Node::Parent(node_4) => {
                let name = leaf_lexeme(&node.children[0]);
                let return_type = leaf_lexeme(&node.children[2]);
                let productions = __rule_factory_function_reserved_production_definition_kleene(node_4);
                LRule { name: name, return_type: Some(return_type), productions }
            },
            Node::Leaf(_) => unreached(),
        }
    } else {
        match &node.children[2] {
            Node::Parent(node_2) => {
                let name = leaf_lexeme(&node.children[0]);
                let productions = __rule_factory_function_reserved_production_definition_kleene(node_2);
                LRule { name: name, return_type: None, productions }
            },
            Node::Leaf(_) => unreached(),
        }
    }
}

fn __rule_factory_function_set_goal_rule(node: &ParentNode) -> (r: Ident)
    requires
        set_goal_rule_ok(*node),
    ensures
        r == lexeme_of(node.children@[2]),
{
    proof {
        assert(leaf_is(node.children@[2], LParseToken::Ident));
    }
    leaf_lexeme(&node.children[2])
}

fn __rule_factory_function_set_token_type(node: &ParentNode) -> (r: Ident)
    requires
        set_token_type_ok(*node),
    ensures
        r == lexeme_of(node.children@[2]),
{
    proof {
        assert(leaf_is(node.children@[2], LParseToken::Ident));
    }
    leaf_lexeme(&node.children[2])
}

fn __rule_factory_function_preamble(node: &ParentNode) -> (r: Ident)
    requires
        preamble_ok(*node),
    ensures
        r == lexeme_of(node.children@[0]),
{
    leaf_lexeme(&node.children[0])
}

fn __rule_factory_function_reserved_l_node_kleene(node: &ParentNode) -> (r: Vec<LNode>)
    requires
        l_nodes_ok(*node),
    ensures
        r@ == l_nodes_of(*node),
    decreases node,
{
    if node.children.len() == 0 {
        Vec::new()
    } else {
        match (&node.children[0], &node.children[1]) {
            (Node::Parent(node_0), Node::Parent(node_1)) => {
                let first = __rule_factory_function_reserved_l_node_kleene(node_0);
                let tail = __rule_factory_function_l_node(node_1);
                let mut all = first;
                all.push(tail);
                all
            },
            _ => unreached(),
        }
    }
}

fn __rule_factory_function_reserved_production_definition_kleene(node: &ParentNode) -> (r: Vec<
    ProductionDefinition,
>)
    requires
        production_definitions_ok(*node),
    ensures
        r@.map_values(|d: ProductionDefinition| definition_view(d)) == production_definitions_of(*node),
    decreases node,
{
    if node.children.len() == 0 {
        let r: Vec<ProductionDefinition> = Vec::new();
        proof {
            assert(r@.map_values(|d: ProductionDefinition| definition_view(d)) =~= Seq::empty());
        }
        r
    } else {
        match (&node.children[0], &node.children[1]) {
            (Node::Parent(node_0), Node::Parent(node_1)) => {
                let first = __rule_factory_function_reserved_production_definition_kleene(node_0);
                let tail = __rule_factory_function_production_definition(node_1);
                let mut all = first;
                let ghost before = all@;
                all.push(tail);
                proof {
                    assert(all@.map_values(|d: ProductionDefinition| definition_view(d)) =~= before.map_values(
                        |d: ProductionDefinition| definition_view(d),
                    ).push(production_definition_of(*node_1)));
                }
                all
            },
            _ => unreached(),
        }
    }
}

fn __rule_factory_function_reserved_preamble_kleene(node: &ParentNode) -> (r: Vec<Ident>)
    requires
        preambles_ok(*node),
    ensures
        r@ == preambles_of(*node),
    decreases node,
{
    if node.children.len() == 0 {
        Vec::new()
    } else {
        match (&node.children[0], &node.children[1]) {
            (Node::Parent(node_0), Node::Parent(node_1)) => {
                let first = __rule_factory_function_reserved_preamble_kleene(node_0);
                let tail = __rule_factory_function_preamble(node_1);
                let mut all = first;
                all.push(tail);
                all
            },
            _ => unreached(),
        }
    }
}

fn __rule_factory_function_reserved_l_rule_kleene(node: &ParentNode) -> (r: Vec<LRule>)
    requires
        l_rules_ok(*node),
    ensures
        r@.map_values(|x: LRule| rule_view(x)) == l_rules_of(*node),
    decreases node,
{
    if node.children.len() == 0 {
        let r: Vec<LRule> = Vec::new();
        proof {
            assert(r@.map_values(|x: LRule| rule_view(x)) =~= Seq::empty());
        }
        r
    } else {
        match (&node.children[0], &node.children[1]) {
            (Node::Parent(node_0), Node::Parent(node_1)) => {
                let first = __rule_factory_function_reserved_l_rule_kleene(node_0);
                let tail = __rule_factory_function_l_rule(node_1);
                let mut all = first;
                let ghost before = all@;
                all.push(tail);
                proof {
                    assert(all@.map_values(|x: LRule| rule_view(x)) =~= before.map_values(
                        |x: LRule| rule_view(x),
                    ).push(l_rule_of(*node_1)));
                }
                all
            },
            _ => unreached(),
        }
    }
}

} // verus!
