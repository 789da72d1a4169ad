use vstd::prelude::*;

pub use super::lparse_frontend::LParseToken;
use crate::lox_core::Ordinal;
use crate::lparse::{Grammar, Node, Parent, Production, Rule, Symbol};

verus! {

/// The rules of the grammar of the grammar description language.
#[derive(Clone, Copy, Debug, PartialEq, Eq, Hash, Structural)]
pub enum LParseRule {
    BoundLeaf,
    BoundRule,
    Node,
    Nodes,
    ProductionDefinition,
    ProductionDefinitions,
    Rule,
    Rules,
    SetGoalRule,
    SetTokenType,
    Preamble,
    Grammar,
}

impl Ordinal for LParseRule {
    const COUNT: usize = 12;

    open spec fn spec_ord(self) -> nat {
        match self {
            LParseRule::BoundLeaf => 0,
            LParseRule::BoundRule => 1,
            LParseRule::Node => 2,
            LParseRule::Nodes => 3,
            LParseRule::ProductionDefinition => 4,
            LParseRule::ProductionDefinitions => 5,
            LParseRule::Rule => 6,
            LParseRule::Rules => 7,
            LParseRule::SetGoalRule => 8,
            LParseRule::SetTokenType => 9,
            LParseRule::Preamble => 10,
            LParseRule::Grammar => 11,
        }
    }

    fn ord(&self) -> (r: usize) {
        match self {
            LParseRule::BoundLeaf => 0,
            LParseRule::BoundRule => 1,
            LParseRule::Node => 2,
            LParseRule::Nodes => 3,
            LParseRule::ProductionDefinition => 4,
            LParseRule::ProductionDefinitions => 5,
            LParseRule::Rule => 6,
            LParseRule::Rules => 7,
            LParseRule::SetGoalRule => 8,
            LParseRule::SetTokenType => 9,
            LParseRule::Preamble => 10,
            LParseRule::Grammar => 11,
        }
    }

    proof fn lemma_ord_bound(a: Self) {
    }

    proof fn lemma_ord_injective(a: Self, b: Self) {
    }
}


impl Rule for LParseRule {
    type TokenType = LParseToken;
}

/// The productions of the grammar of the grammar description language, in
/// order: each rule with its definition.
pub open spec fn lparse_productions() -> Seq<(LParseRule, Seq<Symbol<LParseRule>>)> {
    seq![
            (LParseRule::BoundLeaf, seq![Symbol::Token(LParseToken::LSquareBracket), Symbol::Token(LParseToken::Ident), Symbol::Token(LParseToken::Colon), Symbol::Token(LParseToken::Ident), Symbol::Token(LParseToken::RSquareBracket)]),
            (LParseRule::BoundRule, seq![Symbol::Token(LParseToken::LAngleBracket), Symbol::Token(LParseToken::Ident), Symbol::Token(LParseToken::Colon), Symbol::Token(LParseToken::Ident), Symbol::Token(LParseToken::RAngleBracket)]),
            (LParseRule::Node, seq![Symbol::Rule(LParseRule::BoundLeaf)]),
            (LParseRule::Node, seq![Symbol::Rule(LParseRule::BoundRule)]),
            (LParseRule::Nodes, seq![]),
            (LParseRule::Nodes, seq![Symbol::Rule(LParseRule::Node), Symbol::Rule(LParseRule::Nodes)]),
            (LParseRule::ProductionDefinition, seq![Symbol::Rule(LParseRule::Nodes), Symbol::Token(LParseToken::Equals), Symbol::Token(LParseToken::RAngleBracket), Symbol::Token(LParseToken::EmbeddedRust), Symbol::Token(LParseToken::Comma)]),
            (LParseRule::ProductionDefinitions, seq![]),
            (LParseRule::ProductionDefinitions, seq![Symbol::Rule(LParseRule::ProductionDefinition), Symbol::Rule(LParseRule::ProductionDefinitions)]),
            (LParseRule::Rule, seq![Symbol::Token(LParseToken::Ident), Symbol::Token(LParseToken::Colon), Symbol::Token(LParseToken::EmbeddedRust), Symbol::Token(LParseToken::LCurlyBrace), Symbol::Rule(LParseRule::ProductionDefinitions), Symbol::Token(LParseToken::RCurlyBrace), Symbol::Token(LParseToken::Semicolon)]),
            (LParseRule::Rules, seq![]),
            (LParseRule::Rules, seq![Symbol::Rule(LParseRule::Rule), Symbol::Rule(LParseRule::Rules)]),
            (LParseRule::SetGoalRule, seq![Symbol::Token(LParseToken::GoalRule), Symbol::Token(LParseToken::Equals), Symbol::Token(LParseToken::Ident), Symbol::Token(LParseToken::Semicolon)]),
            (LParseRule::SetTokenType, seq![Symbol::Token(LParseToken::TokenType), Symbol::Token(LParseToken::Equals), Symbol::Token(LParseToken::Ident), Symbol::Token(LParseToken::Semicolon)]),
            (LParseRule::Preamble, seq![]),
            (LParseRule::Preamble, seq![Symbol::Token(LParseToken::RustImport), Symbol::Rule(LParseRule::Preamble)]),
            (LParseRule::Grammar, seq![Symbol::Rule(LParseRule::Preamble), Symbol::Rule(LParseRule::SetGoalRule), Symbol::Rule(LParseRule::SetTokenType), Symbol::Rule(LParseRule::Rules)]),
    ]
}

/// `g` has goal `goal` and exactly the productions `table`, in order.
pub open spec fn grammar_is<R: Rule>(g: &Grammar<R>, goal: R, table: Seq<(R, Seq<Symbol<R>>)>) -> bool {
    &&& g.spec_goal() == goal
    &&& g.spec_productions().len() == table.len()
    &&& forall|p: int|
        0 <= p < table.len() ==> (#[trigger] g.spec_productions()[p]).rule == table[p].0
            && g.spec_productions()[p].definition@ == table[p].1
}

/// The grammar of the grammar description language, whose goal is a whole
/// grammar.
pub fn lparse_grammar() -> (g: Grammar<LParseRule>)
    ensures
        grammar_is(&g, LParseRule::Grammar, lparse_productions()),
{
    let productions: Vec<Production<LParseRule>> = vec![
        Production {
            rule: LParseRule::BoundLeaf,
            definition: vec![
                Symbol::Token(LParseToken::LSquareBracket),
                Symbol::Token(LParseToken::Ident),
                Symbol::Token(LParseToken::Colon),
                Symbol::Token(LParseToken::Ident),
                Symbol::Token(LParseToken::RSquareBracket),
            ],
        },
        Production {
            rule: LParseRule::BoundRule,
            definition: vec![
                Symbol::Token(LParseToken::LAngleBracket),
                Symbol::Token(LParseToken::Ident),
                Symbol::Token(LParseToken::Colon),
                Symbol::Token(LParseToken::Ident),
                Symbol::Token(LParseToken::RAngleBracket),
            ],
        },
        Production {
            rule: LParseRule::Node,
            definition: vec![
                Symbol::Rule(LParseRule::BoundLeaf),
            ],
        },
        Production {
            rule: LParseRule::Node,
            definition: vec![
                Symbol::Rule(LParseRule::BoundRule),
            ],
        },
        Production {
            rule: LParseRule::Nodes,
            definition: vec![],
        },
        Production {
            rule: LParseRule::Nodes,
            definition: vec![
                Symbol::Rule(LParseRule::Node),
                Symbol::Rule(LParseRule::Nodes),
            ],
        },
        Production {
            rule: LParseRule::ProductionDefinition,
            definition: vec![
                Symbol::Rule(LParseRule::Nodes),
                Symbol::Token(LParseToken::Equals),
                Symbol::Token(LParseToken::RAngleBracket),
                Symbol::Token(LParseToken::EmbeddedRust),
                Symbol::Token(LParseToken::Comma),
            ],
        },
        Production {
            rule: LParseRule::ProductionDefinitions,
            definition: vec![],
        },
        Production {
            rule: LParseRule::ProductionDefinitions,
            definition: vec![
                Symbol::Rule(LParseRule::ProductionDefinition),
                Symbol::Rule(LParseRule::ProductionDefinitions),
            ],
        },
        Production {
            rule: LParseRule::Rule,
            definition: vec![
                Symbol::Token(LParseToken::Ident),
                Symbol::Token(LParseToken::Colon),
                Symbol::Token(LParseToken::EmbeddedRust),
                Symbol::Token(LParseToken::LCurlyBrace),
                Symbol::Rule(LParseRule::ProductionDefinitions),
                Symbol::Token(LParseToken::RCurlyBrace),
                Symbol::Token(LParseToken::Semicolon),
            ],
        },
        Production {
            rule: LParseRule::Rules,
            definition: vec![],
        },
        Production {
            rule: LParseRule::Rules,
            definition: vec![
                Symbol::Rule(LParseRule::Rule),
                Symbol::Rule(LParseRule::Rules),
            ],
        },
        Production {
            rule: LParseRule::SetGoalRule,
            definition: vec![
                Symbol::Token(LParseToken::GoalRule),
                Symbol::Token(LParseToken::Equals),
                Symbol::Token(LParseToken::Ident),
                Symbol::Token(LParseToken::Semicolon),
            ],
        },
        Production {
            rule: LParseRule::SetTokenType,
            definition: vec![
                Symbol::Token(LParseToken::TokenType),
                Symbol::Token(LParseToken::Equals),
                Symbol::Token(LParseToken::Ident),
                Symbol::Token(LParseToken::Semicolon),
            ],
        },
        Production {
            rule: LParseRule::Preamble,
            definition: vec![],
        },
        Production {
            rule: LParseRule::Preamble,
            definition: vec![
                Symbol::Token(LParseToken::RustImport),
                Symbol::Rule(LParseRule::Preamble),
            ],
        },
        Production {
            rule: LParseRule::Grammar,
            definition: vec![
                Symbol::Rule(LParseRule::Preamble),
                Symbol::Rule(LParseRule::SetGoalRule),
                Symbol::Rule(LParseRule::SetTokenType),
                Symbol::Rule(LParseRule::Rules),
            ],
        },
    ];
    let g = Grammar::new(LParseRule::Grammar, productions);
    proof {
        assert(g.spec_productions()[0].definition@ =~= lparse_productions()[0].1);
        assert(g.spec_productions()[1].definition@ =~= lparse_productions()[1].1);
        assert(g.spec_productions()[2].definition@ =~= lparse_productions()[2].1);
        assert(g.spec_productions()[3].definition@ =~= lparse_productions()[3].1);
        assert(g.spec_productions()[4].definition@ =~= lparse_productions()[4].1);
        assert(g.spec_productions()[5].definition@ =~= lparse_productions()[5].1);
        assert(g.spec_productions()[6].definition@ =~= lparse_productions()[6].1);
        assert(g.spec_productions()[7].definition@ =~= lparse_productions()[7].1);
        assert(g.spec_productions()[8].definition@ =~= lparse_productions()[8].1);
        assert(g.spec_productions()[9].definition@ =~= lparse_productions()[9].1);
        assert(g.spec_productions()[10].definition@ =~= lparse_productions()[10].1);
        assert(g.spec_productions()[11].definition@ =~= lparse_productions()[11].1);
        assert(g.spec_productions()[12].definition@ =~= lparse_productions()[12].1);
        assert(g.spec_productions()[13].definition@ =~= lparse_productions()[13].1);
        assert(g.spec_productions()[14].definition@ =~= lparse_productions()[14].1);
        assert(g.spec_productions()[15].definition@ =~= lparse_productions()[15].1);
        assert(g.spec_productions()[16].definition@ =~= lparse_productions()[16].1);
        assert forall|p: int| 0 <= p < lparse_productions().len() implies (#[trigger] g.spec_productions()[p]).rule
            == lparse_productions()[p].0 && g.spec_productions()[p].definition@
            == lparse_productions()[p].1 by {
            if p == 0 {
            } else if p == 1 {
            } else if p == 2 {
            } else if p == 3 {
            } else if p == 4 {
            } else if p == 5 {
            } else if p == 6 {
            } else if p == 7 {
            } else if p == 8 {
            } else if p == 9 {
            } else if p == 10 {
            } else if p == 11 {
            } else if p == 12 {
            } else if p == 13 {
            } else if p == 14 {
            } else if p == 15 {
            } else if p == 16 {
            }
        }
    }
    g
}

/// Interned text, as the `lasso` interner hands it out.
pub type Ident = lasso::Spur;

/// A parse tree node of the grammar description language.
pub type RawNode = Node<LParseRule>;

/// An inner parse tree node of the grammar description language.
pub type ParentNode = Parent<LParseRule>;

/// `[bind_to: token]`: a token, bound to a name.
#[derive(Debug, Clone, Copy, PartialEq, Eq)]
pub struct BoundLeaf {
    pub token: Ident,
    pub bind_to: Ident,
}

/// `<bind_to: rule>`: a rule, bound to a name.
#[derive(Debug, Clone, Copy, PartialEq, Eq)]
pub struct BoundRule {
    pub rule: Ident,
    pub bind_to: Ident,
}

/// One bound element of a production.
#[derive(Debug, Clone, Copy, PartialEq, Eq)]
pub enum LNode {
    Leaf(BoundLeaf),
    Rule(BoundRule),
}

/// A production: its bound elements and the code that builds its value.
#[derive(Debug)]
pub struct ProductionDefinition {
    pub definition: Vec<LNode>,
    pub semantic_action: Ident,
}

/// A rule: its name, the type of its value and its productions.
#[derive(Debug)]
pub struct LRule {
    pub name: Ident,
    pub return_type: Ident,
    pub productions: Vec<ProductionDefinition>,
}

/// A whole grammar description.
#[derive(Debug)]
pub struct LGrammar {
    pub preamble: Vec<lasso::Spur>,
    pub goal_rule: Ident,
    pub token_type: Ident,
    pub rules: Vec<LRule>,
}

/// Node `n` is a token of kind `kind`.
pub open spec fn leaf_is(n: RawNode, kind: LParseToken) -> bool {
    n matches Node::Leaf(t) && t.token_type == kind
}

/// The interned text of token node `n`.
pub open spec fn lexeme_of(n: RawNode) -> Ident {
    match n {
        Node::Leaf(t) => t.lexeme,
        Node::Parent(_) => arbitrary(),
    }
}

/// The inner node that `n` is.
pub open spec fn parent_of(n: RawNode) -> ParentNode {
    match n {
        Node::Parent(q) => q,
        Node::Leaf(_) => arbitrary(),
    }
}

/// The children of `p` are tokens of the kinds `kinds`, in order.
pub open spec fn leaves_are(p: ParentNode, kinds: Seq<LParseToken>) -> bool {
    &&& p.children@.len() == kinds.len()
    &&& forall|i: int| 0 <= i < kinds.len() ==> leaf_is(#[trigger] p.children@[i], kinds[i])
}

/// `p` is a well formed `[bind_to: token]`.
pub open spec fn bound_leaf_ok(p: ParentNode) -> bool {
    &&& p.rule == LParseRule::BoundLeaf
    &&& leaves_are(
        p,
        seq![
            LParseToken::LSquareBracket,
            LParseToken::Ident,
            LParseToken::Colon,
            LParseToken::Ident,
            LParseToken::RSquareBracket,
        ],
    )
}

pub open spec fn bound_leaf_of(p: ParentNode) -> BoundLeaf {
    BoundLeaf { token: lexeme_of(p.children@[3]), bind_to: lexeme_of(p.children@[1]) }
}

/// `p` is a well formed `<bind_to: rule>`.
pub open spec fn bound_rule_ok(p: ParentNode) -> bool {
    &&& p.rule == LParseRule::BoundRule
    &&& leaves_are(
        p,
        seq![
            LParseToken::LAngleBracket,
            LParseToken::Ident,
            LParseToken::Colon,
            LParseToken::Ident,
            LParseToken::RAngleBracket,
        ],
    )
}

pub open spec fn bound_rule_of(p: ParentNode) -> BoundRule {
    BoundRule { rule: lexeme_of(p.children@[3]), bind_to: lexeme_of(p.children@[1]) }
}

/// `p` is a well formed node: one bound token or one bound rule.
pub open spec fn node_ok(p: ParentNode) -> bool {
    &&& p.rule == LParseRule::Node
    &&& p.children@.len() == 1
    &&& p.children@[0] matches Node::Parent(inner)
    &&& (inner.rule == LParseRule::BoundLeaf && bound_leaf_ok(inner)) || (inner.rule
        == LParseRule::BoundRule && bound_rule_ok(inner))
}

pub open spec fn node_of(p: ParentNode) -> LNode {
    let inner = parent_of(p.children@[0]);
    if inner.rule == LParseRule::BoundLeaf {
        LNode::Leaf(bound_leaf_of(inner))
    } else {
        LNode::Rule(bound_rule_of(inner))
    }
}

/// `p` is a well formed `goal_rule = name;`.
pub open spec fn set_goal_rule_ok(p: ParentNode) -> bool {
    &&& p.rule == LParseRule::SetGoalRule
    &&& leaves_are(
        p,
        seq![LParseToken::GoalRule, LParseToken::Equals, LParseToken::Ident, LParseToken::Semicolon],
    )
}

/// `p` is a well formed `token_type = name;`.
pub open spec fn set_token_type_ok(p: ParentNode) -> bool {
    &&& p.rule == LParseRule::SetTokenType
    &&& leaves_are(
        p,
        seq![LParseToken::TokenType, LParseToken::Equals, LParseToken::Ident, LParseToken::Semicolon],
    )
}

/// The interned text of token node `n`, which must be a token.
fn leaf_lexeme(n: &RawNode) -> (r: Ident)
    requires
        n is Leaf,
    ensures
        r == lexeme_of(*n),
{
    match n {
        Node::Leaf(t) => t.lexeme,
        Node::Parent(_) => unreached(),
    }
}

fn parse_bound_leaf(node: &ParentNode) -> (r: BoundLeaf)
    requires
        bound_leaf_ok(*node),
    ensures
        r == bound_leaf_of(*node),
{
    proof {
        assert(leaf_is(node.children@[1], LParseToken::Ident));
        assert(leaf_is(node.children@[3], LParseToken::Ident));
    }
    BoundLeaf { token: leaf_lexeme(&node.children[3]), bind_to: leaf_lexeme(&node.children[1]) }
}

fn parse_bound_rule(node: &ParentNode) -> (r: BoundRule)
    requires
        bound_rule_ok(*node),
    ensures
        r == bound_rule_of(*node),
{
    proof {
        assert(leaf_is(node.children@[1], LParseToken::Ident));
        assert(leaf_is(node.children@[3], LParseToken::Ident));
    }
    BoundRule { rule: leaf_lexeme(&node.children[3]), bind_to: leaf_lexeme(&node.children[1]) }
}

fn parse_node(node: &ParentNode) -> (r: LNode)
    requires
        node_ok(*node),
    ensures
        r == node_of(*node),
{
    match &node.children[0] {
        Node::Parent(inner) => {
            if inner.rule == LParseRule::BoundLeaf {
                LNode::Leaf(parse_bound_leaf(inner))
            } else {
                LNode::Rule(parse_bound_rule(inner))
            }
        },
        Node::Leaf(_) => unreached(),
    }
}

fn parse_set_goal_rule(node: &ParentNode) -> (r: Ident)
    requires
        set_goal_rule_ok(*node),
    ensures
        r == lexeme_of(node.children@[2]),
{
    proof {
        assert(leaf_is(node.children@[2], LParseToken::Ident));
    }
    leaf_lexeme(&node.children[2])
}

fn parse_set_token_type(node: &ParentNode) -> (r: Ident)
    requires
        set_token_type_ok(*node),
    ensures
        r == lexeme_of(node.children@[2]),
{
    proof {
        assert(leaf_is(node.children@[2], LParseToken::Ident));
    }
    leaf_lexeme(&node.children[2])
}

/// `p` is a well formed list of nodes: empty, or a node then a list.
pub open spec fn nodes_ok(p: ParentNode) -> bool
    decreases p,
{
    if p.rule != LParseRule::Nodes {
        false
    } else if p.children@.len() == 0 {
        true
    } else if p.children@.len() == 2 {
        match (p.children@[0], p.children@[1]) {
            (Node::Parent(first), Node::Parent(rest)) => {
                &&& first.rule == LParseRule::Node
                &&& node_ok(first)
                &&& rest.rule == LParseRule::Nodes
                &&& nodes_ok(rest)
            },
            _ => false,
        }
    } else {
        false
    }
}

/// The nodes of a list of nodes, in order.
pub open spec fn nodes_of(p: ParentNode) -> Seq<LNode>
    decreases p,
{
    if p.children@.len() == 2 {
        match (p.children@[0], p.children@[1]) {
            (Node::Parent(first), Node::Parent(rest)) => seq![node_of(first)] + nodes_of(rest),
            _ => Seq::empty(),
        }
    } else {
        Seq::empty()
    }
}

fn parse_nodes(node: &ParentNode) -> (r: Vec<LNode>)
    requires
        nodes_ok(*node),
    ensures
        r@ == nodes_of(*node),
    decreases node,
{
    if node.children.len() == 0 {
        Vec::new()
    } else {
        match (&node.children[0], &node.children[1]) {
            (Node::Parent(node_inner), Node::Parent(nodes_inner)) => {
                let mut result = vec![parse_node(node_inner)];
                let mut rest = parse_nodes(nodes_inner);
                result.append(&mut rest);
                result
            },
            _ => unreached(),
        }
    }
}

/// What a production holds: its bound elements and its semantic action.
pub open spec fn definition_view(d: ProductionDefinition) -> (Seq<LNode>, Ident) {
    (d.definition@, d.semantic_action)
}

/// What a rule holds: its name, its value type and its productions.
pub open spec fn rule_view(r: LRule) -> (Ident, Ident, Seq<(Seq<LNode>, Ident)>) {
    (r.name, r.return_type, r.productions@.map_values(|d: ProductionDefinition| definition_view(d)))
}

/// What a grammar description holds: its imports, goal rule, token type and
/// rules.
pub open spec fn grammar_view(g: LGrammar) -> (
    Seq<Ident>,
    Ident,
    Ident,
    Seq<(Ident, Ident, Seq<(Seq<LNode>, Ident)>)>,
) {
    (g.preamble@, g.goal_rule, g.token_type, g.rules@.map_values(|r: LRule| rule_view(r)))
}

/// `p` is a well formed production: `nodes => %action%,`.
pub open spec fn production_definition_ok(p: ParentNode) -> bool {
    &&& p.rule == LParseRule::ProductionDefinition
    &&& p.children@.len() == 5
    &&& p.children@[0] matches Node::Parent(nodes)
    &&& nodes.rule == LParseRule::Nodes
    &&& nodes_ok(nodes)
    &&& leaf_is(p.children@[1], LParseToken::Equals)
    &&& leaf_is(p.children@[2], LParseToken::RAngleBracket)
    &&& leaf_is(p.children@[3], LParseToken::EmbeddedRust)
    &&& leaf_is(p.children@[4], LParseToken::Comma)
}

pub open spec fn production_definition_of(p: ParentNode) -> (Seq<LNode>, Ident) {
    (nodes_of(parent_of(p.children@[0])), lexeme_of(p.children@[3]))
}

fn parse_production_definition(node: &ParentNode) -> (r: ProductionDefinition)
    requires
        production_definition_ok(*node),
    ensures
        definition_view(r) == production_definition_of(*node),
{
    match &node.children[0] {
        Node::Parent(nodes_inner) => ProductionDefinition {
            definition: parse_nodes(nodes_inner),
            semantic_action: leaf_lexeme(&node.children[3]),
        },
        Node::Leaf(_) => unreached(),
    }
}

/// `p` is a well formed list of productions.
pub open spec fn production_definitions_ok(p: ParentNode) -> bool
    decreases p,
{
    if p.rule != LParseRule::ProductionDefinitions {
        false
    } else if p.children@.len() == 0 {
        true
    } else if p.children@.len() == 2 {
        match (p.children@[0], p.children@[1]) {
            (Node::Parent(first), Node::Parent(rest)) => {
                &&& first.rule == LParseRule::ProductionDefinition
                &&& production_definition_ok(first)
                &&& rest.rule == LParseRule::ProductionDefinitions
                &&& production_definitions_ok(rest)
            },
            _ => false,
        }
    } else {
        false
    }
}

/// The productions of a list of productions, in order.
pub open spec fn production_definitions_of(p: ParentNode) -> Seq<(Seq<LNode>, Ident)>
    decreases p,
{
    if p.children@.len() == 2 {
        match (p.children@[0], p.children@[1]) {
            (Node::Parent(first), Node::Parent(rest)) => seq![production_definition_of(first)]
                + production_definitions_of(rest),
            _ => Seq::empty(),
        }
    } else {
        Seq::empty()
    }
}

fn parse_production_definitions(node: &ParentNode) -> (r: Vec<ProductionDefinition>)
    requires
        production_definitions_ok(*node),
    ensures
        r@.map_values(|d: ProductionDefinition| definition_view(d)) == production_definitions_of(*node),
    decreases node,
{
    if node.children.len() == 0 {
        let r: Vec<ProductionDefinition> = Vec::new();
        proof {
            assert(r@.map_values(|d: ProductionDefinition| definition_view(d)) =~= Seq::empty());
        }
        r
    } else {
        match (&node.children[0], &node.children[1]) {
            (Node::Parent(definition_inner), Node::Parent(definitions_inner)) => {
                let mut result = vec![parse_production_definition(definition_inner)];
                let mut rest = parse_production_definitions(definitions_inner);
                let ghost head = result@;
                let ghost tail = rest@;
                result.append(&mut rest);
                proof {
                    assert(result@ == head + tail);
                    assert(result@.map_values(|d: ProductionDefinition| definition_view(d)) =~= seq![
                        production_definition_of(*definition_inner),
                    ] + production_definitions_of(*definitions_inner));
                }
                result
            },
            _ => unreached(),
        }
    }
}

/// `p` is a well formed rule: `name: %type% { productions };`.
pub open spec fn rule_ok(p: ParentNode) -> bool {
    &&& p.rule == LParseRule::Rule
    &&& p.children@.len() == 7
    &&& leaf_is(p.children@[0], LParseToken::Ident)
    &&& leaf_is(p.children@[1], LParseToken::Colon)
    &&& leaf_is(p.children@[2], LParseToken::EmbeddedRust)
    &&& leaf_is(p.children@[3], LParseToken::LCurlyBrace)
    &&& p.children@[4] matches Node::Parent(definitions)
    &&& definitions.rule == LParseRule::ProductionDefinitions
    &&& production_definitions_ok(definitions)
    &&& leaf_is(p.children@[5], LParseToken::RCurlyBrace)
    &&& leaf_is(p.children@[6], LParseToken::Semicolon)
}

pub open spec fn rule_of(p: ParentNode) -> (Ident, Ident, Seq<(Seq<LNode>, Ident)>) {
    (
        lexeme_of(p.children@[0]),
        lexeme_of(p.children@[2]),
        production_definitions_of(parent_of(p.children@[4])),
    )
}

fn parse_rule(node: &ParentNode) -> (r: LRule)
    requires
        rule_ok(*node),
    ensures
        rule_view(r) == rule_of(*node),
{
    match &node.children[4] {
        Node::Parent(production_definitions_inner) => LRule {
            name: leaf_lexeme(&node.children[0]),
            return_type: leaf_lexeme(&node.children[2]),
            productions: parse_production_definitions(production_definitions_inner),
        },
        Node::Leaf(_) => unreached(),
    }
}

/// `p` is a well formed list of rules.
pub open spec fn rules_ok(p: ParentNode) -> bool
    decreases p,
{
    if p.rule != LParseRule::Rules {
        false
    } else if p.children@.len() == 0 {
        true
    } else if p.children@.len() == 2 {
        match (p.children@[0], p.children@[1]) {
            (Node::Parent(first), Node::Parent(rest)) => {
                &&& first.rule == LParseRule::Rule
                &&& rule_ok(first)
                &&& rest.rule == LParseRule::Rules
                &&& rules_ok(rest)
            },
            _ => false,
        }
    } else {
        false
    }
}

/// The rules of a list of rules, last written first.
pub open spec fn rules_of(p: ParentNode) -> Seq<(Ident, Ident, Seq<(Seq<LNode>, Ident)>)>
    decreases p,
{
    if p.children@.len() == 2 {
        match (p.children@[0], p.children@[1]) {
            (Node::Parent(first), Node::Parent(rest)) => rules_of(rest).push(rule_of(first)),
            _ => Seq::empty(),
        }
    } else {
        Seq::empty()
    }
}

fn parse_rules(node: &ParentNode) -> (r: Vec<LRule>)
    requires
        rules_ok(*node),
    ensures
        r@.map_values(|x: LRule| rule_view(x)) == rules_of(*node),
    decreases node,
{
    if node.children.len() == 0 {
        let r: Vec<LRule> = Vec::new();
        proof {
            assert(r@.map_values(|x: LRule| rule_view(x)) =~= Seq::empty());
        }
        r
    } else {
        match (&node.children[0], &node.children[1]) {
            (Node::Parent(first), Node::Parent(rules_inner)) => {
                let mut result = parse_rules(rules_inner);
                let ghost before = result@;
                result.push(parse_rule(first));
                proof {
                    assert(result@.map_values(|x: LRule| rule_view(x)) =~= before.map_values(
                        |x: LRule| rule_view(x),
                    ).push(rule_of(*first)));
                }
                result
            },
            _ => unreached(),
        }
    }
}

/// `p` is a well formed preamble: imports, each followed by the rest.
pub open spec fn preamble_ok(p: ParentNode) -> bool
    decreases p,
{
    if p.rule != LParseRule::Preamble {
        false
    } else if p.children@.len() == 0 {
        true
    } else if p.children@.len() == 2 {
        match (p.children@[0], p.children@[1]) {
            (Node::Leaf(_), Node::Parent(rest)) => preamble_ok(rest),
            _ => false,
        }
    } else {
        false
    }
}

/// The imports of a preamble, last written first.
pub open spec fn preamble_of(p: ParentNode) -> Seq<Ident>
    decreases p,
{
    if p.children@.len() == 2 {
        match (p.children@[0], p.children@[1]) {
            (Node::Leaf(first), Node::Parent(rest)) => preamble_of(rest).push(first.lexeme),
            _ => Seq::empty(),
        }
    } else {
        Seq::empty()
    }
}

fn parse_preamble(node: &ParentNode) -> (r: Vec<lasso::Spur>)
    requires
        preamble_ok(*node),
    ensures
        r@ == preamble_of(*node),
    decreases node,
{
    if node.children.len() == 0 {
        Vec::new()
    } else {
        match (&node.children[0], &node.children[1]) {
            (Node::Leaf(first_import), Node::Parent(rest)) => {
                let mut all = parse_preamble(rest);
                all.push(first_import.lexeme);
                all
            },
            _ => unreached(),
        }
    }
}

/// `p` is a well formed grammar description.
pub open spec fn grammar_ok(p: ParentNode) -> bool {
    &&& p.rule == LParseRule::Grammar
    &&& p.children@.len() == 4
    &&& p.children@[0] matches Node::Parent(preamble)
    &&& preamble_ok(preamble)
    &&& p.children@[1] matches Node::Parent(goal)
    &&& set_goal_rule_ok(goal)
    &&& p.children@[2] matches Node::Parent(token_type)
    &&& set_token_type_ok(token_type)
    &&& p.children@[3] matches Node::Parent(rules)
    &&& rules_ok(rules)
}

pub open spec fn grammar_of(p: ParentNode) -> (
    Seq<Ident>,
    Ident,
    Ident,
    Seq<(Ident, Ident, Seq<(Seq<LNode>, Ident)>)>,
) {
    (
        preamble_of(parent_of(p.children@[0])),
        lexeme_of(parent_of(p.children@[1]).children@[2]),
        lexeme_of(parent_of(p.children@[2]).children@[2]),
        rules_of(parent_of(p.children@[3])),
    )
}

fn parse_grammar(node: &ParentNode) -> (r: LGrammar)
    requires
        grammar_ok(*node),
    ensures
        grammar_view(r) == grammar_of(*node),
{
    match (&node.children[0], &node.children[1], &node.children[2], &node.children[3]) {
        (
            Node::Parent(preamble),
            Node::Parent(set_goal_rule_inner),
            Node::Parent(set_token_type_inner),
            Node::Parent(rules_inner),
        ) => LGrammar {
            preamble: parse_preamble(preamble),
            goal_rule: parse_set_goal_rule(set_goal_rule_inner),
            token_type: parse_set_token_type(set_token_type_inner),
            rules: parse_rules(rules_inner),
        },
        _ => unreached(),
    }
}

/// Builds the description of a grammar from its parse tree, which must be
/// one that the grammar of the description language gives.
pub fn parse_lparse_grammar(node: &RawNode) -> (r: LGrammar)
    requires
        *node matches Node::Parent(p) && grammar_ok(p),
    ensures
        grammar_view(r) == grammar_of(parent_of(*node)),
{
    match node {
        Node::Parent(grammar) => parse_grammar(grammar),
        Node::Leaf(_) => unreached(),
    }
}

/// The number of elements written in a list: one for each level, the
/// later elements being nested in the second child.
pub open spec fn list_length(p: ParentNode) -> nat
    decreases p,
{
    if p.children@.len() == 2 {
        match p.children@[1] {
            Node::Parent(rest) => 1 + list_length(rest),
            _ => 1,
        }
    } else {
        0
    }
}

/// A list of nodes yields one for each written, in the order written:
/// a list `[first, rest]` yields the one of `first`, then those of
/// `rest`.
pub proof fn lemma_nodes_keep_all(p: ParentNode)
    requires
        nodes_ok(p),
    ensures
        nodes_of(p).len() == list_length(p),
        p.children@.len() == 2 ==> (p.children@[0] matches Node::Parent(first) && p.children@[1] matches Node::Parent(rest) && {
            let all = nodes_of(p);
            &&& all.len() == nodes_of(rest).len() + 1
            &&& all[0] == node_of(first)
            &&& all.drop_first() == nodes_of(rest)
        }),
    decreases p,
{
    if p.children@.len() == 2 {
        match (p.children@[0], p.children@[1]) {
            (Node::Parent(first), Node::Parent(rest)) => {
                lemma_nodes_keep_all(rest);
                assert(nodes_of(p).drop_first() =~= nodes_of(rest));
            },
            _ => {},
        }
    }
}

/// A list of productions yields one for each written, in the order written:
/// a list `[first, rest]` yields the one of `first`, then those of
/// `rest`.
pub proof fn lemma_productions_keep_all(p: ParentNode)
    requires
        production_definitions_ok(p),
    ensures
        production_definitions_of(p).len() == list_length(p),
        p.children@.len() == 2 ==> (p.children@[0] matches Node::Parent(first) && p.children@[1] matches Node::Parent(rest) && {
            let all = production_definitions_of(p);
            &&& all.len() == production_definitions_of(rest).len() + 1
            &&& all[0] == production_definition_of(first)
            &&& all.drop_first() == production_definitions_of(rest)
        }),
    decreases p,
{
    if p.children@.len() == 2 {
        match (p.children@[0], p.children@[1]) {
            (Node::Parent(first), Node::Parent(rest)) => {
                lemma_productions_keep_all(rest);
                assert(production_definitions_of(p).drop_first() =~= production_definitions_of(rest));
            },
            _ => {},
        }
    }
}

/// A list of rules yields one for each written, the last written
/// first: a list `[first, rest]` yields those of `rest`, then the one of
/// `first`.
pub proof fn lemma_rules_keep_all(p: ParentNode)
    requires
        rules_ok(p),
    ensures
        rules_of(p).len() == list_length(p),
        p.children@.len() == 2 ==> (p.children@[0] matches Node::Parent(first) && p.children@[1] matches Node::Parent(rest) && {
            let all = rules_of(p);
            &&& all.len() == rules_of(rest).len() + 1
            &&& all.last() == rule_of(first)
            &&& all.drop_last() == rules_of(rest)
        }),
    decreases p,
{
    if p.children@.len() == 2 {
        match (p.children@[0], p.children@[1]) {
            (Node::Parent(first), Node::Parent(rest)) => {
                lemma_rules_keep_all(rest);
                assert(rules_of(p).drop_last() =~= rules_of(rest));
            },
            _ => {},
        }
    }
}

/// A list of imports yields one for each written, the last written
/// first: a list `[first, rest]` yields those of `rest`, then the one of
/// `first`.
pub proof fn lemma_imports_keep_all(p: ParentNode)
    requires
        preamble_ok(p),
    ensures
        preamble_of(p).len() == list_length(p),
        p.children@.len() == 2 ==> (p.children@[0] matches Node::Leaf(first) && p.children@[1] matches Node::Parent(rest) && {
            let all = preamble_of(p);
            &&& all.len() == preamble_of(rest).len() + 1
            &&& all.last() == first.lexeme
            &&& all.drop_last() == preamble_of(rest)
        }),
    decreases p,
{
    if p.children@.len() == 2 {
        match (p.children@[0], p.children@[1]) {
            (Node::Leaf(first), Node::Parent(rest)) => {
                lemma_imports_keep_all(rest);
                assert(preamble_of(p).drop_last() =~= preamble_of(rest));
            },
            _ => {},
        }
    }
}

} // verus!
