use vstd::prelude::*;

use super::grammar::{Grammar, Production, ProductionId, Symbol};
use super::rule::Rule;
use crate::lexer::{Span, Token};
use crate::lox_core::Ordinal;

verus! {

/// A parse tree, with the interner of the texts of its tokens.
pub struct Tree<R: Rule> {
    pub lexeme_arena: lasso::Rodeo,
    pub root: Node<R>,
}

/// An inner node of a parse tree: a rule and the nodes it was formed from.
#[derive(Debug)]
pub struct Parent<R: Rule> {
    pub rule: R,
    pub children: Vec<Node<R>>,
}

/// A node of a parse tree: a token read, or a rule formed from other nodes.
#[derive(Debug)]
pub enum Node<R: Rule> {
    Leaf(Token<R::TokenType>),
    Parent(Parent<R>),
}

impl<R: Rule> Node<R> {
    /// The grammar symbol that the node stands for.
    pub fn symbol(&self) -> (s: Symbol<R>)
        ensures
            s == (match self {
                Node::Leaf(token) => Symbol::Token(token.token_type),
                Node::Parent(parent) => Symbol::Rule(parent.rule),
            }),
    {
        match self {
            Node::Leaf(token) => Symbol::Token(token.token_type),
            Node::Parent(parent) => Symbol::Rule(parent.rule),
        }
    }
}


/// A state of the LR automaton, by its number.
#[derive(Clone, Copy, Debug, PartialEq, Eq, Hash, Structural)]
pub struct StateId(pub usize);

/// What the LR automaton does in a state on a lookahead token: shift the
/// token, reduce by a production, or reduce by a production of the goal
/// rule and accept.
#[derive(Clone, Copy, Debug, PartialEq, Eq, Structural)]
pub enum Action {
    Shift,
    Reduce(ProductionId),
    Accept(ProductionId),
}

/// Why parsing failed.
#[derive(Clone, Copy, Debug, PartialEq, Eq, Structural)]
pub enum ParseError {
    /// The tokens ran out, or a reduction found too few nodes.
    IncompleteProgram,
    /// A token was expected here (the driver, which looks at each token
    /// before it shifts it, does not fail so).
    ExpectedToken(Span),
    /// The goal was formed while nodes were left over, at this token.
    ExcessProgram(Span),
    /// No transition on what was read, at this token.
    UnexpectedToken(Span),
}

/// The column of the goto table that stands for a symbol: the tokens come
/// first, by ordinal, then the rules.
pub open spec fn spec_column<R: Rule>(s: Symbol<R>) -> nat {
    match s {
        Symbol::Token(t) => t.spec_ord(),
        Symbol::Rule(r) => (R::TokenType::COUNT + r.spec_ord()) as nat,
    }
}

/// The column of the goto table that stands for `s`.
pub fn symbol_column<R: Rule>(s: Symbol<R>) -> (r: usize)
    requires
        R::TokenType::COUNT + R::COUNT <= usize::MAX,
    ensures
        r == spec_column(s),
        r < R::TokenType::COUNT + R::COUNT,
{
    match s {
        Symbol::Token(t) => t.ord(),
        Symbol::Rule(r) => R::TokenType::COUNT + r.ord(),
    }
}

/// The action and goto tables fit grammar `g`: one row per state in each,
/// a column per token in the action table and per symbol in the goto
/// table, every production and state they name exists, and only
/// productions of the goal rule accept.
pub open spec fn tables_fit<R: Rule>(
    g: Grammar<R>,
    action: Seq<Vec<Action>>,
    goto: Seq<Vec<Option<StateId>>>,
) -> bool {
    &&& R::TokenType::COUNT + R::COUNT <= usize::MAX
    &&& action.len() == goto.len()
    &&& forall|s: int| 0 <= s < action.len() ==> (#[trigger] action[s])@.len() == R::TokenType::COUNT
    &&& forall|s: int|
        0 <= s < goto.len() ==> (#[trigger] goto[s])@.len() == R::TokenType::COUNT + R::COUNT
    &&& forall|s: int, c: int|
        0 <= s < action.len() && 0 <= c < action[s]@.len() ==> match #[trigger] action[s]@[c] {
            Action::Shift => true,
            Action::Reduce(p) => p.0 < g.spec_productions().len(),
            Action::Accept(p) => p.0 < g.spec_productions().len() && g.spec_productions()[p.0 as int].rule
                == g.spec_goal(),
        }
    &&& forall|s: int, c: int|
        0 <= s < goto.len() && 0 <= c < goto[s]@.len() ==> match #[trigger] goto[s]@[c] {
            Some(t) => t.0 < goto.len(),
            None => true,
        }
}

/// A derivation tree as the automaton forms it: a token read, or a rule
/// with the trees it was formed from.
pub enum PTree<R: Rule> {
    Leaf(Token<R::TokenType>),
    Branch(R, Seq<PTree<R>>),
}

/// The symbol a tree stands for.
pub open spec fn tree_symbol<R: Rule>(t: PTree<R>) -> Symbol<R> {
    match t {
        PTree::Leaf(token) => Symbol::Token(token.token_type),
        PTree::Branch(rule, _) => Symbol::Rule(rule),
    }
}

/// Where the automaton stands: its state, the states and trees on its
/// stack, and how many tokens it has read.
pub struct Config<R: Rule> {
    pub state: usize,
    pub stack: Seq<(usize, PTree<R>)>,
    pub pos: int,
}

/// What one step of the automaton leads to.
pub enum Step<R: Rule> {
    Next(Config<R>),
    /// The goal was formed, as this tree, after reading this many tokens.
    Accepted(PTree<R>, int),
    Failed(ParseError),
}

/// The state, stack and tree after reducing by production `p`: the stack
/// loses as many entries as the production has symbols, the state goes
/// back to the one of the first entry lost, and the trees of the entries
/// lost, in order, form a tree of the production's rule. `None` when the
/// stack is too short.
pub open spec fn reduce_by<R: Rule>(g: Grammar<R>, c: Config<R>, p: ProductionId) -> Option<
    (usize, Seq<(usize, PTree<R>)>, PTree<R>),
> {
    let prod = g.spec_productions()[p.0 as int];
    let n = prod.definition@.len();
    if n == 0 {
        Some((c.state, c.stack, PTree::Branch(prod.rule, Seq::empty())))
    } else if c.stack.len() >= n {
        let from = c.stack.len() - n;
        Some(
            (
                c.stack[from].0,
                c.stack.take(from),
                PTree::Branch(
                    prod.rule,
                    c.stack.subrange(from, c.stack.len() as int).map_values(|e: (usize, PTree<R>)| e.1),
                ),
            ),
        )
    } else {
        None
    }
}

/// A reduction by a production of `n > 0` symbols pops the top `n`
/// entries, returns to the state stored with the first (lowest) of them,
/// leaves the entries below unchanged, and forms its tree, of the
/// production's rule, from the popped trees in stack order; a reduction
/// by an empty production keeps state and stack and forms an empty tree.
pub proof fn lemma_reduce_returns_to_first_popped<R: Rule>(g: Grammar<R>, c: Config<R>, p: ProductionId)
    requires
        0 <= p.0 < g.spec_productions().len(),
    ensures
        ({
            let prod = g.spec_productions()[p.0 as int];
            let n = prod.definition@.len();
            match reduce_by(g, c, p) {
                Some((state, stack, tree)) => {
                    &&& n <= c.stack.len()
                    &&& stack.len() + n == c.stack.len()
                    &&& forall|j: int| 0 <= j < stack.len() ==> #[trigger] stack[j] == c.stack[j]
                    &&& (n == 0 ==> state == c.state)
                    &&& (n > 0 ==> state == c.stack[c.stack.len() - n].0)
                    &&& tree matches PTree::Branch(rule, kids) && rule == prod.rule && kids.len() == n
                        && forall|j: int| 0 <= j < n ==> #[trigger] kids[j] == c.stack[stack.len() + j].1
                },
                None => n > c.stack.len(),
            }
        }),
{
}

/// Going from `state` with tree `tree`: the entry `(state, tree)` is
/// pushed and the goto table gives the next state for the tree's symbol.
pub open spec fn goto_on<R: Rule>(
    goto: Seq<Vec<Option<StateId>>>,
    at: Span,
    state: usize,
    stack: Seq<(usize, PTree<R>)>,
    tree: PTree<R>,
    pos: int,
) -> Step<R> {
    match goto[state as int]@[spec_column(tree_symbol(tree)) as int] {
        Some(t) => Step::Next(Config { state: t.0, stack: stack.push((state, tree)), pos }),
        None => Step::Failed(ParseError::UnexpectedToken(at)),
    }
}

/// One step of the automaton on the tokens `tokens`.
pub open spec fn lr_step<R: Rule>(
    g: Grammar<R>,
    action: Seq<Vec<Action>>,
    goto: Seq<Vec<Option<StateId>>>,
    tokens: Seq<Token<R::TokenType>>,
    c: Config<R>,
) -> Step<R> {
    if c.pos < 0 || c.pos >= tokens.len() {
        Step::Failed(ParseError::IncompleteProgram)
    } else {
        let tok = tokens[c.pos];
        match action[c.state as int]@[tok.token_type.spec_ord() as int] {
            Action::Shift => goto_on(goto, tok.span, c.state, c.stack, PTree::Leaf(tok), c.pos + 1),
            Action::Reduce(p) => match reduce_by(g, c, p) {
                Some((state, stack, tree)) => goto_on(goto, tok.span, state, stack, tree, c.pos),
                None => Step::Failed(ParseError::IncompleteProgram),
            },
            Action::Accept(p) => match reduce_by(g, c, p) {
                Some((_, stack, tree)) => if stack.len() > 0 {
                    Step::Failed(ParseError::ExcessProgram(tok.span))
                } else {
                    Step::Accepted(tree, c.pos)
                },
                None => Step::Failed(ParseError::IncompleteProgram),
            },
        }
    }
}

/// A step on a shift reads exactly the next token and pushes it, as a
/// leaf, with the current state on top of the unchanged stack; a step
/// that accepts does so only when the reduction leaves nothing below the
/// tree it forms, and reads nothing.
pub proof fn lemma_step_shift_and_accept<R: Rule>(
    g: Grammar<R>,
    action: Seq<Vec<Action>>,
    goto: Seq<Vec<Option<StateId>>>,
    tokens: Seq<Token<R::TokenType>>,
    c: Config<R>,
)
    requires
        0 <= c.pos < tokens.len(),
    ensures
        action[c.state as int]@[tokens[c.pos].token_type.spec_ord() as int] == Action::Shift ==> match lr_step(g, action, goto, tokens, c) {
            Step::Next(next) => {
                &&& next.pos == c.pos + 1
                &&& next.stack.len() == c.stack.len() + 1
                &&& next.stack.drop_last() == c.stack
                &&& next.stack.last() == (c.state, PTree::<R>::Leaf(tokens[c.pos]))
            },
            Step::Failed(e) => e == ParseError::UnexpectedToken(tokens[c.pos].span),
            Step::Accepted(_, _) => false,
        },
        lr_step(g, action, goto, tokens, c) matches Step::Accepted(t, k) ==> {
            &&& k == c.pos
            &&& action[c.state as int]@[tokens[c.pos].token_type.spec_ord() as int] matches Action::Accept(p)
            &&& reduce_by(g, c, p) == Some((reduce_by(g, c, p).unwrap().0, Seq::<(usize, PTree<R>)>::empty(), t))
        },
{
    match lr_step(g, action, goto, tokens, c) {
        Step::Next(next) => {
            if action[c.state as int]@[tokens[c.pos].token_type.spec_ord() as int] == Action::Shift {
                assert(next.stack.drop_last() =~= c.stack);
            }
        },
        _ => {},
    }
}

/// A step on a reduction reads no token, pushes the tree it forms, with
/// the state it returns to, on top of the stack the reduction leaves, and
/// goes to the state that the goto table gives there for the tree's rule.
pub proof fn lemma_step_reduce<R: Rule>(
    g: Grammar<R>,
    action: Seq<Vec<Action>>,
    goto: Seq<Vec<Option<StateId>>>,
    tokens: Seq<Token<R::TokenType>>,
    c: Config<R>,
    p: ProductionId,
)
    requires
        0 <= c.pos < tokens.len(),
        action[c.state as int]@[tokens[c.pos].token_type.spec_ord() as int] == Action::Reduce(p),
        reduce_by(g, c, p) is Some,
    ensures
        ({
            let (state, stack, tree) = reduce_by(g, c, p).unwrap();
            match lr_step(g, action, goto, tokens, c) {
                Step::Next(next) => {
                    &&& next.pos == c.pos
                    &&& next.stack == stack.push((state, tree))
                    &&& goto[state as int]@[spec_column(tree_symbol(tree)) as int] == Some(StateId(next.state))
                },
                Step::Failed(e) => e == ParseError::UnexpectedToken(tokens[c.pos].span)
                    && goto[state as int]@[spec_column(tree_symbol(tree)) as int] is None,
                Step::Accepted(_, _) => false,
            }
        }),
{
}

/// What the automaton ends with from `c` within `fuel` steps: the tree it
/// accepts with and the number of tokens read, or the error it fails
/// with; `None` when it has not ended yet.
pub open spec fn lr_run<R: Rule>(
    g: Grammar<R>,
    action: Seq<Vec<Action>>,
    goto: Seq<Vec<Option<StateId>>>,
    tokens: Seq<Token<R::TokenType>>,
    c: Config<R>,
    fuel: nat,
) -> Option<Result<(PTree<R>, int), ParseError>>
    decreases fuel,
{
    if fuel == 0 {
        None
    } else {
        match lr_step(g, action, goto, tokens, c) {
            Step::Next(next) => lr_run(g, action, goto, tokens, next, (fuel - 1) as nat),
            Step::Accepted(t, k) => Some(Ok((t, k))),
            Step::Failed(e) => Some(Err(e)),
        }
    }
}

/// Once the automaton has ended within some number of steps, more steps
/// change nothing.
pub proof fn lemma_run_settles<R: Rule>(
    g: Grammar<R>,
    action: Seq<Vec<Action>>,
    goto: Seq<Vec<Option<StateId>>>,
    tokens: Seq<Token<R::TokenType>>,
    c: Config<R>,
    fuel: nat,
    more: nat,
)
    requires
        lr_run(g, action, goto, tokens, c, fuel) is Some,
        fuel <= more,
    ensures
        lr_run(g, action, goto, tokens, c, more) == lr_run(g, action, goto, tokens, c, fuel),
    decreases fuel,
{
    match lr_step(g, action, goto, tokens, c) {
        Step::Next(next) => lemma_run_settles(g, action, goto, tokens, next, (fuel - 1) as nat, (more - 1) as nat),
        _ => {},
    }
}

/// The configuration the automaton starts in: state `initial`, an empty
/// stack, no token read.
pub open spec fn start_config<R: Rule>(initial: StateId) -> Config<R> {
    Config { state: initial.0, stack: Seq::empty(), pos: 0 }
}

/// The automaton started in `initial` ends on `tokens`.
pub open spec fn lr_halts<R: Rule>(
    g: Grammar<R>,
    action: Seq<Vec<Action>>,
    goto: Seq<Vec<Option<StateId>>>,
    initial: StateId,
    tokens: Seq<Token<R::TokenType>>,
) -> bool {
    exists|fuel: nat| (#[trigger] lr_run(g, action, goto, tokens, start_config(initial), fuel)) is Some
}

/// What the automaton started in `initial` ends with on `tokens`, when it
/// ends.
pub open spec fn lr_outcome<R: Rule>(
    g: Grammar<R>,
    action: Seq<Vec<Action>>,
    goto: Seq<Vec<Option<StateId>>>,
    initial: StateId,
    tokens: Seq<Token<R::TokenType>>,
) -> Result<(PTree<R>, int), ParseError> {
    lr_run(g, action, goto, tokens, start_config(initial), choose|fuel: nat| (#[trigger] lr_run(g, action, goto, tokens, start_config(initial), fuel)) is Some).unwrap()
}

/// The tree of a parse tree node.
pub open spec fn tree_of<R: Rule>(n: Node<R>) -> PTree<R>
    decreases n,
{
    match n {
        Node::Leaf(t) => PTree::Leaf(t),
        Node::Parent(p) => PTree::Branch(p.rule, trees_of(p.children@)),
    }
}

/// The trees of the nodes `ns`, in order.
pub open spec fn trees_of<R: Rule>(ns: Seq<Node<R>>) -> Seq<PTree<R>>
    decreases ns,
{
    if ns.len() == 0 {
        Seq::empty()
    } else {
        trees_of(ns.drop_last()).push(tree_of(ns.last()))
    }
}

/// The trees of a sequence of nodes are the trees of each node, in the
/// same order.
pub proof fn lemma_trees_of<R: Rule>(ns: Seq<Node<R>>)
    ensures
        trees_of(ns) == ns.map_values(|n: Node<R>| tree_of(n)),
    decreases ns.len(),
{
    if ns.len() > 0 {
        lemma_trees_of(ns.drop_last());
    }
    assert(trees_of(ns) =~= ns.map_values(|n: Node<R>| tree_of(n)));
}

/// The tokens under a node, in order.
pub open spec fn leaves<R: Rule>(n: Node<R>) -> Seq<Token<R::TokenType>>
    decreases n,
{
    match n {
        Node::Leaf(t) => seq![t],
        Node::Parent(p) => leaves_list(p.children@),
    }
}

/// The tokens under the nodes `ns`, in order.
pub open spec fn leaves_list<R: Rule>(ns: Seq<Node<R>>) -> Seq<Token<R::TokenType>>
    decreases ns,
{
    if ns.len() == 0 {
        Seq::empty()
    } else {
        leaves_list(ns.drop_last()) + leaves(ns.last())
    }
}

/// The symbol a node stands for.
pub open spec fn symbol_of<R: Rule>(n: Node<R>) -> Symbol<R> {
    match n {
        Node::Leaf(token) => Symbol::Token(token.token_type),
        Node::Parent(parent) => Symbol::Rule(parent.rule),
    }
}

/// The tokens under two sequences of nodes, one after the other, are the
/// tokens under the first, then those under the second.
pub proof fn lemma_leaves_concat<R: Rule>(a: Seq<Node<R>>, b: Seq<Node<R>>)
    ensures
        leaves_list(a + b) == leaves_list(a) + leaves_list(b),
    decreases b.len(),
{
    if b.len() == 0 {
        assert(a + b =~= a);
    } else {
        assert((a + b).drop_last() =~= a + b.drop_last());
        lemma_leaves_concat(a, b.drop_last());
    }
}

/// The states and trees of a stack of the driver.
pub open spec fn stack_view<R: Rule>(stack: Seq<(StateId, Node<R>)>) -> Seq<(usize, PTree<R>)> {
    stack.map_values(|e: (StateId, Node<R>)| (e.0.0, tree_of(e.1)))
}

/// The nodes of a stack of the driver.
pub open spec fn stack_nodes<R: Rule>(stack: Seq<(StateId, Node<R>)>) -> Seq<Node<R>> {
    stack.map_values(|e: (StateId, Node<R>)| e.1)
}

/// What the driver keeps between two steps: tables that fit, a state of
/// the tables on top and in each entry, and nodes whose tokens are those
/// read so far.
pub open spec fn driver_ok<R: Rule>(
    g: Grammar<R>,
    action: Seq<Vec<Action>>,
    goto: Seq<Vec<Option<StateId>>>,
    tokens: Seq<Token<R::TokenType>>,
    state: usize,
    stack: Seq<(StateId, Node<R>)>,
    pos: usize,
) -> bool {
    &&& tables_fit(g, action, goto)
    &&& state < action.len()
    &&& pos <= tokens.len()
    &&& forall|i: int| 0 <= i < stack.len() ==> (#[trigger] stack[i]).0.0 < action.len()
    &&& leaves_list(stack_nodes(stack)) == tokens.take(pos as int)
}

/// The configuration of the automaton that the driver stands in.
pub open spec fn config_of<R: Rule>(state: usize, stack: Seq<(StateId, Node<R>)>, pos: usize) -> Config<R> {
    Config { state, stack: stack_view(stack), pos: pos as int }
}

/// One step of the driver, as `lr_step` says: `None` when the automaton
/// goes on (in the configuration `lr_step` gives), the node it accepts
/// with, or the error it fails with.
fn drive_step<R: Rule>(
    g: &Grammar<R>,
    action: &Vec<Vec<Action>>,
    goto: &Vec<Vec<Option<StateId>>>,
    tokens: &[Token<R::TokenType>],
    state: &mut usize,
    stack: &mut Vec<(StateId, Node<R>)>,
    pos: &mut usize,
) -> (r: Option<Result<Node<R>, ParseError>>)
    requires
        driver_ok(*g, action@, goto@, tokens@, *old(state), old(stack)@, *old(pos)),
    ensures
        match lr_step(*g, action@, goto@, tokens@, config_of(*old(state), old(stack)@, *old(pos))) {
            Step::Next(next) => {
                &&& r is None
                &&& driver_ok(*g, action@, goto@, tokens@, *final(state), final(stack)@, *final(pos))
                &&& next == config_of(*final(state), final(stack)@, *final(pos))
            },
            Step::Accepted(t, k) => {
                &&& r matches Some(Ok(n))
                &&& tree_of(n) == t
                &&& leaves(n) == tokens@.take(k)
                &&& n matches Node::Parent(p) && p.rule == g.spec_goal()
            },
            Step::Failed(e) => r == Some(Err::<Node<R>, ParseError>(e)),
        },
{
    let ghost c = config_of(*state, stack@, *pos);
    let ghost before = stack@;
    if *pos >= tokens.len() {
        return Some(Err(ParseError::IncompleteProgram));
    }
    let tok = tokens[*pos];
    let act = action[*state][tok.token_type.ord()];
    let node: Node<R>;
    let mut next_pos = *pos;
    match act {
        Action::Shift => {
            node = Node::Leaf(tok);
            next_pos = *pos + 1;
            proof {
                assert(tokens@.take(*pos + 1) =~= tokens@.take(*pos as int).push(tok));
                assert(leaves(node) == seq![tok]);
                assert(leaves_list(stack_nodes(stack@)) + leaves(node) =~= tokens@.take(*pos + 1));
                assert(tree_of(node) == PTree::<R>::Leaf(tok));
            }
        },
        Action::Reduce(p) | Action::Accept(p) => {
            let prod = g.production(p);
            let n = prod.definition.len();
            if n == 0 {
                node = Node::Parent(Parent { rule: prod.rule, children: Vec::new() });
                proof {
                    assert(leaves(node) =~= Seq::<Token<R::TokenType>>::empty());
                    assert(leaves_list(stack_nodes(stack@)) + leaves(node) =~= tokens@.take(*pos as int));
                    assert(trees_of(Seq::<Node<R>>::empty()) =~= Seq::<PTree<R>>::empty());
                    assert(tree_of(node) == PTree::Branch(prod.rule, Seq::<PTree<R>>::empty()));
                    assert(reduce_by(*g, c, p) == Some((*state, stack_view(stack@), tree_of(node))));
                }
            } else if stack.len() >= n {
                let from = stack.len() - n;
                *state = stack[from].0.0;
                let mut rev: Vec<Node<R>> = Vec::new();
                let mut i: usize = 0;
                while i < n
                    invariant
                        i <= n,
                        n <= before.len(),
                        from == before.len() - n,
                        stack@ == before.take(before.len() - i),
                        rev@.len() == i,
                        forall|j: int| 0 <= j < i ==> rev@[j] == before[before.len() - 1 - j].1,
                    decreases n - i,
                {
                    let e = stack.pop().unwrap();
                    rev.push(e.1);
                    i += 1;
                    assert(stack@ =~= before.take(before.len() - i));
                }
                let mut children: Vec<Node<R>> = Vec::new();
                while rev.len() > 0
                    invariant
                        rev@.len() + children@.len() == n,
                        n <= before.len(),
                        from == before.len() - n,
                        forall|j: int| 0 <= j < rev@.len() ==> rev@[j] == before[before.len() - 1 - j].1,
                        forall|j: int| 0 <= j < children@.len() ==> children@[j] == before[from + j].1,
                    decreases rev@.len(),
                {
                    let x = rev.pop().unwrap();
                    children.push(x);
                }
                proof {
                    let ch = children@;
                    assert(ch =~= stack_nodes(before).subrange(from as int, before.len() as int));
                    assert(stack_nodes(before) =~= stack_nodes(stack@) + ch);
                    lemma_leaves_concat(stack_nodes(stack@), ch);
                    assert(stack_view(stack@) =~= stack_view(before).take(from as int));
                    lemma_trees_of(ch);
                    assert(trees_of(ch) =~= c.stack.subrange(from as int, before.len() as int).map_values(
                        |e: (usize, PTree<R>)| e.1,
                    ));
                }
                node = Node::Parent(Parent { rule: prod.rule, children });
                proof {
                    assert(leaves(node) == leaves_list(stack_nodes(before).subrange(from as int, before.len() as int)));
                    assert(leaves_list(stack_nodes(stack@)) + leaves(node) =~= tokens@.take(*pos as int));
                    assert(c.stack == stack_view(before));
                    assert(reduce_by(*g, c, p) == Some((*state, stack_view(stack@), tree_of(node))));
                }
            } else {
                return Some(Err(ParseError::IncompleteProgram));
            }
            if let Action::Accept(_) = act {
                if stack.len() > 0 {
                    return Some(Err(ParseError::ExcessProgram(tok.span)));
                }
                proof {
                    assert(stack_nodes(stack@) =~= Seq::<Node<R>>::empty());
                    assert(g.spec_productions()[p.0 as int].rule == g.spec_goal());
                }
                return Some(Ok(node));
            }
        },
    }
    proof {
        assert(tree_symbol(tree_of(node)) == symbol_of(node));
    }
    let col = symbol_column(node.symbol());
    match goto[*state][col] {
        Some(t) => {
            let ghost nodes0 = stack_nodes(stack@);
            let ghost view0 = stack_view(stack@);
            let ghost st0 = *state;
            let ghost node0 = node;
            stack.push((StateId(*state), node));
            proof {
                assert(stack_nodes(stack@) =~= nodes0.push(node0));
                assert(stack_nodes(stack@).drop_last() =~= nodes0);
                assert(stack_view(stack@) =~= view0.push((st0, tree_of(node0))));
                assert(leaves_list(stack_nodes(stack@)) == leaves_list(nodes0) + leaves(node0));
            }
            *state = t.0;
            *pos = next_pos;
            None
        },
        None => Some(Err(ParseError::UnexpectedToken(tok.span))),
    }
}

/// Parses `tokens` with the LR automaton of grammar `g` given by the action
/// and goto tables, from state `initial` with an empty stack. Each step
/// looks at the next token: a shift pushes it; a reduction by a
/// production pops as many nodes as it has symbols (none for an empty
/// one), goes back to the state before the first of them, and forms them,
/// in order, into a node of the production's rule; the goto table then
/// gives the next state, and the node is pushed. A reduction that accepts
/// returns the node when the stack is empty.
///
/// The result is what the automaton ends with: the error it fails with, or
/// the tree it accepts with, node for node, whose tokens are those read.
/// The automaton must end on the input; [`lr_parse_within`] bounds the
/// number of steps instead.
pub fn lr_parse<R: Rule>(
    g: &Grammar<R>,
    action: &Vec<Vec<Action>>,
    goto: &Vec<Vec<Option<StateId>>>,
    initial: StateId,
    tokens: &[Token<R::TokenType>],
) -> (r: Result<Node<R>, ParseError>)
    requires
        tables_fit(*g, action@, goto@),
        initial.0 < action@.len(),
        lr_halts(*g, action@, goto@, initial, tokens@),
    ensures
        match r {
            Ok(n) => {
                &&& lr_outcome(*g, action@, goto@, initial, tokens@) matches Ok((t, k))
                &&& tree_of(n) == t
                &&& leaves(n) == tokens@.take(k)
                &&& n matches Node::Parent(p) && p.rule == g.spec_goal()
            },
            Err(e) => lr_outcome(*g, action@, goto@, initial, tokens@) == Err::<(PTree<R>, int), ParseError>(e),
        },
{
    let ghost start = start_config::<R>(initial);
    let ghost fuel = choose|fuel: nat| (#[trigger] lr_run(*g, action@, goto@, tokens@, start, fuel)) is Some;
    let ghost outcome = lr_run(*g, action@, goto@, tokens@, start, fuel).unwrap();
    let ghost mut rem: nat = fuel;
    let mut state: usize = initial.0;
    let mut stack: Vec<(StateId, Node<R>)> = Vec::new();
    let mut pos: usize = 0;
    assert(stack_view(stack@) =~= Seq::<(usize, PTree<R>)>::empty());
    assert(stack_nodes(stack@) =~= Seq::<Node<R>>::empty());
    assert(tokens@.take(0) =~= Seq::<Token<R::TokenType>>::empty());
    loop
        invariant
            driver_ok(*g, action@, goto@, tokens@, state, stack@, pos),
            outcome == lr_outcome(*g, action@, goto@, initial, tokens@),
            lr_run(*g, action@, goto@, tokens@, config_of(state, stack@, pos), rem) == Some(outcome),
        decreases rem,
    {
        assert(rem > 0);
        match drive_step(g, action, goto, tokens, &mut state, &mut stack, &mut pos) {
            Some(r) => {
                return r;
            },
            None => {
                proof {
                    rem = (rem - 1) as nat;
                }
            },
        }
    }
}

/// Runs the automaton of [`lr_parse`] for at most `steps` steps: `None`
/// when it has not ended by then, else what `lr_parse` returns.
pub fn lr_parse_within<R: Rule>(
    g: &Grammar<R>,
    action: &Vec<Vec<Action>>,
    goto: &Vec<Vec<Option<StateId>>>,
    initial: StateId,
    tokens: &[Token<R::TokenType>],
    steps: usize,
) -> (r: Option<Result<Node<R>, ParseError>>)
    requires
        tables_fit(*g, action@, goto@),
        initial.0 < action@.len(),
    ensures
        match lr_run(*g, action@, goto@, tokens@, start_config(initial), steps as nat) {
            None => r is None,
            Some(Ok((t, k))) => {
                &&& r matches Some(Ok(n))
                &&& tree_of(n) == t
                &&& leaves(n) == tokens@.take(k)
                &&& n matches Node::Parent(p) && p.rule == g.spec_goal()
            },
            Some(Err(e)) => r == Some(Err::<Node<R>, ParseError>(e)),
        },
{
    let ghost start = start_config::<R>(initial);
    let mut state: usize = initial.0;
    let mut stack: Vec<(StateId, Node<R>)> = Vec::new();
    let mut pos: usize = 0;
    assert(stack_view(stack@) =~= Seq::<(usize, PTree<R>)>::empty());
    assert(stack_nodes(stack@) =~= Seq::<Node<R>>::empty());
    assert(tokens@.take(0) =~= Seq::<Token<R::TokenType>>::empty());
    let mut done: usize = 0;
    while done < steps
        invariant
            done <= steps,
            start == start_config::<R>(initial),
            driver_ok(*g, action@, goto@, tokens@, state, stack@, pos),
            lr_run(*g, action@, goto@, tokens@, start, steps as nat) == lr_run(
                *g,
                action@,
                goto@,
                tokens@,
                config_of(state, stack@, pos),
                (steps - done) as nat,
            ),
        decreases steps - done,
    {
        match drive_step(g, action, goto, tokens, &mut state, &mut stack, &mut pos) {
            Some(r) => {
                return Some(r);
            },
            None => {},
        }
        done += 1;
    }
    None
}

} // verus!
