use vstd::prelude::*;

use super::rule::Rule;
use crate::lox_core::Ordinal;

verus! {

/// One element of the right-hand side of a production.
#[derive(Clone, Copy, Debug, PartialEq, Eq, Hash)]
pub enum Symbol<R: Rule> {
    Token(R::TokenType),
    Rule(R),
}

/// `rule := definition`.
#[derive(Clone, Debug, PartialEq, Eq, Hash)]
pub struct Production<R: Rule> {
    pub rule: R,
    pub definition: Vec<Symbol<R>>,
}

/// Identifies a production by its position in the grammar.
#[derive(Debug, Hash, Eq, PartialEq, Clone, Copy, PartialOrd, Ord, Structural)]
pub struct ProductionId(pub usize);

/// A context free grammar: its productions, in order, and the rule that a
/// whole input must form.
pub struct Grammar<R: Rule> {
    goal: R,
    productions: Vec<Production<R>>,
}

impl<R: Rule> Grammar<R> {
    /// The productions, in the order the grammar was written.
    pub closed spec fn spec_productions(&self) -> Seq<Production<R>> {
        self.productions@
    }

    /// The rule that a whole input must form.
    pub closed spec fn spec_goal(&self) -> R {
        self.goal
    }

    /// Some production of `rule` has an empty right-hand side.
    pub open spec fn spec_contains_epsilon(&self, rule: R) -> bool {
        exists|p: int|
            0 <= p < self.spec_productions().len()
                && (#[trigger] self.spec_productions()[p]).rule == rule
                && self.spec_productions()[p].definition@.len() == 0
    }

    pub fn new(goal: R, productions: Vec<Production<R>>) -> (r: Self)
        ensures
            r.spec_goal() == goal,
            r.spec_productions() == productions@,
    {
        Grammar { goal, productions }
    }

    pub fn target_rule(&self) -> (r: R)
        ensures
            r == self.spec_goal(),
    {
        self.goal
    }

    pub fn productions(&self) -> (r: &[Production<R>])
        ensures
            r@ == self.spec_productions(),
    {
        self.productions.as_slice()
    }

    pub fn production(&self, id: ProductionId) -> (r: &Production<R>)
        requires
            id.0 < self.spec_productions().len(),
        ensures
            *r == self.spec_productions()[id.0 as int],
    {
        &self.productions[id.0]
    }

    pub fn rule_contains_epsilon(&self, rule: R) -> (r: bool)
        ensures
            r == self.spec_contains_epsilon(rule),
    {
        let mut i: usize = 0;
        let target: usize = rule.ord();
        while i < self.productions.len()
            invariant
                i <= self.productions@.len(),
                target == rule.spec_ord(),
                forall|p: int|
                    0 <= p < i ==> !((#[trigger] self.productions@[p]).rule == rule
                        && self.productions@[p].definition@.len() == 0),
            decreases self.productions@.len() - i,
        {
            let production = &self.productions[i];
            if production.rule.ord() == target && production.definition.len() == 0 {
                proof {
                    R::lemma_ord_injective(production.rule, rule);
                    assert(self.spec_productions()[i as int] == *production);
                }
                return true;
            }
            i += 1;
        }
        false
    }
}

} // verus!
