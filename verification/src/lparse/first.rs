use vstd::prelude::*;

use super::grammar::{Grammar, Production, Symbol};
use super::rule::Rule;
use super::table::{empty_table, insert_flag, rows_of, table_missing, table_shape, table_subset};
use crate::lox_core::Ordinal;

verus! {

/// The number of rules of `R`.
pub open spec fn rule_count<R: Rule>() -> int {
    R::COUNT as int
}

/// The number of token kinds that `R` reads.
pub open spec fn token_count<R: Rule>() -> int {
    <<R as Rule>::TokenType as Ordinal>::COUNT as int
}

/// The first `i` symbols of `def` are rules that can derive nothing.
pub open spec fn nullable_prefix<R: Rule>(g: &Grammar<R>, def: Seq<Symbol<R>>, i: int) -> bool {
    forall|j: int|
        0 <= j < i ==> match #[trigger] def[j] {
            Symbol::Rule(r) => g.spec_contains_epsilon(r),
            Symbol::Token(_) => false,
        }
}

/// Token `c` is among those that symbol `s` can start with, by table `t`.
pub open spec fn symbol_gives<R: Rule>(s: Symbol<R>, t: Seq<Seq<bool>>, c: int) -> bool {
    match s {
        Symbol::Token(tok) => tok.spec_ord() == c,
        Symbol::Rule(r) => t[r.spec_ord() as int][c],
    }
}

/// Production `p` asks that its rule starts with token `c`, by table `t`:
/// some symbol of its definition, after only rules that can derive
/// nothing, starts with `c`.
pub open spec fn first_step<R: Rule>(g: &Grammar<R>, t: Seq<Seq<bool>>, p: int, i: int, c: int) -> bool {
    let def = g.spec_productions()[p].definition@;
    &&& 0 <= p < g.spec_productions().len()
    &&& 0 <= i < def.len()
    &&& 0 <= c < token_count::<R>()
    &&& nullable_prefix(g, def, i)
    &&& symbol_gives(def[i], t, c)
}

/// Production `p` asks that its rule starts with token `c`, by table `t`.
pub open spec fn production_gives<R: Rule>(g: &Grammar<R>, t: Seq<Seq<bool>>, p: int, c: int) -> bool {
    exists|i: int| #[trigger] first_step(g, t, p, i, c)
}

/// Table `t` holds everything that the productions ask of it.
pub open spec fn first_closed<R: Rule>(g: &Grammar<R>, t: Seq<Seq<bool>>) -> bool {
    forall|p: int, i: int, c: int|
        #[trigger] first_step(g, t, p, i, c) ==> t[g.spec_productions()[p].rule.spec_ord() as int][c]
}

/// Table `t` holds only what every table of the right shape that holds
/// everything the productions ask must hold too.
pub open spec fn first_least<R: Rule>(g: &Grammar<R>, t: Seq<Seq<bool>>) -> bool {
    forall|u: Seq<Seq<bool>>|
        table_shape(u, rule_count::<R>(), token_count::<R>()) && #[trigger] first_closed(g, u)
            ==> table_subset(t, u)
}

/// `t` is the FIRST table of `g`: for each rule, the tokens that its
/// derivations can begin with, computed as the least table that every
/// production agrees with.
pub open spec fn is_first_table<R: Rule>(g: &Grammar<R>, t: Seq<Seq<bool>>) -> bool {
    &&& table_shape(t, rule_count::<R>(), token_count::<R>())
    &&& first_closed(g, t)
    &&& first_least(g, t)
}

/// The FIRST table of `g`.
pub open spec fn first_sets<R: Rule>(g: &Grammar<R>) -> Seq<Seq<bool>> {
    choose|t: Seq<Seq<bool>>| is_first_table(g, t)
}

/// A grammar has at most one FIRST table.
pub proof fn lemma_first_table_unique<R: Rule>(g: &Grammar<R>, a: Seq<Seq<bool>>, b: Seq<Seq<bool>>)
    requires
        is_first_table(g, a),
        is_first_table(g, b),
    ensures
        a == b,
{
    assert(table_subset(a, b));
    assert(table_subset(b, a));
    assert forall|r: int| 0 <= r < a.len() implies a[r] =~= b[r] by {
        assert forall|c: int| 0 <= c < a[r].len() implies a[r][c] == b[r][c] by {
            if a[r][c] {
                assert(b[r][c]);
            }
            if b[r][c] {
                assert(a[r][c]);
            }
        }
    }
    assert(a =~= b);
}

proof fn lemma_step_in_closed<R: Rule>(
    g: &Grammar<R>,
    t: Seq<Seq<bool>>,
    u: Seq<Seq<bool>>,
    p: int,
    i: int,
    c: int,
)
    requires
        table_shape(t, rule_count::<R>(), token_count::<R>()),
        table_shape(u, rule_count::<R>(), token_count::<R>()),
        table_subset(t, u),
        first_closed(g, u),
        first_step(g, t, p, i, c),
    ensures
        u[g.spec_productions()[p].rule.spec_ord() as int][c],
{
    let def = g.spec_productions()[p].definition@;
    match def[i] {
        Symbol::Token(_) => {},
        Symbol::Rule(r) => {
            R::lemma_ord_bound(r);
            assert(t[r.spec_ord() as int][c]);
        },
    }
    assert(first_step(g, u, p, i, c));
}

/// The tokens that production `production` (number `p` of the grammar)
/// starts its rule with, by table `table`.
fn production_first<R: Rule>(
    grammar: &Grammar<R>,
    production: &Production<R>,
    table: &Vec<Vec<bool>>,
    Ghost(p): Ghost<int>,
) -> (tokens: Vec<usize>)
    requires
        0 <= p < grammar.spec_productions().len(),
        *production == grammar.spec_productions()[p],
        table_shape(rows_of(table@), rule_count::<R>(), token_count::<R>()),
    ensures
        forall|k: int|
            0 <= k < tokens@.len() ==> production_gives(grammar, rows_of(table@), p, #[trigger] tokens@[k] as int),
        forall|i: int, c: int|
            #[trigger] first_step(grammar, rows_of(table@), p, i, c) ==> tokens@.contains(
                c as usize,
            ),
{
    let ghost t = rows_of(table@);
    let ghost def = production.definition@;
    let mut tokens: Vec<usize> = Vec::new();
    let mut i: usize = 0;
    let token_kinds: usize = <<R as Rule>::TokenType as Ordinal>::COUNT;
    while i < production.definition.len()
        invariant_except_break
            nullable_prefix(grammar, def, i as int),
        invariant
            0 <= p < grammar.spec_productions().len(),
            *production == grammar.spec_productions()[p],
            def == production.definition@,
            t == rows_of(table@),
            token_kinds == token_count::<R>(),
            table_shape(t, rule_count::<R>(), token_count::<R>()),
            i <= def.len(),
            forall|k: int|
                0 <= k < tokens@.len() ==> production_gives(grammar, t, p, #[trigger] tokens@[k] as int),
            forall|j: int, c: int|
                0 <= j < i && #[trigger] first_step(grammar, t, p, j, c) ==> tokens@.contains(
                    c as usize,
                ),
        ensures
            forall|k: int|
                0 <= k < tokens@.len() ==> production_gives(grammar, t, p, #[trigger] tokens@[k] as int),
            forall|j: int, c: int|
                #[trigger] first_step(grammar, t, p, j, c) ==> tokens@.contains(c as usize),
        decreases def.len() - i,
    {
        match production.definition[i] {
            Symbol::Token(tok) => {
                let c = tok.ord();
                let ghost before = tokens@;
                tokens.push(c);
                proof {
                    assert(first_step(grammar, t, p, i as int, c as int));
                    assert(tokens@[before.len() as int] == c);
                    assert forall|k: int| 0 <= k < tokens@.len() implies production_gives(grammar, t, p, #[trigger] tokens@[k] as int) by {
                        if k < before.len() {
                            assert(tokens@[k] == before[k]);
                        } else {
                            assert(first_step(grammar, t, p, i as int, tokens@[k] as int));
                        }
                    }
                    assert forall|j: int, c2: int| #[trigger] first_step(grammar, t, p, j, c2) implies
                        tokens@.contains(c2 as usize) by {
                        if j < i {
                            let k = choose|k: int| 0 <= k < before.len() && before[k] == c2 as usize;
                            assert(tokens@[k] == c2 as usize);
                        } else if j == i {
                            assert(tokens@[before.len() as int] == c2 as usize);
                        } else {
                            assert(!nullable_prefix(grammar, def, j)) by {
                                assert(def[i as int] == Symbol::<R>::Token(tok));
                            }
                        }
                    }
                }
                break;
            },
            Symbol::Rule(r) => {
                let row = r.ord();
                proof {
                    assert(t[row as int] == table@[row as int]@);
                }
                let mut c: usize = 0;
                while c < token_kinds
                    invariant
                        0 <= p < grammar.spec_productions().len(),
                        *production == grammar.spec_productions()[p],
                        def == production.definition@,
                        def[i as int] == Symbol::<R>::Rule(r),
                        row == r.spec_ord(),
                        row < table@.len(),
                        table@[row as int]@.len() == token_kinds,
                        t[row as int] == table@[row as int]@,
                        t == rows_of(table@),
                        token_kinds == token_count::<R>(),
                        table_shape(t, rule_count::<R>(), token_count::<R>()),
                        i < def.len(),
                        nullable_prefix(grammar, def, i as int),
                        c <= token_kinds,
                        forall|k: int|
                            0 <= k < tokens@.len() ==> production_gives(grammar, t, p, #[trigger] tokens@[k] as int),
                        forall|j: int, c2: int|
                            0 <= j < i && #[trigger] first_step(grammar, t, p, j, c2)
                                ==> tokens@.contains(c2 as usize),
                        forall|c2: int|
                            0 <= c2 < c && #[trigger] t[row as int][c2] ==> tokens@.contains(
                                c2 as usize,
                            ),
                    decreases token_kinds - c,
                {
                    if table[row][c] {
                        let ghost before = tokens@;
                        tokens.push(c);
                        proof {
                            assert(t[row as int][c as int] == table@[row as int]@[c as int]);
                            assert(first_step(grammar, t, p, i as int, c as int));
                            assert(tokens@[before.len() as int] == c);
                            assert forall|k: int| 0 <= k < tokens@.len() implies production_gives(grammar, t, p, #[trigger] tokens@[k] as int) by {
                                if k < before.len() {
                                    assert(tokens@[k] == before[k]);
                                } else {
                                    assert(first_step(grammar, t, p, i as int, tokens@[k] as int));
                                }
                            }
                            assert forall|j: int, c2: int|
                                0 <= j < i && #[trigger] first_step(grammar, t, p, j, c2) implies
                                tokens@.contains(c2 as usize) by {
                                let k = choose|k: int| 0 <= k < before.len() && before[k] == c2 as usize;
                                assert(tokens@[k] == c2 as usize);
                            }
                            assert forall|c2: int|
                                0 <= c2 < c + 1 && #[trigger] t[row as int][c2] implies tokens@.contains(
                                    c2 as usize,
                                ) by {
                                if c2 < c {
                                    let k = choose|k: int| 0 <= k < before.len() && before[k] == c2 as usize;
                                    assert(tokens@[k] == c2 as usize);
                                } else {
                                    assert(tokens@[before.len() as int] == c2 as usize);
                                }
                            }
                        }
                    }
                    c += 1;
                }
                let epsilon = grammar.rule_contains_epsilon(r);
                proof {
                    assert forall|j: int, c2: int|
                        0 <= j < i + 1 && #[trigger] first_step(grammar, t, p, j, c2) implies
                        tokens@.contains(c2 as usize) by {
                        if j == i {
                            assert(t[row as int][c2]);
                        }
                    }
                }
                if !epsilon {
                    proof {
                        assert forall|j: int, c2: int| #[trigger] first_step(grammar, t, p, j, c2) implies
                            tokens@.contains(c2 as usize) by {
                            if j > i {
                                assert(!nullable_prefix(grammar, def, j)) by {
                                    assert(def[i as int] == Symbol::<R>::Rule(r));
                                }
                            }
                        }
                    }
                    break;
                }
                i += 1;
                proof {
                    assert forall|j: int| 0 <= j < i implies match #[trigger] def[j] {
                        Symbol::Rule(r2) => grammar.spec_contains_epsilon(r2),
                        Symbol::Token(_) => false,
                    } by {
                        if j < i - 1 {
                            assert(nullable_prefix(grammar, def, i - 1));
                        }
                    }
                }
            },
        }
    }
    tokens
}

/// Computes the FIRST table of the grammar: for each rule (by its
/// ordinal), a flag for each token kind (by its ordinal) that some
/// derivation of the rule can begin with. Rules that can derive nothing let
/// the tokens after them through.
pub fn first<R: Rule>(grammar: &Grammar<R>) -> (table: Vec<Vec<bool>>)
    ensures
        is_first_table(grammar, rows_of(table@)),
        rows_of(table@) == first_sets(grammar),
{
    let rule_kinds: usize = R::COUNT;
    let token_kinds: usize = <<R as Rule>::TokenType as Ordinal>::COUNT;
    let mut first_table = empty_table(rule_kinds, token_kinds);
    let mut changed = true;
    while changed
        invariant
            rule_kinds == rule_count::<R>(),
            token_kinds == token_count::<R>(),
            table_shape(rows_of(first_table@), rule_count::<R>(), token_count::<R>()),
            first_least(grammar, rows_of(first_table@)),
            !changed ==> first_closed(grammar, rows_of(first_table@)),
        decreases table_missing(rows_of(first_table@)) + if changed {
            1int
        } else {
            0int
        },
    {
        changed = false;
        let ghost start = rows_of(first_table@);
        let productions = grammar.productions();
        let mut idx: usize = 0;
        while idx < productions.len()
            invariant
                productions@ == grammar.spec_productions(),
                idx <= productions@.len(),
                rule_kinds == rule_count::<R>(),
                token_kinds == token_count::<R>(),
                table_shape(start, rule_count::<R>(), token_count::<R>()),
                table_shape(rows_of(first_table@), rule_count::<R>(), token_count::<R>()),
                first_least(grammar, rows_of(first_table@)),
                table_missing(rows_of(first_table@)) <= table_missing(start),
                changed ==> table_missing(rows_of(first_table@)) < table_missing(start),
                !changed ==> rows_of(first_table@) == start,
                !changed ==> forall|p: int, i: int, c: int|
                    0 <= p < idx && #[trigger] first_step(grammar, start, p, i, c)
                        ==> start[grammar.spec_productions()[p].rule.spec_ord() as int][c],
            decreases productions@.len() - idx,
        {
            let production = &productions[idx];
            let ghost before = rows_of(first_table@);
            let tokens = production_first(grammar, production, &first_table, Ghost(idx as int));
            let row = production.rule.ord();
            let mut k: usize = 0;
            while k < tokens.len()
                invariant
                    productions@ == grammar.spec_productions(),
                    idx < productions@.len(),
                    *production == grammar.spec_productions()[idx as int],
                    row == production.rule.spec_ord(),
                    row < rule_kinds,
                    !changed ==> before == start,
                    rule_kinds == rule_count::<R>(),
                    token_kinds == token_count::<R>(),
                    k <= tokens@.len(),
                    table_shape(start, rule_count::<R>(), token_count::<R>()),
                    table_shape(before, rule_count::<R>(), token_count::<R>()),
                    table_shape(rows_of(first_table@), rule_count::<R>(), token_count::<R>()),
                    table_subset(before, rows_of(first_table@)),
                    first_least(grammar, rows_of(first_table@)),
                    forall|k2: int|
                        0 <= k2 < tokens@.len() ==> production_gives(
                            grammar,
                            before,
                            idx as int,
                            #[trigger] tokens@[k2] as int,
                        ),
                    forall|k2: int|
                        0 <= k2 < k ==> rows_of(first_table@)[row as int][#[trigger] tokens@[k2] as int],
                    table_missing(rows_of(first_table@)) <= table_missing(start),
                    changed ==> table_missing(rows_of(first_table@)) < table_missing(start),
                    !changed ==> rows_of(first_table@) == start,
                decreases tokens@.len() - k,
            {
                let c = tokens[k];
                let ghost prev = rows_of(first_table@);
                proof {
                    let i = choose|i: int| #[trigger] first_step(grammar, before, idx as int, i, c as int);
                    assert(first_step(grammar, before, idx as int, i, c as int));
                    assert(prev[row as int] == first_table@[row as int]@);
                    assert(prev.len() == first_table@.len());
                }
                let added = insert_flag(&mut first_table, row, c);
                if added {
                    changed = true;
                }
                proof {
                    let now = rows_of(first_table@);
                    assert forall|u: Seq<Seq<bool>>|
                        table_shape(u, rule_count::<R>(), token_count::<R>())
                            && #[trigger] first_closed(grammar, u) implies table_subset(now, u) by {
                        let i = choose|i: int| #[trigger] first_step(grammar, before, idx as int, i, c as int);
                        assert(table_subset(prev, u));
                        assert(table_subset(before, u));
                        lemma_step_in_closed(grammar, before, u, idx as int, i, c as int);
                    }
                    assert forall|k2: int| 0 <= k2 < k + 1 implies now[row as int][#[trigger] tokens@[k2] as int] by {
                        if k2 < k {
                            assert(prev[row as int][tokens@[k2] as int]);
                        }
                    }
                    assert(table_subset(before, now));
                    if !added {
                        assert(prev[row as int].update(c as int, true) =~= prev[row as int]);
                        assert(now =~= prev);
                    }
                }
                k += 1;
            }
            proof {
                if !changed {
                    assert forall|p: int, i: int, c: int|
                        0 <= p < idx + 1 && #[trigger] first_step(grammar, start, p, i, c)
                            implies start[grammar.spec_productions()[p].rule.spec_ord() as int][c] by {
                        if p == idx {
                            assert(first_step(grammar, before, p, i, c));
                            assert(tokens@.contains(c as usize));
                            let k2 = choose|k2: int| 0 <= k2 < tokens@.len() && tokens@[k2] == c as usize;
                            assert(rows_of(first_table@)[row as int][tokens@[k2] as int]);
                        }
                    }
                }
            }
            idx += 1;
        }
    }
    proof {
        let t = rows_of(first_table@);
        assert(is_first_table(grammar, t));
        lemma_first_table_unique(grammar, t, first_sets(grammar));
    }
    first_table
}

} // verus!
