use vstd::prelude::*;

use crate::lox_core::Ordinal;
use crate::lparse::first::{rule_count, symbol_gives, token_count};
use crate::lparse::table::{empty_table, insert_flag, rows_of, table_missing, table_shape, table_subset};
use crate::lparse::{Grammar, Production, Rule, Symbol};

verus! {

/// Production `p` asks that its rule starts with token `c`, by table `t`:
/// its first symbol (position `i`, which is 0) starts with `c`.
pub open spec fn direct_first_step<R: Rule>(g: &Grammar<R>, t: Seq<Seq<bool>>, p: int, i: int, c: int) -> bool {
    let def = g.spec_productions()[p].definition@;
    &&& 0 <= p < g.spec_productions().len()
    &&& i == 0
    &&& 0 < def.len()
    &&& 0 <= c < token_count::<R>()
    &&& symbol_gives(def[0], t, c)
}

/// Production `p` asks that its rule starts with token `c`, by table `t`.
pub open spec fn direct_production_gives<R: Rule>(g: &Grammar<R>, t: Seq<Seq<bool>>, p: int, c: int) -> bool {
    exists|i: int| #[trigger] direct_first_step(g, t, p, i, c)
}

/// Table `t` holds everything that the productions ask of it.
pub open spec fn direct_first_closed<R: Rule>(g: &Grammar<R>, t: Seq<Seq<bool>>) -> bool {
    forall|p: int, i: int, c: int|
        #[trigger] direct_first_step(g, t, p, i, c) ==> t[g.spec_productions()[p].rule.spec_ord() as int][c]
}

/// Table `t` holds only what every closed table of the right shape holds.
pub open spec fn direct_first_least<R: Rule>(g: &Grammar<R>, t: Seq<Seq<bool>>) -> bool {
    forall|u: Seq<Seq<bool>>|
        table_shape(u, rule_count::<R>(), token_count::<R>()) && #[trigger] direct_first_closed(g, u)
            ==> table_subset(t, u)
}

/// `t` is the least table in which each rule starts with what the first
/// symbol of each of its productions starts with.
pub open spec fn is_direct_first_table<R: Rule>(g: &Grammar<R>, t: Seq<Seq<bool>>) -> bool {
    &&& table_shape(t, rule_count::<R>(), token_count::<R>())
    &&& direct_first_closed(g, t)
    &&& direct_first_least(g, t)
}

/// The table of `g` that `first` computes.
pub open spec fn direct_first_sets<R: Rule>(g: &Grammar<R>) -> Seq<Seq<bool>> {
    choose|t: Seq<Seq<bool>>| is_direct_first_table(g, t)
}

/// A grammar has at most one such table.
pub proof fn lemma_direct_first_table_unique<R: Rule>(g: &Grammar<R>, a: Seq<Seq<bool>>, b: Seq<Seq<bool>>)
    requires
        is_direct_first_table(g, a),
        is_direct_first_table(g, b),
    ensures
        a == b,
{
    assert(table_subset(a, b));
    assert(table_subset(b, a));
    assert forall|r: int| 0 <= r < a.len() implies a[r] =~= b[r] by {
        assert forall|c: int| 0 <= c < a[r].len() implies a[r][c] == b[r][c] by {
            if a[r][c] {
                assert(b[r][c]);
            }
            if b[r][c] {
                assert(a[r][c]);
            }
        }
    }
    assert(a =~= b);
}

proof fn lemma_direct_step_in_closed<R: Rule>(
    g: &Grammar<R>,
    t: Seq<Seq<bool>>,
    u: Seq<Seq<bool>>,
    p: int,
    i: int,
    c: int,
)
    requires
        table_shape(t, rule_count::<R>(), token_count::<R>()),
        table_shape(u, rule_count::<R>(), token_count::<R>()),
        table_subset(t, u),
        direct_first_closed(g, u),
        direct_first_step(g, t, p, i, c),
    ensures
        u[g.spec_productions()[p].rule.spec_ord() as int][c],
{
    let def = g.spec_productions()[p].definition@;
    match def[0] {
        Symbol::Token(_) => {},
        Symbol::Rule(r) => {
            R::lemma_ord_bound(r);
            assert(t[r.spec_ord() as int][c]);
        },
    }
    assert(direct_first_step(g, u, p, i, c));
}

/// The tokens that production `production` (number `p` of the grammar)
/// starts its rule with, by table `table`: those its first symbol starts
/// with.
fn production_direct_first<R: Rule>(
    grammar: &Grammar<R>,
    production: &Production<R>,
    table: &Vec<Vec<bool>>,
    Ghost(p): Ghost<int>,
) -> (tokens: Vec<usize>)
    requires
        0 <= p < grammar.spec_productions().len(),
        *production == grammar.spec_productions()[p],
        table_shape(rows_of(table@), rule_count::<R>(), token_count::<R>()),
    ensures
        forall|k: int|
            0 <= k < tokens@.len() ==> direct_production_gives(grammar, rows_of(table@), p, #[trigger] tokens@[k] as int),
        forall|i: int, c: int|
            #[trigger] direct_first_step(grammar, rows_of(table@), p, i, c) ==> tokens@.contains(c as usize),
{
    let ghost t = rows_of(table@);
    let mut tokens: Vec<usize> = Vec::new();
    if production.definition.len() == 0 {
        return tokens;
    }
    match production.definition[0] {
        Symbol::Token(tok) => {
            tokens.push(tok.ord());
            proof {
                assert(direct_first_step(grammar, t, p, 0, tokens@[0] as int));
                assert forall|i: int, c: int| #[trigger] direct_first_step(grammar, t, p, i, c) implies
                    tokens@.contains(c as usize) by {
                    assert(tokens@[0] == c as usize);
                }
            }
        },
        Symbol::Rule(r) => {
            let row = r.ord();
            proof {
                assert(t[row as int] == table@[row as int]@);
            }
            let token_kinds: usize = <<R as Rule>::TokenType as Ordinal>::COUNT;
            let mut c: usize = 0;
            while c < token_kinds
                invariant
                    0 <= p < grammar.spec_productions().len(),
                    *production == grammar.spec_productions()[p],
                    production.definition@.len() > 0,
                    production.definition@[0] == Symbol::<R>::Rule(r),
                    row == r.spec_ord(),
                    row < table@.len(),
                    table@[row as int]@.len() == token_kinds,
                    t[row as int] == table@[row as int]@,
                    t == rows_of(table@),
                    token_kinds == token_count::<R>(),
                    c <= token_kinds,
                    forall|k: int|
                        0 <= k < tokens@.len() ==> direct_production_gives(grammar, t, p, #[trigger] tokens@[k] as int),
                    forall|c2: int| 0 <= c2 < c && #[trigger] t[row as int][c2] ==> tokens@.contains(c2 as usize),
                decreases token_kinds - c,
            {
                if table[row][c] {
                    let ghost before = tokens@;
                    tokens.push(c);
                    proof {
                        assert(direct_first_step(grammar, t, p, 0, c as int));
                        assert forall|k: int| 0 <= k < tokens@.len() implies direct_production_gives(
                            grammar,
                            t,
                            p,
                            #[trigger] tokens@[k] as int,
                        ) by {
                            if k < before.len() {
                                assert(tokens@[k] == before[k]);
                            } else {
                                assert(direct_first_step(grammar, t, p, 0, tokens@[k] as int));
                            }
                        }
                        assert forall|c2: int| 0 <= c2 < c + 1 && #[trigger] t[row as int][c2] implies tokens@.contains(
                            c2 as usize,
                        ) by {
                            if c2 < c {
                                let k = choose|k: int| 0 <= k < before.len() && before[k] == c2 as usize;
                                assert(tokens@[k] == c2 as usize);
                            } else {
                                assert(tokens@[before.len() as int] == c2 as usize);
                            }
                        }
                    }
                }
                c += 1;
            }
            proof {
                assert forall|i: int, c2: int| #[trigger] direct_first_step(grammar, t, p, i, c2) implies
                    tokens@.contains(c2 as usize) by {
                    assert(t[row as int][c2]);
                }
            }
        },
    }
    tokens
}

/// Computes the table of the tokens that each rule starts with, looking at
/// the first symbol of each production only: for each rule (by its
/// ordinal), a flag for each token kind (by its ordinal).
pub fn first<R: Rule>(grammar: &Grammar<R>) -> (table: Vec<Vec<bool>>)
    ensures
        is_direct_first_table(grammar, rows_of(table@)),
        rows_of(table@) == direct_first_sets(grammar),
{
    let rule_kinds: usize = R::COUNT;
    let token_kinds: usize = <<R as Rule>::TokenType as Ordinal>::COUNT;
    let mut first_table = empty_table(rule_kinds, token_kinds);
    let mut changed = true;
    while changed
        invariant
            rule_kinds == rule_count::<R>(),
            token_kinds == token_count::<R>(),
            table_shape(rows_of(first_table@), rule_count::<R>(), token_count::<R>()),
            direct_first_least(grammar, rows_of(first_table@)),
            !changed ==> direct_first_closed(grammar, rows_of(first_table@)),
        decreases table_missing(rows_of(first_table@)) + if changed {
            1int
        } else {
            0int
        },
    {
        changed = false;
        let ghost start = rows_of(first_table@);
        let productions = grammar.productions();
        let mut idx: usize = 0;
        while idx < productions.len()
            invariant
                productions@ == grammar.spec_productions(),
                idx <= productions@.len(),
                rule_kinds == rule_count::<R>(),
                token_kinds == token_count::<R>(),
                table_shape(start, rule_count::<R>(), token_count::<R>()),
                table_shape(rows_of(first_table@), rule_count::<R>(), token_count::<R>()),
                direct_first_least(grammar, rows_of(first_table@)),
                table_missing(rows_of(first_table@)) <= table_missing(start),
                changed ==> table_missing(rows_of(first_table@)) < table_missing(start),
                !changed ==> rows_of(first_table@) == start,
                !changed ==> forall|p: int, i: int, c: int|
                    0 <= p < idx && #[trigger] direct_first_step(grammar, start, p, i, c)
                        ==> start[grammar.spec_productions()[p].rule.spec_ord() as int][c],
            decreases productions@.len() - idx,
        {
            let production = &productions[idx];
            let ghost before = rows_of(first_table@);
            let tokens = production_direct_first(grammar, production, &first_table, Ghost(idx as int));
            let row = production.rule.ord();
            let mut k: usize = 0;
            while k < tokens.len()
                invariant
                    productions@ == grammar.spec_productions(),
                    idx < productions@.len(),
                    *production == grammar.spec_productions()[idx as int],
                    row == production.rule.spec_ord(),
                    row < rule_kinds,
                    !changed ==> before == start,
                    rule_kinds == rule_count::<R>(),
                    token_kinds == token_count::<R>(),
                    k <= tokens@.len(),
                    table_shape(start, rule_count::<R>(), token_count::<R>()),
                    table_shape(before, rule_count::<R>(), token_count::<R>()),
                    table_shape(rows_of(first_table@), rule_count::<R>(), token_count::<R>()),
                    table_subset(before, rows_of(first_table@)),
                    direct_first_least(grammar, rows_of(first_table@)),
                    forall|k2: int|
                        0 <= k2 < tokens@.len() ==> direct_production_gives(
                            grammar,
                            before,
                            idx as int,
                            #[trigger] tokens@[k2] as int,
                        ),
                    forall|k2: int|
                        0 <= k2 < k ==> rows_of(first_table@)[row as int][#[trigger] tokens@[k2] as int],
                    table_missing(rows_of(first_table@)) <= table_missing(start),
                    changed ==> table_missing(rows_of(first_table@)) < table_missing(start),
                    !changed ==> rows_of(first_table@) == start,
                decreases tokens@.len() - k,
            {
                let c = tokens[k];
                let ghost prev = rows_of(first_table@);
                proof {
                    let i = choose|i: int| #[trigger] direct_first_step(grammar, before, idx as int, i, c as int);
                    assert(direct_first_step(grammar, before, idx as int, i, c as int));
                    assert(prev[row as int] == first_table@[row as int]@);
                    assert(prev.len() == first_table@.len());
                }
                let added = insert_flag(&mut first_table, row, c);
                if added {
                    changed = true;
                }
                proof {
                    let now = rows_of(first_table@);
                    assert forall|u: Seq<Seq<bool>>|
                        table_shape(u, rule_count::<R>(), token_count::<R>())
                            && #[trigger] direct_first_closed(grammar, u) implies table_subset(now, u) by {
                        let i = choose|i: int| #[trigger] direct_first_step(grammar, before, idx as int, i, c as int);
                        assert(table_subset(prev, u));
                        assert(table_subset(before, u));
                        lemma_direct_step_in_closed(grammar, before, u, idx as int, i, c as int);
                    }
                    assert forall|k2: int| 0 <= k2 < k + 1 implies now[row as int][#[trigger] tokens@[k2] as int] by {
                        if k2 < k {
                            assert(prev[row as int][tokens@[k2] as int]);
                        }
                    }
                    assert(table_subset(before, now));
                    if !added {
                        assert(prev[row as int].update(c as int, true) =~= prev[row as int]);
                        assert(now =~= prev);
                    }
                }
                k += 1;
            }
            proof {
                if !changed {
                    assert forall|p: int, i: int, c: int|
                        0 <= p < idx + 1 && #[trigger] direct_first_step(grammar, start, p, i, c)
                            implies start[grammar.spec_productions()[p].rule.spec_ord() as int][c] by {
                        if p == idx {
                            assert(direct_first_step(grammar, before, p, i, c));
                            assert(tokens@.contains(c as usize));
                            let k2 = choose|k2: int| 0 <= k2 < tokens@.len() && tokens@[k2] == c as usize;
                            assert(rows_of(first_table@)[row as int][tokens@[k2] as int]);
                        }
                    }
                }
            }
            idx += 1;
        }
    }
    proof {
        let t = rows_of(first_table@);
        assert(is_direct_first_table(grammar, t));
        lemma_direct_first_table_unique(grammar, t, direct_first_sets(grammar));
    }
    first_table
}

} // verus!
