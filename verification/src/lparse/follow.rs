use vstd::prelude::*;

use super::first::{first, first_sets, is_first_table, rule_count, symbol_gives, token_count};
use super::grammar::{Grammar, Production, Symbol};
use super::rule::Rule;
use super::table::{empty_table, insert_flag, rows_of, table_missing, table_shape, table_subset};
use crate::lexer::TokenType;
use crate::lox_core::Ordinal;

verus! {

/// The symbols of `def` strictly between positions `i` and `j` are rules
/// that can derive nothing.
pub open spec fn nullable_between<R: Rule>(g: &Grammar<R>, def: Seq<Symbol<R>>, i: int, j: int) -> bool {
    forall|m: int|
        i < m < j ==> match #[trigger] def[m] {
            Symbol::Rule(r) => g.spec_contains_epsilon(r),
            Symbol::Token(_) => false,
        }
}

/// In production `p`, the rule at position `i` (ordinal `b`) is followed,
/// past rules that can derive nothing, by the symbol at position `j`,
/// which starts with token `c` by FIRST table `fi`.
pub open spec fn follow_after<R: Rule>(
    g: &Grammar<R>,
    fi: Seq<Seq<bool>>,
    p: int,
    i: int,
    j: int,
    b: int,
    c: int,
) -> bool {
    let def = g.spec_productions()[p].definition@;
    &&& 0 <= p < g.spec_productions().len()
    &&& 0 <= i < j < def.len()
    &&& 0 <= c < token_count::<R>()
    &&& def[i] matches Symbol::Rule(before)
    &&& before.spec_ord() == b
    &&& nullable_between(g, def, i, j)
    &&& symbol_gives(def[j], fi, c)
}

/// In production `p`, the rule at position `i` (ordinal `b`) is followed
/// only by rules that can derive nothing (at least one), and the
/// production's own rule can be followed by token `c` by table `f`: what
/// follows the production can follow that rule.
pub open spec fn follow_tail<R: Rule>(g: &Grammar<R>, f: Seq<Seq<bool>>, p: int, i: int, b: int, c: int) -> bool {
    let production = g.spec_productions()[p];
    let def = production.definition@;
    &&& 0 <= p < g.spec_productions().len()
    &&& 0 <= i && i + 1 < def.len()
    &&& 0 <= c < token_count::<R>()
    &&& def[i] matches Symbol::Rule(before)
    &&& before.spec_ord() == b
    &&& nullable_between(g, def, i, def.len() as int)
    &&& f[production.rule.spec_ord() as int][c]
}

/// Production `p` ends with the rule of ordinal `b`, and its own rule can
/// be followed by token `c` by table `f`.
pub open spec fn follow_end<R: Rule>(g: &Grammar<R>, f: Seq<Seq<bool>>, p: int, b: int, c: int) -> bool {
    let production = g.spec_productions()[p];
    let def = production.definition@;
    &&& 0 <= p < g.spec_productions().len()
    &&& def.len() > 0
    &&& 0 <= c < token_count::<R>()
    &&& def.last() matches Symbol::Rule(last)
    &&& last.spec_ord() == b
    &&& f[production.rule.spec_ord() as int][c]
}

/// Production `p` asks that the rule of ordinal `b` can be followed by
/// token `c`, by FIRST table `fi` and table `f`.
pub open spec fn follow_gives<R: Rule>(g: &Grammar<R>, fi: Seq<Seq<bool>>, f: Seq<Seq<bool>>, p: int, b: int, c: int) -> bool {
    ||| exists|i: int, j: int| #[trigger] follow_after(g, fi, p, i, j, b, c)
    ||| exists|i: int| #[trigger] follow_tail(g, f, p, i, b, c)
    ||| follow_end(g, f, p, b, c)
}

/// Table `f` holds the end of input after the goal rule, and everything
/// that the productions ask of it.
pub open spec fn follow_closed<R: Rule>(g: &Grammar<R>, fi: Seq<Seq<bool>>, f: Seq<Seq<bool>>) -> bool {
    &&& f[g.spec_goal().spec_ord() as int][R::TokenType::spec_eof().spec_ord() as int]
    &&& forall|p: int, i: int, j: int, b: int, c: int|
        #[trigger] follow_after(g, fi, p, i, j, b, c) ==> f[b][c]
    &&& forall|p: int, i: int, b: int, c: int| #[trigger] follow_tail(g, f, p, i, b, c) ==> f[b][c]
    &&& forall|p: int, b: int, c: int| #[trigger] follow_end(g, f, p, b, c) ==> f[b][c]
}

/// Table `f` holds only what every table of the right shape that is
/// closed must hold too.
pub open spec fn follow_least<R: Rule>(g: &Grammar<R>, fi: Seq<Seq<bool>>, f: Seq<Seq<bool>>) -> bool {
    forall|u: Seq<Seq<bool>>|
        table_shape(u, rule_count::<R>(), token_count::<R>()) && #[trigger] follow_closed(g, fi, u)
            ==> table_subset(f, u)
}

/// `f` is the FOLLOW table of `g` by FIRST table `fi`: for each rule, the
/// tokens that can come right after it, computed as the least closed
/// table.
pub open spec fn is_follow_table<R: Rule>(g: &Grammar<R>, fi: Seq<Seq<bool>>, f: Seq<Seq<bool>>) -> bool {
    &&& table_shape(f, rule_count::<R>(), token_count::<R>())
    &&& follow_closed(g, fi, f)
    &&& follow_least(g, fi, f)
}

proof fn lemma_follow_in_closed<R: Rule>(
    g: &Grammar<R>,
    fi: Seq<Seq<bool>>,
    f: Seq<Seq<bool>>,
    u: Seq<Seq<bool>>,
    p: int,
    b: int,
    c: int,
)
    requires
        table_shape(f, rule_count::<R>(), token_count::<R>()),
        table_shape(u, rule_count::<R>(), token_count::<R>()),
        table_subset(f, u),
        follow_closed(g, fi, u),
        follow_gives(g, fi, f, p, b, c),
    ensures
        u[b][c],
{
    let production = g.spec_productions()[p];
    let def = production.definition@;
    if exists|i: int, j: int| #[trigger] follow_after(g, fi, p, i, j, b, c) {
        let (i, j) = choose|i: int, j: int| #[trigger] follow_after(g, fi, p, i, j, b, c);
        assert(follow_after(g, fi, p, i, j, b, c));
    } else if exists|i: int| #[trigger] follow_tail(g, f, p, i, b, c) {
        let i = choose|i: int| #[trigger] follow_tail(g, f, p, i, b, c);
        R::lemma_ord_bound(production.rule);
        assert(u[production.rule.spec_ord() as int][c]);
        assert(follow_tail(g, u, p, i, b, c));
    } else {
        R::lemma_ord_bound(production.rule);
        assert(u[production.rule.spec_ord() as int][c]);
        assert(follow_end(g, u, p, b, c));
    }
}

proof fn lemma_gives_in_range<R: Rule>(
    g: &Grammar<R>,
    fi: Seq<Seq<bool>>,
    f: Seq<Seq<bool>>,
    p: int,
    b: int,
    c: int,
)
    requires
        follow_gives(g, fi, f, p, b, c),
    ensures
        0 <= b < rule_count::<R>(),
        0 <= c < token_count::<R>(),
{
    let def = g.spec_productions()[p].definition@;
    if exists|i: int, j: int| #[trigger] follow_after(g, fi, p, i, j, b, c) {
        let (i, j) = choose|i: int, j: int| #[trigger] follow_after(g, fi, p, i, j, b, c);
        if let Symbol::Rule(before) = def[i] {
            R::lemma_ord_bound(before);
        }
    } else if exists|i: int| #[trigger] follow_tail(g, f, p, i, b, c) {
        let i = choose|i: int| #[trigger] follow_tail(g, f, p, i, b, c);
        if let Symbol::Rule(before) = def[i] {
            R::lemma_ord_bound(before);
        }
    } else {
        if let Symbol::Rule(last) = def.last() {
            R::lemma_ord_bound(last);
        }
    }
}

/// Appends `(target, c)` for every flag `c` set in row `row` of `table`.
fn push_row(table: &Vec<Vec<bool>>, row: usize, target: usize, out: &mut Vec<(usize, usize)>)
    requires
        row < table@.len(),
    ensures
        final(out)@.len() >= old(out)@.len(),
        forall|k: int| 0 <= k < old(out)@.len() ==> #[trigger] final(out)@[k] == old(out)@[k],
        forall|k: int|
            old(out)@.len() <= k < final(out)@.len() ==> (#[trigger] final(out)@[k]).0 == target
                && final(out)@[k].1 < table@[row as int]@.len() && table@[row as int]@[final(out)@[k].1 as int],
        forall|c: int|
            0 <= c < table@[row as int]@.len() && #[trigger] table@[row as int]@[c] ==> final(out)@.contains(
                (target, c as usize),
            ),
{
    let ghost start = out@;
    let mut c: usize = 0;
    while c < table[row].len()
        invariant
            row < table@.len(),
            c <= table@[row as int]@.len(),
            out@.len() >= start.len(),
            forall|k: int| 0 <= k < start.len() ==> #[trigger] out@[k] == start[k],
            forall|k: int|
                start.len() <= k < out@.len() ==> (#[trigger] out@[k]).0 == target && out@[k].1
                    < table@[row as int]@.len() && table@[row as int]@[out@[k].1 as int],
            forall|c2: int|
                0 <= c2 < c && #[trigger] table@[row as int]@[c2] ==> out@.contains(
                    (target, c2 as usize),
                ),
        decreases table@[row as int]@.len() - c,
    {
        if table[row][c] {
            let ghost before = out@;
            out.push((target, c));
            proof {
                assert forall|c2: int|
                    0 <= c2 < c + 1 && #[trigger] table@[row as int]@[c2] implies out@.contains(
                        (target, c2 as usize),
                    ) by {
                    if c2 < c {
                        let k = choose|k: int| 0 <= k < before.len() && before[k] == (target, c2 as usize);
                        assert(out@[k] == (target, c2 as usize));
                    } else {
                        assert(out@[before.len() as int] == (target, c2 as usize));
                    }
                }
            }
        }
        c += 1;
    }
}

/// `new` keeps `old` as its beginning.
pub open spec fn extends(old: Seq<(usize, usize)>, new: Seq<(usize, usize)>) -> bool {
    &&& new.len() >= old.len()
    &&& forall|k: int| 0 <= k < old.len() ==> #[trigger] new[k] == old[k]
}

proof fn lemma_extends_contains(old: Seq<(usize, usize)>, new: Seq<(usize, usize)>, x: (usize, usize))
    requires
        extends(old, new),
        old.contains(x),
    ensures
        new.contains(x),
{
    let k = choose|k: int| 0 <= k < old.len() && old[k] == x;
    assert(new[k] == x);
}

/// The pairs `(rule, token)` that production `production` (number `p`)
/// asks of the FOLLOW table, by FIRST table `first_table` and the FOLLOW
/// table `follow_table` so far.
fn production_follows<R: Rule>(
    grammar: &Grammar<R>,
    production: &Production<R>,
    Ghost(p): Ghost<int>,
    first_table: &Vec<Vec<bool>>,
    follow_table: &Vec<Vec<bool>>,
) -> (out: Vec<(usize, usize)>)
    requires
        0 <= p < grammar.spec_productions().len(),
        *production == grammar.spec_productions()[p],
        table_shape(rows_of(first_table@), rule_count::<R>(), token_count::<R>()),
        table_shape(rows_of(follow_table@), rule_count::<R>(), token_count::<R>()),
    ensures
        forall|k: int|
            0 <= k < out@.len() ==> follow_gives(
                grammar,
                rows_of(first_table@),
                rows_of(follow_table@),
                p,
                (#[trigger] out@[k]).0 as int,
                out@[k].1 as int,
            ),
        forall|i: int, j: int, b: int, c: int|
            #[trigger] follow_after(grammar, rows_of(first_table@), p, i, j, b, c) ==> out@.contains(
                (b as usize, c as usize),
            ),
        forall|i: int, b: int, c: int|
            #[trigger] follow_tail(grammar, rows_of(follow_table@), p, i, b, c) ==> out@.contains(
                (b as usize, c as usize),
            ),
        forall|b: int, c: int|
            #[trigger] follow_end(grammar, rows_of(follow_table@), p, b, c) ==> out@.contains(
                (b as usize, c as usize),
            ),
{
    let ghost fi = rows_of(first_table@);
    let ghost f = rows_of(follow_table@);
    let ghost def = production.definition@;
    let mut new_follows: Vec<(usize, usize)> = Vec::new();
    let len = production.definition.len();
    let mut i: usize = 0;
    while i < len
        invariant
            0 <= p < grammar.spec_productions().len(),
            *production == grammar.spec_productions()[p],
            fi == rows_of(first_table@),
            f == rows_of(follow_table@),
            table_shape(fi, rule_count::<R>(), token_count::<R>()),
            table_shape(f, rule_count::<R>(), token_count::<R>()),
            def == production.definition@,
            len == def.len(),
            i <= len,
            forall|k: int|
                0 <= k < new_follows@.len() ==> follow_gives(
                    grammar,
                    fi,
                    f,
                    p,
                    (#[trigger] new_follows@[k]).0 as int,
                    new_follows@[k].1 as int,
                ),
            forall|i2: int, j: int, b: int, c: int|
                i2 < i && #[trigger] follow_after(grammar, fi, p, i2, j, b, c) ==> new_follows@.contains(
                    (b as usize, c as usize),
                ),
            forall|i2: int, b: int, c: int|
                i2 < i && #[trigger] follow_tail(grammar, f, p, i2, b, c) ==> new_follows@.contains(
                    (b as usize, c as usize),
                ),
        decreases len - i,
    {
        match production.definition[i] {
            Symbol::Token(_) => {},
            Symbol::Rule(before) => {
                let b = before.ord();
                let ghost at_rule = new_follows@;
                let mut j = i + 1;
                let mut last: Option<Symbol<R>> = None;
                while j < len
                    invariant_except_break
                        nullable_between(grammar, def, i as int, j as int),
                        last == (if j == i + 1 {
                            None
                        } else {
                            Some(def[j - 1])
                        }),
                    invariant
                        0 <= p < grammar.spec_productions().len(),
                        *production == grammar.spec_productions()[p],
                        fi == rows_of(first_table@),
                        f == rows_of(follow_table@),
                        table_shape(fi, rule_count::<R>(), token_count::<R>()),
                        table_shape(f, rule_count::<R>(), token_count::<R>()),
                        def == production.definition@,
                        len == def.len(),
                        i < len,
                        i < j <= len,
                        def[i as int] == Symbol::<R>::Rule(before),
                        b == before.spec_ord(),
                        extends(at_rule, new_follows@),
                        forall|k: int|
                            0 <= k < new_follows@.len() ==> follow_gives(
                                grammar,
                                fi,
                                f,
                                p,
                                (#[trigger] new_follows@[k]).0 as int,
                                new_follows@[k].1 as int,
                            ),
                        forall|j2: int, c: int|
                            j2 < j && #[trigger] follow_after(grammar, fi, p, i as int, j2, b as int, c)
                                ==> new_follows@.contains((b, c as usize)),
                    ensures
                        extends(at_rule, new_follows@),
                        forall|k: int|
                            0 <= k < new_follows@.len() ==> follow_gives(
                                grammar,
                                fi,
                                f,
                                p,
                                (#[trigger] new_follows@[k]).0 as int,
                                new_follows@[k].1 as int,
                            ),
                        forall|j2: int, c: int|
                            #[trigger] follow_after(grammar, fi, p, i as int, j2, b as int, c)
                                ==> new_follows@.contains((b, c as usize)),
                        (match last {
                            Some(Symbol::Rule(r)) => grammar.spec_contains_epsilon(r),
                            _ => false,
                        }) <==> (i + 1 < len && nullable_between(grammar, def, i as int, len as int)),
                        (i + 1 < len && nullable_between(grammar, def, i as int, len as int)) ==> last
                            == Some(def[len - 1]),
                    decreases len - j,
                {
                    let after = production.definition[j];
                    let ghost at_after = new_follows@;
                    match after {
                        Symbol::Token(t) => {
                            let c = t.ord();
                            new_follows.push((b, c));
                            proof {
                                assert(follow_after(grammar, fi, p, i as int, j as int, b as int, c as int));
                                assert(new_follows@[at_after.len() as int] == (b, c));
                            }
                        },
                        Symbol::Rule(r2) => {
                            let row = r2.ord();
                            push_row(first_table, row, b, &mut new_follows);
                            proof {
                                assert(fi[row as int] == first_table@[row as int]@);
                                assert forall|k: int| 0 <= k < new_follows@.len() implies follow_gives(
                                    grammar,
                                    fi,
                                    f,
                                    p,
                                    (#[trigger] new_follows@[k]).0 as int,
                                    new_follows@[k].1 as int,
                                ) by {
                                    if k >= at_after.len() {
                                        assert(follow_after(
                                            grammar,
                                            fi,
                                            p,
                                            i as int,
                                            j as int,
                                            b as int,
                                            new_follows@[k].1 as int,
                                        ));
                                    } else {
                                        assert(new_follows@[k] == at_after[k]);
                                    }
                                }
                            }
                        },
                    }
                    proof {
                        assert(extends(at_after, new_follows@));
                        assert(extends(at_rule, new_follows@));
                        assert forall|j2: int, c: int|
                            j2 < j + 1 && #[trigger] follow_after(grammar, fi, p, i as int, j2, b as int, c)
                                implies new_follows@.contains((b, c as usize)) by {
                            if j2 < j {
                                lemma_extends_contains(at_after, new_follows@, (b, c as usize));
                            } else {
                                if let Symbol::Token(t) = after {
                                    assert(new_follows@[at_after.len() as int] == (b, c as usize));
                                }
                            }
                        }
                    }
                    last = Some(after);
                    let go_on = match after {
                        Symbol::Rule(r2) => grammar.rule_contains_epsilon(r2),
                        Symbol::Token(_) => false,
                    };
                    if !go_on {
                        proof {
                            assert forall|j2: int, c: int|
                                #[trigger] follow_after(grammar, fi, p, i as int, j2, b as int, c)
                                    implies new_follows@.contains((b, c as usize)) by {
                                if j2 > j {
                                    assert(!nullable_between(grammar, def, i as int, j2)) by {
                                        assert(def[j as int] == after);
                                    }
                                }
                            }
                            if i + 1 < len && nullable_between(grammar, def, i as int, len as int) {
                                assert(def[j as int] == after);
                            }
                        }
                        break;
                    }
                    j += 1;
                }
                let ghost after_scan = new_follows@;
                match last {
                    Some(Symbol::Rule(r)) => {
                        if grammar.rule_contains_epsilon(r) {
                            let row = production.rule.ord();
                            push_row(follow_table, row, b, &mut new_follows);
                            proof {
                                assert(f[row as int] == follow_table@[row as int]@);
                                assert forall|k: int| 0 <= k < new_follows@.len() implies follow_gives(
                                    grammar,
                                    fi,
                                    f,
                                    p,
                                    (#[trigger] new_follows@[k]).0 as int,
                                    new_follows@[k].1 as int,
                                ) by {
                                    if k >= after_scan.len() {
                                        assert(follow_tail(grammar, f, p, i as int, b as int, new_follows@[k].1 as int));
                                    } else {
                                        assert(new_follows@[k] == after_scan[k]);
                                    }
                                }
                            }
                        }
                    },
                    _ => {},
                }
                proof {
                    assert(extends(after_scan, new_follows@));
                    assert(extends(at_rule, new_follows@));
                    assert forall|i2: int, j2: int, b2: int, c: int|
                        i2 < i + 1 && #[trigger] follow_after(grammar, fi, p, i2, j2, b2, c)
                            implies new_follows@.contains((b2 as usize, c as usize)) by {
                        if i2 < i {
                            lemma_extends_contains(at_rule, new_follows@, (b2 as usize, c as usize));
                        } else {
                            lemma_extends_contains(after_scan, new_follows@, (b2 as usize, c as usize));
                        }
                    }
                    assert forall|i2: int, b2: int, c: int|
                        i2 < i + 1 && #[trigger] follow_tail(grammar, f, p, i2, b2, c)
                            implies new_follows@.contains((b2 as usize, c as usize)) by {
                        if i2 < i {
                            lemma_extends_contains(at_rule, new_follows@, (b2 as usize, c as usize));
                        } else {
                            R::lemma_ord_bound(production.rule);
                            assert(follow_table@[production.rule.spec_ord() as int]@[c]);
                        }
                    }
                }
            },
        }
        i += 1;
    }
    let ghost after_rules = new_follows@;
    if len > 0 {
        match production.definition[len - 1] {
            Symbol::Rule(r) => {
                let a = production.rule.ord();
                push_row(follow_table, a, r.ord(), &mut new_follows);
                proof {
                    assert(f[a as int] == follow_table@[a as int]@);
                    assert forall|k: int| 0 <= k < new_follows@.len() implies follow_gives(
                        grammar,
                        fi,
                        f,
                        p,
                        (#[trigger] new_follows@[k]).0 as int,
                        new_follows@[k].1 as int,
                    ) by {
                        if k >= after_rules.len() {
                            assert(follow_end(grammar, f, p, new_follows@[k].0 as int, new_follows@[k].1 as int));
                        } else {
                            assert(new_follows@[k] == after_rules[k]);
                        }
                    }
                }
            },
            Symbol::Token(_) => {},
        }
    }
    proof {
        assert(extends(after_rules, new_follows@));
        assert forall|i2: int, j2: int, b2: int, c: int|
            #[trigger] follow_after(grammar, fi, p, i2, j2, b2, c) implies new_follows@.contains(
                (b2 as usize, c as usize),
            ) by {
            lemma_extends_contains(after_rules, new_follows@, (b2 as usize, c as usize));
        }
        assert forall|i2: int, b2: int, c: int|
            #[trigger] follow_tail(grammar, f, p, i2, b2, c) implies new_follows@.contains(
                (b2 as usize, c as usize),
            ) by {
            lemma_extends_contains(after_rules, new_follows@, (b2 as usize, c as usize));
        }
        assert forall|b2: int, c: int| #[trigger] follow_end(grammar, f, p, b2, c) implies new_follows@.contains(
            (b2 as usize, c as usize),
        ) by {
            let a = production.rule.spec_ord();
            R::lemma_ord_bound(production.rule);
            assert(follow_table@[a as int]@[c]);
        }
    }
    new_follows
}

/// When a production `A := ... B` ends with rule `B`, whatever can follow
/// `A` can follow `B`.
pub proof fn lemma_follow_of_last_rule<R: Rule>(g: &Grammar<R>, fi: Seq<Seq<bool>>, f: Seq<Seq<bool>>, p: int, c: int)
    requires
        is_follow_table(g, fi, f),
        0 <= p < g.spec_productions().len(),
        g.spec_productions()[p].definition@.len() > 0,
        g.spec_productions()[p].definition@.last() is Rule,
        0 <= c < token_count::<R>(),
        f[g.spec_productions()[p].rule.spec_ord() as int][c],
    ensures
        f[(g.spec_productions()[p].definition@.last()->Rule_0).spec_ord() as int][c],
{
    let last = g.spec_productions()[p].definition@.last()->Rule_0;
    assert(follow_end(g, f, p, last.spec_ord() as int, c));
}

/// The FOLLOW table of `g`.
pub open spec fn follow_sets<R: Rule>(g: &Grammar<R>) -> Seq<Seq<bool>> {
    choose|f: Seq<Seq<bool>>| is_follow_table(g, first_sets(g), f)
}

/// A grammar has at most one FOLLOW table for a given FIRST table.
pub proof fn lemma_follow_table_unique<R: Rule>(
    g: &Grammar<R>,
    fi: Seq<Seq<bool>>,
    a: Seq<Seq<bool>>,
    b: Seq<Seq<bool>>,
)
    requires
        is_follow_table(g, fi, a),
        is_follow_table(g, fi, b),
    ensures
        a == b,
{
    assert(table_subset(a, b));
    assert(table_subset(b, a));
    assert forall|r: int| 0 <= r < a.len() implies a[r] =~= b[r] by {
        assert forall|c: int| 0 <= c < a[r].len() implies a[r][c] == b[r][c] by {
            if a[r][c] {
                assert(b[r][c]);
            }
            if b[r][c] {
                assert(a[r][c]);
            }
        }
    }
    assert(a =~= b);
}

/// Computes the FOLLOW table of the grammar: for each rule (by its
/// ordinal), a flag for each token kind (by its ordinal) that can come
/// right after the rule in some derivation from the goal rule; the end of
/// input follows the goal rule.
pub fn follow<R: Rule>(grammar: &Grammar<R>) -> (table: Vec<Vec<bool>>)
    ensures
        is_follow_table(grammar, first_sets(grammar), rows_of(table@)),
        rows_of(table@) == follow_sets(grammar),
{
    let rule_kinds: usize = R::COUNT;
    let token_kinds: usize = <<R as Rule>::TokenType as Ordinal>::COUNT;
    let mut changed = true;
    let mut follow_table = empty_table(rule_kinds, token_kinds);
    let goal = grammar.target_rule().ord();
    let eof = R::TokenType::eof().ord();
    proof {
        assert(rows_of(follow_table@)[goal as int] == follow_table@[goal as int]@);
    }
    insert_flag(&mut follow_table, goal, eof);
    let first_table = first(grammar);
    let ghost fi = rows_of(first_table@);
    proof {
        let t = rows_of(follow_table@);
        assert forall|u: Seq<Seq<bool>>|
            table_shape(u, rule_count::<R>(), token_count::<R>())
                && #[trigger] follow_closed(grammar, fi, u) implies table_subset(t, u) by {
            assert forall|r: int, c: int|
                0 <= r < t.len() && 0 <= c < t[r].len() && #[trigger] t[r][c] implies u[r][c] by {
                assert(r == goal && c == eof);
            }
        }
    }
    while changed
        invariant
            rule_kinds == rule_count::<R>(),
            token_kinds == token_count::<R>(),
            fi == rows_of(first_table@),
            is_first_table(grammar, fi),
            fi == first_sets(grammar),
            table_shape(rows_of(follow_table@), rule_count::<R>(), token_count::<R>()),
            rows_of(follow_table@)[grammar.spec_goal().spec_ord() as int][R::TokenType::spec_eof().spec_ord() as int],
            follow_least(grammar, fi, rows_of(follow_table@)),
            !changed ==> follow_closed(grammar, fi, rows_of(follow_table@)),
        decreases table_missing(rows_of(follow_table@)) + if changed {
            1int
        } else {
            0int
        },
    {
        changed = false;
        let ghost start = rows_of(follow_table@);
        let productions = grammar.productions();
        let mut idx: usize = 0;
        while idx < productions.len()
            invariant
                productions@ == grammar.spec_productions(),
                idx <= productions@.len(),
                rule_kinds == rule_count::<R>(),
                token_kinds == token_count::<R>(),
                fi == rows_of(first_table@),
                table_shape(fi, rule_count::<R>(), token_count::<R>()),
                table_shape(start, rule_count::<R>(), token_count::<R>()),
                table_shape(rows_of(follow_table@), rule_count::<R>(), token_count::<R>()),
                table_subset(start, rows_of(follow_table@)),
                start[grammar.spec_goal().spec_ord() as int][R::TokenType::spec_eof().spec_ord() as int],
                follow_least(grammar, fi, rows_of(follow_table@)),
                table_missing(rows_of(follow_table@)) <= table_missing(start),
                changed ==> table_missing(rows_of(follow_table@)) < table_missing(start),
                !changed ==> rows_of(follow_table@) == start,
                !changed ==> forall|p: int, i: int, j: int, b: int, c: int|
                    0 <= p < idx && #[trigger] follow_after(grammar, fi, p, i, j, b, c) ==> start[b][c],
                !changed ==> forall|p: int, i: int, b: int, c: int|
                    0 <= p < idx && #[trigger] follow_tail(grammar, start, p, i, b, c) ==> start[b][c],
                !changed ==> forall|p: int, b: int, c: int|
                    0 <= p < idx && #[trigger] follow_end(grammar, start, p, b, c) ==> start[b][c],
            decreases productions@.len() - idx,
        {
            let production = &productions[idx];
            let ghost before = rows_of(follow_table@);
            let new_follows = production_follows(
                grammar,
                production,
                Ghost(idx as int),
                &first_table,
                &follow_table,
            );
            let mut k: usize = 0;
            while k < new_follows.len()
                invariant
                    productions@ == grammar.spec_productions(),
                    idx < productions@.len(),
                    *production == grammar.spec_productions()[idx as int],
                    rule_kinds == rule_count::<R>(),
                    token_kinds == token_count::<R>(),
                    k <= new_follows@.len(),
                    fi == rows_of(first_table@),
                    table_shape(fi, rule_count::<R>(), token_count::<R>()),
                    table_shape(start, rule_count::<R>(), token_count::<R>()),
                    table_shape(before, rule_count::<R>(), token_count::<R>()),
                    table_shape(rows_of(follow_table@), rule_count::<R>(), token_count::<R>()),
                    table_subset(start, before),
                    table_subset(before, rows_of(follow_table@)),
                    !changed ==> before == start,
                    follow_least(grammar, fi, rows_of(follow_table@)),
                    forall|k2: int|
                        0 <= k2 < new_follows@.len() ==> follow_gives(
                            grammar,
                            fi,
                            before,
                            idx as int,
                            (#[trigger] new_follows@[k2]).0 as int,
                            new_follows@[k2].1 as int,
                        ),
                    !changed ==> forall|k2: int|
                        0 <= k2 < k ==> rows_of(follow_table@)[(#[trigger] new_follows@[k2]).0 as int][new_follows@[k2].1 as int],
                    table_missing(rows_of(follow_table@)) <= table_missing(start),
                    changed ==> table_missing(rows_of(follow_table@)) < table_missing(start),
                    !changed ==> rows_of(follow_table@) == start,
                decreases new_follows@.len() - k,
            {
                let (r, c) = new_follows[k];
                let ghost prev = rows_of(follow_table@);
                proof {
                    lemma_gives_in_range(grammar, fi, before, idx as int, r as int, c as int);
                    assert(prev[r as int] == follow_table@[r as int]@);
                    assert(prev.len() == follow_table@.len());
                }
                let ghost was_changed = changed;
                changed = changed || insert_flag(&mut follow_table, r, c);
                proof {
                    let now = rows_of(follow_table@);
                    if !was_changed {
                        assert forall|u: Seq<Seq<bool>>|
                            table_shape(u, rule_count::<R>(), token_count::<R>())
                                && #[trigger] follow_closed(grammar, fi, u) implies table_subset(now, u) by {
                            assert(table_subset(prev, u));
                            assert(table_subset(before, u));
                            lemma_follow_in_closed(grammar, fi, before, u, idx as int, r as int, c as int);
                        }
                        if !changed {
                            assert(prev[r as int].update(c as int, true) =~= prev[r as int]);
                            assert(now =~= prev);
                        }
                    } else {
                        assert(now == prev);
                    }
                    assert(table_subset(before, now));
                }
                k += 1;
            }
            proof {
                if !changed {
                    assert(before == start);
                    assert forall|k2: int| 0 <= k2 < new_follows@.len() implies start[(#[trigger] new_follows@[k2]).0 as int][new_follows@[k2].1 as int] by {
                        assert(rows_of(follow_table@)[new_follows@[k2].0 as int][new_follows@[k2].1 as int]);
                    }
                    assert forall|p: int, i: int, j: int, b: int, c: int|
                        0 <= p < idx + 1 && #[trigger] follow_after(grammar, fi, p, i, j, b, c) implies start[b][c] by {
                        if p == idx {
                            assert(follow_gives(grammar, fi, before, p, b, c));
                            lemma_gives_in_range(grammar, fi, before, p, b, c);
                            assert(new_follows@.contains((b as usize, c as usize)));
                            let k2 = choose|k2: int| 0 <= k2 < new_follows@.len() && new_follows@[k2] == (b as usize, c as usize);
                            assert(start[new_follows@[k2].0 as int][new_follows@[k2].1 as int]);
                        }
                    }
                    assert forall|p: int, i: int, b: int, c: int|
                        0 <= p < idx + 1 && #[trigger] follow_tail(grammar, start, p, i, b, c) implies start[b][c] by {
                        if p == idx {
                            assert(follow_tail(grammar, before, p, i, b, c));
                            assert(follow_gives(grammar, fi, before, p, b, c));
                            lemma_gives_in_range(grammar, fi, before, p, b, c);
                            assert(new_follows@.contains((b as usize, c as usize)));
                            let k2 = choose|k2: int| 0 <= k2 < new_follows@.len() && new_follows@[k2] == (b as usize, c as usize);
                            assert(start[new_follows@[k2].0 as int][new_follows@[k2].1 as int]);
                        }
                    }
                    assert forall|p: int, b: int, c: int|
                        0 <= p < idx + 1 && #[trigger] follow_end(grammar, start, p, b, c) implies start[b][c] by {
                        if p == idx {
                            assert(follow_end(grammar, before, p, b, c));
                            assert(follow_gives(grammar, fi, before, p, b, c));
                            lemma_gives_in_range(grammar, fi, before, p, b, c);
                            assert(new_follows@.contains((b as usize, c as usize)));
                            let k2 = choose|k2: int| 0 <= k2 < new_follows@.len() && new_follows@[k2] == (b as usize, c as usize);
                            assert(start[new_follows@[k2].0 as int][new_follows@[k2].1 as int]);
                        }
                    }
                }
            }
            idx += 1;
        }
        proof {
            let now = rows_of(follow_table@);
            R::lemma_ord_bound(grammar.spec_goal());
            <R::TokenType as Ordinal>::lemma_ord_bound(R::TokenType::spec_eof());
            assert(table_subset(start, now));
        }
    }
    proof {
        let t = rows_of(follow_table@);
        assert(is_follow_table(grammar, fi, t));
        lemma_follow_table_unique(grammar, fi, t, follow_sets(grammar));
    }
    follow_table
}

} // verus!
