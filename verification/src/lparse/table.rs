use vstd::prelude::*;

verus! {

/// A table of flags: one row for each rule, one column for each token.
/// `t[r][c]` says that token `c` is in the set of rule `r`. A set of tokens
/// is kept as the row of flags of their ordinals, so that membership needs
/// no hashing of the token type.
pub open spec fn rows_of(v: Seq<Vec<bool>>) -> Seq<Seq<bool>> {
    Seq::new(v.len(), |i: int| v[i]@)
}

/// `t` has `rows` rows of `cols` flags each.
pub open spec fn table_shape(t: Seq<Seq<bool>>, rows: int, cols: int) -> bool {
    &&& t.len() == rows
    &&& forall|r: int| 0 <= r < rows ==> #[trigger] t[r].len() == cols
}

/// Every flag set in `a` is set in `b`.
pub open spec fn table_subset(a: Seq<Seq<bool>>, b: Seq<Seq<bool>>) -> bool {
    forall|r: int, c: int|
        0 <= r < a.len() && 0 <= c < a[r].len() && #[trigger] a[r][c] ==> b[r][c]
}

/// The number of flags of `row` that are not set.
pub open spec fn row_missing(row: Seq<bool>) -> nat
    decreases row.len(),
{
    if row.len() == 0 {
        0
    } else {
        row_missing(row.drop_last()) + if row.last() {
            0nat
        } else {
            1nat
        }
    }
}

/// The number of flags of the table that are not set.
pub open spec fn table_missing(t: Seq<Seq<bool>>) -> nat
    decreases t.len(),
{
    if t.len() == 0 {
        0
    } else {
        table_missing(t.drop_last()) + row_missing(t.last())
    }
}

proof fn lemma_row_missing_set(row: Seq<bool>, i: int)
    requires
        0 <= i < row.len(),
    ensures
        row_missing(row.update(i, true)) + (if row[i] {
            0int
        } else {
            1int
        }) == row_missing(row),
    decreases row.len(),
{
    let up = row.update(i, true);
    if i == row.len() - 1 {
        assert(up.drop_last() =~= row.drop_last());
    } else {
        assert(up.drop_last() =~= row.drop_last().update(i, true));
        lemma_row_missing_set(row.drop_last(), i);
    }
}

proof fn lemma_table_missing_update(t: Seq<Seq<bool>>, r: int, row: Seq<bool>)
    requires
        0 <= r < t.len(),
    ensures
        table_missing(t.update(r, row)) + row_missing(t[r]) == table_missing(t) + row_missing(row),
    decreases t.len(),
{
    let up = t.update(r, row);
    if r == t.len() - 1 {
        assert(up.drop_last() =~= t.drop_last());
    } else {
        assert(up.drop_last() =~= t.drop_last().update(r, row));
        lemma_table_missing_update(t.drop_last(), r, row);
    }
}

/// A table of `rows` rows of `cols` flags, none set.
pub fn empty_table(rows: usize, cols: usize) -> (t: Vec<Vec<bool>>)
    ensures
        table_shape(rows_of(t@), rows as int, cols as int),
        forall|r: int, c: int| 0 <= r < rows && 0 <= c < cols ==> !#[trigger] rows_of(t@)[r][c],
{
    let mut t: Vec<Vec<bool>> = Vec::new();
    let mut r: usize = 0;
    while r < rows
        invariant
            r <= rows,
            t@.len() == r,
            forall|i: int| 0 <= i < r ==> #[trigger] t@[i]@.len() == cols,
            forall|i: int, c: int| 0 <= i < r && 0 <= c < cols ==> !#[trigger] t@[i]@[c],
        decreases rows - r,
    {
        let mut row: Vec<bool> = Vec::new();
        let mut c: usize = 0;
        while c < cols
            invariant
                c <= cols,
                row@.len() == c,
                forall|j: int| 0 <= j < c ==> !#[trigger] row@[j],
            decreases cols - c,
        {
            row.push(false);
            c += 1;
        }
        t.push(row);
        r += 1;
    }
    t
}

/// Sets flag `c` of row `r`, and tells whether it was unset before.
pub fn insert_flag(t: &mut Vec<Vec<bool>>, r: usize, c: usize) -> (added: bool)
    requires
        r < old(t)@.len(),
        c < old(t)@[r as int]@.len(),
    ensures
        rows_of(final(t)@) == rows_of(old(t)@).update(
            r as int,
            rows_of(old(t)@)[r as int].update(c as int, true),
        ),
        added == !rows_of(old(t)@)[r as int][c as int],
        table_missing(rows_of(final(t)@)) + (if added {
            1int
        } else {
            0int
        }) == table_missing(rows_of(old(t)@)),
{
    let added = !t[r][c];
    let ghost before = rows_of(t@);
    t[r].set(c, true);
    proof {
        let after = rows_of(t@);
        assert(after =~= before.update(r as int, before[r as int].update(c as int, true)));
        lemma_row_missing_set(before[r as int], c as int);
        lemma_table_missing_update(before, r as int, before[r as int].update(c as int, true));
    }
    added
}

} // verus!
