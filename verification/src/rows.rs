//! Rows of a grid of columns: how many columns occupy a row, which rows are
//! full, and what removing a set of rows does to a column.

use vstd::prelude::*;
use crate::column::{column_ok, strictly_increasing};

verus! {

/// The number of columns that occupy row `r`.
pub open spec fn fill_count(cols: Seq<Seq<int>>, r: int) -> nat
    decreases cols.len(),
{
    if cols.len() == 0 {
        0
    } else {
        fill_count(cols.drop_last(), r) + if cols.last().contains(r) {
            1nat
        } else {
            0nat
        }
    }
}

/// A row is full when as many columns occupy it as the grid has.
pub open spec fn is_full_row(cols: Seq<Seq<int>>, r: int) -> bool {
    fill_count(cols, r) == cols.len()
}

/// The full rows among rows `1..=n`, in increasing order.
pub open spec fn full_rows_upto(cols: Seq<Seq<int>>, n: nat) -> Seq<int>
    decreases n,
{
    if n == 0 {
        Seq::empty()
    } else {
        let below = full_rows_upto(cols, (n - 1) as nat);
        if is_full_row(cols, n as int) {
            below.push(n as int)
        } else {
            below
        }
    }
}

/// The number of cleared rows that lie strictly below row `r`.
pub open spec fn count_below(cleared: Seq<int>, r: int) -> nat
    decreases cleared.len(),
{
    if cleared.len() == 0 {
        0
    } else {
        count_below(cleared.drop_last(), r) + if cleared.last() < r {
            1nat
        } else {
            0nat
        }
    }
}

/// Where row `r` lies once the cleared rows below it are gone.
pub open spec fn settled(cleared: Seq<int>, r: int) -> int {
    r - count_below(cleared, r)
}

/// A column after the cleared rows are removed: the cleared rows are dropped,
/// every other row moves down by the number of cleared rows below it, and the
/// rows keep their order.
pub open spec fn squeeze(col: Seq<int>, cleared: Seq<int>) -> Seq<int>
    decreases col.len(),
{
    if col.len() == 0 {
        Seq::empty()
    } else {
        let below = squeeze(col.drop_last(), cleared);
        if cleared.contains(col.last()) {
            below
        } else {
            below.push(settled(cleared, col.last()))
        }
    }
}

/// Row `y` is the settled position of a row of `col` that is not cleared.
pub open spec fn settled_from(col: Seq<int>, cleared: Seq<int>, y: int) -> bool {
    exists|r: int| col.contains(r) && !cleared.contains(r) && y == #[trigger] settled(cleared, r)
}

/// No row is occupied by more columns than there are.
pub proof fn lemma_fill_count_bound(cols: Seq<Seq<int>>, r: int)
    ensures
        fill_count(cols, r) <= cols.len(),
    decreases cols.len(),
{
    if cols.len() > 0 {
        lemma_fill_count_bound(cols.drop_last(), r);
    }
}

/// A row is full exactly when every column occupies it.
pub proof fn lemma_full_row_iff(cols: Seq<Seq<int>>, r: int)
    ensures
        is_full_row(cols, r) <==> forall|c: int|
            0 <= c < cols.len() ==> (#[trigger] cols[c]).contains(r),
    decreases cols.len(),
{
    if cols.len() > 0 {
        let init = cols.drop_last();
        lemma_full_row_iff(init, r);
        lemma_fill_count_bound(init, r);
        if is_full_row(cols, r) {
            assert forall|c: int| 0 <= c < cols.len() implies (#[trigger] cols[c]).contains(r) by {
                if c < init.len() {
                    assert(init[c] == cols[c]);
                }
            }
        }
    }
}

/// A row that no column occupies has fill count 0.
pub proof fn lemma_fill_count_zero(cols: Seq<Seq<int>>, r: int)
    requires
        forall|c: int| 0 <= c < cols.len() ==> !(#[trigger] cols[c]).contains(r),
    ensures
        fill_count(cols, r) == 0,
    decreases cols.len(),
{
    if cols.len() > 0 {
        let init = cols.drop_last();
        lemma_fill_count_zero(init, r);
    }
}

/// Two rows of two grids that are occupied by the same columns have the same
/// fill count.
pub proof fn lemma_fill_count_same(a: Seq<Seq<int>>, ra: int, b: Seq<Seq<int>>, rb: int)
    requires
        a.len() == b.len(),
        forall|c: int|
            0 <= c < a.len() ==> ((#[trigger] a[c]).contains(ra) <==> (#[trigger] b[c]).contains(
                rb,
            )),
    ensures
        fill_count(a, ra) == fill_count(b, rb),
    decreases a.len(),
{
    if a.len() > 0 {
        let ia = a.drop_last();
        let ib = b.drop_last();
        lemma_fill_count_same(ia, ra, ib, rb);
    }
}

/// Replacing one column changes a row's fill count by what that column gains
/// or loses in that row.
pub proof fn lemma_fill_count_update(cols: Seq<Seq<int>>, c: int, col: Seq<int>, r: int)
    requires
        0 <= c < cols.len(),
    ensures
        fill_count(cols.update(c, col), r) + (if cols[c].contains(r) { 1int } else { 0int })
            == fill_count(cols, r) + (if col.contains(r) { 1int } else { 0int }),
    decreases cols.len(),
{
    let next = cols.update(c, col);
    if c == cols.len() - 1 {
        assert(next.drop_last() =~= cols.drop_last());
    } else {
        assert(next.drop_last() =~= cols.drop_last().update(c, col));
        lemma_fill_count_update(cols.drop_last(), c, col, r);
    }
}

/// A row added on top of one column raises the fill count of that row by one
/// and leaves every other row's fill count as it was.
pub proof fn lemma_fill_count_push(cols: Seq<Seq<int>>, c: int, r: int)
    requires
        0 <= c < cols.len(),
        !cols[c].contains(r),
    ensures
        forall|q: int|
            #[trigger] fill_count(cols.update(c, cols[c].push(r)), q) == fill_count(cols, q) + if q == r {
                1nat
            } else {
                0nat
            },
{
    let grown = cols[c].push(r);
    assert forall|q: int| #[trigger]
        fill_count(cols.update(c, grown), q) == fill_count(cols, q) + if q == r {
            1nat
        } else {
            0nat
        } by {
        lemma_fill_count_update(cols, c, grown, q);
        if q == r {
            assert(grown[cols[c].len() as int] == r);
        } else {
            if cols[c].contains(q) {
                let i = choose|i: int| 0 <= i < cols[c].len() && cols[c][i] == q;
                assert(grown[i] == q);
            }
        }
    }
}

/// The list of full rows holds exactly the full rows, in strictly increasing order.
pub proof fn lemma_full_rows_upto(cols: Seq<Seq<int>>, n: nat)
    ensures
        column_ok(full_rows_upto(cols, n), n as int),
        forall|r: int| full_rows_upto(cols, n).contains(r) <==> 1 <= r <= n && is_full_row(cols, r),
    decreases n,
{
    if n > 0 {
        let below = full_rows_upto(cols, (n - 1) as nat);
        lemma_full_rows_upto(cols, (n - 1) as nat);
        let all = full_rows_upto(cols, n);
        if is_full_row(cols, n as int) {
            assert forall|r: int| all.contains(r) <==> 1 <= r <= n && is_full_row(cols, r) by {
                if 1 <= r <= n && is_full_row(cols, r) {
                    if r == n {
                        assert(all[below.len() as int] == r);
                    } else {
                        let i = choose|i: int| 0 <= i < below.len() && below[i] == r;
                        assert(all[i] == r);
                    }
                }
            }
        }
    }
}

/// Where no row between `m` and `n` is full, the list of full rows stops growing at `m`.
pub proof fn lemma_full_rows_stable(cols: Seq<Seq<int>>, m: nat, n: nat)
    requires
        m <= n,
        forall|r: int| m < r <= n ==> !is_full_row(cols, r),
    ensures
        full_rows_upto(cols, n) == full_rows_upto(cols, m),
    decreases n,
{
    if m < n {
        lemma_full_rows_stable(cols, m, (n - 1) as nat);
    }
}

/// Every cleared row lies below a row above them all.
pub proof fn lemma_count_below_all(cleared: Seq<int>, r: int)
    requires
        forall|k: int| 0 <= k < cleared.len() ==> cleared[k] < r,
    ensures
        count_below(cleared, r) == cleared.len(),
    decreases cleared.len(),
{
    if cleared.len() > 0 {
        let init = cleared.drop_last();
        lemma_count_below_all(init, r);
    }
}

/// No cleared row lies below a row that is under them all.
pub proof fn lemma_count_below_none(cleared: Seq<int>, r: int)
    requires
        forall|k: int| 0 <= k < cleared.len() ==> cleared[k] >= r,
    ensures
        count_below(cleared, r) == 0,
    decreases cleared.len(),
{
    if cleared.len() > 0 {
        let init = cleared.drop_last();
        lemma_count_below_none(init, r);
    }
}

/// In an increasing list of cleared rows, the rows below `r` are those
/// before the first one that is not.
pub proof fn lemma_count_below_index(cleared: Seq<int>, i: int, r: int)
    requires
        0 <= i <= cleared.len(),
        forall|k: int| 0 <= k < i ==> cleared[k] < r,
        forall|k: int| i <= k < cleared.len() ==> cleared[k] >= r,
    ensures
        count_below(cleared, r) == i,
    decreases cleared.len(),
{
    if cleared.len() > 0 {
        let init = cleared.drop_last();
        if i == cleared.len() {
            lemma_count_below_all(cleared, r);
        } else {
            lemma_count_below_index(init, i, r);
        }
    }
}

/// Between two rows lie at most as many cleared rows as there are rows.
pub proof fn lemma_count_below_gap(cleared: Seq<int>, a: int, b: int)
    requires
        strictly_increasing(cleared),
        a <= b,
    ensures
        count_below(cleared, a) <= count_below(cleared, b) <= count_below(cleared, a) + (b - a),
    decreases cleared.len(),
{
    if cleared.len() > 0 {
        let init = cleared.drop_last();
        let last = cleared.last();
        lemma_count_below_gap(init, a, b);
        if a <= last < b {
            lemma_count_below_all(init, last);
            lemma_count_below_all(init, b);
            lemma_count_below_gap(init, a, last);
        }
    }
}

/// A row that is not cleared has as many cleared rows below it as the next row has.
pub proof fn lemma_count_below_skip(cleared: Seq<int>, r: int)
    requires
        !cleared.contains(r),
    ensures
        count_below(cleared, r + 1) == count_below(cleared, r),
    decreases cleared.len(),
{
    if cleared.len() > 0 {
        let init = cleared.drop_last();
        lemma_count_below_skip(init, r);
    }
}

/// Rows that survive keep their order: a surviving row settles strictly
/// below every row that was above it.
pub proof fn lemma_settled_monotone(cleared: Seq<int>, low: int, high: int)
    requires
        strictly_increasing(cleared),
        low < high,
        !cleared.contains(low),
    ensures
        settled(cleared, low) < settled(cleared, high),
{
    lemma_count_below_skip(cleared, low);
    lemma_count_below_gap(cleared, low + 1, high);
}

/// A surviving row of a grid of height `height` settles inside the rows that
/// remain once the cleared rows are gone.
pub proof fn lemma_settled_range(cleared: Seq<int>, r: int, height: int)
    requires
        column_ok(cleared, height),
        1 <= r <= height,
        !cleared.contains(r),
    ensures
        1 <= settled(cleared, r) <= height - cleared.len(),
{
    lemma_count_below_none(cleared, 1);
    lemma_count_below_gap(cleared, 1, r);
    lemma_count_below_all(cleared, height + 1);
    lemma_count_below_skip(cleared, r);
    lemma_count_below_gap(cleared, r + 1, height + 1);
}

/// A row below every cleared row stays where it is.
pub proof fn lemma_settled_below_cleared(cleared: Seq<int>, r: int)
    requires
        forall|k: int| 0 <= k < cleared.len() ==> r <= cleared[k],
    ensures
        settled(cleared, r) == r,
{
    lemma_count_below_none(cleared, r);
}

/// What a squeezed column holds: the settled positions of the rows that
/// survive, and nothing else, in strictly increasing order.
pub proof fn lemma_squeeze(col: Seq<int>, cleared: Seq<int>)
    requires
        strictly_increasing(col),
        strictly_increasing(cleared),
    ensures
        strictly_increasing(squeeze(col, cleared)),
        squeeze(col, cleared).len() <= col.len(),
        forall|i: int|
            0 <= i < squeeze(col, cleared).len() ==> settled_from(
                col,
                cleared,
                #[trigger] squeeze(col, cleared)[i],
            ),
        forall|r: int|
            col.contains(r) && !cleared.contains(r) ==> squeeze(col, cleared).contains(
                #[trigger] settled(cleared, r),
            ),
    decreases col.len(),
{
    if col.len() > 0 {
        let init = col.drop_last();
        let last = col.last();
        let below = squeeze(init, cleared);
        let all = squeeze(col, cleared);
        lemma_squeeze(init, cleared);
        assert forall|r: int| col.contains(r) implies init.contains(r) || r == last by {
            let k = choose|k: int| 0 <= k < col.len() && col[k] == r;
            if k < init.len() {
                assert(init[k] == r);
            }
        }
        if !cleared.contains(last) {
            assert forall|r: int| col.contains(r) && !cleared.contains(r) implies all.contains(
                #[trigger] settled(cleared, r),
            ) by {
                if r == last {
                    assert(all[below.len() as int] == settled(cleared, r));
                } else {
                    let k = choose|k: int| 0 <= k < below.len() && below[k] == settled(cleared, r);
                    assert(all[k] == settled(cleared, r));
                }
            }
            assert forall|i: int, j: int| 0 <= i < j < all.len() implies all[i] < all[j] by {
                if j >= below.len() {
                    let r = choose|r: int|
                        init.contains(r) && !cleared.contains(r) && below[i] == settled(cleared, r);
                    lemma_settled_monotone(cleared, r, last);
                }
            }
        }
    }
}

/// A surviving row is in a column after the squeeze, at its settled
/// position, exactly when it was in the column before.
pub proof fn lemma_squeeze_keeps(col: Seq<int>, cleared: Seq<int>, r: int)
    requires
        strictly_increasing(col),
        strictly_increasing(cleared),
        !cleared.contains(r),
    ensures
        squeeze(col, cleared).contains(settled(cleared, r)) <==> col.contains(r),
{
    lemma_squeeze(col, cleared);
    let out = squeeze(col, cleared);
    if out.contains(settled(cleared, r)) {
        let i = choose|i: int| 0 <= i < out.len() && out[i] == settled(cleared, r);
        let q = choose|q: int| col.contains(q) && !cleared.contains(q) && out[i] == settled(cleared, q);
        if q < r {
            lemma_settled_monotone(cleared, q, r);
        }
        if r < q {
            lemma_settled_monotone(cleared, r, q);
        }
    }
}

/// Squeezing a well-formed column leaves a well-formed column of the height
/// that remains.
pub proof fn lemma_squeeze_ok(col: Seq<int>, cleared: Seq<int>, height: int)
    requires
        column_ok(col, height),
        column_ok(cleared, height),
    ensures
        column_ok(squeeze(col, cleared), height - cleared.len()),
{
    lemma_squeeze(col, cleared);
    let out = squeeze(col, cleared);
    assert forall|i: int| 0 <= i < out.len() implies 1 <= #[trigger] out[i] <= height
        - cleared.len() by {
        let r = choose|r: int| col.contains(r) && !cleared.contains(r) && out[i] == settled(cleared, r);
        lemma_settled_range(cleared, r, height);
    }
}

/// Squeezing a column is going through its rows in order, leaving out the
/// cleared ones and writing down where each of the others settles.
pub proof fn lemma_squeeze_in_order(col: Seq<int>, cleared: Seq<int>)
    ensures
        squeeze(col, cleared) == col.filter_map(
            |r: int|
                if cleared.contains(r) {
                    None
                } else {
                    Some(settled(cleared, r))
                },
        ),
    decreases col.len(),
{
    if col.len() > 0 {
        lemma_squeeze_in_order(col.drop_last(), cleared);
    }
}

/// With no row cleared, a column stays as it is.
pub proof fn lemma_squeeze_nothing(col: Seq<int>)
    ensures
        squeeze(col, Seq::empty()) == col,
    decreases col.len(),
{
    if col.len() > 0 {
        lemma_squeeze_nothing(col.drop_last());
    }
}

/// Squeezing a column that grows by one row on top.
pub proof fn lemma_squeeze_push(col: Seq<int>, r: int, cleared: Seq<int>)
    ensures
        squeeze(col.push(r), cleared) == if cleared.contains(r) {
            squeeze(col, cleared)
        } else {
            squeeze(col, cleared).push(settled(cleared, r))
        },
{
    assert(col.push(r).drop_last() =~= col);
}

} // verus!
