//! The model of one column: the rows it occupies, bottom to top.

use vstd::prelude::*;
use crate::common::HeightType;

verus! {

/// The rows held by an executable column, as mathematical integers.
pub open spec fn rows_of(col: Seq<HeightType>) -> Seq<int> {
    col.map_values(|r: HeightType| r as int)
}

/// The rows of every column of an executable grid.
pub open spec fn grid_of(cols: Seq<Vec<HeightType>>) -> Seq<Seq<int>> {
    cols.map_values(|c: Vec<HeightType>| rows_of(c@))
}

/// Every entry is larger than the one before it.
pub open spec fn strictly_increasing(rows: Seq<int>) -> bool {
    forall|i: int, j: int| 0 <= i < j < rows.len() ==> rows[i] < rows[j]
}

/// A column is well formed for a given height: strictly increasing rows in `1..=height`.
pub open spec fn column_ok(rows: Seq<int>, height: int) -> bool {
    &&& strictly_increasing(rows)
    &&& forall|i: int| 0 <= i < rows.len() ==> 1 <= #[trigger] rows[i] <= height
}

/// The highest occupied row of a column, or 0 for an empty column.
pub open spec fn top_of(rows: Seq<int>) -> int {
    if rows.len() == 0 {
        0
    } else {
        rows.last()
    }
}

/// The lowest occupied row of a column, or `sentinel` for an empty column.
pub open spec fn bottom_or(rows: Seq<int>, sentinel: int) -> int {
    if rows.len() == 0 {
        sentinel
    } else {
        rows.first()
    }
}

/// The top of a well-formed column bounds every row in it.
pub proof fn lemma_top_bounds(rows: Seq<int>, height: int)
    requires
        0 <= height,
        column_ok(rows, height),
    ensures
        0 <= top_of(rows) <= height,
        forall|i: int| 0 <= i < rows.len() ==> #[trigger] rows[i] <= top_of(rows),
        rows.len() > 0 ==> rows.contains(top_of(rows)),
{
}

/// Appending a row to an executable column appends it to the model.
pub proof fn lemma_rows_of_push(col: Seq<HeightType>, r: HeightType)
    ensures
        rows_of(col.push(r)) == rows_of(col).push(r as int),
{
}

/// Replacing one executable column replaces the same column of the model.
pub proof fn lemma_grid_of_update(cols: Seq<Vec<HeightType>>, c: int, col: Vec<HeightType>)
    requires
        0 <= c < cols.len(),
    ensures
        grid_of(cols.update(c, col)) == grid_of(cols).update(c, rows_of(col@)),
{
}

/// Appending an executable column appends its rows to the model.
pub proof fn lemma_grid_of_push(cols: Seq<Vec<HeightType>>, col: Vec<HeightType>)
    ensures
        grid_of(cols.push(col)) == grid_of(cols).push(rows_of(col@)),
{
}

} // verus!
