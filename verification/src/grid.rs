//! The mathematical model of the board and of what a drop does to it.

use vstd::prelude::*;
use crate::common::{HeightType, WidthType};
use crate::column::{bottom_or, column_ok, strictly_increasing, top_of};
use crate::rows::{
    fill_count, full_rows_upto, is_full_row, lemma_fill_count_same, lemma_fill_count_zero,
    lemma_full_row_iff, lemma_full_rows_stable, lemma_full_rows_upto, lemma_settled_below_cleared,
    lemma_settled_monotone, lemma_squeeze, lemma_squeeze_keeps, lemma_squeeze_nothing,
    lemma_squeeze_ok, settled, settled_from, squeeze,
};
use crate::shape::ShapeView;

verus! {

/// The mathematical value of a board.
pub struct BoardView {
    /// The number of rows that the board can hold.
    pub height: int,
    /// For each column, left to right, the occupied rows in increasing order.
    /// Rows are counted from 1 at the bottom.
    pub columns: Seq<Seq<int>>,
}

/// Why a shape cannot be dropped.
#[derive(Clone, Copy, Debug, PartialEq, Eq, Structural)]
pub enum DropError {
    /// Part of the shape would lie outside the board's columns.
    OutOfBounds,
    /// The shape would come to rest above the board's last row.
    CapacityExceeded,
}

/// The row at which a piece column would come to rest if only the stack of
/// one board column held it up. A piece column without blocks counts as if
/// its lowest block lay at offset `height`.
pub open spec fn candidate_row(stack: Seq<int>, piece: Seq<int>, height: int) -> int {
    top_of(stack) - bottom_or(piece, height) + 1
}

/// The largest candidate row over the first `n` columns of a piece placed
/// with its left edge at column `at`, and at least 0.
pub open spec fn resting_row(
    stacks: Seq<Seq<int>>,
    piece: Seq<Seq<int>>,
    at: int,
    height: int,
    n: nat,
) -> int
    decreases n,
{
    if n == 0 {
        0
    } else {
        let rest = resting_row(stacks, piece, at, height, (n - 1) as nat);
        let candidate = candidate_row(stacks[at + n - 1], piece[n - 1], height);
        if candidate > rest {
            candidate
        } else {
            rest
        }
    }
}

/// The rows that the blocks of a piece column take once the piece rests at `row`.
pub open spec fn lifted(piece: Seq<int>, row: int) -> Seq<int> {
    piece.map_values(|offset: int| row + offset)
}

/// The highest occupied row over all columns, or 0 where there is none.
pub open spec fn tallest(columns: Seq<Seq<int>>) -> int
    decreases columns.len(),
{
    if columns.len() == 0 {
        0
    } else {
        let rest = tallest(columns.drop_last());
        let top = top_of(columns.last());
        if top > rest {
            top
        } else {
            rest
        }
    }
}

impl BoardView {
    /// The board of the given dimensions that holds no block.
    pub open spec fn empty(width: int, height: int) -> BoardView {
        BoardView { height, columns: Seq::new(width as nat, |c: int| Seq::empty()) }
    }

    /// The number of columns.
    pub open spec fn width(self) -> int {
        self.columns.len() as int
    }

    /// The dimensions fit the counters and every column lists strictly
    /// increasing rows inside the board.
    pub open spec fn grid_ok(self) -> bool {
        &&& 0 <= self.height <= HeightType::MAX
        &&& self.width() <= WidthType::MAX
        &&& forall|c: int| 0 <= c < self.width() ==> column_ok(#[trigger] self.columns[c], self.height)
    }

    /// No row of a board that has columns is full.
    pub open spec fn no_full_row(self) -> bool {
        self.width() > 0 ==> forall|r: int|
            1 <= r <= self.height ==> !#[trigger] is_full_row(self.columns, r)
    }

    /// The invariant of a board between drops.
    pub open spec fn wf(self) -> bool {
        &&& self.grid_ok()
        &&& self.no_full_row()
    }

    /// The number of columns that occupy row `r`.
    pub open spec fn row_count(self, r: int) -> nat {
        fill_count(self.columns, r)
    }

    /// The highest occupied row of the board, or 0 for an empty board.
    pub open spec fn fill_height(self) -> int {
        tallest(self.columns)
    }

    /// The row on which the bottom edge of `shape` comes to rest when it is
    /// dropped with its left edge at column `at`: its blocks then occupy rows
    /// above this one.
    pub open spec fn placement_row(self, shape: ShapeView, at: int) -> int {
        resting_row(self.columns, shape.columns, at, self.height, shape.width() as nat)
    }

    /// The shape lies inside the board's columns, and where it comes to rest
    /// it lies inside the board's rows.
    pub open spec fn can_drop(self, shape: ShapeView, at: int) -> bool {
        &&& 0 <= at
        &&& at + shape.width() <= self.width()
        &&& self.placement_row(shape, at) + shape.height <= self.height
    }

    /// Why `shape` cannot be dropped with its left edge at column `at`, if
    /// it cannot: the columns are looked at before the rows.
    pub open spec fn drop_error(self, shape: ShapeView, at: int) -> Option<DropError> {
        if at < 0 || at + shape.width() > self.width() {
            Some(DropError::OutOfBounds)
        } else if self.placement_row(shape, at) + shape.height > self.height {
            Some(DropError::CapacityExceeded)
        } else {
            None
        }
    }

    /// The board with the blocks of `shape` added where it comes to rest.
    pub open spec fn placed(self, shape: ShapeView, at: int) -> BoardView {
        let row = self.placement_row(shape, at);
        BoardView {
            height: self.height,
            columns: Seq::new(
                self.columns.len(),
                |c: int|
                    if at <= c < at + shape.width() {
                        self.columns[c] + lifted(shape.columns[c - at], row)
                    } else {
                        self.columns[c]
                    },
            ),
        }
    }

    /// The full rows of the board, in increasing order.
    pub open spec fn full_rows(self) -> Seq<int> {
        full_rows_upto(self.columns, self.height as nat)
    }

    /// The board with its full rows removed and the rows above them moved down.
    pub open spec fn cleared(self) -> BoardView {
        BoardView {
            height: self.height,
            columns: Seq::new(self.columns.len(), |c: int| squeeze(self.columns[c], self.full_rows())),
        }
    }

    /// The board after `shape` is dropped with its left edge at column `at`.
    pub open spec fn dropped(self, shape: ShapeView, at: int) -> BoardView {
        self.placed(shape, at).cleared()
    }
}

/// The resting row is not negative, is at least every candidate row, and is
/// 0 or one of the candidate rows.
pub proof fn lemma_resting_row(
    stacks: Seq<Seq<int>>,
    piece: Seq<Seq<int>>,
    at: int,
    height: int,
    n: nat,
)
    ensures
        0 <= resting_row(stacks, piece, at, height, n),
        forall|i: int|
            0 <= i < n ==> #[trigger] candidate_row(stacks[at + i], piece[i], height) <= resting_row(
                stacks,
                piece,
                at,
                height,
                n,
            ),
        resting_row(stacks, piece, at, height, n) == 0 || exists|i: int|
            0 <= i < n && resting_row(stacks, piece, at, height, n) == #[trigger] candidate_row(
                stacks[at + i],
                piece[i],
                height,
            ),
    decreases n,
{
    if n > 0 {
        lemma_resting_row(stacks, piece, at, height, (n - 1) as nat);
    }
}

/// The highest occupied row bounds the top of every column and is 0 or the
/// top of one of them.
pub proof fn lemma_tallest(columns: Seq<Seq<int>>)
    ensures
        forall|c: int| 0 <= c < columns.len() ==> top_of(#[trigger] columns[c]) <= tallest(columns),
        tallest(columns) == 0 || exists|c: int|
            0 <= c < columns.len() && tallest(columns) == top_of(#[trigger] columns[c]),
    decreases columns.len(),
{
    if columns.len() > 0 {
        let init = columns.drop_last();
        lemma_tallest(init);
        let all = tallest(columns);
        assert forall|c: int| 0 <= c < columns.len() implies top_of(#[trigger] columns[c]) <= all by {
            if c < init.len() {
                assert(init[c] == columns[c]);
            }
        }
    }
}

/// The placement row lies between 0 and one row above the board's height,
/// high enough that every block of the shape lands above the stack under it.
pub proof fn lemma_placement_row(board: BoardView, shape: ShapeView, at: int)
    requires
        board.grid_ok(),
        shape.wf(),
        0 <= at,
        at + shape.width() <= board.width(),
    ensures
        0 <= board.placement_row(shape, at) <= board.height + 1,
        board.placement_row(shape, at) <= HeightType::MAX,
        forall|i: int, k: int|
            0 <= i < shape.width() && 0 <= k < shape.columns[i].len() ==> top_of(
                board.columns[at + i],
            ) < board.placement_row(shape, at) + #[trigger] shape.columns[i][k],
{
    let row = board.placement_row(shape, at);
    lemma_resting_row(board.columns, shape.columns, at, board.height, shape.width() as nat);
    assert forall|i: int, k: int|
        0 <= i < shape.width() && 0 <= k < shape.columns[i].len() implies top_of(
        board.columns[at + i],
    ) < row + #[trigger] shape.columns[i][k] by {
        assert(candidate_row(board.columns[at + i], shape.columns[i], board.height) <= row);
    }
}

/// Adding a shape where it comes to rest keeps the columns well formed, keeps
/// what was there, and adds exactly the rows of the shape's blocks.
pub proof fn lemma_placed(board: BoardView, shape: ShapeView, at: int)
    requires
        board.grid_ok(),
        shape.wf(),
        board.can_drop(shape, at),
    ensures
        board.placed(shape, at).grid_ok(),
        board.placed(shape, at).width() == board.width(),
        board.placed(shape, at).height == board.height,
        forall|c: int, r: int|
            0 <= c < board.width() ==> (#[trigger] board.placed(shape, at).columns[c].contains(r) <==> {
                ||| board.columns[c].contains(r)
                ||| (at <= c < at + shape.width() && shape.columns[c - at].contains(
                    r - board.placement_row(shape, at),
                ))
            }),
{
    let row = board.placement_row(shape, at);
    let after = board.placed(shape, at);
    lemma_placement_row(board, shape, at);
    assert forall|c: int, r: int| 0 <= c < board.width() implies (#[trigger] after.columns[c].contains(r)
        <==> {
        ||| board.columns[c].contains(r)
        ||| (at <= c < at + shape.width() && shape.columns[c - at].contains(r - row))
    }) by {
        let stack = board.columns[c];
        let col = after.columns[c];
        if at <= c < at + shape.width() {
            let piece = shape.columns[c - at];
            if stack.contains(r) {
                let i = choose|i: int| 0 <= i < stack.len() && stack[i] == r;
                assert(col[i] == r);
            }
            if piece.contains(r - row) {
                let k = choose|k: int| 0 <= k < piece.len() && piece[k] == r - row;
                assert(col[stack.len() + k] == r);
            }
        }
    }
}

/// Rows outside the rows in which the shape comes to rest are occupied by the
/// same columns as before.
pub proof fn lemma_placed_other_rows(board: BoardView, shape: ShapeView, at: int, r: int)
    requires
        board.grid_ok(),
        shape.wf(),
        board.can_drop(shape, at),
        r <= board.placement_row(shape, at) || r > board.placement_row(shape, at) + shape.height,
    ensures
        fill_count(board.placed(shape, at).columns, r) == fill_count(board.columns, r),
{
    let after = board.placed(shape, at);
    lemma_placed(board, shape, at);
    lemma_fill_count_same(after.columns, r, board.columns, r);
}

/// What removing the full rows leaves: a well-formed board without a full
/// row, in which every row that was not full has kept the columns that
/// occupy it, and in which the rows freed at the top are empty.
pub proof fn lemma_cleared(board: BoardView)
    requires
        board.grid_ok(),
        board.width() > 0,
    ensures
        board.cleared().wf(),
        board.cleared().width() == board.width(),
        board.cleared().height == board.height,
        column_ok(board.full_rows(), board.height),
        forall|r: int|
            1 <= r <= board.height && !is_full_row(board.columns, r) ==> fill_count(
                board.cleared().columns,
                #[trigger] settled(board.full_rows(), r),
            ) == fill_count(board.columns, r),
        forall|r: int|
            board.height - board.full_rows().len() < r ==> #[trigger] fill_count(
                board.cleared().columns,
                r,
            ) == 0,
{
    let after = board.cleared();
    let gone = board.full_rows();
    lemma_full_rows_upto(board.columns, board.height as nat);
    assert forall|c: int| 0 <= c < after.width() implies column_ok(
        #[trigger] after.columns[c],
        after.height - gone.len(),
    ) by {
        lemma_squeeze_ok(board.columns[c], gone, board.height);
    }
    assert forall|r: int| 1 <= r <= board.height && !is_full_row(board.columns, r) implies fill_count(
        after.columns,
        #[trigger] settled(gone, r),
    ) == fill_count(board.columns, r) by {
        lemma_rows_survive(board, r);
    }
    assert forall|r: int| board.height - gone.len() < r implies #[trigger] fill_count(
        after.columns,
        r,
    ) == 0 by {
        lemma_fill_count_zero(after.columns, r);
    }
    assert forall|r: int| 1 <= r <= after.height implies !#[trigger] is_full_row(after.columns, r) by {
        if is_full_row(after.columns, r) {
            // Row `r` of the first column is the settled position of some
            // row `q` that was not full. Every column then held `q`: it was full.
            lemma_full_row_iff(after.columns, r);
            let first = after.columns[0];
            assert(first.contains(r));
            lemma_squeeze(board.columns[0], gone);
            let i = choose|i: int| 0 <= i < first.len() && first[i] == r;
            assert(settled_from(board.columns[0], gone, first[i]));
            let q = choose|q: int|
                board.columns[0].contains(q) && !gone.contains(q) && r == #[trigger] settled(gone, q);
            let k = choose|k: int| 0 <= k < board.columns[0].len() && board.columns[0][k] == q;
            assert(1 <= board.columns[0][k] <= board.height);
            lemma_rows_survive(board, q);
            assert(false);
        }
    }
}

/// A row that is not full is occupied by the same columns after the full rows
/// are removed, at its settled position.
pub proof fn lemma_rows_survive(board: BoardView, r: int)
    requires
        board.grid_ok(),
        1 <= r <= board.height,
        !is_full_row(board.columns, r),
    ensures
        fill_count(board.cleared().columns, settled(board.full_rows(), r)) == fill_count(
            board.columns,
            r,
        ),
        forall|c: int|
            0 <= c < board.width() ==> ((#[trigger] board.cleared().columns[c]).contains(
                settled(board.full_rows(), r),
            ) <==> board.columns[c].contains(r)),
{
    let after = board.cleared();
    let gone = board.full_rows();
    lemma_full_rows_upto(board.columns, board.height as nat);
    assert forall|c: int| 0 <= c < board.width() implies ((#[trigger] after.columns[c]).contains(
        settled(gone, r),
    ) <==> (#[trigger] board.columns[c]).contains(r)) by {
        lemma_squeeze_keeps(board.columns[c], gone, r);
    }
    lemma_fill_count_same(after.columns, settled(gone, r), board.columns, r);
}

/// A board without a full row is left as it is when its full rows are removed.
pub proof fn lemma_cleared_nothing(board: BoardView)
    requires
        board.wf(),
        board.width() > 0,
    ensures
        board.full_rows() == Seq::<int>::empty(),
        board.cleared() == board,
{
    lemma_full_rows_stable(board.columns, 0, board.height as nat);
    assert forall|c: int| 0 <= c < board.width() implies #[trigger] board.cleared().columns[c]
        == board.columns[c] by {
        lemma_squeeze_nothing(board.columns[c]);
    }
    assert(board.cleared().columns =~= board.columns);
}

/// A drop that is allowed leaves a well-formed board of the same dimensions:
/// every column still lists strictly increasing rows inside the board, and no
/// row is full.
pub proof fn lemma_dropped_wf(board: BoardView, shape: ShapeView, at: int)
    requires
        board.wf(),
        shape.wf(),
        board.can_drop(shape, at),
    ensures
        board.dropped(shape, at).wf(),
        board.dropped(shape, at).width() == board.width(),
        board.dropped(shape, at).height == board.height,
{
    lemma_placed(board, shape, at);
    lemma_cleared(board.placed(shape, at));
}

/// Dropping a shape without blocks changes nothing: the board, its fill
/// height and the fill count of every row stay as they were.
pub proof fn lemma_blank_drop(board: BoardView, shape: ShapeView, at: int)
    requires
        board.wf(),
        shape.wf(),
        shape.is_blank(),
        board.can_drop(shape, at),
    ensures
        board.dropped(shape, at) == board,
        board.dropped(shape, at).fill_height() == board.fill_height(),
        forall|r: int| board.dropped(shape, at).row_count(r) == board.row_count(r),
{
    let after = board.placed(shape, at);
    assert(after.columns =~= board.columns);
    lemma_cleared_nothing(board);
}

/// Removing the full rows moves every other row of a column down by exactly
/// the number of full rows below it, leaves the rows below the lowest full
/// row where they are, adds no row, and keeps the rows of the column in
/// their order.
pub proof fn lemma_clearing_moves_rows_down(board: BoardView, c: int)
    requires
        board.grid_ok(),
        0 <= c < board.width(),
    ensures
        forall|r: int|
            board.full_rows().contains(r) <==> 1 <= r <= board.height && is_full_row(board.columns, r),
        strictly_increasing(board.cleared().columns[c]),
        forall|r: int|
            board.columns[c].contains(r) && !board.full_rows().contains(r)
                ==> board.cleared().columns[c].contains(#[trigger] settled(board.full_rows(), r)),
        forall|i: int|
            0 <= i < board.cleared().columns[c].len() ==> settled_from(
                board.columns[c],
                board.full_rows(),
                #[trigger] board.cleared().columns[c][i],
            ),
        forall|low: int, high: int|
            low < high && !board.full_rows().contains(low) ==> #[trigger] settled(
                board.full_rows(),
                low,
            ) < #[trigger] settled(board.full_rows(), high),
        forall|r: int|
            (forall|k: int| 0 <= k < board.full_rows().len() ==> r <= board.full_rows()[k])
                ==> #[trigger] settled(board.full_rows(), r) == r,
{
    let gone = board.full_rows();
    lemma_full_rows_upto(board.columns, board.height as nat);
    lemma_squeeze(board.columns[c], gone);
    assert forall|low: int, high: int| low < high && !gone.contains(low) implies #[trigger] settled(
        gone,
        low,
    ) < #[trigger] settled(gone, high) by {
        lemma_settled_monotone(gone, low, high);
    }
    assert forall|r: int|
        (forall|k: int| 0 <= k < gone.len() ==> r <= gone[k]) implies #[trigger] settled(gone, r)
        == r by {
        lemma_settled_below_cleared(gone, r);
    }
}

} // verus!
