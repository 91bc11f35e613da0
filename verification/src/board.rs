//! The board: columns of occupied rows, a fill counter for every row, and the
//! drop that places a shape and removes the rows that it fills.

use vstd::prelude::*;
use crate::common::{HeightType, WidthType};
use crate::column::{
    column_ok, grid_of, lemma_grid_of_push, lemma_grid_of_update, lemma_rows_of_push,
    lemma_top_bounds, rows_of, strictly_increasing,
};
use crate::grid::{
    lemma_cleared, lemma_cleared_nothing, lemma_placed, lemma_placed_other_rows,
    lemma_rows_survive, resting_row, tallest, BoardView, DropError,
};
use crate::rows::{
    fill_count, full_rows_upto, is_full_row, lemma_count_below_gap, lemma_count_below_index,
    lemma_count_below_none, lemma_fill_count_bound, lemma_fill_count_push, lemma_fill_count_zero,
    lemma_full_rows_stable, lemma_full_rows_upto, lemma_squeeze_push, squeeze,
};
use crate::shape::Shape;

verus! {

/// Width of the standard board.
pub const STANDARD_BOARD_WIDTH: WidthType = 10;

/// Height of the standard board.
pub const STANDARD_BOARD_HEIGHT: HeightType = 100;

/// A grid of fixed width and height that shapes are dropped onto.
#[derive(Debug)]
pub struct Board {
    blocks: Vec<Vec<HeightType>>,
    row_fill_count: Vec<WidthType>,
}

impl View for Board {
    type V = BoardView;

    closed spec fn view(&self) -> BoardView {
        BoardView { height: self.row_fill_count@.len() as int, columns: grid_of(self.blocks@) }
    }
}

impl Board {
    /// The fill counters that the board keeps, one for each row from the bottom.
    pub closed spec fn row_counts(&self) -> Seq<int> {
        self.row_fill_count@.map_values(|n: WidthType| n as int)
    }

    /// The counter of every row equals the number of columns that occupy the row.
    pub open spec fn counts_ok(&self) -> bool {
        &&& self.row_counts().len() == self@.height
        &&& forall|r: int|
            1 <= r <= self@.height ==> self.row_counts()[r - 1] == #[trigger] fill_count(
                self@.columns,
                r,
            )
    }

    /// The invariant of a board between drops: well-formed columns, no full
    /// row, and counters that agree with the columns.
    pub open spec fn wf(&self) -> bool {
        &&& self@.wf()
        &&& self.counts_ok()
    }

    /// An empty board of the given dimensions.
    pub fn new(width: WidthType, height: HeightType) -> (board: Board)
        ensures
            board.wf(),
            board@ == BoardView::empty(width as int, height as int),
            board@.fill_height() == 0,
    {
        let mut blocks: Vec<Vec<HeightType>> = Vec::with_capacity(width as usize);
        let mut c: WidthType = 0;
        while c < width
            invariant
                c <= width,
                blocks@.len() == c,
                forall|k: int| 0 <= k < c ==> (#[trigger] grid_of(blocks@)[k]).len() == 0,
                tallest(grid_of(blocks@)) == 0,
            decreases width - c,
        {
            let column: Vec<HeightType> = Vec::with_capacity(height as usize);
            proof {
                lemma_grid_of_push(blocks@, column);
                assert(grid_of(blocks@).push(rows_of(column@)).drop_last() =~= grid_of(blocks@));
            }
            blocks.push(column);
            c += 1;
        }
        let mut row_fill_count: Vec<WidthType> = Vec::with_capacity(height as usize);
        let mut r: HeightType = 0;
        while r < height
            invariant
                r <= height,
                row_fill_count@.len() == r,
                forall|k: int| 0 <= k < r ==> row_fill_count@[k] == 0,
            decreases height - r,
        {
            row_fill_count.push(0);
            r += 1;
        }
        let board = Board { blocks, row_fill_count };
        proof {
            assert forall|q: int| #[trigger] fill_count(board@.columns, q) == 0 by {
                lemma_fill_count_zero(board@.columns, q);
            }
            assert forall|k: int| 0 <= k < board@.width() implies column_ok(
                #[trigger] board@.columns[k],
                board@.height,
            ) by {}
            assert forall|k: int| 0 <= k < board@.width() implies #[trigger] board@.columns[k]
                == Seq::<int>::empty() by {}
            assert(board@.columns =~= BoardView::empty(width as int, height as int).columns);
        }
        board
    }

    /// The number of columns.
    pub fn width(&self) -> (w: WidthType)
        requires
            self.wf(),
        ensures
            w == self@.width(),
    {
        self.blocks.len() as WidthType
    }

    /// The number of rows that the board can hold.
    pub fn height(&self) -> (h: HeightType)
        requires
            self.wf(),
        ensures
            h == self@.height,
    {
        self.row_fill_count.len() as HeightType
    }

    /// The highest occupied row of the board, or 0 for an empty board.
    pub fn fill_height(&self) -> (h: HeightType)
        ensures
            h == self@.fill_height(),
    {
        let mut h: HeightType = 0;
        let mut c: usize = 0;
        while c < self.blocks.len()
            invariant
                c <= self.blocks@.len(),
                h == tallest(grid_of(self.blocks@).take(c as int)),
            decreases self.blocks@.len() - c,
        {
            let column = &self.blocks[c];
            let ghost seen = grid_of(self.blocks@).take(c as int + 1);
            proof {
                assert(seen.drop_last() =~= grid_of(self.blocks@).take(c as int));
            }
            if column.len() > 0 {
                let top: HeightType = column[column.len() - 1];
                if top > h {
                    h = top;
                }
            }
            c += 1;
        }
        proof {
            assert(grid_of(self.blocks@).take(c as int) =~= grid_of(self.blocks@));
        }
        h
    }

    /// The occupied rows of each column, bottom to top.
    pub fn blocks(&self) -> (columns: &Vec<Vec<HeightType>>)
        ensures
            grid_of(columns@) == self@.columns,
    {
        &self.blocks
    }

    /// The number of columns that occupy `row`, counted from 1 at the bottom.
    pub fn row_fill_count(&self, row: HeightType) -> (count: WidthType)
        requires
            self.wf(),
            1 <= row <= self@.height,
        ensures
            count == self@.row_count(row as int),
            self@.width() > 0 ==> count < self@.width(),
    {
        proof {
            lemma_fill_count_bound(self@.columns, row as int);
            if self@.width() > 0 {
                assert(!is_full_row(self@.columns, row as int));
            }
        }
        self.row_fill_count[(row - 1) as usize]
    }

    /// The row on which the bottom edge of `shape` comes to rest when it is
    /// dropped with its left edge at column `location`.
    pub fn placement_row(&self, shape: &Shape, location: WidthType) -> (row: HeightType)
        requires
            self.wf(),
            shape.wf(),
            location + shape@.width() <= self@.width(),
        ensures
            row == self@.placement_row(shape@, location as int),
    {
        let pieces = shape.blocks();
        let height: HeightType = self.row_fill_count.len() as HeightType;
        let n: usize = pieces.len();
        let mut row: HeightType = 0;
        let mut i: usize = 0;
        while i < n
            invariant
                i <= n,
                n == shape@.width(),
                self.wf(),
                shape.wf(),
                height == self@.height,
                grid_of(pieces@) == shape@.columns,
                location + n <= self.blocks@.len(),
                row == resting_row(
                    self@.columns,
                    shape@.columns,
                    location as int,
                    self@.height,
                    i as nat,
                ),
            decreases n - i,
        {
            let stack = &self.blocks[location as usize + i];
            let piece = &pieces[i];
            proof {
                let stack_rows = self@.columns[location + i];
                let piece_rows = shape@.columns[i as int];
                lemma_top_bounds(stack_rows, self@.height);
                assert(column_ok(piece_rows, shape@.height));
                assert(self@.columns[location + (i + 1) - 1] == stack_rows);
            }
            let top: HeightType = if stack.len() == 0 {
                0
            } else {
                stack[stack.len() - 1]
            };
            let bottom: HeightType = if piece.len() == 0 {
                height
            } else {
                piece[0]
            };
            if top >= bottom {
                let candidate: HeightType = top - bottom + 1;
                if candidate > row {
                    row = candidate;
                }
            }
            i += 1;
        }
        row
    }

    /// Whether `shape` can be dropped with its left edge at column
    /// `location`, and if not, why.
    pub fn check_drop(&self, shape: &Shape, location: WidthType) -> (result: Result<(), DropError>)
        requires
            self.wf(),
            shape.wf(),
        ensures
            result is Ok <==> self@.can_drop(shape@, location as int),
            match result {
                Ok(_) => self@.drop_error(shape@, location as int) is None,
                Err(e) => self@.drop_error(shape@, location as int) == Some(e),
            },
    {
        let width: usize = self.blocks.len();
        if location as usize + shape.width() as usize > width {
            return Err(DropError::OutOfBounds);
        }
        let row: HeightType = self.placement_row(shape, location);
        if row as usize + shape.height() as usize > self.row_fill_count.len() {
            return Err(DropError::CapacityExceeded);
        }
        Ok(())
    }

    /// Drops `shape` with its left edge at column `location` if it fits, and
    /// leaves the board untouched if it does not.
    pub fn try_drop(&mut self, shape: &Shape, location: WidthType) -> (result: Result<(), DropError>)
        requires
            old(self).wf(),
            shape.wf(),
        ensures
            final(self).wf(),
            result is Ok <==> old(self)@.can_drop(shape@, location as int),
            match result {
                Ok(_) => {
                    &&& old(self)@.drop_error(shape@, location as int) is None
                    &&& final(self)@ == old(self)@.dropped(shape@, location as int)
                },
                Err(e) => {
                    &&& old(self)@.drop_error(shape@, location as int) == Some(e)
                    &&& *final(self) == *old(self)
                },
            },
    {
        match self.check_drop(shape, location) {
            Ok(()) => {
                self.drop(shape, location);
                Ok(())
            },
            Err(e) => Err(e),
        }
    }

    /// Drops `shape` with its left edge at column `location`: the shape comes
    /// to rest on the stack, its blocks are added, and every row that is then
    /// full is removed while the rows above move down.
    ///
    /// The shape must lie inside the board's columns and come to rest inside
    /// its rows; `check_drop` tests this, and `try_drop` drops only if it holds.
    /// Afterwards the board is well formed again: every column lists strictly
    /// increasing rows, no row is full, and the counter of every row equals
    /// the number of columns that occupy it.
    pub fn drop(&mut self, shape: &Shape, location: WidthType)
        requires
            old(self).wf(),
            shape.wf(),
            old(self)@.can_drop(shape@, location as int),
        ensures
            final(self).wf(),
            final(self)@ == old(self)@.dropped(shape@, location as int),
            final(self)@.width() == old(self)@.width(),
            final(self)@.height == old(self)@.height,
    {
        let ghost before = self@;
        let row: HeightType = self.placement_row(shape, location);
        self.place(shape, location, row);
        let ghost filled = self@;
        proof {
            lemma_placed(before, shape@, location as int);
            assert forall|r: int|
                1 <= r <= filled.height && (r <= row || r > row + shape@.height) implies !is_full_row(
                filled.columns,
                r,
            ) by {
                lemma_placed_other_rows(before, shape@, location as int, r);
                assert(!is_full_row(before.columns, r));
            }
        }
        let cleared = self.full_rows_between(row, shape.height());
        if cleared.len() > 0 {
            self.clear_rows(&cleared);
        } else {
            proof {
                lemma_full_rows_upto(filled.columns, filled.height as nat);
                lemma_cleared_nothing(filled);
            }
        }
    }

    /// Adds the blocks of `shape` to the columns under it, resting on `row`,
    /// and counts them in their rows.
    fn place(&mut self, shape: &Shape, location: WidthType, row: HeightType)
        requires
            old(self).wf(),
            shape.wf(),
            old(self)@.can_drop(shape@, location as int),
            row == old(self)@.placement_row(shape@, location as int),
        ensures
            final(self)@ == old(self)@.placed(shape@, location as int),
            final(self).counts_ok(),
    {
        let ghost before = self@;
        let ghost after = before.placed(shape@, location as int);
        proof {
            lemma_placed(before, shape@, location as int);
        }
        let pieces = shape.blocks();
        let n: usize = pieces.len();
        let mut i: usize = 0;
        while i < n
            invariant
                i <= n,
                n == shape@.width(),
                grid_of(pieces@) == shape@.columns,
                shape.wf(),
                before.grid_ok(),
                after.grid_ok(),
                before.can_drop(shape@, location as int),
                row == before.placement_row(shape@, location as int),
                after == before.placed(shape@, location as int),
                self@.height == before.height,
                self@.columns.len() == before.columns.len(),
                forall|c: int|
                    0 <= c < before.columns.len() ==> #[trigger] self@.columns[c] == if location <= c
                        < location + i {
                        after.columns[c]
                    } else {
                        before.columns[c]
                    },
                self.counts_ok(),
            decreases n - i,
        {
            let c: usize = location as usize + i;
            let piece = &pieces[i];
            let m: usize = piece.len();
            let ghost base = before.columns[c as int].len() as int;
            let ghost target = after.columns[c as int];
            let mut j: usize = 0;
            while j < m
                invariant
                    j <= m,
                    i < n,
                    c == location + i,
                    c < before.columns.len(),
                    m == piece@.len(),
                    target.len() == base + m,
                    base == before.columns[c as int].len(),
                    target == after.columns[c as int],
                    column_ok(target, after.height),
                    forall|k: int| 0 <= k < m ==> #[trigger] target[base + k] == row + piece@[k],
                    after.grid_ok(),
                    after.height == before.height,
                    after.columns.len() == before.columns.len(),
                    self@.height == before.height,
                    self@.columns.len() == before.columns.len(),
                    forall|k: int|
                        0 <= k < before.columns.len() && k != c ==> #[trigger] self@.columns[k]
                            == if location <= k < location + i {
                            after.columns[k]
                        } else {
                            before.columns[k]
                        },
                    self@.columns[c as int] == target.take(base + j),
                    self.counts_ok(),
                decreases m - j,
            {
                let ghost grid = self@.columns;
                let ghost stacks = self.blocks@;
                assert(target[base + j] == row + piece@[j as int]);
                let r: HeightType = row + piece[j];
                proof {
                    lemma_fill_count_push(grid, c as int, r as int);
                    lemma_fill_count_bound(
                        grid.update(c as int, grid[c as int].push(r as int)),
                        r as int,
                    );
                }
                self.blocks[c].push(r);
                proof {
                    lemma_grid_of_update(stacks, c as int, self.blocks@[c as int]);
                    lemma_rows_of_push(stacks[c as int]@, r);
                }
                self.row_fill_count[(r - 1) as usize] += 1;
                j += 1;
            }
            i += 1;
        }
        proof {
            assert(self@.columns =~= after.columns);
        }
    }

    /// The full rows among the `count` rows above `row`, in increasing order.
    fn full_rows_between(&self, row: HeightType, count: HeightType) -> (cleared: Vec<HeightType>)
        requires
            self@.grid_ok(),
            self.counts_ok(),
            row + count <= self@.height,
            forall|r: int|
                1 <= r <= self@.height && (r <= row || r > row + count) ==> !is_full_row(
                    self@.columns,
                    r,
                ),
        ensures
            rows_of(cleared@) == self@.full_rows(),
    {
        let width: usize = self.blocks.len();
        let mut cleared: Vec<HeightType> = Vec::new();
        let mut r: HeightType = row;
        proof {
            lemma_full_rows_stable(self@.columns, 0, row as nat);
        }
        while r < row + count
            invariant
                row <= r <= row + count,
                row + count <= self@.height,
                self@.grid_ok(),
                self.counts_ok(),
                width == self@.width(),
                rows_of(cleared@) == full_rows_upto(self@.columns, r as nat),
            decreases row + count - r,
        {
            r += 1;
            if self.row_fill_count[(r - 1) as usize] as usize == width {
                cleared.push(r);
            }
        }
        proof {
            lemma_full_rows_stable(self@.columns, (row + count) as nat, self@.height as nat);
        }
        cleared
    }

    /// Removes the rows listed in `cleared` from every column, moves the rows
    /// above them down, and brings the row counters in line.
    fn clear_rows(&mut self, cleared: &Vec<HeightType>)
        requires
            old(self)@.grid_ok(),
            old(self).counts_ok(),
            old(self)@.width() > 0,
            rows_of(cleared@) == old(self)@.full_rows(),
        ensures
            final(self)@ == old(self)@.cleared(),
            final(self).wf(),
    {
        let ghost before = self@;
        let ghost after = before.cleared();
        let ghost gone = rows_of(cleared@);
        proof {
            lemma_cleared(before);
        }
        let width: usize = self.blocks.len();
        let mut c: usize = 0;
        while c < width
            invariant
                c <= width,
                width == before.columns.len(),
                before.grid_ok(),
                gone == rows_of(cleared@),
                gone == before.full_rows(),
                column_ok(gone, before.height),
                after == before.cleared(),
                self@.height == before.height,
                self@.columns.len() == before.columns.len(),
                self.row_counts() == old(self).row_counts(),
                forall|k: int|
                    0 <= k < width ==> #[trigger] self@.columns[k] == if k < c {
                        after.columns[k]
                    } else {
                        before.columns[k]
                    },
            decreases width - c,
        {
            let ghost stacks = self.blocks@;
            proof {
                assert(self@.columns[c as int] == rows_of(stacks[c as int]@));
            }
            remove_rows(&mut self.blocks[c], cleared);
            proof {
                lemma_grid_of_update(stacks, c as int, self.blocks@[c as int]);
            }
            c += 1;
        }
        proof {
            assert(self@.columns =~= after.columns);
        }
        let height: usize = self.row_fill_count.len();
        let count: usize = cleared.len();
        let ghost counts = self.row_counts();
        let mut read: usize = 0;
        let mut write: usize = 0;
        let mut next: usize = 0;
        while read < height
            invariant
                read <= height,
                next <= count,
                write + next == read,
                height == before.height,
                count == gone.len(),
                gone == rows_of(cleared@),
                gone == before.full_rows(),
                column_ok(gone, before.height),
                before.grid_ok(),
                after == before.cleared(),
                self@ == after,
                self.row_counts().len() == height,
                counts.len() == height,
                forall|r: int|
                    1 <= r <= height ==> counts[r - 1] == #[trigger] fill_count(before.columns, r),
                forall|k: int| read <= k < height ==> self.row_counts()[k] == counts[k],
                forall|k: int| 0 <= k < next ==> gone[k] <= read,
                forall|k: int| next <= k < count ==> gone[k] > read,
                forall|r: int|
                    1 <= r <= write ==> self.row_counts()[r - 1] == #[trigger] fill_count(
                        after.columns,
                        r,
                    ),
            decreases height - read,
        {
            let ghost r = read as int + 1;
            proof {
                lemma_count_below_index(gone, next as int, r);
            }
            if next < count && cleared[next] as usize == read + 1 {
                assert(gone[next as int] == r);
                next += 1;
            } else {
                proof {
                    lemma_full_rows_upto(before.columns, before.height as nat);
                    lemma_rows_survive(before, r);
                }
                let kept: WidthType = self.row_fill_count[read];
                self.row_fill_count[write] = kept;
                write += 1;
            }
            read += 1;
        }
        while write < height
            invariant
                write <= height,
                height - count <= write,
                count == gone.len(),
                gone == before.full_rows(),
                height == before.height,
                after == before.cleared(),
                self@ == after,
                self.row_counts().len() == height,
                forall|r: int|
                    before.height - gone.len() < r ==> #[trigger] fill_count(after.columns, r) == 0,
                forall|r: int|
                    1 <= r <= write ==> self.row_counts()[r - 1] == #[trigger] fill_count(
                        after.columns,
                        r,
                    ),
            decreases height - write,
        {
            self.row_fill_count[write] = 0;
            write += 1;
        }
    }
}

/// Removes the rows listed in `cleared` from a column and moves every other
/// row down by the number of cleared rows below it. Both lists are strictly
/// increasing, so one pass over the column does it.
pub fn remove_rows(column: &mut Vec<HeightType>, cleared: &Vec<HeightType>)
    requires
        strictly_increasing(rows_of(old(column)@)),
        strictly_increasing(rows_of(cleared@)),
    ensures
        rows_of(final(column)@) == squeeze(rows_of(old(column)@), rows_of(cleared@)),
{
    let ghost rows = rows_of(column@);
    let ghost gone = rows_of(cleared@);
    let n: usize = column.len();
    let count: usize = cleared.len();
    let mut read: usize = 0;
    let mut write: usize = 0;
    let mut next: usize = 0;
    while read < n
        invariant
            write <= read <= n,
            next <= count,
            column@.len() == n,
            count == cleared@.len(),
            rows == rows_of(old(column)@),
            rows.len() == n,
            gone == rows_of(cleared@),
            strictly_increasing(rows),
            strictly_increasing(gone),
            forall|k: int| read <= k < n ==> column@[k] as int == rows[k],
            forall|k: int| 0 <= k < next ==> read < n ==> gone[k] < rows[read as int],
            rows_of(column@.take(write as int)) == squeeze(rows.take(read as int), gone),
        decreases n - read,
    {
        let r: HeightType = column[read];
        while next < count && cleared[next] < r
            invariant
                next <= count,
                count == cleared@.len(),
                gone == rows_of(cleared@),
                forall|k: int| 0 <= k < next ==> gone[k] < r,
            decreases count - next,
        {
            next += 1;
        }
        proof {
            assert forall|k: int| next <= k < count implies gone[k] >= r by {
                assert(gone[next as int] >= r);
            }
            lemma_count_below_index(gone, next as int, r as int);
            lemma_count_below_none(gone, 0);
            lemma_count_below_gap(gone, 0, r as int);
            lemma_squeeze_push(rows.take(read as int), r as int, gone);
            assert(rows.take(read as int).push(r as int) =~= rows.take(read as int + 1));
        }
        if next == count || cleared[next] != r {
            let moved: HeightType = r - next as HeightType;
            column[write] = moved;
            write += 1;
        }
        read += 1;
    }
    column.truncate(write);
    proof {
        assert(rows.take(n as int) =~= rows);
    }
}

} // verus!
