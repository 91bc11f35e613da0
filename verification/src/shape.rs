//! Shapes: a bounding box and, for each of its columns, the occupied offsets
//! counted from the shape's own bottom edge, starting at 1.

use vstd::prelude::*;
use crate::common::{HeightType, WidthType};
use crate::column::{column_ok, grid_of, lemma_grid_of_push, rows_of};

verus! {

/// The mathematical value of a shape.
pub struct ShapeView {
    /// Height of the bounding box.
    pub height: int,
    /// For each column, left to right, the occupied offsets in increasing order.
    pub columns: Seq<Seq<int>>,
}

impl ShapeView {
    /// Number of columns spanned.
    pub open spec fn width(self) -> int {
        self.columns.len() as int
    }

    /// Both dimensions are positive and fit the counters, and every column
    /// lists strictly increasing offsets inside the bounding box.
    pub open spec fn wf(self) -> bool {
        &&& 1 <= self.height <= HeightType::MAX
        &&& 1 <= self.width() <= WidthType::MAX
        &&& forall|c: int| 0 <= c < self.width() ==> column_ok(#[trigger] self.columns[c], self.height)
    }

    /// No column holds a block.
    pub open spec fn is_blank(self) -> bool {
        forall|c: int| 0 <= c < self.width() ==> (#[trigger] self.columns[c]).len() == 0
    }
}

/// Why a bitmap does not describe a shape.
#[derive(Clone, Copy, Debug, PartialEq, Eq, Structural)]
pub enum ShapeError {
    /// The bitmap has no rows, or its rows have no cells.
    ZeroSized,
    /// The rows differ in length.
    NotRectangular,
    /// A dimension does not fit the counters used for rows and columns.
    TooLarge,
}

/// The cells of an executable bitmap, top row first.
pub open spec fn bits_of(bitmap: Seq<Vec<bool>>) -> Seq<Seq<bool>> {
    bitmap.map_values(|row: Vec<bool>| row@)
}

/// Every row is as long as the first one.
pub open spec fn is_rectangular(bits: Seq<Seq<bool>>) -> bool {
    forall|r: int| 0 <= r < bits.len() ==> (#[trigger] bits[r]).len() == bits[0].len()
}

/// The reason for which a bitmap is rejected, if it is.
pub open spec fn bitmap_error(bits: Seq<Seq<bool>>) -> Option<ShapeError> {
    if bits.len() == 0 || bits[0].len() == 0 {
        Some(ShapeError::ZeroSized)
    } else if !is_rectangular(bits) {
        Some(ShapeError::NotRectangular)
    } else if bits.len() > HeightType::MAX || bits[0].len() > WidthType::MAX {
        Some(ShapeError::TooLarge)
    } else {
        None
    }
}

/// The occupied offsets of column `c` among the lowest `n` rows of a bitmap,
/// in increasing order. Offset `o` is row `bits.len() - o` of the bitmap.
pub open spec fn offsets_upto(bits: Seq<Seq<bool>>, c: int, n: nat) -> Seq<int>
    decreases n,
{
    if n == 0 {
        Seq::empty()
    } else {
        let below = offsets_upto(bits, c, (n - 1) as nat);
        if bits[bits.len() - n][c] {
            below.push(n as int)
        } else {
            below
        }
    }
}

/// The shape that a rectangular bitmap describes.
pub open spec fn bitmap_shape(bits: Seq<Seq<bool>>) -> ShapeView {
    ShapeView {
        height: bits.len() as int,
        columns: Seq::new(bits[0].len(), |c: int| offsets_upto(bits, c, bits.len())),
    }
}

/// The offsets collected from a bitmap are exactly the offsets of its set
/// cells, in strictly increasing order.
pub proof fn lemma_offsets_upto(bits: Seq<Seq<bool>>, c: int, n: nat)
    requires
        n <= bits.len(),
    ensures
        column_ok(offsets_upto(bits, c, n), n as int),
        forall|o: int|
            offsets_upto(bits, c, n).contains(o) <==> 1 <= o <= n && bits[bits.len() - o][c],
    decreases n,
{
    if n > 0 {
        let below = offsets_upto(bits, c, (n - 1) as nat);
        lemma_offsets_upto(bits, c, (n - 1) as nat);
        let all = offsets_upto(bits, c, n);
        if bits[bits.len() - n][c] {
            assert forall|o: int| all.contains(o) <==> 1 <= o <= n && bits[bits.len() - o][c] by {
                if all.contains(o) {
                    let i = choose|i: int| 0 <= i < all.len() && all[i] == o;
                    if i < below.len() {
                        assert(below.contains(o));
                    }
                }
                if 1 <= o <= n && bits[bits.len() - o][c] {
                    if o == n {
                        assert(all[below.len() as int] == o);
                    } else {
                        assert(below.contains(o));
                        let i = choose|i: int| 0 <= i < below.len() && below[i] == o;
                        assert(all[i] == o);
                    }
                }
            }
        }
    }
}

/// A bitmap that is accepted describes a well-formed shape.
pub proof fn lemma_bitmap_shape_wf(bits: Seq<Seq<bool>>)
    requires
        bitmap_error(bits) is None,
    ensures
        bitmap_shape(bits).wf(),
{
    let shape = bitmap_shape(bits);
    assert forall|c: int| 0 <= c < shape.width() implies column_ok(
        #[trigger] shape.columns[c],
        shape.height,
    ) by {
        lemma_offsets_upto(bits, c, bits.len());
    }
}

/// A piece: its bounding box and the occupied offsets of each column.
#[derive(Debug)]
pub struct Shape {
    blocks: Vec<Vec<HeightType>>,
    height: HeightType,
}

impl View for Shape {
    type V = ShapeView;

    closed spec fn view(&self) -> ShapeView {
        ShapeView { height: self.height as int, columns: grid_of(self.blocks@) }
    }
}

impl Shape {
    /// The invariant of every shape that this library hands out.
    pub open spec fn wf(&self) -> bool {
        self@.wf()
    }

    /// Builds the shape that `bitmap` describes. The bitmap is row-major with
    /// its top row first; a `true` cell is a block.
    pub fn new(bitmap: &Vec<Vec<bool>>) -> (result: Result<Shape, ShapeError>)
        ensures
            match result {
                Ok(shape) => {
                    &&& bitmap_error(bits_of(bitmap@)) is None
                    &&& shape@ == bitmap_shape(bits_of(bitmap@))
                    &&& shape.wf()
                },
                Err(e) => bitmap_error(bits_of(bitmap@)) == Some(e),
            },
    {
        let ghost bits = bits_of(bitmap@);
        let height: usize = bitmap.len();
        if height == 0 {
            return Err(ShapeError::ZeroSized);
        }
        let width: usize = bitmap[0].len();
        if width == 0 {
            return Err(ShapeError::ZeroSized);
        }
        let mut row: usize = 1;
        while row < height
            invariant
                1 <= row <= height,
                height == bitmap@.len(),
                height == bits.len(),
                width == bits[0].len(),
                width > 0,
                bits == bits_of(bitmap@),
                forall|r: int| 0 <= r < row ==> (#[trigger] bits[r]).len() == width,
            decreases height - row,
        {
            assert(bits[row as int] == bitmap@[row as int]@);
            if bitmap[row].len() != width {
                return Err(ShapeError::NotRectangular);
            }
            row += 1;
        }
        if height > HeightType::MAX as usize || width > WidthType::MAX as usize {
            return Err(ShapeError::TooLarge);
        }
        let mut blocks: Vec<Vec<HeightType>> = Vec::with_capacity(width);
        let mut c: usize = 0;
        while c < width
            invariant
                c <= width,
                height == bitmap@.len(),
                height <= HeightType::MAX,
                bits == bits_of(bitmap@),
                forall|r: int| 0 <= r < height ==> (#[trigger] bits[r]).len() == width,
                blocks@.len() == c,
                forall|k: int|
                    0 <= k < c ==> #[trigger] grid_of(blocks@)[k] == offsets_upto(
                        bits,
                        k,
                        height as nat,
                    ),
            decreases width - c,
        {
            let mut column: Vec<HeightType> = Vec::with_capacity(height);
            let mut offset: usize = 1;
            while offset <= height
                invariant
                    1 <= offset <= height + 1,
                    c < width,
                    height == bitmap@.len(),
                    height <= HeightType::MAX,
                    bits == bits_of(bitmap@),
                    forall|r: int| 0 <= r < height ==> (#[trigger] bits[r]).len() == width,
                    rows_of(column@) == offsets_upto(bits, c as int, (offset - 1) as nat),
                decreases height + 1 - offset,
            {
                assert(bits[height - offset] == bitmap@[height - offset]@);
                if bitmap[height - offset][c] {
                    column.push(offset as HeightType);
                }
                offset += 1;
            }
            proof {
                lemma_grid_of_push(blocks@, column);
            }
            blocks.push(column);
            c += 1;
        }
        let shape = Shape { blocks, height: height as HeightType };
        proof {
            assert(shape@.columns =~= bitmap_shape(bits).columns);
            lemma_bitmap_shape_wf(bits);
        }
        Ok(shape)
    }

    /// Number of columns spanned.
    pub fn width(&self) -> (w: WidthType)
        requires
            self.wf(),
        ensures
            w == self@.width(),
    {
        self.blocks.len() as WidthType
    }

    /// Height of the bounding box.
    pub fn height(&self) -> (h: HeightType)
        ensures
            h == self@.height,
    {
        self.height
    }

    /// The occupied offsets of each column, bottom to top.
    pub fn blocks(&self) -> (columns: &Vec<Vec<HeightType>>)
        ensures
            grid_of(columns@) == self@.columns,
    {
        &self.blocks
    }
}

} // verus!
