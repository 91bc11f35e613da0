use vstd::prelude::*;

verus! {

/// Counts columns: a board's or a shape's width, a column index, a row's fill count.
pub type WidthType = u8;

/// Counts rows: a board's or a shape's height, a row index, an offset inside a shape.
pub type HeightType = u8;

} // verus!
