//! The catalog of pieces: each is known by one ASCII symbol and is built from
//! a fixed bitmap, top row first.

use vstd::prelude::*;
use std::collections::HashMap;
use crate::shape::{bitmap_error, bitmap_shape, bits_of, Shape};

verus! {

/// `I`: the bar, four cells wide.
pub const PIECE_I: u8 = 73;

/// `Q`: the square.
pub const PIECE_Q: u8 = 81;

/// `Z`: the Z piece.
pub const PIECE_Z: u8 = 90;

/// `S`: the S piece.
pub const PIECE_S: u8 = 83;

/// `T`: the T piece.
pub const PIECE_T: u8 = 84;

/// `L`: the L piece.
pub const PIECE_L: u8 = 76;

/// `J`: the J piece.
pub const PIECE_J: u8 = 74;

/// `a`: the single cell.
pub const EXTRA_A: u8 = 97;

/// `s`: the square without its lower right cell.
pub const EXTRA_S: u8 = 115;

/// `d`: the square without its lower left cell.
pub const EXTRA_D: u8 = 100;

/// `f`: the pole, six cells high.
pub const EXTRA_F: u8 = 102;

/// `q`: the bar with a gap in the middle.
pub const EXTRA_Q: u8 = 113;

/// `w`: the wide S piece.
pub const EXTRA_W: u8 = 119;

/// `e`: the wide Z piece.
pub const EXTRA_E: u8 = 101;

/// `r`: the bar, three cells wide.
pub const EXTRA_R: u8 = 114;

/// The symbols of the seven standard pieces.
pub open spec fn is_standard_symbol(symbol: u8) -> bool {
    ||| symbol == PIECE_I
    ||| symbol == PIECE_Q
    ||| symbol == PIECE_Z
    ||| symbol == PIECE_S
    ||| symbol == PIECE_T
    ||| symbol == PIECE_L
    ||| symbol == PIECE_J
}

/// The symbols of the eight additional pieces.
pub open spec fn is_extra_symbol(symbol: u8) -> bool {
    ||| symbol == EXTRA_A
    ||| symbol == EXTRA_S
    ||| symbol == EXTRA_D
    ||| symbol == EXTRA_F
    ||| symbol == EXTRA_Q
    ||| symbol == EXTRA_W
    ||| symbol == EXTRA_E
    ||| symbol == EXTRA_R
}

/// The bitmap of the piece that a symbol stands for, top row first.
pub open spec fn symbol_bitmap(symbol: u8) -> Seq<Seq<bool>> {
    if symbol == PIECE_I {
        seq![seq![true, true, true, true]]
    } else if symbol == PIECE_Q {
        seq![seq![true, true], seq![true, true]]
    } else if symbol == PIECE_Z {
        seq![seq![true, true, false], seq![false, true, true]]
    } else if symbol == PIECE_S {
        seq![seq![false, true, true], seq![true, true, false]]
    } else if symbol == PIECE_T {
        seq![seq![true, true, true], seq![false, true, false]]
    } else if symbol == PIECE_L {
        seq![seq![true, false], seq![true, false], seq![true, true]]
    } else if symbol == PIECE_J {
        seq![seq![false, true], seq![false, true], seq![true, true]]
    } else if symbol == EXTRA_A {
        seq![seq![true]]
    } else if symbol == EXTRA_S {
        seq![seq![true, true], seq![true, false]]
    } else if symbol == EXTRA_D {
        seq![seq![true, true], seq![false, true]]
    } else if symbol == EXTRA_F {
        seq![seq![true], seq![true], seq![true], seq![true], seq![true], seq![true]]
    } else if symbol == EXTRA_Q {
        seq![seq![true, true, false, true, true]]
    } else if symbol == EXTRA_W {
        seq![seq![false, false, false, true, true], seq![true, true, false, false, false]]
    } else if symbol == EXTRA_E {
        seq![seq![true, true, false, false, false], seq![false, false, false, true, true]]
    } else if symbol == EXTRA_R {
        seq![seq![true, true, true]]
    } else {
        Seq::empty()
    }
}

/// A catalog holds exactly the pieces whose symbols `wanted` admits, each
/// built from its bitmap.
pub open spec fn holds_pieces(shapes: Map<u8, Shape>, wanted: spec_fn(u8) -> bool) -> bool {
    &&& forall|symbol: u8| #[trigger] shapes.contains_key(symbol) <==> wanted(symbol)
    &&& forall|symbol: u8|
        wanted(symbol) ==> {
            &&& (#[trigger] shapes[symbol]).wf()
            &&& shapes[symbol]@ == bitmap_shape(symbol_bitmap(symbol))
        }
}

/// The shape of a bitmap that is known to describe one.
fn piece(bitmap: Vec<Vec<bool>>) -> (shape: Shape)
    requires
        bitmap_error(bits_of(bitmap@)) is None,
    ensures
        shape.wf(),
        shape@ == bitmap_shape(bits_of(bitmap@)),
{
    match Shape::new(&bitmap) {
        Ok(shape) => shape,
        Err(_) => vstd::pervasive::unreached(),
    }
}

/// The seven standard pieces, by symbol.
pub fn standard_shapes() -> (shapes: HashMap<u8, Shape>)
    ensures
        holds_pieces(shapes@, |symbol: u8| is_standard_symbol(symbol)),
{
    let x = true;
    let o = false;
    let mut shapes: HashMap<u8, Shape> = HashMap::new();

    let bitmap = vec![vec![x, x, x, x]];
    assert(bits_of(bitmap@) =~~= symbol_bitmap(PIECE_I));
    shapes.insert(PIECE_I, piece(bitmap));

    let bitmap = vec![vec![x, x], vec![x, x]];
    assert(bits_of(bitmap@) =~~= symbol_bitmap(PIECE_Q));
    shapes.insert(PIECE_Q, piece(bitmap));

    let bitmap = vec![vec![x, x, o], vec![o, x, x]];
    assert(bits_of(bitmap@) =~~= symbol_bitmap(PIECE_Z));
    shapes.insert(PIECE_Z, piece(bitmap));

    let bitmap = vec![vec![o, x, x], vec![x, x, o]];
    assert(bits_of(bitmap@) =~~= symbol_bitmap(PIECE_S));
    shapes.insert(PIECE_S, piece(bitmap));

    let bitmap = vec![vec![x, x, x], vec![o, x, o]];
    assert(bits_of(bitmap@) =~~= symbol_bitmap(PIECE_T));
    shapes.insert(PIECE_T, piece(bitmap));

    let bitmap = vec![vec![x, o], vec![x, o], vec![x, x]];
    assert(bits_of(bitmap@) =~~= symbol_bitmap(PIECE_L));
    shapes.insert(PIECE_L, piece(bitmap));

    let bitmap = vec![vec![o, x], vec![o, x], vec![x, x]];
    assert(bits_of(bitmap@) =~~= symbol_bitmap(PIECE_J));
    shapes.insert(PIECE_J, piece(bitmap));

    shapes
}

/// The standard pieces and the eight additional ones, by symbol.
pub fn extra_shapes() -> (shapes: HashMap<u8, Shape>)
    ensures
        holds_pieces(shapes@, |symbol: u8| is_standard_symbol(symbol) || is_extra_symbol(symbol)),
{
    let x = true;
    let o = false;
    let mut shapes = standard_shapes();

    let bitmap = vec![vec![x]];
    assert(bits_of(bitmap@) =~~= symbol_bitmap(EXTRA_A));
    shapes.insert(EXTRA_A, piece(bitmap));

    let bitmap = vec![vec![x, x], vec![x, o]];
    assert(bits_of(bitmap@) =~~= symbol_bitmap(EXTRA_S));
    shapes.insert(EXTRA_S, piece(bitmap));

    let bitmap = vec![vec![x, x], vec![o, x]];
    assert(bits_of(bitmap@) =~~= symbol_bitmap(EXTRA_D));
    shapes.insert(EXTRA_D, piece(bitmap));

    let bitmap = vec![vec![x], vec![x], vec![x], vec![x], vec![x], vec![x]];
    assert(bits_of(bitmap@) =~~= symbol_bitmap(EXTRA_F));
    shapes.insert(EXTRA_F, piece(bitmap));

    let bitmap = vec![vec![x, x, o, x, x]];
    assert(bits_of(bitmap@) =~~= symbol_bitmap(EXTRA_Q));
    shapes.insert(EXTRA_Q, piece(bitmap));

    let bitmap = vec![vec![o, o, o, x, x], vec![x, x, o, o, o]];
    assert(bits_of(bitmap@) =~~= symbol_bitmap(EXTRA_W));
    shapes.insert(EXTRA_W, piece(bitmap));

    let bitmap = vec![vec![x, x, o, o, o], vec![o, o, o, x, x]];
    assert(bits_of(bitmap@) =~~= symbol_bitmap(EXTRA_E));
    shapes.insert(EXTRA_E, piece(bitmap));

    let bitmap = vec![vec![x, x, x]];
    assert(bits_of(bitmap@) =~~= symbol_bitmap(EXTRA_R));
    shapes.insert(EXTRA_R, piece(bitmap));

    shapes
}

} // verus!
