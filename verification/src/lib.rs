//! A falling-block board: shapes are dropped onto a grid of fixed width,
//! settle on the existing stack, and every row that becomes full is removed
//! while the rows above it move down.
//!
//! The library is verified with Verus. Its functions are stated against a
//! mathematical model:
//!
//! - [`column`] and [`rows`] describe one column of occupied rows, the fill
//!   count of a row, and what removing rows does to a column;
//! - [`shape`] builds shapes from bitmaps, [`catalog`] holds the known pieces;
//! - [`grid`] is the model of the board and of a drop, with the laws that a
//!   drop obeys;
//! - [`board`] is the executable board, [`render`] writes it as text, and
//!   [`script`] reads drop requests from text.

pub mod common;
pub mod column;
pub mod rows;
pub mod shape;
pub mod catalog;
pub mod grid;
pub mod board;
pub mod render;
pub mod script;
