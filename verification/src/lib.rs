//! Core of a screen-oriented text editor: grapheme-cluster-aware rows,
//! a multi-row document with cross-row editing and search, and the pure
//! cursor-movement / viewport-scroll arithmetic.

pub mod document;
pub mod laws;
pub mod navigate;
pub mod row;

pub use document::Document;
pub use navigate::NavKey;
pub use row::Row;

use vstd::prelude::*;

verus! {

/// A buffer coordinate: `y` indexes a row, `x` a grapheme-cluster column
/// within that row (`x == row length` is the end-of-line insertion point).
#[derive(Clone, Default, PartialEq, Eq, Structural, Debug)]
pub struct Position {
    pub x: usize,
    pub y: usize,
}

/// Dimensions of the visible text area, in character cells.
#[derive(Clone, Copy, PartialEq, Eq, Structural, Debug)]
pub struct Size {
    pub width: u16,
    pub height: u16,
}

} // verus!
