//! What one cell of the scaling matrix holds.

use vstd::prelude::*;

verus! {

/// The content of one matrix cell, before any real arithmetic is done.
///
/// `Weight { index, length }` stands for the weight at position `index` of a
/// window of `length` weights, divided by `length`.
#[derive(Clone, Copy, Debug, PartialEq, Eq, Structural)]
pub enum Coefficient {
    /// The cell lies outside the row's window.
    Zero,
    /// The cell lies inside the row's window.
    Weight { index: usize, length: usize },
}

impl Coefficient {
    /// Whether the cell lies inside its row's window.
    pub open spec fn is_weight(self) -> bool {
        self is Weight
    }
}

} // verus!
