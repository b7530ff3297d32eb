//! The window of one row: where it starts and how many columns it spans.

use vstd::prelude::*;
use crate::coefficient::Coefficient;

verus! {

/// Number of columns between two breakpoint columns, at least one.
/// A band that is empty or runs backwards is widened to a single column.
pub open spec fn spec_window_length(start: int, end: int) -> int {
    if end - start >= 1 {
        end - start
    } else {
        1
    }
}

/// Column at which the window of `row` starts.
pub open spec fn row_window_start(breakpoints: Seq<usize>, row: int) -> int
    recommends
        0 <= row < breakpoints.len(),
{
    breakpoints[row] as int
}

/// Number of columns in the window of `row`: its band runs from breakpoint
/// `row` to breakpoint `row + 2`.
pub open spec fn row_window_length(breakpoints: Seq<usize>, row: int) -> int
    recommends
        0 <= row,
        row + 2 < breakpoints.len(),
{
    spec_window_length(breakpoints[row] as int, breakpoints[row + 2] as int)
}

/// What the cell in column `col` holds in a row whose window starts at
/// `start` and has `length` weights.
pub open spec fn coefficient_at(start: int, length: int, col: int) -> Coefficient {
    if start <= col < start + length {
        Coefficient::Weight { index: (col - start) as usize, length: length as usize }
    } else {
        Coefficient::Zero
    }
}

/// Number of weights already handed out when the cursor stands at `col`.
pub open spec fn weights_consumed(start: int, length: int, col: int) -> int {
    if col <= start {
        0
    } else if col - start >= length {
        length
    } else {
        col - start
    }
}

/// Length of the window between the columns `start` and `end`, clamped to
/// at least one column.
pub fn window_length(start: usize, end: usize) -> (length: usize)
    ensures
        length as int == spec_window_length(start as int, end as int),
        1 <= length,
{
    if end > start {
        end - start
    } else {
        1
    }
}

} // verus!
