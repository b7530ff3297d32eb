//! The scaling matrix as a mathematical object: its cells in row-major
//! order, and what holds of that order.

use vstd::prelude::*;
use vstd::arithmetic::div_mod::{
    lemma_div_is_ordered,
    lemma_fundamental_div_mod,
    lemma_fundamental_div_mod_converse,
    lemma_mod_bound,
};
use crate::coefficient::Coefficient;
use crate::window::{coefficient_at, row_window_length, row_window_start};

verus! {

/// Whether a matrix of this shape can be enumerated: there is at least one
/// row, there are more columns than rows, the number of cells is
/// representable, and there are two more breakpoints than rows.
pub open spec fn valid_shape(input_size: int, output_size: int, breakpoint_count: int) -> bool {
    &&& 0 < output_size < input_size
    &&& input_size * output_size <= usize::MAX
    &&& breakpoint_count == output_size + 2
}

/// What the cell at `(row, col)` holds.
pub open spec fn cell(breakpoints: Seq<usize>, row: int, col: int) -> Coefficient {
    coefficient_at(row_window_start(breakpoints, row), row_window_length(breakpoints, row), col)
}

/// Number of the cell `(row, col)` in row-major order.
pub open spec fn position(input_size: int, row: int, col: int) -> int {
    row * input_size + col
}

/// The triple with number `k` in row-major order.
pub open spec fn entry(breakpoints: Seq<usize>, input_size: int, k: int) -> (
    usize,
    usize,
    Coefficient,
) {
    (
        (k / input_size) as usize,
        (k % input_size) as usize,
        cell(breakpoints, k / input_size, k % input_size),
    )
}

/// All triples of the matrix, rows first, columns fastest.
pub open spec fn entries(breakpoints: Seq<usize>, input_size: int, output_size: int) -> Seq<
    (usize, usize, Coefficient),
> {
    Seq::new((input_size * output_size) as nat, |k: int| entry(breakpoints, input_size, k))
}

/// The cell `(row, col)` has the number `row * input_size + col`, and the
/// triple with that number is the one of `(row, col)`.
pub proof fn lemma_entry_at(breakpoints: Seq<usize>, input_size: int, row: int, col: int)
    requires
        0 < input_size,
        0 <= row,
        0 <= col < input_size,
    ensures
        position(input_size, row, col) / input_size == row,
        position(input_size, row, col) % input_size == col,
        entry(breakpoints, input_size, position(input_size, row, col)) == (
            row as usize,
            col as usize,
            cell(breakpoints, row, col),
        ),
{
    lemma_fundamental_div_mod_converse(position(input_size, row, col), input_size, row, col);
}

/// A cursor inside the matrix, or just past the end of one of its rows,
/// never counts more cells than the matrix has.
pub proof fn lemma_cursor_bound(input_size: int, output_size: int, row: int, col: int)
    requires
        0 < input_size,
        0 <= row < output_size,
        0 <= col <= input_size,
    ensures
        0 <= row * input_size,
        position(input_size, row, col) <= input_size * output_size,
        col < input_size ==> position(input_size, row, col) < input_size * output_size,
        position(input_size, row, input_size) == position(input_size, row + 1, 0),
{
    assert(0 <= row * input_size) by (nonlinear_arith)
        requires
            0 <= row,
            0 < input_size,
    ;
    assert(row * input_size + input_size <= input_size * output_size) by (nonlinear_arith)
        requires
            row + 1 <= output_size,
            0 < input_size,
    ;
    assert(row * input_size + input_size == (row + 1) * input_size + 0) by (nonlinear_arith);
}

/// Row and column of the cell with number `k` lie inside the matrix, and
/// `k` is the number of that row and column.
pub proof fn lemma_row_and_col_in_range(input_size: int, output_size: int, k: int)
    requires
        0 < input_size,
        0 <= k < input_size * output_size,
    ensures
        0 <= k / input_size < output_size,
        0 <= k % input_size < input_size,
        k / input_size <= k,
        k == position(input_size, k / input_size, k % input_size),
{
    lemma_fundamental_div_mod(k, input_size);
    lemma_mod_bound(k, input_size);
    let row = k / input_size;
    let col = k % input_size;
    assert(0 <= row < output_size) by (nonlinear_arith)
        requires
            0 < input_size,
            0 <= col < input_size,
            k == input_size * row + col,
            0 <= k < input_size * output_size,
    ;
    assert(input_size * row == row * input_size) by (nonlinear_arith);
    assert(row <= k) by (nonlinear_arith)
        requires
            0 < input_size,
            0 <= row,
            0 <= col,
            k == input_size * row + col,
    ;
}

/// Enumerating a matrix of `input_size` columns and `output_size` rows gives
/// `input_size * output_size` triples, every triple lies inside the matrix,
/// and every pair `(row, col)` of the matrix stands in exactly one of them.
pub proof fn lemma_every_cell_once(breakpoints: Seq<usize>, input_size: int, output_size: int)
    requires
        0 < input_size,
        0 <= output_size,
        input_size * output_size <= usize::MAX,
    ensures
        entries(breakpoints, input_size, output_size).len() == input_size * output_size,
        forall|k: int|
            0 <= k < input_size * output_size ==> {
                let triple = #[trigger] entries(breakpoints, input_size, output_size)[k];
                0 <= triple.0 < output_size && 0 <= triple.1 < input_size
            },
        forall|row: int, col: int|
            0 <= row < output_size && 0 <= col < input_size ==> {
                let k = #[trigger] position(input_size, row, col);
                let triple = entries(breakpoints, input_size, output_size)[k];
                0 <= k < input_size * output_size && triple.0 == row && triple.1 == col
            },
        forall|j: int, k: int|
            0 <= j < input_size * output_size && 0 <= k < input_size * output_size ==> {
                let first = #[trigger] entries(breakpoints, input_size, output_size)[j];
                let second = #[trigger] entries(breakpoints, input_size, output_size)[k];
                first.0 == second.0 && first.1 == second.1 ==> j == k
            },
{
    let all = entries(breakpoints, input_size, output_size);
    assert(0 <= input_size * output_size) by (nonlinear_arith)
        requires
            0 < input_size,
            0 <= output_size,
    ;
    assert forall|k: int| 0 <= k < input_size * output_size implies {
        let triple = #[trigger] all[k];
        0 <= triple.0 < output_size && 0 <= triple.1 < input_size
    } by {
        lemma_row_and_col_in_range(input_size, output_size, k);
    }
    assert forall|row: int, col: int|
        0 <= row < output_size && 0 <= col < input_size implies {
        let k = #[trigger] position(input_size, row, col);
        let triple = all[k];
        0 <= k < input_size * output_size && triple.0 == row && triple.1 == col
    } by {
        let k = position(input_size, row, col);
        lemma_cursor_bound(input_size, output_size, row, col);
        lemma_entry_at(breakpoints, input_size, row, col);
        lemma_row_and_col_in_range(input_size, output_size, k);
    }
    assert forall|j: int, k: int|
        0 <= j < input_size * output_size && 0 <= k < input_size * output_size implies {
        let first = #[trigger] all[j];
        let second = #[trigger] all[k];
        first.0 == second.0 && first.1 == second.1 ==> j == k
    } by {
        lemma_row_and_col_in_range(input_size, output_size, j);
        lemma_row_and_col_in_range(input_size, output_size, k);
    }
}

/// The triples come in row-major order: the first one is that of the cell
/// `(0, 0)`; each one but the last is followed by its right-hand neighbour
/// or, at the end of a row, by the first cell of the following row; so a
/// later triple stands in a later row, or in the same row and a later
/// column.
pub proof fn lemma_row_major_order(breakpoints: Seq<usize>, input_size: int, output_size: int)
    requires
        0 < input_size,
        0 <= output_size,
        input_size * output_size <= usize::MAX,
    ensures
        0 < output_size ==> {
            let first = entries(breakpoints, input_size, output_size)[0];
            first.0 == 0 && first.1 == 0
        },
        forall|k: int|
            0 <= k && k + 1 < input_size * output_size ==> {
                let here = #[trigger] entries(breakpoints, input_size, output_size)[k];
                let there = entries(breakpoints, input_size, output_size)[k + 1];
                if here.1 + 1 < input_size {
                    there.0 == here.0 && there.1 == here.1 + 1
                } else {
                    there.0 == here.0 + 1 && there.1 == 0
                }
            },
        forall|j: int, k: int|
            0 <= j < k < input_size * output_size ==> {
                let first = #[trigger] entries(breakpoints, input_size, output_size)[j];
                let second = #[trigger] entries(breakpoints, input_size, output_size)[k];
                first.0 < second.0 || (first.0 == second.0 && first.1 < second.1)
            },
{
    let all = entries(breakpoints, input_size, output_size);
    if 0 < output_size {
        assert(0 < input_size * output_size) by (nonlinear_arith)
            requires
                0 < input_size,
                0 < output_size,
        ;
        lemma_row_and_col_in_range(input_size, output_size, 0);
    }
    assert forall|k: int| 0 <= k && k + 1 < input_size * output_size implies {
        let here = #[trigger] all[k];
        let there = all[k + 1];
        if here.1 + 1 < input_size {
            there.0 == here.0 && there.1 == here.1 + 1
        } else {
            there.0 == here.0 + 1 && there.1 == 0
        }
    } by {
        lemma_row_and_col_in_range(input_size, output_size, k);
        lemma_row_and_col_in_range(input_size, output_size, k + 1);
        let row = k / input_size;
        let col = k % input_size;
        if col + 1 < input_size {
            lemma_fundamental_div_mod_converse(k + 1, input_size, row, col + 1);
        } else {
            lemma_cursor_bound(input_size, output_size, row, col);
            lemma_fundamental_div_mod_converse(k + 1, input_size, row + 1, 0);
        }
    }
    assert forall|j: int, k: int| 0 <= j < k < input_size * output_size implies {
        let first = #[trigger] all[j];
        let second = #[trigger] all[k];
        first.0 < second.0 || (first.0 == second.0 && first.1 < second.1)
    } by {
        lemma_row_and_col_in_range(input_size, output_size, j);
        lemma_row_and_col_in_range(input_size, output_size, k);
        lemma_div_is_ordered(j, k, input_size);
    }
}

/// The cells of a row that hold a weight form one unbroken run of columns:
/// between two such cells every cell holds a weight, so once a row has gone
/// back to zero it stays there.
pub proof fn lemma_window_is_contiguous(
    breakpoints: Seq<usize>,
    row: int,
    left: int,
    middle: int,
    right: int,
)
    requires
        left <= middle <= right,
        cell(breakpoints, row, left).is_weight(),
        cell(breakpoints, row, right).is_weight(),
    ensures
        cell(breakpoints, row, middle).is_weight(),
{
}

/// A row's window has at least one column. The cell `offset` columns after
/// its start holds the weight at position `offset`, with the window's
/// length; every cell before the window or after it holds zero.
pub proof fn lemma_window_in_order(breakpoints: Seq<usize>, row: int, offset: int)
    requires
        0 <= row,
        row + 2 < breakpoints.len(),
        0 <= offset < row_window_length(breakpoints, row),
    ensures
        1 <= row_window_length(breakpoints, row) <= usize::MAX,
        cell(breakpoints, row, row_window_start(breakpoints, row) + offset)
            == (Coefficient::Weight {
            index: offset as usize,
            length: row_window_length(breakpoints, row) as usize,
        }),
        forall|col: int|
            col < row_window_start(breakpoints, row) || col >= row_window_start(breakpoints, row)
                + row_window_length(breakpoints, row) ==> #[trigger] cell(breakpoints, row, col)
                == Coefficient::Zero,
{
}

/// The narrowest shape, one row less than there are columns, can be
/// enumerated, and its enumeration has a triple for every cell.
pub proof fn lemma_one_row_less_than_columns(breakpoints: Seq<usize>, input_size: int)
    requires
        2 <= input_size,
        input_size * (input_size - 1) <= usize::MAX,
        breakpoints.len() == input_size + 1,
    ensures
        valid_shape(input_size, input_size - 1, breakpoints.len() as int),
        entries(breakpoints, input_size, input_size - 1).len() == input_size * (input_size - 1),
{
    assert(0 <= input_size * (input_size - 1)) by (nonlinear_arith)
        requires
            2 <= input_size,
    ;
}

} // verus!
