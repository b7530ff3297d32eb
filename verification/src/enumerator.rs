//! The enumerator: a cursor over the scaling matrix that hands out one
//! triple `(row, col, coefficient)` per pull, rows first, columns fastest.

use vstd::prelude::*;
use crate::coefficient::Coefficient;
use crate::matrix::{entries, entry, lemma_cursor_bound, lemma_entry_at, position, valid_shape};
use crate::window::{row_window_length, row_window_start, weights_consumed, window_length};

verus! {

/// Cursor over a scaling matrix of `output_size` rows and `input_size`
/// columns. The column index changes fastest.
pub struct MelScalingMatrixEnumerator {
    /// Number of columns.
    input_size: usize,
    /// Number of rows.
    output_size: usize,
    /// Column of each mel breakpoint; row `r` spans breakpoints `r` to `r + 2`.
    breakpoints: Vec<usize>,
    row_index: usize,
    col_index: usize,
    // The three fields below are set anew for every row.
    window_start: usize,
    window_size: usize,
    /// Number of weights of the current window already handed out.
    window_pos: usize,
}

impl MelScalingMatrixEnumerator {
    /// Number of columns.
    pub closed spec fn input_size(&self) -> int {
        self.input_size as int
    }

    /// Number of rows.
    pub closed spec fn output_size(&self) -> int {
        self.output_size as int
    }

    /// Column of each mel breakpoint.
    pub closed spec fn breakpoints(&self) -> Seq<usize> {
        self.breakpoints@
    }

    /// Row of the cursor.
    pub closed spec fn row_index(&self) -> int {
        self.row_index as int
    }

    /// Column of the cursor; equal to `input_size` just after a row's last cell.
    pub closed spec fn col_index(&self) -> int {
        self.col_index as int
    }

    /// Number of triples handed out so far.
    pub open spec fn emitted(&self) -> int {
        position(self.input_size(), self.row_index(), self.col_index())
    }

    /// Number of cells of the whole matrix.
    pub open spec fn total(&self) -> int {
        self.input_size() * self.output_size()
    }

    /// Column at which the prepared window starts.
    pub closed spec fn window_start(&self) -> int {
        self.window_start as int
    }

    /// Number of weights of the prepared window.
    pub closed spec fn window_size(&self) -> int {
        self.window_size as int
    }

    /// Number of weights of the prepared window already handed out.
    pub closed spec fn window_pos(&self) -> int {
        self.window_pos as int
    }

    /// Until the cursor has left the last row, the prepared window is the
    /// one of the cursor's row, and as many of its weights are handed out as
    /// the cursor has passed.
    pub open spec fn window_prepared(&self) -> bool {
        self.row_index() < self.output_size() ==> {
            &&& self.window_start() == row_window_start(self.breakpoints(), self.row_index())
            &&& self.window_size() == row_window_length(self.breakpoints(), self.row_index())
            &&& self.window_pos() == weights_consumed(
                self.window_start(),
                self.window_size(),
                self.col_index(),
            )
        }
    }

    /// The cursor is inside the matrix, just past the end of a row, or in
    /// the terminal state `(output_size, 0)`.
    pub open spec fn wf(&self) -> bool {
        &&& valid_shape(self.input_size(), self.output_size(), self.breakpoints().len() as int)
        &&& 0 <= self.row_index() <= self.output_size()
        &&& 0 <= self.col_index() <= self.input_size()
        &&& self.row_index() == self.output_size() ==> self.col_index() == 0
        &&& self.window_prepared()
    }

    /// The triples still to come, in the order in which they come.
    pub open spec fn view(&self) -> Seq<(usize, usize, Coefficient)> {
        entries(self.breakpoints(), self.input_size(), self.output_size()).skip(self.emitted())
    }

    /// A well-formed cursor has counted no more cells than the matrix has.
    pub proof fn lemma_emitted_bound(&self)
        requires
            self.wf(),
        ensures
            0 <= self.emitted() <= self.total(),
            self@.len() == self.total() - self.emitted(),
            self.emitted() == self.total() <==> {
                ||| self.row_index() == self.output_size()
                ||| self.row_index() + 1 == self.output_size() && self.col_index()
                    == self.input_size()
            },
    {
        if self.row_index() < self.output_size() {
            lemma_cursor_bound(
                self.input_size(),
                self.output_size(),
                self.row_index(),
                self.col_index(),
            );
            if self.row_index() + 1 < self.output_size() {
                lemma_cursor_bound(
                    self.input_size(),
                    self.output_size(),
                    self.row_index() + 1,
                    0,
                );
            } else {
                assert(self.row_index() * self.input_size() + self.input_size()
                    == self.input_size() * self.output_size()) by (nonlinear_arith)
                    requires
                        self.row_index() + 1 == self.output_size(),
                ;
            }
        } else {
            assert(self.row_index() * self.input_size() == self.input_size() * self.output_size())
                by (nonlinear_arith)
                requires
                    self.row_index() == self.output_size(),
            ;
        }
    }

    /// Whether the sequence is exhausted: the cursor has left the last row
    /// and stands in its terminal state, from which no triple comes.
    ///
    /// Just past the last cell of the last row this is still false; the
    /// pull that finds nothing left moves the cursor into the terminal
    /// state.
    pub fn is_done(&self) -> (done: bool)
        requires
            self.wf(),
        ensures
            done == (self.row_index() == self.output_size()),
            done ==> self@.len() == 0,
    {
        proof {
            self.lemma_emitted_bound();
        }
        self.is_after_last_row()
    }

    /// Whether the cursor has left the last row.
    pub fn is_after_last_row(&self) -> (after: bool)
        ensures
            after == (self.output_size() <= self.row_index()),
    {
        self.output_size <= self.row_index
    }

    /// Whether the cursor has left the last column of its row.
    pub fn is_after_last_col(&self) -> (after: bool)
        ensures
            after == (self.input_size() <= self.col_index()),
    {
        self.input_size <= self.col_index
    }

    /// Number of triples handed out so far.
    pub fn index(&self) -> (count: usize)
        requires
            self.wf(),
        ensures
            count as int == self.emitted(),
            count as int == self.row_index() * self.input_size() + self.col_index(),
    {
        proof {
            self.lemma_emitted_bound();
            assert(0 <= self.row_index() * self.input_size()) by (nonlinear_arith)
                requires
                    0 <= self.row_index(),
                    0 < self.input_size(),
            ;
        }
        self.row_index * self.input_size + self.col_index
    }

    /// Number of triples still to come.
    pub fn remaining(&self) -> (left: usize)
        requires
            self.wf(),
        ensures
            left as int == self.total() - self.emitted(),
            left as int == self@.len(),
    {
        proof {
            self.lemma_emitted_bound();
        }
        self.len() - self.index()
    }

    /// Number of cells of the whole matrix, `input_size * output_size`.
    pub fn len(&self) -> (cells: usize)
        requires
            self.wf(),
        ensures
            cells as int == self.input_size() * self.output_size(),
    {
        self.input_size * self.output_size
    }

    /// Number of weights of the window prepared for the cursor's row.
    pub fn current_window_length(&self) -> (length: usize)
        requires
            self.wf(),
        ensures
            length as int == self.window_size(),
            self.row_index() < self.output_size() ==> length as int == row_window_length(
                self.breakpoints(),
                self.row_index(),
            ),
    {
        self.window_size
    }

    /// Lower and upper bound of the number of triples still to come; the two
    /// agree, since the number is known exactly.
    pub fn size_hint(&self) -> (hint: (usize, Option<usize>))
        requires
            self.wf(),
        ensures
            hint.0 as int == self@.len(),
            hint.1 == Some(hint.0),
    {
        let remaining = self.remaining();
        (remaining, Some(remaining))
    }

    /// Hands out the next triple and moves the cursor one cell on, or
    /// returns `None` once every cell has been handed out.
    ///
    /// On leaving a row the window of the following row is prepared; on
    /// leaving the last row the cursor enters its terminal state and stays
    /// there.
    pub fn next(&mut self) -> (item: Option<(usize, usize, Coefficient)>)
        requires
            old(self).wf(),
        ensures
            final(self).wf(),
            final(self).input_size() == old(self).input_size(),
            final(self).output_size() == old(self).output_size(),
            final(self).breakpoints() == old(self).breakpoints(),
            item is Some <==> old(self)@.len() > 0,
            match item {
                Some(triple) => {
                    &&& triple == old(self)@[0]
                    &&& triple == entry(
                        old(self).breakpoints(),
                        old(self).input_size(),
                        old(self).emitted(),
                    )
                    &&& final(self)@ == old(self)@.drop_first()
                    &&& final(self).emitted() == old(self).emitted() + 1
                    &&& final(self).row_index() == triple.0
                    &&& final(self).col_index() == triple.1 + 1
                },
                None => {
                    &&& final(self)@ == old(self)@
                    &&& final(self).emitted() == old(self).emitted()
                    &&& final(self).row_index() == final(self).output_size()
                    &&& final(self).col_index() == 0
                },
            },
    {
        proof {
            old(self).lemma_emitted_bound();
        }
        if self.is_done() {
            return None;
        }
        if self.is_after_last_col() {
            proof {
                lemma_cursor_bound(
                    self.input_size(),
                    self.output_size(),
                    self.row_index(),
                    self.col_index(),
                );
            }
            self.col_index = 0;
            self.row_index += 1;
            if self.is_after_last_row() {
                return None;
            }
            self.window_start = self.breakpoints[self.row_index];
            let window_end = self.breakpoints[self.row_index + 2];
            self.window_size = window_length(self.window_start, window_end);
            self.window_pos = 0;
        }
        let col = self.col_index;
        let value = if col < self.window_start {
            Coefficient::Zero
        } else if self.window_pos < self.window_size {
            let index = self.window_pos;
            self.window_pos += 1;
            Coefficient::Weight { index, length: self.window_size }
        } else {
            Coefficient::Zero
        };
        self.col_index += 1;
        proof {
            let row = self.row_index();
            lemma_entry_at(self.breakpoints(), self.input_size(), row, col as int);
            lemma_cursor_bound(self.input_size(), self.output_size(), row, col as int);
            assert(self.emitted() == old(self).emitted() + 1);
            assert(final(self)@ =~= old(self)@.drop_first());
        }
        Some((self.row_index, col, value))
    }
}

/// Builds the enumerator of a matrix with `output_size` rows and
/// `input_size` columns from the columns of its mel breakpoints, with the
/// cursor on the first cell and the first row's window prepared.
pub fn enumerate_mel_scaling_matrix_base(
    input_size: usize,
    output_size: usize,
    breakpoints: Vec<usize>,
) -> (enumerator: MelScalingMatrixEnumerator)
    requires
        valid_shape(input_size as int, output_size as int, breakpoints@.len() as int),
    ensures
        enumerator.wf(),
        enumerator.input_size() == input_size,
        enumerator.output_size() == output_size,
        enumerator.breakpoints() == breakpoints@,
        enumerator.row_index() == 0,
        enumerator.col_index() == 0,
        enumerator@ == entries(breakpoints@, input_size as int, output_size as int),
{
    let start_index = breakpoints[0];
    let end_index = breakpoints[2];
    let window_size = window_length(start_index, end_index);
    let enumerator = MelScalingMatrixEnumerator {
        input_size,
        output_size,
        breakpoints,
        row_index: 0,
        col_index: 0,
        window_start: start_index,
        window_size,
        window_pos: 0,
    };
    proof {
        assert(enumerator.emitted() == 0) by (nonlinear_arith)
            requires
                enumerator.row_index() == 0,
                enumerator.col_index() == 0,
                enumerator.emitted() == enumerator.row_index() * enumerator.input_size()
                    + enumerator.col_index(),
        ;
        assert(enumerator@ =~= entries(breakpoints@, input_size as int, output_size as int));
    }
    enumerator
}

/// Tests whether a matrix of this shape can be enumerated.
pub fn shape_is_valid(input_size: usize, output_size: usize, breakpoint_count: usize) -> (valid: bool)
    ensures
        valid == valid_shape(input_size as int, output_size as int, breakpoint_count as int),
{
    if output_size == 0 || output_size >= input_size {
        return false;
    }
    if input_size.checked_mul(output_size).is_none() {
        return false;
    }
    breakpoint_count >= 2 && breakpoint_count - 2 == output_size
}

} // verus!
