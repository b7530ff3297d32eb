//! The integer core of a mel filterbank: which cell of the scaling matrix
//! comes next, and which weight of which triangular window it holds.
//!
//! The matrix has one row per filter and one column per power-spectrum bin.
//! A filter's band is given by the columns of its mel breakpoints; the
//! enumerator walks the matrix row by row and names, for every cell, either
//! zero or a position in the row's window. Turning that position into a real
//! number is left to the caller.

pub mod coefficient;
pub mod enumerator;
pub mod matrix;
pub mod window;

pub use coefficient::Coefficient;
pub use enumerator::enumerate_mel_scaling_matrix_base;
pub use enumerator::shape_is_valid;
pub use enumerator::MelScalingMatrixEnumerator;
pub use window::window_length;
