use vstd::prelude::*;

verus! {

/// The errors that operations on a matrix can report.
#[derive(PartialEq, Eq, Debug, Clone, Copy, Structural)]
pub enum MatrixError {
    /// A coordinate lies outside the bounds of the matrix.
    IndexOOB,
    /// Flattened data does not have `rows * cols` elements.
    InvalidVecSize,
    /// A requested size has a zero dimension (or an area has reversed corners).
    InvalidSize,
    /// A reshape would change the number of elements.
    ReshapeNotPossible,
    /// A replacement does not have the size of the area it should replace.
    ReplacementMismatch,
    /// Two matrices combined elementwise have different sizes.
    NonMatchingSizes,
}

} // verus!
