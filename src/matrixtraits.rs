//! The operation groups of a matrix, each its own trait so that a consumer
//! can depend on only the group it needs. Each states what its methods do
//! over the model of the matrix, a [`Grid`]; `Matrix` implements all four.
use vstd::prelude::*;
use vstd::std_specs::cmp::PartialEqSpec;
use crate::grid::{Grid, cloned_grid, cloned_seq, count_equal, places_of};
use crate::matrix::{Matrix, valid_grid};
use crate::matrixerror::MatrixError;

verus! {

/// `out` is a value that `f` may return when handed `x` and a clone of `y`.
pub open spec fn applied_with<T: Clone, F: Fn(T, T) -> T>(f: F, x: T, y: T, out: T) -> bool {
    exists|c: T| cloned(y, c) && #[trigger] f.ensures((x, c), out)
}

/// `out` is a value that `f` may return when handed a mutable reference to `x`.
pub open spec fn ref_applied<T, F: Fn(&mut T) -> T>(f: F, x: T, out: T) -> bool {
    exists|m: &mut T| *m == x && #[trigger] f.ensures((m,), out)
}

/// `out` is a value that `f` may return when handed a mutable reference to `x`
/// and a reference to `y`.
pub open spec fn ref_applied_with<T, F: Fn(&mut T, &T) -> T>(f: F, x: T, y: T, out: T) -> bool {
    exists|m: &mut T| *m == x && #[trigger] f.ensures((m, &y), out)
}

/// Reading and writing rows, columns and rectangular areas.
pub trait MatrixSlice<T: Clone>: View<V = Grid<T>> + Sized {
    /// A copy of a row, left to right; `IndexOOB` when there is no such row.
    fn get_row(&self, row: usize) -> (r: Result<Vec<T>, MatrixError>)
        ensures
            row < self@.rows ==> (r matches Ok(v) && cloned_seq(self@.row(row as int), v@)),
            row >= self@.rows ==> r == Err::<Vec<T>, MatrixError>(MatrixError::IndexOOB),
    ;

    /// A copy of a column, top to bottom; `IndexOOB` when there is no such
    /// column.
    fn get_col(&self, col: usize) -> (r: Result<Vec<T>, MatrixError>)
        ensures
            col < self@.cols ==> (r matches Ok(v) && cloned_seq(self@.col(col as int), v@)),
            col >= self@.cols ==> r == Err::<Vec<T>, MatrixError>(MatrixError::IndexOOB),
    ;

    /// A copy of the area with inclusive corners (`row_1`, `col_1`) and
    /// (`row_2`, `col_2`). Corners out of order give `InvalidSize`; an area
    /// that reaches outside the matrix gives `IndexOOB`.
    fn get_area(&self, row_1: usize, col_1: usize, row_2: usize, col_2: usize) -> (r: Result<Matrix<T>, MatrixError>)
        ensures
            row_2 < row_1 || col_2 < col_1 ==> r == Err::<Matrix<T>, MatrixError>(MatrixError::InvalidSize),
            row_1 <= row_2 && col_1 <= col_2 && !(row_2 < self@.rows && col_2 < self@.cols)
                ==> r == Err::<Matrix<T>, MatrixError>(MatrixError::IndexOOB),
            row_1 <= row_2 < self@.rows && col_1 <= col_2 < self@.cols ==> (r matches Ok(m)
                && valid_grid(m@) && cloned_grid(self@.area(row_1 as int, col_1 as int, row_2 as int, col_2 as int), m@)),
    ;

    /// Writes `replacement` over the area with inclusive corners
    /// (`row_1`, `col_1`) and (`row_2`, `col_2`). A replacement of another
    /// size than the area (or corners out of order) gives
    /// `ReplacementMismatch`, an area that reaches outside the matrix gives
    /// `IndexOOB`; either way nothing is written.
    fn replace_area(
        &mut self,
        row_1: usize,
        col_1: usize,
        row_2: usize,
        col_2: usize,
        replacement: Matrix<T>,
    ) -> (r: Result<(), MatrixError>)
        ensures
            !replacement@.spans(row_1 as int, col_1 as int, row_2 as int, col_2 as int)
                ==> r == Err::<(), MatrixError>(MatrixError::ReplacementMismatch) && final(self)@ == old(self)@,
            replacement@.spans(row_1 as int, col_1 as int, row_2 as int, col_2 as int)
                && !(row_2 < old(self)@.rows && col_2 < old(self)@.cols)
                ==> r == Err::<(), MatrixError>(MatrixError::IndexOOB) && final(self)@ == old(self)@,
            replacement@.spans(row_1 as int, col_1 as int, row_2 as int, col_2 as int)
                && row_2 < old(self)@.rows && col_2 < old(self)@.cols
                ==> r is Ok && final(self)@ == old(self)@.with_area(row_1 as int, col_1 as int, replacement@),
    ;
}

/// Changes of shape and order.
pub trait MatrixTransform<T>: View<V = Grid<T>> + Sized {
    /// The same cells in the same row-major order under new dimensions;
    /// `ReshapeNotPossible` when the number of cells would change.
    fn reshape(self, rows: usize, cols: usize) -> (r: Result<Matrix<T>, MatrixError>)
        ensures
            rows * cols == self@.rows * self@.cols ==> (r matches Ok(m) && valid_grid(m@)
                && m@ == self@.reshaped(rows as nat, cols as nat)),
            rows * cols != self@.rows * self@.cols ==> r == Err::<Matrix<T>, MatrixError>(MatrixError::ReshapeNotPossible),
    ;

    /// Rows become columns.
    fn transpose(self) -> (r: Matrix<T>)
        ensures
            valid_grid(r@),
            r@ == self@.transposed(),
    ;

    /// Reverses the order of the rows.
    fn flip_hor(&mut self)
        ensures
            final(self)@ == old(self)@.flipped_rows(),
    ;

    /// Reverses the order of the columns.
    fn flip_vert(&mut self)
        ensures
            final(self)@ == old(self)@.flipped_cols(),
    ;
}

/// Linear search for an entry. What is found is stated for element types
/// whose `==` follows its specification (`obeys_eq_spec`), as the integers'
/// does.
pub trait MatrixSearch<T: PartialEq>: View<V = Grid<T>> + Sized {
    /// Whether some cell equals `entry`.
    fn has(&self, entry: T) -> (r: bool)
        ensures
            T::obeys_eq_spec() ==> (r <==> exists|i: int| 0 <= i < self@.cells.len() && (#[trigger] self@.cells[i]).eq_spec(&entry)),
    ;

    /// How many cells equal `entry`.
    fn count(&self, entry: T) -> (r: usize)
        ensures
            T::obeys_eq_spec() ==> r == count_equal(self@.cells, entry),
    ;

    /// The (row, col) places of the cells equal to `entry`, in row-major order.
    fn get_indices_of(&self, entry: T) -> (r: Vec<(usize, usize)>)
        ensures
            T::obeys_eq_spec() ==> r@ == places_of(self@, entry, self@.cells.len() as int),
    ;
}

/// Elementwise application of a function, cell by cell in row-major order.
pub trait MatrixExec<T: Clone>: View<V = Grid<T>> + Sized {
    /// Replaces each cell by `closure` of it.
    fn apply<F>(&mut self, closure: F) where F: Fn(T) -> T
        requires
            forall|x: T| closure.requires((x,)),
        ensures
            final(self)@.same_size(old(self)@),
            forall|i: int| 0 <= i < old(self)@.cells.len()
                ==> closure.ensures((old(self)@.cells[i],), #[trigger] final(self)@.cells[i]),
    ;

    /// Replaces each cell by `closure` of it and a copy of the cell in the same
    /// place of `other`; `NonMatchingSizes`, with nothing changed, when the
    /// sizes differ.
    fn apply_with<F>(&mut self, other: &Matrix<T>, closure: F) -> (r: Result<(), MatrixError>) where
        F: Fn(T, T) -> T,
        requires
            forall|x: T, y: T| closure.requires((x, y)),
        ensures
            !old(self)@.same_size(other@) ==> r == Err::<(), MatrixError>(MatrixError::NonMatchingSizes)
                && final(self)@ == old(self)@,
            old(self)@.same_size(other@) ==> r is Ok && final(self)@.same_size(old(self)@)
                && forall|i: int| 0 <= i < old(self)@.cells.len()
                    ==> applied_with(closure, old(self)@.cells[i], other@.cells[i], #[trigger] final(self)@.cells[i]),
    ;

    /// Replaces each cell by what `closure` returns when handed the cell itself.
    fn ref_apply<F>(&mut self, closure: F) where F: Fn(&mut T) -> T
        requires
            forall|x: &mut T| closure.requires((x,)),
        ensures
            final(self)@.same_size(old(self)@),
            forall|i: int| 0 <= i < old(self)@.cells.len()
                ==> ref_applied(closure, old(self)@.cells[i], #[trigger] final(self)@.cells[i]),
    ;

    /// Replaces each cell by what `closure` returns when handed the cell itself
    /// and the cell in the same place of `other`; `NonMatchingSizes`, with
    /// nothing changed, when the sizes differ.
    fn ref_apply_with<F>(&mut self, other: &Matrix<T>, closure: F) -> (r: Result<(), MatrixError>) where
        F: Fn(&mut T, &T) -> T,
        requires
            forall|x: &mut T, y: &T| closure.requires((x, y)),
        ensures
            !old(self)@.same_size(other@) ==> r == Err::<(), MatrixError>(MatrixError::NonMatchingSizes)
                && final(self)@ == old(self)@,
            old(self)@.same_size(other@) ==> r is Ok && final(self)@.same_size(old(self)@)
                && forall|i: int| 0 <= i < old(self)@.cells.len()
                    ==> ref_applied_with(closure, old(self)@.cells[i], other@.cells[i], #[trigger] final(self)@.cells[i]),
    ;
}

} // verus!
