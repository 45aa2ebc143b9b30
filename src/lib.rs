//! A generic two-dimensional dense matrix with bounds-checked access, slicing,
//! transformations, search and elementwise application.
//!
//! [`matrix::Matrix`] is the full matrix, addressed by (row, col). The
//! [`Matrix`] at the crate root is a minimal grid addressed by (x, y), where
//! x is the column and y the row.

pub mod grid;
pub mod matrix;
pub mod matrixbuilder;
pub mod matrixerror;
pub mod matrixtraits;
pub mod render;

use vstd::prelude::*;
use crate::grid::{Grid, lemma_index_in_range};
use crate::matrix::lemma_len_fits;

verus! {

/// A `width` by `height` grid stored row by row: the cell at (x, y) lives at
/// `y * width + x` of the backing vector.
pub struct Matrix<T> {
    fields: Vec<T>,
    width: usize,
    height: usize,
}

impl<T> View for Matrix<T> {
    type V = Grid<T>;

    /// Rows are the y coordinate, columns the x coordinate.
    closed spec fn view(&self) -> Grid<T> {
        Grid { rows: self.height as nat, cols: self.width as nat, cells: self.fields@ }
    }
}

impl<T> Matrix<T> {
    #[verifier::type_invariant]
    closed spec fn inv(self) -> bool {
        self.fields@.len() == self.height * self.width
    }
}

impl<T: Clone> Matrix<T> {
    /// A `width` by `height` grid with every cell a clone of `default`.
    pub fn new(width: usize, height: usize, default: T) -> (r: Matrix<T>)
        requires
            width * height <= usize::MAX,
        ensures
            r@.wf(),
            r@.cols == width,
            r@.rows == height,
            forall|i: int| 0 <= i < r@.cells.len() ==> cloned(default, #[trigger] r@.cells[i]),
    {
        let size: usize = width * height;
        let mut vec: Vec<T> = Vec::with_capacity(size);
        let mut i: usize = 0;
        while i < size
            invariant
                i <= size,
                vec@.len() == i,
                forall|k: int| 0 <= k < i ==> cloned(default, #[trigger] vec@[k]),
            decreases size - i,
        {
            vec.push(default.clone());
            i = i + 1;
        }
        proof {
            assert(size == height * width) by (nonlinear_arith)
                requires
                    size == width * height,
            ;
        }
        Matrix { fields: vec, width, height }
    }

    /// The size as (width, height).
    pub fn bounds(&self) -> (r: (usize, usize))
        ensures
            r.0 == self@.cols,
            r.1 == self@.rows,
    {
        (self.width, self.height)
    }

    /// The number of columns.
    pub fn width(&self) -> (r: usize)
        ensures
            r == self@.cols,
    {
        self.width
    }

    /// The number of rows.
    pub fn height(&self) -> (r: usize)
        ensures
            r == self@.rows,
    {
        self.height
    }

    /// The cell at column `x`, row `y`, if it lies inside the grid.
    pub fn get(&self, x: usize, y: usize) -> (r: Option<&T>)
        ensures
            self@.in_bounds(y as int, x as int) ==> (r matches Some(v) && *v == self@.at(y as int, x as int)),
            !self@.in_bounds(y as int, x as int) ==> r is None,
    {
        if !self.check_bounds(x, y) {
            return None;
        }
        let index = self.map_coord(x, y);
        Some(&self.fields[index])
    }

    /// Writes `val` at column `x`, row `y`; reports whether that place lies
    /// inside the grid, and changes nothing when it does not.
    pub fn set(&mut self, x: usize, y: usize, val: T) -> (r: bool)
        ensures
            r == old(self)@.in_bounds(y as int, x as int),
            r ==> final(self)@ == old(self)@.update(y as int, x as int, val),
            !r ==> final(self)@ == old(self)@,
    {
        proof {
            use_type_invariant(&*self);
        }
        if !self.check_bounds(x, y) {
            return false;
        }
        let index = self.map_coord(x, y);
        self.fields[index] = val;
        true
    }

    /// The cells in row-major order.
    pub fn fields(&self) -> (r: &Vec<T>)
        ensures
            r@ == self@.cells,
    {
        &self.fields
    }

    /// The place of (`x`, `y`) in the backing vector.
    fn map_coord(&self, x: usize, y: usize) -> (r: usize)
        requires
            self@.in_bounds(y as int, x as int),
        ensures
            r == self@.index_of(y as int, x as int),
            r < self@.cells.len(),
    {
        proof {
            use_type_invariant(self);
            lemma_len_fits(&self.fields);
            lemma_index_in_range(self.height as nat, self.width as nat, y as int, x as int);
        }
        y * self.width + x
    }

    /// Whether (`x`, `y`) lies inside the grid.
    pub fn check_bounds(&self, x: usize, y: usize) -> (r: bool)
        ensures
            r == self@.in_bounds(y as int, x as int),
    {
        x < self.width && y < self.height
    }
}

} // verus!
