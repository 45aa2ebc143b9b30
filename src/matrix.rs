use vstd::prelude::*;
use vstd::std_specs::cmp::PartialEqSpec;
use vstd::std_specs::iter::IteratorSpec;
use crate::grid::{
    Grid, cloned_grid, count_equal, places_of, lemma_from_fn, lemma_grid_ext, lemma_index_in_range,
    lemma_index_injective, lemma_swapped_at,
};
use crate::matrixerror::MatrixError;
use crate::matrixtraits::{
    MatrixExec, MatrixSearch, MatrixSlice, MatrixTransform, applied_with, ref_applied, ref_applied_with,
};

verus! {

/// A dense matrix stored row-major: the element at (row, col) lives at
/// `row * columns + col` of the backing vector. Both dimensions are at least 1.
#[derive(Debug)]
pub struct Matrix<T> {
    columns: usize,
    rows: usize,
    fields: Vec<T>,
}

impl<T> View for Matrix<T> {
    type V = Grid<T>;

    closed spec fn view(&self) -> Grid<T> {
        Grid { rows: self.rows as nat, cols: self.columns as nat, cells: self.fields@ }
    }
}

/// A valid matrix model: no zero dimension, and exactly `rows * cols` cells.
pub open spec fn valid_grid<T>(g: Grid<T>) -> bool {
    &&& g.rows > 0
    &&& g.cols > 0
    &&& g.wf()
}

/// A vector never holds more than `usize::MAX` elements.
pub(crate) proof fn lemma_len_fits<A>(v: &Vec<A>)
    ensures
        v@.len() <= usize::MAX,
{
    broadcast use vstd::std_specs::vec::axiom_spec_len;
    assert(v@.len() == vstd::std_specs::vec::spec_vec_len(v));
}

/// The model of a result that holds a matrix.
pub open spec fn grid_result<T>(r: Result<Matrix<T>, MatrixError>) -> Result<Grid<T>, MatrixError> {
    match r {
        Ok(m) => Ok(m@),
        Err(e) => Err(e),
    }
}

/// What adopting `cells` as a `rows` by `cols` matrix gives.
pub open spec fn adopted<T>(cells: Seq<T>, rows: int, cols: int) -> Result<Grid<T>, MatrixError> {
    if cells.len() != rows * cols {
        Err(MatrixError::InvalidVecSize)
    } else if rows == 0 || cols == 0 {
        Err(MatrixError::InvalidSize)
    } else {
        Ok(Grid { rows: rows as nat, cols: cols as nat, cells })
    }
}

/// `g` is a valid `rows` by `cols` grid whose every cell is a clone of `v`.
pub open spec fn filled_with<T: Clone>(g: Grid<T>, rows: int, cols: int, v: T) -> bool {
    &&& valid_grid(g)
    &&& g.rows == rows
    &&& g.cols == cols
    &&& forall|i: int| 0 <= i < g.cells.len() ==> cloned(v, #[trigger] g.cells[i])
}

impl<T> Matrix<T> {
    #[verifier::type_invariant]
    closed spec fn inv(self) -> bool {
        &&& self.rows > 0
        &&& self.columns > 0
        &&& self.fields@.len() == self.rows * self.columns
    }
}

impl<T: Clone> Matrix<T> {
    /// A `rows` by `cols` matrix with every cell a clone of `default`.
    pub fn new(rows: usize, cols: usize, default: T) -> (r: Result<Matrix<T>, MatrixError>)
        requires
            rows * cols <= usize::MAX,
        ensures
            rows == 0 || cols == 0 ==> r == Err::<Matrix<T>, MatrixError>(MatrixError::InvalidSize),
            rows > 0 && cols > 0 ==> (r matches Ok(m) && filled_with(m@, rows as int, cols as int, default)),
    {
        if rows == 0 || cols == 0 {
            return Err(MatrixError::InvalidSize);
        }
        let vecsize: usize = rows * cols;
        let mut fields: Vec<T> = Vec::with_capacity(vecsize);
        let mut i: usize = 0;
        while i < vecsize
            invariant
                i <= vecsize,
                fields@.len() == i,
                forall|k: int| 0 <= k < i ==> cloned(default, #[trigger] fields@[k]),
            decreases vecsize - i,
        {
            fields.push(default.clone());
            i = i + 1;
        }
        Ok(Matrix { columns: cols, rows, fields })
    }
}

impl<T> Matrix<T> {
    /// Takes `vector` as the row-major cells of a `rows` by `cols` matrix.
    pub fn from_vec(vector: Vec<T>, rows: usize, cols: usize) -> (r: Result<Matrix<T>, MatrixError>)
        ensures
            grid_result(r) == adopted(vector@, rows as int, cols as int),
            r matches Ok(m) ==> valid_grid(m@),
    {
        let len = vector.len();
        match rows.checked_mul(cols) {
            Some(size) => {
                if len != size {
                    return Err(MatrixError::InvalidVecSize);
                }
            },
            None => {
                return Err(MatrixError::InvalidVecSize);
            },
        }
        if rows == 0 || cols == 0 {
            return Err(MatrixError::InvalidSize);
        }
        Ok(Matrix { columns: cols, rows, fields: vector })
    }

    /// The number of columns.
    pub fn get_col_count(&self) -> (r: usize)
        ensures
            r == self@.cols,
    {
        self.columns
    }

    /// The number of rows.
    pub fn get_row_count(&self) -> (r: usize)
        ensures
            r == self@.rows,
    {
        self.rows
    }

    /// The size as (rows, columns).
    pub fn get_size(&self) -> (r: (usize, usize))
        ensures
            r.0 == self@.rows,
            r.1 == self@.cols,
    {
        (self.rows, self.columns)
    }

    /// Whether (`row`, `col`) lies inside the matrix.
    pub fn is_valid_index(&self, row: usize, col: usize) -> (r: bool)
        ensures
            r == self@.in_bounds(row as int, col as int),
    {
        row < self.rows && col < self.columns
    }

    /// The number of cells, `rows * columns`.
    pub fn get_element_count(&self) -> (r: usize)
        ensures
            r == self@.rows * self@.cols,
            r == self@.cells.len(),
    {
        proof {
            use_type_invariant(self);
        }
        self.fields.len()
    }

    /// Whether `self` and `other` have the same dimensions.
    pub fn has_same_size(&self, other: &Matrix<T>) -> (r: bool)
        ensures
            r == self@.same_size(other@),
    {
        self.rows == other.rows && self.columns == other.columns
    }

    /// The place of (`row`, `col`) in the backing vector.
    fn index_of(&self, row: usize, col: usize) -> (r: usize)
        requires
            self@.in_bounds(row as int, col as int),
        ensures
            r == self@.index_of(row as int, col as int),
            r < self@.cells.len(),
    {
        proof {
            use_type_invariant(self);
            lemma_len_fits(&self.fields);
            lemma_index_in_range(self.rows as nat, self.columns as nat, row as int, col as int);
        }
        row * self.columns + col
    }

    /// A reference to the cell at (`row`, `col`).
    pub fn get_ref(&self, row: usize, col: usize) -> (r: Result<&T, MatrixError>)
        ensures
            self@.in_bounds(row as int, col as int) ==> (r matches Ok(v) && *v == self@.at(row as int, col as int)),
            !self@.in_bounds(row as int, col as int) ==> r == Err::<&T, MatrixError>(MatrixError::IndexOOB),
    {
        if !self.is_valid_index(row, col) {
            return Err(MatrixError::IndexOOB);
        }
        let index = self.index_of(row, col);
        Ok(&self.fields[index])
    }

    /// A mutable reference to the cell at (`row`, `col`).
    pub fn get_mut_ref(&mut self, row: usize, col: usize) -> (r: Result<&mut T, MatrixError>)
        ensures
            old(self)@.in_bounds(row as int, col as int) ==> (r matches Ok(e) && *e == old(self)@.at(row as int, col as int)
                && final(self)@ == old(self)@.update(row as int, col as int, *final(e))),
            !old(self)@.in_bounds(row as int, col as int) ==> r == Err::<&mut T, MatrixError>(MatrixError::IndexOOB)
                && final(self)@ == old(self)@,
    {
        proof {
            use_type_invariant(&*self);
        }
        if !self.is_valid_index(row, col) {
            return Err(MatrixError::IndexOOB);
        }
        let index = self.index_of(row, col);
        Ok(&mut self.fields[index])
    }

    /// Writes `value` into the cell at (`row`, `col`).
    pub fn set(&mut self, row: usize, col: usize, value: T) -> (r: Result<(), MatrixError>)
        ensures
            valid_grid(final(self)@),
            old(self)@.in_bounds(row as int, col as int) ==> r is Ok
                && final(self)@ == old(self)@.update(row as int, col as int, value),
            !old(self)@.in_bounds(row as int, col as int) ==> r == Err::<(), MatrixError>(MatrixError::IndexOOB)
                && final(self)@ == old(self)@,
    {
        proof {
            use_type_invariant(&*self);
        }
        if !self.is_valid_index(row, col) {
            return Err(MatrixError::IndexOOB);
        }
        let index = self.index_of(row, col);
        self.fields[index] = value;
        Ok(())
    }
}

impl<T: Clone> Matrix<T> {
    /// A clone of the cell at (`row`, `col`).
    pub fn get(&self, row: usize, col: usize) -> (r: Result<T, MatrixError>)
        ensures
            self@.in_bounds(row as int, col as int) ==> (r matches Ok(v) && cloned(self@.at(row as int, col as int), v)),
            !self@.in_bounds(row as int, col as int) ==> r == Err::<T, MatrixError>(MatrixError::IndexOOB),
    {
        if !self.is_valid_index(row, col) {
            return Err(MatrixError::IndexOOB);
        }
        let index = self.index_of(row, col);
        Ok(self.fields[index].clone())
    }

    /// Exchanges the cells at (`row_1`, `col_1`) and (`row_2`, `col_2`); when
    /// either lies outside the matrix, nothing changes.
    pub fn swap(&mut self, row_1: usize, col_1: usize, row_2: usize, col_2: usize) -> (r: Result<(), MatrixError>)
        ensures
            valid_grid(final(self)@),
            old(self)@.in_bounds(row_1 as int, col_1 as int) && old(self)@.in_bounds(row_2 as int, col_2 as int)
                ==> r is Ok && final(self)@ == old(self)@.swapped(row_1 as int, col_1 as int, row_2 as int, col_2 as int),
            !(old(self)@.in_bounds(row_1 as int, col_1 as int) && old(self)@.in_bounds(row_2 as int, col_2 as int))
                ==> r == Err::<(), MatrixError>(MatrixError::IndexOOB) && final(self)@ == old(self)@,
    {
        proof {
            use_type_invariant(&*self);
        }
        if !self.is_valid_index(row_1, col_1) || !self.is_valid_index(row_2, col_2) {
            return Err(MatrixError::IndexOOB);
        }
        let i = self.index_of(row_1, col_1);
        let j = self.index_of(row_2, col_2);
        if i == j {
            proof {
                assert(self@.swapped(row_1 as int, col_1 as int, row_2 as int, col_2 as int).cells =~= self@.cells);
            }
            return Ok(());
        }
        // A clone holds the first place while the two values change places.
        let mut held = self.fields[i].clone();
        std::mem::swap(&mut self.fields[i], &mut held);
        std::mem::swap(&mut self.fields[j], &mut held);
        self.fields[i] = held;
        proof {
            assert(self@.cells =~= old(self)@.swapped(row_1 as int, col_1 as int, row_2 as int, col_2 as int).cells);
        }
        Ok(())
    }
}

impl<T: Clone> Clone for Matrix<T> {
    /// A matrix of the same size whose cells are clones of these.
    fn clone(&self) -> (r: Matrix<T>)
        ensures
            cloned_grid(self@, r@),
    {
        proof {
            use_type_invariant(self);
        }
        let r = Matrix { columns: self.columns, rows: self.rows, fields: self.fields.clone() };
        proof {
            assert forall|i: int, j: int| self@.in_bounds(i, j) implies cloned(self@.at(i, j), #[trigger] r@.at(i, j)) by {
                lemma_index_in_range(self@.rows, self@.cols, i, j);
            }
        }
        r
    }
}

/// Two matrices are equal when they have the same size and their cells are
/// equal place by place.
impl<T: PartialEq> PartialEq for Matrix<T> {
    fn eq(&self, other: &Matrix<T>) -> (r: bool) {
        self.rows == other.rows && self.columns == other.columns && self.fields == other.fields
    }
}

impl<T: PartialEq> vstd::std_specs::cmp::PartialEqSpecImpl for Matrix<T> {
    open spec fn obeys_eq_spec() -> bool {
        T::obeys_eq_spec()
    }

    open spec fn eq_spec(&self, other: &Matrix<T>) -> bool {
        &&& self@.same_size(other@)
        &&& self@.cells.len() == other@.cells.len()
        &&& forall|i: int| 0 <= i < self@.cells.len() ==> (#[trigger] self@.cells[i]).eq_spec(&other@.cells[i])
    }
}

impl<T> IntoIterator for Matrix<T> {
    type Item = T;

    type IntoIter = std::vec::IntoIter<T>;

    /// The cells, moved out in row-major order.
    fn into_iter(self) -> (r: std::vec::IntoIter<T>)
        ensures
            r.remaining() == self@.cells,
    {
        broadcast use vstd::std_specs::vec::axiom_spec_into_iter;
        self.fields.into_iter()
    }
}

impl<T: Clone> MatrixSlice<T> for Matrix<T> {
    fn get_row(&self, row: usize) -> (r: Result<Vec<T>, MatrixError>) {
        if row >= self.rows {
            return Err(MatrixError::IndexOOB);
        }
        let mut result: Vec<T> = Vec::new();
        let mut col: usize = 0;
        while col < self.columns
            invariant
                row < self@.rows,
                col <= self@.cols,
                result@.len() == col,
                forall|j: int| 0 <= j < col ==> cloned(self@.at(row as int, j), #[trigger] result@[j]),
            decreases self@.cols - col,
        {
            let index = self.index_of(row, col);
            result.push(self.fields[index].clone());
            col = col + 1;
        }
        Ok(result)
    }

    fn get_col(&self, col: usize) -> (r: Result<Vec<T>, MatrixError>) {
        if col >= self.columns {
            return Err(MatrixError::IndexOOB);
        }
        let mut result: Vec<T> = Vec::new();
        let mut row: usize = 0;
        while row < self.rows
            invariant
                col < self@.cols,
                row <= self@.rows,
                result@.len() == row,
                forall|i: int| 0 <= i < row ==> cloned(self@.at(i, col as int), #[trigger] result@[i]),
            decreases self@.rows - row,
        {
            let index = self.index_of(row, col);
            result.push(self.fields[index].clone());
            row = row + 1;
        }
        Ok(result)
    }

    fn get_area(&self, row_1: usize, col_1: usize, row_2: usize, col_2: usize) -> (r: Result<Matrix<T>, MatrixError>) {
        proof {
            use_type_invariant(self);
        }
        if row_2 < row_1 || col_2 < col_1 {
            return Err(MatrixError::InvalidSize);
        }
        if row_2 >= self.rows || col_2 >= self.columns {
            return Err(MatrixError::IndexOOB);
        }
        let ghost g = self@;
        let new_rows: usize = row_2 - row_1 + 1;
        let new_cols: usize = col_2 - col_1 + 1;
        let mut vals: Vec<T> = Vec::new();
        let mut row: usize = row_1;
        while row <= row_2
            invariant
                g == self@,
                valid_grid(g),
                row_1 <= row <= row_2 + 1,
                row_2 < g.rows,
                col_1 <= col_2 < g.cols,
                new_cols == col_2 - col_1 + 1,
                vals@.len() == (row - row_1) * new_cols,
                forall|i: int, j: int| 0 <= i < row - row_1 && 0 <= j < new_cols
                    ==> cloned(g.at(row_1 + i, col_1 + j), #[trigger] vals@[i * new_cols + j]),
            decreases row_2 + 1 - row,
        {
            let mut col: usize = col_1;
            let ghost done = vals@.len();
            while col <= col_2
                invariant
                    g == self@,
                    valid_grid(g),
                    row_1 <= row <= row_2,
                    row_2 < g.rows,
                    col_1 <= col <= col_2 + 1,
                    col_2 < g.cols,
                    new_cols == col_2 - col_1 + 1,
                    done == (row - row_1) * new_cols,
                    vals@.len() == done + (col - col_1),
                    forall|i: int, j: int| 0 <= i < row - row_1 && 0 <= j < new_cols
                        ==> cloned(g.at(row_1 + i, col_1 + j), #[trigger] vals@[i * new_cols + j]),
                    forall|j: int| 0 <= j < col - col_1 ==> cloned(g.at(row as int, col_1 + j), #[trigger] vals@[done + j]),
                decreases col_2 + 1 - col,
            {
                let index = self.index_of(row, col);
                let ghost before = vals@;
                vals.push(self.fields[index].clone());
                proof {
                    assert forall|i: int, j: int| 0 <= i < row - row_1 && 0 <= j < new_cols
                        implies cloned(g.at(row_1 + i, col_1 + j), #[trigger] vals@[i * new_cols + j]) by {
                        lemma_index_in_range((row - row_1) as nat, new_cols as nat, i, j);
                        assert(vals@[i * new_cols + j] == before[i * new_cols + j]);
                    }
                    assert forall|j: int| 0 <= j < col + 1 - col_1
                        implies cloned(g.at(row as int, col_1 + j), #[trigger] vals@[done + j]) by {
                        if j < col - col_1 {
                            assert(vals@[done + j] == before[done + j]);
                        }
                    }
                }
                col = col + 1;
            }
            proof {
                assert(vals@.len() == (row + 1 - row_1) * new_cols) by (nonlinear_arith)
                    requires
                        vals@.len() == (row - row_1) * new_cols + new_cols,
                ;
                assert forall|i: int, j: int| 0 <= i < row + 1 - row_1 && 0 <= j < new_cols
                    implies cloned(g.at(row_1 + i, col_1 + j), #[trigger] vals@[i * new_cols + j]) by {
                    if i == row - row_1 {
                        assert(vals@[i * new_cols + j] == vals@[done + j]);
                    }
                }
            }
            row = row + 1;
        }
        let ghost area = g.area(row_1 as int, col_1 as int, row_2 as int, col_2 as int);
        proof {
            lemma_from_fn(area.rows, area.cols, |r: int, c: int| g.at(row_1 + r, col_1 + c));
            assert(vals@.len() == new_rows * new_cols);
        }
        let m = Matrix { columns: new_cols, rows: new_rows, fields: vals };
        proof {
            assert forall|r: int, c: int| area.in_bounds(r, c) implies cloned(area.at(r, c), #[trigger] m@.at(r, c)) by {
            }
        }
        Ok(m)
    }

    fn replace_area(
        &mut self,
        row_1: usize,
        col_1: usize,
        row_2: usize,
        col_2: usize,
        replacement: Matrix<T>,
    ) -> (r: Result<(), MatrixError>)
        ensures
            valid_grid(final(self)@),
    {
        proof {
            use_type_invariant(&*self);
            use_type_invariant(&replacement);
        }
        if row_2 < row_1 || col_2 < col_1 || row_2 - row_1 != replacement.rows - 1
            || col_2 - col_1 != replacement.columns - 1 {
            return Err(MatrixError::ReplacementMismatch);
        }
        if row_2 >= self.rows || col_2 >= self.columns {
            return Err(MatrixError::IndexOOB);
        }
        let ghost g = self@;
        let ghost rep = replacement@;
        let Matrix { columns: rep_cols, rows: rep_rows, fields: mut rep_fields } = replacement;
        let mut k: usize = 0;
        let mut i: usize = 0;
        while i < rep_rows
            invariant
                valid_grid(g),
                valid_grid(rep),
                rep.spans(row_1 as int, col_1 as int, row_2 as int, col_2 as int),
                row_2 < g.rows,
                col_2 < g.cols,
                rep_rows == rep.rows,
                rep_cols == rep.cols,
                i <= rep_rows,
                k == i * rep_cols,
                rep_fields@.len() == rep.cells.len(),
                forall|q: int| k <= q < rep.cells.len() ==> #[trigger] rep_fields@[q] == rep.cells[q],
                valid_grid(self@),
                self@.same_size(g),
                forall|r: int, c: int| #[trigger] g.in_bounds(r, c) ==> self@.at(r, c) == (
                    if row_1 <= r < row_1 + i && col_1 <= c < col_1 + rep_cols {
                        rep.at(r - row_1, c - col_1)
                    } else {
                        g.at(r, c)
                    }),
            decreases rep_rows - i,
        {
            let mut j: usize = 0;
            while j < rep_cols
                invariant
                    valid_grid(g),
                    valid_grid(rep),
                    rep.spans(row_1 as int, col_1 as int, row_2 as int, col_2 as int),
                    row_2 < g.rows,
                    col_2 < g.cols,
                    rep_rows == rep.rows,
                    rep_cols == rep.cols,
                    i < rep_rows,
                    j <= rep_cols,
                    k == i * rep_cols + j,
                    rep_fields@.len() == rep.cells.len(),
                    forall|q: int| k <= q < rep.cells.len() ==> #[trigger] rep_fields@[q] == rep.cells[q],
                    valid_grid(self@),
                    self@.same_size(g),
                    forall|r: int, c: int| #[trigger] g.in_bounds(r, c) ==> self@.at(r, c) == (
                        if (row_1 <= r < row_1 + i && col_1 <= c < col_1 + rep_cols)
                            || (r == row_1 + i && col_1 <= c < col_1 + j) {
                            rep.at(r - row_1, c - col_1)
                        } else {
                            g.at(r, c)
                        }),
                decreases rep_cols - j,
            {
                proof {
                    lemma_index_in_range(rep.rows, rep.cols, i as int, j as int);
                    lemma_len_fits(&rep_fields);
                }
                // A clone holds the place while the value itself moves out.
                let mut held = rep_fields[k].clone();
                std::mem::swap(&mut rep_fields[k], &mut held);
                let index = self.index_of(row_1 + i, col_1 + j);
                let ghost before = self@;
                self.fields[index] = held;
                proof {
                    assert forall|r: int, c: int| #[trigger] g.in_bounds(r, c) implies self@.at(r, c) == (
                        if (row_1 <= r < row_1 + i && col_1 <= c < col_1 + rep_cols)
                            || (r == row_1 + i && col_1 <= c < col_1 + j + 1) {
                            rep.at(r - row_1, c - col_1)
                        } else {
                            g.at(r, c)
                        }) by {
                        if r != row_1 + i || c != col_1 + j {
                            lemma_index_in_range(g.rows, g.cols, r, c);
                            if before.index_of(r, c) == index {
                                lemma_index_injective(g.cols, r, c, (row_1 + i) as int, (col_1 + j) as int);
                            }
                            assert(self@.at(r, c) == before.at(r, c));
                        }
                    }
                }
                k = k + 1;
                j = j + 1;
            }
            proof {
                assert(k == (i + 1) * rep_cols) by (nonlinear_arith)
                    requires
                        k == i * rep_cols + rep_cols,
                ;
            }
            i = i + 1;
        }
        proof {
            let f = |r: int, c: int|
                if row_1 <= r < row_1 + rep.rows && col_1 <= c < col_1 + rep.cols {
                    rep.at(r - row_1, c - col_1)
                } else {
                    g.at(r, c)
                };
            lemma_from_fn(g.rows, g.cols, f);
            let target = g.with_area(row_1 as int, col_1 as int, rep);
            assert forall|r: int, c: int| self@.in_bounds(r, c) implies #[trigger] self@.at(r, c) == target.at(r, c) by {
                assert(g.in_bounds(r, c));
            }
            lemma_grid_ext(self@, target);
        }
        Ok(())
    }
}

impl<T: Clone> MatrixTransform<T> for Matrix<T> {
    fn reshape(self, rows: usize, cols: usize) -> (r: Result<Matrix<T>, MatrixError>) {
        proof {
            use_type_invariant(&self);
        }
        let len = self.fields.len();
        match rows.checked_mul(cols) {
            Some(size) => {
                if size != len {
                    return Err(MatrixError::ReshapeNotPossible);
                }
            },
            None => {
                return Err(MatrixError::ReshapeNotPossible);
            },
        }
        proof {
            assert(len > 0) by (nonlinear_arith)
                requires
                    len == self.rows * self.columns,
                    self.rows > 0,
                    self.columns > 0,
            ;
            assert(rows > 0 && cols > 0) by (nonlinear_arith)
                requires
                    rows * cols == len,
                    len > 0,
            ;
        }
        Ok(Matrix { columns: cols, rows, fields: self.fields })
    }

    fn transpose(self) -> (r: Matrix<T>) {
        proof {
            use_type_invariant(&self);
        }
        let ghost g = self@;
        let Matrix { columns, rows, mut fields } = self;
        let mut out: Vec<T> = Vec::new();
        let mut c: usize = 0;
        while c < columns
            invariant
                valid_grid(g),
                rows == g.rows,
                columns == g.cols,
                c <= columns,
                fields@.len() == g.cells.len(),
                out@.len() == c * rows,
                forall|i: int, j: int| 0 <= i < c && 0 <= j < rows ==> #[trigger] out@[i * rows + j] == g.at(j, i),
                forall|r2: int, c2: int| c <= c2 < columns && 0 <= r2 < rows ==> #[trigger] fields@[r2 * columns + c2] == g.at(r2, c2),
            decreases columns - c,
        {
            let mut r: usize = 0;
            while r < rows
                invariant
                    valid_grid(g),
                    rows == g.rows,
                    columns == g.cols,
                    c < columns,
                    r <= rows,
                    fields@.len() == g.cells.len(),
                    out@.len() == c * rows + r,
                    forall|i: int, j: int| 0 <= i < c && 0 <= j < rows ==> #[trigger] out@[i * rows + j] == g.at(j, i),
                    forall|j: int| 0 <= j < r ==> #[trigger] out@[c * rows + j] == g.at(j, c as int),
                    forall|r2: int, c2: int| (c < c2 < columns || (c2 == c && r <= r2)) && 0 <= r2 < rows
                        ==> #[trigger] fields@[r2 * columns + c2] == g.at(r2, c2),
                decreases rows - r,
            {
                proof {
                    lemma_index_in_range(g.rows, g.cols, r as int, c as int);
                    lemma_len_fits(&fields);
                }
                let index: usize = r * columns + c;
                let ghost before_fields = fields@;
                let ghost before_out = out@;
                // A clone holds the place while the value itself moves out.
                let mut held = fields[index].clone();
                std::mem::swap(&mut fields[index], &mut held);
                out.push(held);
                proof {
                    assert forall|i: int, j: int| 0 <= i < c && 0 <= j < rows implies #[trigger] out@[i * rows + j] == g.at(j, i) by {
                        lemma_index_in_range(c as nat, rows as nat, i, j);
                        assert(out@[i * rows + j] == before_out[i * rows + j]);
                    }
                    assert forall|j: int| 0 <= j < r + 1 implies #[trigger] out@[c * rows + j] == g.at(j, c as int) by {
                        if j < r {
                            assert(out@[c * rows + j] == before_out[c * rows + j]);
                        }
                    }
                    assert forall|r2: int, c2: int| (c < c2 < columns || (c2 == c && r + 1 <= r2)) && 0 <= r2 < rows
                        implies #[trigger] fields@[r2 * columns + c2] == g.at(r2, c2) by {
                        lemma_index_in_range(g.rows, g.cols, r2, c2);
                        if r2 * columns + c2 == index {
                            lemma_index_injective(g.cols, r2, c2, r as int, c as int);
                        }
                        assert(fields@[r2 * columns + c2] == before_fields[r2 * columns + c2]);
                    }
                }
                r = r + 1;
            }
            proof {
                assert(out@.len() == (c + 1) * rows) by (nonlinear_arith)
                    requires
                        out@.len() == c * rows + rows,
                ;
                assert forall|i: int, j: int| 0 <= i < c + 1 && 0 <= j < rows implies #[trigger] out@[i * rows + j] == g.at(j, i) by {
                    if i == c {
                        assert(out@[c * rows + j] == g.at(j, c as int));
                    }
                }
            }
            c = c + 1;
        }
        let t = Matrix { columns: rows, rows: columns, fields: out };
        proof {
            assert(out@.len() == columns * rows) by (nonlinear_arith)
                requires
                    out@.len() == c * rows,
                    c == columns,
            ;
            let target = g.transposed();
            lemma_from_fn(g.cols, g.rows, |i: int, j: int| g.at(j, i));
            assert forall|i: int, j: int| t@.in_bounds(i, j) implies #[trigger] t@.at(i, j) == target.at(i, j) by {
                assert(t@.at(i, j) == out@[i * rows + j]);
            }
            lemma_grid_ext(t@, target);
        }
        t
    }

    fn flip_hor(&mut self)
        ensures
            valid_grid(final(self)@),
    {
        proof {
            use_type_invariant(&*self);
        }
        let ghost g = self@;
        let rows = self.rows;
        let cols = self.columns;
        let half: usize = rows / 2;
        let mut i: usize = 0;
        while i < half
            invariant
                valid_grid(g),
                rows == g.rows,
                cols == g.cols,
                half == rows / 2,
                i <= half,
                valid_grid(self@),
                self@.same_size(g),
                forall|r: int, c: int| #[trigger] g.in_bounds(r, c) ==> self@.at(r, c) == (
                    if r < i || r > rows - 1 - i { g.at(rows - 1 - r, c) } else { g.at(r, c) }),
            decreases half - i,
        {
            let mut j: usize = 0;
            while j < cols
                invariant
                    valid_grid(g),
                    rows == g.rows,
                    cols == g.cols,
                    half == rows / 2,
                    i < half,
                    j <= cols,
                    valid_grid(self@),
                    self@.same_size(g),
                    forall|r: int, c: int| #[trigger] g.in_bounds(r, c) ==> self@.at(r, c) == (
                        if r < i || r > rows - 1 - i || ((r == i || r == rows - 1 - i) && c < j) {
                            g.at(rows - 1 - r, c)
                        } else {
                            g.at(r, c)
                        }),
                decreases cols - j,
            {
                let ghost before = self@;
                let _ = self.swap(i, j, rows - 1 - i, j);
                proof {
                    assert forall|r: int, c: int| #[trigger] g.in_bounds(r, c) implies self@.at(r, c) == (
                        if r < i || r > rows - 1 - i || ((r == i || r == rows - 1 - i) && c < j + 1) {
                            g.at(rows - 1 - r, c)
                        } else {
                            g.at(r, c)
                        }) by {
                        assert(g.in_bounds(i as int, j as int));
                        assert(g.in_bounds(rows - 1 - i, j as int));
                        lemma_swapped_at(before, i as int, j as int, rows - 1 - i, j as int, r, c);
                    }
                }
                j = j + 1;
            }
            i = i + 1;
        }
        proof {
            let target = g.flipped_rows();
            lemma_from_fn(g.rows, g.cols, |r: int, c: int| g.at(g.rows - 1 - r, c));
            assert forall|r: int, c: int| self@.in_bounds(r, c) implies #[trigger] self@.at(r, c) == target.at(r, c) by {
                assert(g.in_bounds(r, c));
            }
            lemma_grid_ext(self@, target);
        }
    }

    fn flip_vert(&mut self)
        ensures
            valid_grid(final(self)@),
    {
        proof {
            use_type_invariant(&*self);
        }
        let ghost g = self@;
        let rows = self.rows;
        let cols = self.columns;
        let half: usize = cols / 2;
        let mut j: usize = 0;
        while j < half
            invariant
                valid_grid(g),
                rows == g.rows,
                cols == g.cols,
                half == cols / 2,
                j <= half,
                valid_grid(self@),
                self@.same_size(g),
                forall|r: int, c: int| #[trigger] g.in_bounds(r, c) ==> self@.at(r, c) == (
                    if c < j || c > cols - 1 - j { g.at(r, cols - 1 - c) } else { g.at(r, c) }),
            decreases half - j,
        {
            let mut i: usize = 0;
            while i < rows
                invariant
                    valid_grid(g),
                    rows == g.rows,
                    cols == g.cols,
                    half == cols / 2,
                    j < half,
                    i <= rows,
                    valid_grid(self@),
                    self@.same_size(g),
                    forall|r: int, c: int| #[trigger] g.in_bounds(r, c) ==> self@.at(r, c) == (
                        if c < j || c > cols - 1 - j || ((c == j || c == cols - 1 - j) && r < i) {
                            g.at(r, cols - 1 - c)
                        } else {
                            g.at(r, c)
                        }),
                decreases rows - i,
            {
                let ghost before = self@;
                let _ = self.swap(i, j, i, cols - 1 - j);
                proof {
                    assert forall|r: int, c: int| #[trigger] g.in_bounds(r, c) implies self@.at(r, c) == (
                        if c < j || c > cols - 1 - j || ((c == j || c == cols - 1 - j) && r < i + 1) {
                            g.at(r, cols - 1 - c)
                        } else {
                            g.at(r, c)
                        }) by {
                        assert(g.in_bounds(i as int, j as int));
                        assert(g.in_bounds(i as int, cols - 1 - j));
                        lemma_swapped_at(before, i as int, j as int, i as int, cols - 1 - j, r, c);
                    }
                }
                i = i + 1;
            }
            j = j + 1;
        }
        proof {
            let target = g.flipped_cols();
            lemma_from_fn(g.rows, g.cols, |r: int, c: int| g.at(r, g.cols - 1 - c));
            assert forall|r: int, c: int| self@.in_bounds(r, c) implies #[trigger] self@.at(r, c) == target.at(r, c) by {
                assert(g.in_bounds(r, c));
            }
            lemma_grid_ext(self@, target);
        }
    }
}

impl<T: PartialEq + Clone> MatrixSearch<T> for Matrix<T> {
    fn has(&self, entry: T) -> (r: bool) {
        let mut i: usize = 0;
        while i < self.fields.len()
            invariant
                i <= self@.cells.len(),
                T::obeys_eq_spec() ==> forall|k: int| 0 <= k < i ==> !(#[trigger] self@.cells[k]).eq_spec(&entry),
            decreases self@.cells.len() - i,
        {
            if self.fields[i] == entry {
                return true;
            }
            i = i + 1;
        }
        false
    }

    fn count(&self, entry: T) -> (r: usize) {
        let mut counter: usize = 0;
        let mut i: usize = 0;
        while i < self.fields.len()
            invariant
                i <= self@.cells.len(),
                counter <= i,
                T::obeys_eq_spec() ==> counter == count_equal(self@.cells.take(i as int), entry),
            decreases self@.cells.len() - i,
        {
            proof {
                assert(self@.cells.take(i + 1).drop_last() =~= self@.cells.take(i as int));
            }
            if self.fields[i] == entry {
                counter = counter + 1;
            }
            i = i + 1;
        }
        proof {
            assert(self@.cells.take(i as int) =~= self@.cells);
        }
        counter
    }

    fn get_indices_of(&self, entry: T) -> (r: Vec<(usize, usize)>) {
        proof {
            use_type_invariant(self);
        }
        let ghost g = self@;
        let mut result: Vec<(usize, usize)> = Vec::new();
        let mut row: usize = 0;
        while row < self.rows
            invariant
                g == self@,
                valid_grid(g),
                row <= g.rows,
                T::obeys_eq_spec() ==> result@ == places_of(g, entry, row * g.cols),
            decreases g.rows - row,
        {
            let mut col: usize = 0;
            while col < self.columns
                invariant
                    g == self@,
                    valid_grid(g),
                    row < g.rows,
                    col <= g.cols,
                    T::obeys_eq_spec() ==> result@ == places_of(g, entry, row * g.cols + col),
                decreases g.cols - col,
            {
                let index = self.index_of(row, col);
                proof {
                    vstd::arithmetic::div_mod::lemma_fundamental_div_mod_converse(
                        index as int,
                        g.cols as int,
                        row as int,
                        col as int,
                    );
                }
                if self.fields[index] == entry {
                    result.push((row, col));
                }
                col = col + 1;
            }
            proof {
                assert(row * g.cols + g.cols == (row + 1) * g.cols) by (nonlinear_arith);
            }
            row = row + 1;
        }
        result
    }
}

impl<T: Clone> MatrixExec<T> for Matrix<T> {
    fn apply<F>(&mut self, closure: F) where F: Fn(T) -> T
        ensures
            valid_grid(final(self)@),
    {
        proof {
            use_type_invariant(&*self);
        }
        let ghost g = self@;
        let mut i: usize = 0;
        while i < self.fields.len()
            invariant
                forall|x: T| closure.requires((x,)),
                valid_grid(g),
                valid_grid(self@),
                self@.same_size(g),
                i <= g.cells.len(),
                forall|k: int| 0 <= k < i ==> closure.ensures((g.cells[k],), #[trigger] self@.cells[k]),
                forall|k: int| i <= k < g.cells.len() ==> #[trigger] self@.cells[k] == g.cells[k],
            decreases g.cells.len() - i,
        {
            // A clone holds the place while the value itself is handed over.
            let mut held = self.fields[i].clone();
            std::mem::swap(&mut self.fields[i], &mut held);
            let v = closure(held);
            self.fields[i] = v;
            i = i + 1;
        }
    }

    fn apply_with<F>(&mut self, other: &Matrix<T>, closure: F) -> (r: Result<(), MatrixError>) where
        F: Fn(T, T) -> T,
        ensures
            valid_grid(final(self)@),
    {
        proof {
            use_type_invariant(&*self);
            use_type_invariant(other);
        }
        if !self.has_same_size(other) {
            return Err(MatrixError::NonMatchingSizes);
        }
        let ghost g = self@;
        let mut i: usize = 0;
        while i < self.fields.len()
            invariant
                forall|x: T, y: T| closure.requires((x, y)),
                valid_grid(g),
                valid_grid(self@),
                valid_grid(other@),
                self@.same_size(g),
                g.same_size(other@),
                i <= g.cells.len(),
                forall|k: int| 0 <= k < i ==> applied_with(closure, g.cells[k], other@.cells[k], #[trigger] self@.cells[k]),
                forall|k: int| i <= k < g.cells.len() ==> #[trigger] self@.cells[k] == g.cells[k],
            decreases g.cells.len() - i,
        {
            let mut held = self.fields[i].clone();
            std::mem::swap(&mut self.fields[i], &mut held);
            let y = other.fields[i].clone();
            let v = closure(held, y);
            proof {
                assert(applied_with(closure, g.cells[i as int], other@.cells[i as int], v));
            }
            self.fields[i] = v;
            i = i + 1;
        }
        Ok(())
    }

    fn ref_apply<F>(&mut self, closure: F) where F: Fn(&mut T) -> T
        ensures
            valid_grid(final(self)@),
    {
        proof {
            use_type_invariant(&*self);
        }
        let ghost g = self@;
        let mut i: usize = 0;
        while i < self.fields.len()
            invariant
                forall|x: &mut T| closure.requires((x,)),
                valid_grid(g),
                valid_grid(self@),
                self@.same_size(g),
                i <= g.cells.len(),
                forall|k: int| 0 <= k < i ==> ref_applied(closure, g.cells[k], #[trigger] self@.cells[k]),
                forall|k: int| i <= k < g.cells.len() ==> #[trigger] self@.cells[k] == g.cells[k],
            decreases g.cells.len() - i,
        {
            let cell = &mut self.fields[i];
            let ghost start = *cell;
            let v = closure(cell);
            proof {
                assert(exists|m: &mut T| *m == start && closure.ensures((m,), v));
                assert(ref_applied(closure, g.cells[i as int], v));
            }
            self.fields[i] = v;
            i = i + 1;
        }
    }

    fn ref_apply_with<F>(&mut self, other: &Matrix<T>, closure: F) -> (r: Result<(), MatrixError>) where
        F: Fn(&mut T, &T) -> T,
        ensures
            valid_grid(final(self)@),
    {
        proof {
            use_type_invariant(&*self);
            use_type_invariant(other);
        }
        if !self.has_same_size(other) {
            return Err(MatrixError::NonMatchingSizes);
        }
        let ghost g = self@;
        let mut i: usize = 0;
        while i < self.fields.len()
            invariant
                forall|x: &mut T, y: &T| closure.requires((x, y)),
                valid_grid(g),
                valid_grid(self@),
                valid_grid(other@),
                self@.same_size(g),
                g.same_size(other@),
                i <= g.cells.len(),
                forall|k: int| 0 <= k < i ==> ref_applied_with(closure, g.cells[k], other@.cells[k], #[trigger] self@.cells[k]),
                forall|k: int| i <= k < g.cells.len() ==> #[trigger] self@.cells[k] == g.cells[k],
            decreases g.cells.len() - i,
        {
            let cell = &mut self.fields[i];
            let ghost start = *cell;
            let v = closure(cell, &other.fields[i]);
            proof {
                assert(exists|m: &mut T| *m == start && closure.ensures((m, &other@.cells[i as int]), v));
                assert(ref_applied_with(closure, g.cells[i as int], other@.cells[i as int], v));
            }
            self.fields[i] = v;
            i = i + 1;
        }
        Ok(())
    }
}
} // verus!
