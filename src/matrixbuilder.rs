use vstd::prelude::*;
use crate::matrix::{Matrix, adopted, grid_result, valid_grid};
use crate::matrixerror::MatrixError;

verus! {

/// The width of the last of `rows`, or 0 when there is none.
pub open spec fn last_width<T>(rows: Seq<Seq<T>>) -> nat {
    if rows.len() == 0 {
        0
    } else {
        rows.last().len()
    }
}

/// Collects rows one by one and then assembles them into a matrix.
///
/// Rows are not checked against each other when they are pushed: `build`
/// takes the count of rows and the width of the last row as the dimensions,
/// so rows of unequal width show up there as a size error.
pub struct MatrixBuilder<T> {
    rows: usize,
    columns: usize,
    buffer: Vec<Vec<T>>,
}

impl<T> View for MatrixBuilder<T> {
    type V = Seq<Seq<T>>;

    /// The rows pushed so far, in order.
    closed spec fn view(&self) -> Seq<Seq<T>> {
        self.buffer@.map_values(|row: Vec<T>| row@)
    }
}

impl<T> MatrixBuilder<T> {
    /// The counters agree with the rows held.
    pub closed spec fn wf(&self) -> bool {
        &&& self.rows == self.buffer@.len()
        &&& self.columns == last_width(self@)
    }

    /// A builder with no rows.
    pub fn new() -> (r: MatrixBuilder<T>)
        ensures
            r.wf(),
            r@ == Seq::<Seq<T>>::empty(),
    {
        let r = MatrixBuilder { rows: 0, columns: 0, buffer: Vec::new() };
        proof {
            assert(r@ =~= Seq::<Seq<T>>::empty());
        }
        r
    }

    /// Appends `row` as the last row.
    pub fn push_row(&mut self, row: Vec<T>)
        requires
            old(self).wf(),
        ensures
            final(self).wf(),
            final(self)@ == old(self)@.push(row@),
    {
        let width = row.len();
        self.buffer.push(row);
        self.rows = self.buffer.len();
        self.columns = width;
        proof {
            assert(self@ =~= old(self)@.push(row@));
        }
    }

    /// Appends `row` as the last row and hands the builder back, so that
    /// calls can be chained.
    pub fn row(self, row: Vec<T>) -> (r: MatrixBuilder<T>)
        requires
            self.wf(),
        ensures
            r.wf(),
            r@ == self@.push(row@),
    {
        let mut builder = self;
        builder.push_row(row);
        builder
    }

    /// The matrix whose rows are those pushed, in order: the rows are joined
    /// and read as `count of rows` by `width of the last row`.
    pub fn build(self) -> (r: Result<Matrix<T>, MatrixError>)
        requires
            self.wf(),
        ensures
            grid_result(r) == adopted(self@.flatten(), self@.len() as int, last_width(self@) as int),
            r matches Ok(m) ==> valid_grid(m@),
    {
        let ghost rows_seq = self@;
        let MatrixBuilder { rows, columns, mut buffer } = self;
        let mut joined: Vec<T> = Vec::new();
        let mut i: usize = 0;
        while i < buffer.len()
            invariant
                buffer@.len() == rows_seq.len(),
                i <= rows_seq.len(),
                forall|k: int| i <= k < rows_seq.len() ==> (#[trigger] buffer@[k])@ == rows_seq[k],
                joined@ == rows_seq.take(i as int).flatten_alt(),
            decreases rows_seq.len() - i,
        {
            let mut row: Vec<T> = Vec::new();
            std::mem::swap(&mut buffer[i], &mut row);
            joined.append(&mut row);
            proof {
                assert(rows_seq.take(i + 1).drop_last() =~= rows_seq.take(i as int));
            }
            i = i + 1;
        }
        proof {
            assert(rows_seq.take(i as int) =~= rows_seq);
            rows_seq.lemma_flatten_and_flatten_alt_are_equivalent();
        }
        Matrix::from_vec(joined, rows, columns)
    }
}

} // verus!
