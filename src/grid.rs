use vstd::prelude::*;
use vstd::std_specs::cmp::PartialEqSpec;
use vstd::arithmetic::div_mod::lemma_fundamental_div_mod_converse;

verus! {

/// The mathematical model of a matrix: its dimensions and its cells in
/// row-major order.
pub struct Grid<T> {
    pub rows: nat,
    pub cols: nat,
    pub cells: Seq<T>,
}

impl<T> Grid<T> {
    /// The cells fill exactly `rows * cols` places.
    pub open spec fn wf(self) -> bool {
        self.cells.len() == self.rows * self.cols
    }

    pub open spec fn in_bounds(self, r: int, c: int) -> bool {
        0 <= r < self.rows && 0 <= c < self.cols
    }

    pub open spec fn same_size(self, other: Grid<T>) -> bool {
        self.rows == other.rows && self.cols == other.cols
    }

    /// The place of row `r`, column `c` in the row-major cells.
    pub open spec fn index_of(self, r: int, c: int) -> int {
        r * self.cols + c
    }

    /// The cell at row `r`, column `c`.
    pub open spec fn at(self, r: int, c: int) -> T {
        self.cells[self.index_of(r, c)]
    }

    /// The grid with the cell at (`r`, `c`) replaced by `v`.
    pub open spec fn update(self, r: int, c: int, v: T) -> Grid<T> {
        Grid { cells: self.cells.update(self.index_of(r, c), v), ..self }
    }

    /// The grid with the cells at (`r1`, `c1`) and (`r2`, `c2`) exchanged.
    pub open spec fn swapped(self, r1: int, c1: int, r2: int, c2: int) -> Grid<T> {
        self.update(r1, c1, self.at(r2, c2)).update(r2, c2, self.at(r1, c1))
    }

    /// Row `r`, left to right.
    pub open spec fn row(self, r: int) -> Seq<T> {
        Seq::new(self.cols, |c: int| self.at(r, c))
    }

    /// Column `c`, top to bottom.
    pub open spec fn col(self, c: int) -> Seq<T> {
        Seq::new(self.rows, |r: int| self.at(r, c))
    }

    /// The `rows` by `cols` grid whose cell at (r, c) is `f(r, c)`.
    pub open spec fn from_fn(rows: nat, cols: nat, f: spec_fn(int, int) -> T) -> Grid<T> {
        Grid { rows, cols, cells: Seq::new(rows * cols, |i: int| f(i / (cols as int), i % (cols as int))) }
    }

    /// Rows become columns: cell (r, c) of the result is cell (c, r) of `self`.
    pub open spec fn transposed(self) -> Grid<T> {
        Grid::from_fn(self.cols, self.rows, |r: int, c: int| self.at(c, r))
    }

    /// The rows in reverse order, top to bottom.
    pub open spec fn flipped_rows(self) -> Grid<T> {
        Grid::from_fn(self.rows, self.cols, |r: int, c: int| self.at(self.rows - 1 - r, c))
    }

    /// The columns in reverse order, left to right.
    pub open spec fn flipped_cols(self) -> Grid<T> {
        Grid::from_fn(self.rows, self.cols, |r: int, c: int| self.at(r, self.cols - 1 - c))
    }

    /// The area with inclusive corners (`r1`, `c1`) and (`r2`, `c2`).
    pub open spec fn area(self, r1: int, c1: int, r2: int, c2: int) -> Grid<T> {
        Grid::from_fn(
            (r2 - r1 + 1) as nat,
            (c2 - c1 + 1) as nat,
            |r: int, c: int| self.at(r1 + r, c1 + c),
        )
    }

    /// The grid with `rep` written over it, its top left corner at (`r1`, `c1`).
    pub open spec fn with_area(self, r1: int, c1: int, rep: Grid<T>) -> Grid<T> {
        Grid::from_fn(
            self.rows,
            self.cols,
            |r: int, c: int|
                if r1 <= r < r1 + rep.rows && c1 <= c < c1 + rep.cols {
                    rep.at(r - r1, c - c1)
                } else {
                    self.at(r, c)
                },
        )
    }

    /// `self` has the size of the area with inclusive corners (`r1`, `c1`)
    /// and (`r2`, `c2`), which are in order.
    pub open spec fn spans(self, r1: int, c1: int, r2: int, c2: int) -> bool {
        &&& r1 <= r2
        &&& c1 <= c2
        &&& self.rows == r2 - r1 + 1
        &&& self.cols == c2 - c1 + 1
    }

    /// The same cells in the same order, read under other dimensions.
    pub open spec fn reshaped(self, rows: nat, cols: nat) -> Grid<T> {
        Grid { rows, cols, cells: self.cells }
    }
}

/// `a` and `b` are well formed grids of one size, and each cell of `b` is a
/// clone of the cell of `a` in the same place.
pub open spec fn cloned_grid<T: Clone>(a: Grid<T>, b: Grid<T>) -> bool {
    &&& a.same_size(b)
    &&& a.wf()
    &&& b.wf()
    &&& forall|r: int, c: int| a.in_bounds(r, c) ==> cloned(a.at(r, c), #[trigger] b.at(r, c))
}

/// Each element of `b` is a clone of the element of `a` in the same place.
pub open spec fn cloned_seq<T: Clone>(a: Seq<T>, b: Seq<T>) -> bool {
    &&& a.len() == b.len()
    &&& forall|i: int| 0 <= i < a.len() ==> cloned(a[i], #[trigger] b[i])
}

/// How many elements of `s` equal `e`, as `T`'s `==` judges.
pub open spec fn count_equal<T: PartialEq>(s: Seq<T>, e: T) -> nat
    decreases s.len(),
{
    if s.len() == 0 {
        0
    } else {
        count_equal(s.drop_last(), e) + if s.last().eq_spec(&e) {
            1nat
        } else {
            0nat
        }
    }
}

/// The (row, col) places among the first `n` cells of `g`, in row-major
/// order, whose cell equals `e` as `T`'s `==` judges.
pub open spec fn places_of<T: PartialEq>(g: Grid<T>, e: T, n: int) -> Seq<(usize, usize)>
    decreases n,
{
    if n <= 0 {
        Seq::empty()
    } else if g.cells[n - 1].eq_spec(&e) {
        places_of(g, e, n - 1).push((((n - 1) / (g.cols as int)) as usize, ((n - 1) % (g.cols as int)) as usize))
    } else {
        places_of(g, e, n - 1)
    }
}

/// Cloning a `T` gives a value equal to the one cloned.
pub open spec fn clone_is_exact<T: Clone>() -> bool {
    forall|a: T, b: T| #[trigger] cloned(a, b) ==> a == b
}

/// A cell inside the bounds has its place inside the cells.
pub proof fn lemma_index_in_range(rows: nat, cols: nat, r: int, c: int)
    requires
        0 <= r < rows,
        0 <= c < cols,
    ensures
        0 <= r * cols + c < rows * cols,
{
    assert(r * cols + c < rows * cols) by (nonlinear_arith)
        requires
            0 <= r < rows,
            0 <= c < cols,
    {
        assert(r * cols + c < (r + 1) * cols);
        assert((r + 1) * cols <= rows * cols);
    }
    assert(0 <= r * cols) by (nonlinear_arith)
        requires
            0 <= r,
            0 <= cols,
    ;
}

/// Distinct cells inside the bounds have distinct places.
pub proof fn lemma_index_injective(cols: nat, r1: int, c1: int, r2: int, c2: int)
    requires
        0 <= c1 < cols,
        0 <= c2 < cols,
        r1 * cols + c1 == r2 * cols + c2,
    ensures
        r1 == r2,
        c1 == c2,
{
    lemma_fundamental_div_mod_converse(r1 * cols + c1, cols as int, r1, c1);
    lemma_fundamental_div_mod_converse(r2 * cols + c2, cols as int, r2, c2);
}

/// Each cell of a grid after two cells are exchanged.
pub proof fn lemma_swapped_at<T>(g: Grid<T>, r1: int, c1: int, r2: int, c2: int, r: int, c: int)
    requires
        g.wf(),
        g.in_bounds(r1, c1),
        g.in_bounds(r2, c2),
        g.in_bounds(r, c),
    ensures
        g.swapped(r1, c1, r2, c2).at(r, c) == (if r == r2 && c == c2 {
            g.at(r1, c1)
        } else if r == r1 && c == c1 {
            g.at(r2, c2)
        } else {
            g.at(r, c)
        }),
{
    lemma_index_in_range(g.rows, g.cols, r, c);
    lemma_index_in_range(g.rows, g.cols, r1, c1);
    lemma_index_in_range(g.rows, g.cols, r2, c2);
    if g.index_of(r, c) == g.index_of(r1, c1) {
        lemma_index_injective(g.cols, r, c, r1, c1);
    }
    if g.index_of(r, c) == g.index_of(r2, c2) {
        lemma_index_injective(g.cols, r, c, r2, c2);
    }
}

/// A grid built from a function is well formed and holds the function's value
/// in each cell.
pub proof fn lemma_from_fn<T>(rows: nat, cols: nat, f: spec_fn(int, int) -> T)
    ensures
        Grid::from_fn(rows, cols, f).wf(),
        forall|r: int, c: int|
            0 <= r < rows && 0 <= c < cols ==> #[trigger] Grid::from_fn(rows, cols, f).at(r, c)
                == f(r, c),
{
    assert forall|r: int, c: int| 0 <= r < rows && 0 <= c < cols implies #[trigger] Grid::from_fn(
        rows,
        cols,
        f,
    ).at(r, c) == f(r, c) by {
        lemma_index_in_range(rows, cols, r, c);
        lemma_fundamental_div_mod_converse(r * cols + c, cols as int, r, c);
    }
}

/// Two well formed grids of the same size that agree on every cell are equal.
pub proof fn lemma_grid_ext<T>(a: Grid<T>, b: Grid<T>)
    requires
        a.wf(),
        b.wf(),
        a.same_size(b),
        forall|r: int, c: int| a.in_bounds(r, c) ==> #[trigger] a.at(r, c) == b.at(r, c),
    ensures
        a == b,
{
    assert forall|i: int| 0 <= i < a.cells.len() implies a.cells[i] == b.cells[i] by {
        let cols = a.cols as int;
        let r = i / cols;
        let c = i % cols;
        assert(cols > 0) by (nonlinear_arith)
            requires
                0 <= i < a.rows * a.cols,
                cols == a.cols,
        ;
        vstd::arithmetic::div_mod::lemma_fundamental_div_mod(i, cols);
        assert(r * cols + c == i) by (nonlinear_arith)
            requires
                i == cols * r + c,
        ;
        assert(0 <= c < cols);
        assert(0 <= r);
        assert(r < a.rows) by (nonlinear_arith)
            requires
                i == r * cols + c,
                0 <= c,
                cols > 0,
                i < a.rows * cols,
        ;
        assert(a.at(r, c) == b.at(r, c));
    }
    assert(a.cells =~= b.cells);
}


/// Writing `v` at a place and then reading that place gives `v`; every other
/// place keeps its cell.
pub proof fn lemma_set_then_get<T>(g: Grid<T>, r: int, c: int, v: T)
    requires
        g.wf(),
        g.in_bounds(r, c),
    ensures
        g.update(r, c, v).wf(),
        g.update(r, c, v).at(r, c) == v,
        forall|r2: int, c2: int| g.in_bounds(r2, c2) && (r2 != r || c2 != c)
            ==> #[trigger] g.update(r, c, v).at(r2, c2) == g.at(r2, c2),
{
    lemma_index_in_range(g.rows, g.cols, r, c);
    assert forall|r2: int, c2: int| g.in_bounds(r2, c2) && (r2 != r || c2 != c)
        implies #[trigger] g.update(r, c, v).at(r2, c2) == g.at(r2, c2) by {
        lemma_index_in_range(g.rows, g.cols, r2, c2);
        if g.index_of(r2, c2) == g.index_of(r, c) {
            lemma_index_injective(g.cols, r2, c2, r, c);
        }
    }
}

/// Transposing twice gives back the grid one started with.
pub proof fn lemma_transpose_twice<T>(g: Grid<T>)
    requires
        g.wf(),
    ensures
        g.transposed().wf(),
        g.transposed().transposed() == g,
{
    let t = g.transposed();
    lemma_from_fn(g.cols, g.rows, |r: int, c: int| g.at(c, r));
    lemma_from_fn(t.cols, t.rows, |r: int, c: int| t.at(c, r));
    let tt = t.transposed();
    assert forall|r: int, c: int| tt.in_bounds(r, c) implies #[trigger] tt.at(r, c) == g.at(r, c) by {
        assert(t.in_bounds(c, r));
    }
    lemma_grid_ext(tt, g);
}

/// Reversing the order of the rows twice gives back the grid one started with.
pub proof fn lemma_flip_rows_twice<T>(g: Grid<T>)
    requires
        g.wf(),
    ensures
        g.flipped_rows().wf(),
        g.flipped_rows().flipped_rows() == g,
{
    let f = g.flipped_rows();
    lemma_from_fn(g.rows, g.cols, |r: int, c: int| g.at(g.rows - 1 - r, c));
    lemma_from_fn(f.rows, f.cols, |r: int, c: int| f.at(f.rows - 1 - r, c));
    let ff = f.flipped_rows();
    assert forall|r: int, c: int| ff.in_bounds(r, c) implies #[trigger] ff.at(r, c) == g.at(r, c) by {
        assert(f.in_bounds(f.rows - 1 - r, c));
    }
    lemma_grid_ext(ff, g);
}

/// Reversing the order of the columns twice gives back the grid one started
/// with.
pub proof fn lemma_flip_cols_twice<T>(g: Grid<T>)
    requires
        g.wf(),
    ensures
        g.flipped_cols().wf(),
        g.flipped_cols().flipped_cols() == g,
{
    let f = g.flipped_cols();
    lemma_from_fn(g.rows, g.cols, |r: int, c: int| g.at(r, g.cols - 1 - c));
    lemma_from_fn(f.rows, f.cols, |r: int, c: int| f.at(r, f.cols - 1 - c));
    let ff = f.flipped_cols();
    assert forall|r: int, c: int| ff.in_bounds(r, c) implies #[trigger] ff.at(r, c) == g.at(r, c) by {
        assert(f.in_bounds(r, f.cols - 1 - c));
    }
    lemma_grid_ext(ff, g);
}

/// Writing an area of a grid back over itself, at the place it came from,
/// leaves the grid as it was.
pub proof fn lemma_area_written_back<T>(g: Grid<T>, r1: int, c1: int, r2: int, c2: int)
    requires
        g.wf(),
        0 <= r1 <= r2 < g.rows,
        0 <= c1 <= c2 < g.cols,
    ensures
        g.area(r1, c1, r2, c2).spans(r1, c1, r2, c2),
        g.with_area(r1, c1, g.area(r1, c1, r2, c2)) == g,
{
    let a = g.area(r1, c1, r2, c2);
    lemma_from_fn(a.rows, a.cols, |r: int, c: int| g.at(r1 + r, c1 + c));
    let f = |r: int, c: int|
        if r1 <= r < r1 + a.rows && c1 <= c < c1 + a.cols {
            a.at(r - r1, c - c1)
        } else {
            g.at(r, c)
        };
    lemma_from_fn(g.rows, g.cols, f);
    let w = g.with_area(r1, c1, a);
    assert forall|r: int, c: int| w.in_bounds(r, c) implies #[trigger] w.at(r, c) == g.at(r, c) by {
        if r1 <= r < r1 + a.rows && c1 <= c < c1 + a.cols {
            assert(a.at(r - r1, c - c1) == g.at(r1 + (r - r1), c1 + (c - c1)));
        }
    }
    lemma_grid_ext(w, g);
}

/// For an element type whose clones equal what they were cloned from: writing a copy of
/// an area back at the place it came from leaves the grid as it was.
pub proof fn lemma_area_round_trip<T: Clone>(g: Grid<T>, r1: int, c1: int, r2: int, c2: int, copy: Grid<T>)
    requires
        g.wf(),
        0 <= r1 <= r2 < g.rows,
        0 <= c1 <= c2 < g.cols,
        clone_is_exact::<T>(),
        cloned_grid(g.area(r1, c1, r2, c2), copy),
    ensures
        copy.spans(r1, c1, r2, c2),
        g.with_area(r1, c1, copy) == g,
{
    let a = g.area(r1, c1, r2, c2);
    assert forall|r: int, c: int| a.in_bounds(r, c) implies #[trigger] a.at(r, c) == copy.at(r, c) by {
        assert(cloned(a.at(r, c), copy.at(r, c)));
    }
    lemma_grid_ext(a, copy);
    lemma_area_written_back(g, r1, c1, r2, c2);
}

} // verus!
