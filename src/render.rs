//! Text forms of a matrix: brackets around each row and around the whole,
//! the cells of a row separated by `", "`, the rows by a line break.
use vstd::prelude::*;
use vstd::string::{StringExecFns, to_string_from_display_ensures};
use crate::matrix::Matrix;

verus! {

/// `parts` with `sep` between each two neighbours.
pub open spec fn joined(parts: Seq<Seq<char>>, sep: Seq<char>) -> Seq<char>
    decreases parts.len(),
{
    if parts.len() == 0 {
        Seq::empty()
    } else if parts.len() == 1 {
        parts[0]
    } else {
        joined(parts.drop_last(), sep) + sep + parts.last()
    }
}

/// The characters of each of `texts`.
pub open spec fn text_views(texts: Seq<String>) -> Seq<Seq<char>> {
    texts.map_values(|s: String| s@)
}

/// Row `r` of cell texts given row-major, `cols` to a row: `[a, b, c]`.
pub open spec fn row_text(texts: Seq<Seq<char>>, cols: nat, r: int) -> Seq<char> {
    seq!['['] + joined(texts.subrange(r * cols, r * cols + cols), seq![',', ' ']) + seq![']']
}

/// All rows of cell texts, each in brackets, a line break between rows, and
/// brackets around the whole.
pub open spec fn framed(texts: Seq<Seq<char>>, rows: nat, cols: nat) -> Seq<char> {
    seq!['['] + joined(Seq::new(rows, |r: int| row_text(texts, cols, r)), seq!['\n']) + seq![']']
}

/// The decimal digit `d`.
pub open spec fn digit(d: nat) -> char {
    if d == 0 {
        '0'
    } else if d == 1 {
        '1'
    } else if d == 2 {
        '2'
    } else if d == 3 {
        '3'
    } else if d == 4 {
        '4'
    } else if d == 5 {
        '5'
    } else if d == 6 {
        '6'
    } else if d == 7 {
        '7'
    } else if d == 8 {
        '8'
    } else {
        '9'
    }
}

/// `n` written in decimal, without leading zeros.
pub open spec fn decimal(n: nat) -> Seq<char>
    decreases n,
{
    if n < 10 {
        seq![digit(n)]
    } else {
        decimal(n / 10) + seq![digit(n % 10)]
    }
}

/// Appends the decimal digit `d`.
fn push_digit(out: &mut String, d: usize)
    requires
        d < 10,
    ensures
        final(out)@ == old(out)@ + seq![digit(d as nat)],
{
    proof {
        reveal_strlit("0");
        reveal_strlit("1");
        reveal_strlit("2");
        reveal_strlit("3");
        reveal_strlit("4");
        reveal_strlit("5");
        reveal_strlit("6");
        reveal_strlit("7");
        reveal_strlit("8");
        reveal_strlit("9");
    }
    let s = if d == 0 {
        "0"
    } else if d == 1 {
        "1"
    } else if d == 2 {
        "2"
    } else if d == 3 {
        "3"
    } else if d == 4 {
        "4"
    } else if d == 5 {
        "5"
    } else if d == 6 {
        "6"
    } else if d == 7 {
        "7"
    } else if d == 8 {
        "8"
    } else {
        "9"
    };
    out.append(s);
}

/// Appends `n` in decimal.
fn push_decimal(out: &mut String, n: usize)
    ensures
        final(out)@ == old(out)@ + decimal(n as nat),
    decreases n,
{
    if n >= 10 {
        push_decimal(out, n / 10);
    }
    push_digit(out, n % 10);
    proof {
        if n >= 10 {
            assert(decimal(n as nat) == decimal((n / 10) as nat) + seq![digit((n % 10) as nat)]);
        }
    }
}


/// Lays out cell texts given row-major, `cols` to a row, as [`framed`] says.
pub fn frame_texts(texts: &Vec<String>, rows: usize, cols: usize) -> (r: String)
    requires
        texts@.len() == rows * cols,
    ensures
        r@ == framed(text_views(texts@), rows as nat, cols as nat),
{
    let ghost views = text_views(texts@);
    let ghost row_texts = Seq::new(rows as nat, |i: int| row_text(views, cols as nat, i));
    proof {
        reveal_strlit("[");
        reveal_strlit("]");
        reveal_strlit("\n");
        reveal_strlit(", ");
        assert("["@ =~= seq!['[']);
        assert("]"@ =~= seq![']']);
        assert("\n"@ =~= seq!['\n']);
        assert(", "@ =~= seq![',', ' ']);
        crate::matrix::lemma_len_fits(texts);
    }
    let mut out = String::new();
    out.append("[");
    let mut r: usize = 0;
    while r < rows
        invariant
            texts@.len() == rows * cols,
            views == text_views(texts@),
            row_texts == Seq::new(rows as nat, |i: int| row_text(views, cols as nat, i)),
            "["@ == seq!['['],
            "]"@ == seq![']'],
            "\n"@ == seq!['\n'],
            ", "@ == seq![',', ' '],
            texts@.len() <= usize::MAX,
            r <= rows,
            out@ == seq!['['] + joined(row_texts.subrange(0, r as int), seq!['\n']),
        decreases rows - r,
    {
        let ghost before_row = out@;
        if r > 0 {
            out.append("\n");
        }
        let ghost row_start = out@;
        out.append("[");
        proof {
            assert(r * cols + cols <= rows * cols) by (nonlinear_arith)
                requires
                    r < rows,
            ;
            assert(0 <= r * cols) by (nonlinear_arith)
                requires
                    0 <= r,
                    0 <= cols,
            ;
            assert(views.subrange(r * cols, r * cols).len() == 0);
            assert(out@ =~= row_start + seq!['['] + joined(views.subrange(r * cols, r * cols + 0), seq![',', ' ']));
        }
        let mut c: usize = 0;
        while c < cols
            invariant
                texts@.len() == rows * cols,
                views == text_views(texts@),
                "["@ == seq!['['],
                "]"@ == seq![']'],
                "\n"@ == seq!['\n'],
                ", "@ == seq![',', ' '],
                texts@.len() <= usize::MAX,
                r < rows,
                c <= cols,
                0 <= r * cols,
                r * cols + cols <= rows * cols,
                out@ == row_start + seq!['['] + joined(views.subrange(r * cols, r * cols + c), seq![',', ' ']),
            decreases cols - c,
        {
            proof {
                crate::grid::lemma_index_in_range(rows as nat, cols as nat, r as int, c as int);
            }
            let ghost before = out@;
            if c > 0 {
                out.append(", ");
            }
            out.append(texts[r * cols + c].as_str());
            proof {
                assert(views[r * cols + c] == texts@[r * cols + c]@);
                let parts = views.subrange(r * cols, r * cols + c + 1);
                assert(parts.drop_last() =~= views.subrange(r * cols, r * cols + c));
                assert(parts.last() == views[r * cols + c]);
                if c == 0 {
                    assert(parts.len() == 1);
                    assert(joined(parts, seq![',', ' ']) == parts[0]);
                } else {
                    assert(joined(parts, seq![',', ' ']) == joined(parts.drop_last(), seq![',', ' ']) + seq![',', ' ']
                        + parts.last());
                }
                assert(out@ =~= row_start + seq!['['] + joined(parts, seq![',', ' ']));
            }
            c = c + 1;
        }
        out.append("]");
        proof {
            let rows_done = row_texts.subrange(0, r + 1);
            assert(rows_done.drop_last() =~= row_texts.subrange(0, r as int));
            assert(rows_done.last() == row_text(views, cols as nat, r as int));
            assert(out@ =~= row_start + row_text(views, cols as nat, r as int));
            if r == 0 {
                assert(rows_done.len() == 1);
                assert(joined(rows_done, seq!['\n']) == rows_done[0]);
            } else {
                assert(joined(rows_done, seq!['\n']) == joined(rows_done.drop_last(), seq!['\n']) + seq!['\n']
                    + rows_done.last());
            }
            assert(out@ =~= seq!['['] + joined(rows_done, seq!['\n']));
        }
        r = r + 1;
    }
    out.append("]");
    proof {
        assert(row_texts.subrange(0, rows as int) =~= row_texts);
        assert(out@ =~= framed(views, rows as nat, cols as nat));
    }
    out
}


/// `texts` holds, for each of `cells`, a text that `to_string` may give for it.
pub open spec fn display_texts<T: core::fmt::Display>(cells: Seq<T>, texts: Seq<String>) -> bool {
    &&& texts.len() == cells.len()
    &&& forall|i: int| 0 <= i < cells.len() ==> to_string_from_display_ensures::<T>(&cells[i], #[trigger] texts[i])
}

/// The text of `v` as its `Debug` impl writes it.
///
/// Relies on `format!` with `{:?}`; what it gives depends on the impl for
/// `T`, so nothing is stated of it.
#[verifier::external_body]
fn debug_text<T: core::fmt::Debug>(v: &T) -> String {
    format!("{:?}", v)
}

impl<T: core::fmt::Display> Matrix<T> {
    /// The matrix as text: each cell as `to_string` gives it, a row in
    /// brackets with `", "` between cells, rows on lines of their own, and
    /// brackets around the whole: `[[1, 2]\n[3, 4]]`.
    pub fn to_display_string(&self) -> (r: String)
        ensures
            exists|texts: Seq<String>| #[trigger] display_texts(self@.cells, texts)
                && r@ == framed(text_views(texts), self@.rows, self@.cols),
    {
        let rows = self.get_row_count();
        let cols = self.get_col_count();
        let cell_count = self.get_element_count();
        let mut texts: Vec<String> = Vec::new();
        let mut row: usize = 0;
        while row < rows
            invariant
                rows == self@.rows,
                cols == self@.cols,
                row <= rows,
                texts@.len() == row * cols,
                forall|k: int| 0 <= k < texts@.len() ==> to_string_from_display_ensures::<T>(&self@.cells[k], #[trigger] texts@[k]),
            decreases rows - row,
        {
            let mut col: usize = 0;
            while col < cols
                invariant
                    rows == self@.rows,
                    cols == self@.cols,
                    row < rows,
                    col <= cols,
                    texts@.len() == row * cols + col,
                    forall|k: int| 0 <= k < texts@.len() ==> to_string_from_display_ensures::<T>(&self@.cells[k], #[trigger] texts@[k]),
                decreases cols - col,
            {
                let cell = self.get_ref(row, col).unwrap();
                texts.push(cell.to_string());
                col = col + 1;
            }
            proof {
                assert(row * cols + cols == (row + 1) * cols) by (nonlinear_arith);
            }
            row = row + 1;
        }
        proof {
            assert(texts@.len() == cell_count);
        }
        let out = frame_texts(&texts, rows, cols);
        proof {
            assert(display_texts(self@.cells, texts@));
        }
        out
    }
}

impl<T: core::fmt::Debug> Matrix<T> {
    /// The size as `rows x cols` on a line of its own, then the cells laid
    /// out as in [`Matrix::to_display_string`], each as its `Debug` impl
    /// writes it.
    pub fn to_debug_string(&self) -> (r: String)
        ensures
            exists|texts: Seq<Seq<char>>| texts.len() == self@.cells.len() && r@ == decimal(self@.rows) + seq![' ', 'x', ' ']
                + decimal(self@.cols) + seq!['\n'] + #[trigger] framed(texts, self@.rows, self@.cols),
    {
        let rows = self.get_row_count();
        let cols = self.get_col_count();
        let cell_count = self.get_element_count();
        let mut texts: Vec<String> = Vec::new();
        let mut row: usize = 0;
        while row < rows
            invariant
                rows == self@.rows,
                cols == self@.cols,
                row <= rows,
                texts@.len() == row * cols,
            decreases rows - row,
        {
            let mut col: usize = 0;
            while col < cols
                invariant
                    rows == self@.rows,
                    cols == self@.cols,
                    row < rows,
                    col <= cols,
                    texts@.len() == row * cols + col,
                decreases cols - col,
            {
                let cell = self.get_ref(row, col).unwrap();
                texts.push(debug_text(cell));
                col = col + 1;
            }
            proof {
                assert(row * cols + cols == (row + 1) * cols) by (nonlinear_arith);
            }
            row = row + 1;
        }
        proof {
            reveal_strlit(" x ");
            reveal_strlit("\n");
            assert(" x "@ =~= seq![' ', 'x', ' ']);
            assert("\n"@ =~= seq!['\n']);
        }
        let mut out = String::new();
        push_decimal(&mut out, rows);
        out.append(" x ");
        push_decimal(&mut out, cols);
        out.append("\n");
        proof {
            assert(texts@.len() == cell_count);
        }
        let body = frame_texts(&texts, rows, cols);
        out.append(body.as_str());
        proof {
            let views = text_views(texts@);
            assert(out@ =~= decimal(rows as nat) + seq![' ', 'x', ' '] + decimal(cols as nat) + seq!['\n'] + framed(
                views,
                rows as nat,
                cols as nat,
            ));
        }
        out
    }
}

} // verus!
