//! Dense two-dimensional tensors in row-major layout.

use crate::error::PredictError;
use vstd::arithmetic::div_mod::lemma_fundamental_div_mod;
use vstd::arithmetic::div_mod::lemma_fundamental_div_mod_converse;
use vstd::arithmetic::mul::lemma_mul_inequality;
use vstd::arithmetic::mul::lemma_mul_is_distributive_add_other_way;
use vstd::prelude::*;

verus! {

/// The rows of a nested vector, each as a sequence.
pub open spec fn rows_of<T>(rows: Seq<Vec<T>>) -> Seq<Seq<T>> {
    Seq::new(rows.len(), |i: int| rows[i]@)
}

/// Every row has exactly `width` cells.
pub open spec fn is_rectangular<T>(rows: Seq<Seq<T>>, width: nat) -> bool {
    forall|i: int| 0 <= i < rows.len() ==> (#[trigger] rows[i]).len() == width
}

/// Row-major layout: cell `(i, j)` of the table sits at position `i * width + j`.
pub open spec fn row_major<T>(rows: Seq<Seq<T>>, width: nat) -> Seq<T> {
    Seq::new(rows.len() * width, |k: int| rows[k / (width as int)][k % (width as int)])
}

/// The table that a row-major buffer lays out: row `i` is the `i`-th run of
/// `width` cells.
pub open spec fn chunked<T>(cells: Seq<T>, height: nat, width: nat) -> Seq<Seq<T>> {
    Seq::new(height, |i: int| cells.subrange(i * width, (i + 1) * width))
}

/// Position `i * width + j` with `j < width` lies in row `i`, column `j`, and
/// inside a buffer of `height * width` cells when `i < height`.
pub proof fn lemma_cell_position(i: int, j: int, height: int, width: int)
    requires
        0 <= i < height,
        0 <= j < width,
    ensures
        0 <= i * width + j < height * width,
        (i * width + j) / width == i,
        (i * width + j) % width == j,
        (i + 1) * width == i * width + width,
        (i + 1) * width <= height * width,
{
    lemma_fundamental_div_mod_converse(i * width + j, width, i, j);
    lemma_mul_is_distributive_add_other_way(width, i, 1);
    lemma_mul_inequality(i + 1, height, width);
    assert(0 <= i * width) by (nonlinear_arith)
        requires
            0 <= i,
            0 <= width,
    ;
}

/// A dense table of `height` rows and `width` columns.
///
/// Its cells are held in one buffer in row-major order; every value of the
/// type has exactly `height * width` cells.
pub struct Matrix<T> {
    cells: Vec<T>,
    height: usize,
    width: usize,
}

impl<T> View for Matrix<T> {
    type V = Seq<Seq<T>>;

    /// The table, row by row.
    closed spec fn view(&self) -> Seq<Seq<T>> {
        chunked(self.cells@, self.height as nat, self.width as nat)
    }
}

impl<T> Matrix<T> {
    #[verifier::type_invariant]
    spec fn shaped(self) -> bool {
        self.cells@.len() == self.height * self.width
    }

    /// Number of rows.
    pub closed spec fn height(self) -> nat {
        self.height as nat
    }

    /// Number of columns.
    pub closed spec fn width(self) -> nat {
        self.width as nat
    }

    /// The cells in row-major order.
    pub closed spec fn flat(self) -> Seq<T> {
        self.cells@
    }

    /// The buffer has one cell per position and the view is its table.
    pub open spec fn well_formed(self) -> bool {
        &&& self.flat().len() == self.height() * self.width()
        &&& self@ == chunked(self.flat(), self.height(), self.width())
        &&& self@.len() == self.height()
        &&& is_rectangular(self@, self.width())
        &&& self.flat() == row_major(self@, self.width())
    }

    proof fn lemma_well_formed(self)
        requires
            self.shaped(),
        ensures
            self.well_formed(),
    {
        let h = self.height as int;
        let w = self.width as int;
        assert forall|i: int| 0 <= i < self@.len() implies (#[trigger] self@[i]).len() == w by {
            if w > 0 {
                lemma_cell_position(i, 0, h, w);
            } else {
                assert(i * w == 0) by (nonlinear_arith)
                    requires
                        w == 0,
                ;
                assert((i + 1) * w == 0) by (nonlinear_arith)
                    requires
                        w == 0,
                ;
            }
        }
        assert(self.flat() =~= row_major(self@, self.width())) by {
            assert forall|k: int| 0 <= k < self.flat().len() implies self.flat()[k] == row_major(
                self@,
                self.width(),
            )[k] by {
                if w > 0 {
                    let i = k / w;
                    let j = k % w;
                    lemma_fundamental_div_mod(k, w);
                    assert(k == w * i + j);
                    assert(w * i == i * w) by (nonlinear_arith);
                    assert(0 <= i < h) by (nonlinear_arith)
                        requires
                            0 <= k < h * w,
                            k == i * w + j,
                            0 <= j < w,
                            w > 0,
                    ;
                    lemma_cell_position(i, j, h, w);
                } else {
                    assert(h * w == 0) by (nonlinear_arith)
                        requires
                            w == 0,
                    ;
                }
            }
        }
    }
}

impl<T: Copy> Matrix<T> {
    /// Builds the table whose rows are `rows`, each of which must be `width`
    /// wide.
    ///
    /// An empty batch and a row of another width are shape errors.
    pub fn from_rows(rows: &Vec<Vec<T>>, width: usize) -> (built: Result<Matrix<T>, PredictError>)
        ensures
            built is Ok <==> rows@.len() >= 1 && is_rectangular(rows_of(rows@), width as nat),
            built matches Ok(table) ==> {
                &&& table@ == rows_of(rows@)
                &&& table.height() == rows@.len()
                &&& table.width() == width
                &&& table.well_formed()
            },
            built matches Err(e) ==> e == PredictError::ShapeMismatch,
    {
        if rows.len() == 0 {
            return Err(PredictError::ShapeMismatch);
        }
        let mut cells: Vec<T> = Vec::new();
        let mut i: usize = 0;
        while i < rows.len()
            invariant
                0 <= i <= rows@.len(),
                cells@.len() == i * width,
                forall|r: int| 0 <= r < i ==> (#[trigger] rows@[r])@.len() == width,
                forall|r: int, c: int|
                    0 <= r < i && 0 <= c < width ==> cells@[r * width + c] == (#[trigger] rows@[r]@[c]),
            decreases rows@.len() - i,
        {
            let row = &rows[i];
            if row.len() != width {
                proof {
                    assert(rows_of(rows@)[i as int].len() != width);
                }
                return Err(PredictError::ShapeMismatch);
            }
            let mut j: usize = 0;
            while j < width
                invariant
                    0 <= i < rows@.len(),
                    0 <= j <= width,
                    row@ == rows@[i as int]@,
                    row@.len() == width,
                    cells@.len() == i * width + j,
                    forall|r: int| 0 <= r < i ==> (#[trigger] rows@[r])@.len() == width,
                    forall|r: int, c: int|
                        0 <= r < i && 0 <= c < width ==> cells@[r * width + c] == (
                        #[trigger] rows@[r]@[c]),
                    forall|c: int| 0 <= c < j ==> cells@[i * width + c] == #[trigger] row@[c],
                decreases width - j,
            {
                let ghost before = cells@;
                cells.push(row[j]);
                proof {
                    assert forall|r: int, c: int| 0 <= r < i && 0 <= c < width implies cells@[r
                        * width + c] == (#[trigger] rows@[r]@[c]) by {
                        lemma_cell_position(r, c, i as int, width as int);
                        assert(cells@[r * width + c] == before[r * width + c]);
                    }
                }
                j += 1;
            }
            proof {
                assert((i + 1) * width == i * width + width) by (nonlinear_arith);
                assert forall|r: int, c: int| 0 <= r < i + 1 && 0 <= c < width implies cells@[r
                    * width + c] == (#[trigger] rows@[r]@[c]) by {
                    if r == i {
                        assert(cells@[i * width + c] == row@[c]);
                    }
                }
            }
            i += 1;
        }
        let table = Matrix { cells, height: rows.len(), width };
        proof {
            table.lemma_well_formed();
            assert(is_rectangular(rows_of(rows@), width as nat));
            assert(table@ =~= rows_of(rows@)) by {
                assert forall|r: int| 0 <= r < rows@.len() implies table@[r] =~= rows_of(
                    rows@,
                )[r] by {
                    assert(rows@[r]@.len() == width);
                    assert forall|c: int| 0 <= c < width implies table@[r][c] == rows@[r]@[c] by {
                        lemma_cell_position(r, c, rows@.len() as int, width as int);
                    }
                    if width > 0 {
                        lemma_cell_position(r, 0, rows@.len() as int, width as int);
                    }
                }
            }
        }
        Ok(table)
    }
}

impl<T> Matrix<T> {
    /// Takes `cells` as the row-major buffer of a table of `height` rows and
    /// `width` columns.
    ///
    /// A buffer that does not hold exactly `height * width` cells is a shape
    /// error.
    pub fn from_shape_vec(height: usize, width: usize, cells: Vec<T>) -> (built: Result<
        Matrix<T>,
        PredictError,
    >)
        ensures
            built is Ok <==> cells@.len() == height * width,
            built matches Ok(table) ==> {
                &&& table.flat() == cells@
                &&& table.height() == height
                &&& table.width() == width
                &&& table.well_formed()
            },
            built matches Err(e) ==> e == PredictError::ShapeMismatch,
    {
        let held = cells.len();
        match height.checked_mul(width) {
            Some(count) => {
                if held == count {
                    let table = Matrix { cells, height, width };
                    proof {
                        table.lemma_well_formed();
                    }
                    Ok(table)
                } else {
                    Err(PredictError::ShapeMismatch)
                }
            },
            None => Err(PredictError::ShapeMismatch),
        }
    }

    /// Number of rows.
    pub fn nrows(&self) -> (n: usize)
        ensures
            n == self.height(),
            self.well_formed(),
    {
        proof {
            use_type_invariant(self);
            self.lemma_well_formed();
        }
        self.height
    }

    /// Number of columns.
    pub fn ncols(&self) -> (n: usize)
        ensures
            n == self.width(),
            self.well_formed(),
    {
        proof {
            use_type_invariant(self);
            self.lemma_well_formed();
        }
        self.width
    }

    /// The cells in row-major order.
    pub fn as_flat(&self) -> (cells: &Vec<T>)
        ensures
            cells@ == self.flat(),
            self.well_formed(),
    {
        proof {
            use_type_invariant(self);
            self.lemma_well_formed();
        }
        &self.cells
    }

    /// The cell in row `i`, column `j`.
    pub fn get(&self, i: usize, j: usize) -> (cell: &T)
        requires
            i < self.height(),
            j < self.width(),
        ensures
            *cell == self@[i as int][j as int],
            *cell == self.flat()[i * self.width() + j],
    {
        proof {
            use_type_invariant(self);
            lemma_cell_position(i as int, j as int, self.height as int, self.width as int);
        }
        let held = self.cells.len();
        assert(i * self.width + j < held);
        &self.cells[i * self.width + j]
    }

    /// Row `i`.
    pub fn row(&self, i: usize) -> (cells: &[T])
        requires
            i < self.height(),
        ensures
            cells@ == self@[i as int],
            cells@.len() == self.width(),
    {
        proof {
            use_type_invariant(self);
            self.lemma_well_formed();
            if self.width > 0 {
                lemma_cell_position(i as int, 0, self.height as int, self.width as int);
            } else {
                assert(i * self.width == 0 && (i + 1) * self.width == 0) by (nonlinear_arith)
                    requires
                        self.width == 0,
                ;
            }
        }
        let cells = self.cells.as_slice();
        let held = cells.len();
        assert(i * self.width + self.width <= held);
        let start = i * self.width;
        &cells[start..start + self.width]
    }
}

} // verus!
