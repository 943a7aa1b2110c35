//! Dense matrices of binary64 bit patterns.

use vstd::prelude::*;
use crate::binary64::{is_finite, negated, finite, neg};

verus! {

/// A dense matrix with a fixed number of rows and columns, each cell holding
/// the bit pattern of one binary64 number. The cells are kept in an
/// `nalgebra::DMatrix<u64>`.
#[verifier::external_body]
#[derive(Debug, PartialEq, Eq)]
pub struct Matrix {
    cells: nalgebra::DMatrix<u64>,
}

/// The cells of a matrix, row by row: `matrix_rows(m)[i][j]` is what nalgebra
/// returns for the index `(i, j)`, and the length of the sequence is the
/// number of rows.
pub uninterp spec fn matrix_rows(m: Matrix) -> Seq<Seq<u64>>;

/// The number of columns of a matrix.
pub uninterp spec fn matrix_width(m: Matrix) -> nat;

/// The largest number of cells a matrix can be created with: the cells are
/// eight bytes each and share one allocation.
pub open spec fn max_cells() -> nat {
    (usize::MAX / 16) as nat
}

impl Matrix {
    /// The number of rows.
    pub open spec fn height(&self) -> nat {
        matrix_rows(*self).len()
    }

    /// The number of columns.
    pub open spec fn width(&self) -> nat {
        matrix_width(*self)
    }

    /// The cell in row `i` and column `j`.
    #[verifier::inline]
    pub open spec fn at(&self, i: int, j: int) -> u64 {
        matrix_rows(*self)[i][j]
    }

    /// Whether `(i, j)` is the place of a cell.
    pub open spec fn has(&self, i: int, j: int) -> bool {
        0 <= i < self.height() && 0 <= j < self.width()
    }

    /// Whether every cell is a finite number.
    pub open spec fn all_finite(&self) -> bool {
        forall|i: int, j: int| self.has(i, j) ==> is_finite(#[trigger] self.at(i, j))
    }

    /// Whether two matrices have the same shape and the same cells.
    pub open spec fn same_as(&self, other: &Matrix) -> bool {
        &&& self.height() == other.height()
        &&& self.width() == other.width()
        &&& forall|i: int, j: int| self.has(i, j) ==> #[trigger] self.at(i, j) == other.at(i, j)
    }

    /// `nalgebra::DMatrix::zeros`: a matrix of the given shape whose cells are
    /// all zero. The shape is limited to what one allocation can hold.
    #[verifier::external_body]
    pub(crate) fn raw_zeros(rows: usize, cols: usize) -> (m: Matrix)
        requires
            rows * cols <= max_cells(),
        ensures
            matrix_rows(m).len() == rows,
            matrix_width(m) == cols,
            forall|i: int, j: int|
                0 <= i < rows && 0 <= j < cols ==> #[trigger] matrix_rows(m)[i][j] == 0,
    {
        Matrix { cells: nalgebra::DMatrix::zeros(rows, cols) }
    }

    /// `nalgebra::DMatrix::from_row_slice`: the matrix of the given shape
    /// whose cells are the items of `data`, taken row by row. The slice has to
    /// hold exactly one item for each cell.
    #[verifier::external_body]
    pub(crate) fn raw_from_row_slice(rows: usize, cols: usize, data: &[u64]) -> (m: Matrix)
        requires
            rows * cols == data@.len(),
        ensures
            matrix_rows(m).len() == rows,
            matrix_width(m) == cols,
            forall|i: int, j: int|
                0 <= i < rows && 0 <= j < cols ==> #[trigger] matrix_rows(m)[i][j] == data@[i
                    * cols + j],
    {
        Matrix { cells: nalgebra::DMatrix::from_row_slice(rows, cols, data) }
    }

    /// `Clone::clone` of an `nalgebra::DMatrix`: a matrix of the same shape
    /// with the same cells.
    #[verifier::external_body]
    pub(crate) fn raw_clone(&self) -> (m: Matrix)
        ensures
            matrix_rows(m) == matrix_rows(*self),
            matrix_width(m) == matrix_width(*self),
    {
        Matrix { cells: self.cells.clone() }
    }

    /// `nalgebra::Matrix::nrows`: the number of rows.
    #[verifier::external_body]
    pub(crate) fn raw_nrows(&self) -> (n: usize)
        ensures
            n == matrix_rows(*self).len(),
    {
        self.cells.nrows()
    }

    /// `nalgebra::Matrix::ncols`: the number of columns.
    #[verifier::external_body]
    pub(crate) fn raw_ncols(&self) -> (n: usize)
        ensures
            n == matrix_width(*self),
    {
        self.cells.ncols()
    }

    /// Indexing an `nalgebra::DMatrix` by `(row, column)`: the cell at that
    /// place. The index has to be within the shape.
    #[verifier::external_body]
    pub(crate) fn raw_get(&self, i: usize, j: usize) -> (v: u64)
        requires
            i < matrix_rows(*self).len(),
            j < matrix_width(*self),
        ensures
            v == matrix_rows(*self)[i as int][j as int],
    {
        self.cells[(i, j)]
    }

    /// Assigning through the index `(row, column)` of an `nalgebra::DMatrix`:
    /// the cell at that place becomes `v`, every other cell and the shape stay
    /// as they were. The index has to be within the shape.
    #[verifier::external_body]
    pub(crate) fn raw_set(&mut self, i: usize, j: usize, v: u64)
        requires
            i < matrix_rows(*old(self)).len(),
            j < matrix_width(*old(self)),
        ensures
            matrix_rows(*final(self)).len() == matrix_rows(*old(self)).len(),
            matrix_width(*final(self)) == matrix_width(*old(self)),
            forall|a: int, b: int|
                0 <= a < matrix_rows(*old(self)).len() && 0 <= b < matrix_width(*old(self))
                    ==> #[trigger] matrix_rows(*final(self))[a][b] == (if a == i && b == j {
                    v
                } else {
                    matrix_rows(*old(self))[a][b]
                }),
    {
        self.cells[(i, j)] = v;
    }

    /// A matrix of the given shape with every cell zero, or `None` when the
    /// shape has more cells than a matrix can hold.
    pub fn zeros(rows: usize, cols: usize) -> (m: Option<Matrix>)
        ensures
            m.is_some() <==> rows * cols <= max_cells(),
            m matches Some(z) ==> z.height() == rows && z.width() == cols && forall|
                i: int,
                j: int,
            | z.has(i, j) ==> #[trigger] z.at(i, j) == 0,
    {
        let limit: usize = usize::MAX / 16;
        if cols == 0 || rows <= limit / cols {
            assert(rows * cols <= limit) by (nonlinear_arith)
                requires
                    cols == 0 || (cols > 0 && rows <= limit / cols),
            ;
            Some(Matrix::raw_zeros(rows, cols))
        } else {
            assert(rows * cols > limit) by (nonlinear_arith)
                requires
                    cols > 0,
                    rows > limit / cols,
            ;
            None
        }
    }

    /// The matrix of the given shape whose cells are the items of `data`,
    /// taken row by row, or `None` when the slice does not hold exactly one
    /// item for each cell.
    pub fn from_row_slice(rows: usize, cols: usize, data: &[u64]) -> (m: Option<Matrix>)
        ensures
            m.is_some() <==> rows * cols == data@.len(),
            m matches Some(r) ==> r.height() == rows && r.width() == cols && forall|
                i: int,
                j: int,
            | r.has(i, j) ==> #[trigger] r.at(i, j) == data@[i * cols + j],
    {
        let n = data.len();
        if cols == 0 {
            if n == 0 {
                assert(rows * cols == 0) by (nonlinear_arith)
                    requires
                        cols == 0,
                ;
                Some(Matrix::raw_from_row_slice(rows, cols, data))
            } else {
                assert(rows * cols == 0) by (nonlinear_arith)
                    requires
                        cols == 0,
                ;
                None
            }
        } else if n % cols == 0 && n / cols == rows {
            assert(rows * cols == n) by (nonlinear_arith)
                requires
                    cols > 0,
                    n % cols == 0,
                    n / cols == rows,
            ;
            Some(Matrix::raw_from_row_slice(rows, cols, data))
        } else {
            assert(rows * cols != n) by (nonlinear_arith)
                requires
                    cols > 0,
                    !(n % cols == 0 && n / cols == rows),
            ;
            None
        }
    }

    /// The number of rows.
    pub fn nrows(&self) -> (n: usize)
        ensures
            n == self.height(),
    {
        self.raw_nrows()
    }

    /// The number of columns.
    pub fn ncols(&self) -> (n: usize)
        ensures
            n == self.width(),
    {
        self.raw_ncols()
    }

    /// The number of rows and the number of columns.
    pub fn shape(&self) -> (s: (usize, usize))
        ensures
            s.0 == self.height(),
            s.1 == self.width(),
    {
        (self.raw_nrows(), self.raw_ncols())
    }

    /// The cell in row `i` and column `j`, or `None` when there is no such
    /// cell.
    pub fn get(&self, i: usize, j: usize) -> (v: Option<u64>)
        ensures
            v == if self.has(i as int, j as int) {
                Some(self.at(i as int, j as int))
            } else {
                None
            },
    {
        if i < self.raw_nrows() && j < self.raw_ncols() {
            Some(self.raw_get(i, j))
        } else {
            None
        }
    }

    /// Stores `v` in row `i` and column `j` and returns `true`; where there is
    /// no such cell, changes nothing and returns `false`.
    pub fn set(&mut self, i: usize, j: usize, v: u64) -> (done: bool)
        ensures
            done == old(self).has(i as int, j as int),
            final(self).height() == old(self).height(),
            final(self).width() == old(self).width(),
            forall|a: int, b: int|
                old(self).has(a, b) ==> #[trigger] final(self).at(a, b) == (if done && a == i && b
                    == j {
                    v
                } else {
                    old(self).at(a, b)
                }),
    {
        if i < self.raw_nrows() && j < self.raw_ncols() {
            self.raw_set(i, j, v);
            true
        } else {
            false
        }
    }

    /// Whether every cell is a finite number.
    pub fn is_finite(&self) -> (r: bool)
        ensures
            r == self.all_finite(),
    {
        let rows = self.raw_nrows();
        let cols = self.raw_ncols();
        let mut i: usize = 0;
        while i < rows
            invariant
                rows == self.height(),
                cols == self.width(),
                i <= rows,
                forall|a: int, b: int| 0 <= a < i && 0 <= b < cols ==> is_finite(#[trigger] self.at(a, b)),
            decreases rows - i,
        {
            let mut j: usize = 0;
            while j < cols
                invariant
                    rows == self.height(),
                    cols == self.width(),
                    i < rows,
                    j <= cols,
                    forall|a: int, b: int|
                        0 <= a < i && 0 <= b < cols ==> is_finite(#[trigger] self.at(a, b)),
                    forall|b: int| 0 <= b < j ==> is_finite(#[trigger] self.at(i as int, b)),
                decreases cols - j,
            {
                if !finite(self.raw_get(i, j)) {
                    assert(self.has(i as int, j as int) && !is_finite(self.at(i as int, j as int)));
                    return false;
                }
                j += 1;
            }
            i += 1;
        }
        true
    }

    /// Negates every cell of column `j`.
    pub fn negate_column(&mut self, j: usize)
        requires
            j < old(self).width(),
        ensures
            final(self).height() == old(self).height(),
            final(self).width() == old(self).width(),
            forall|a: int, b: int|
                old(self).has(a, b) ==> #[trigger] final(self).at(a, b) == (if b == j {
                    negated(old(self).at(a, b))
                } else {
                    old(self).at(a, b)
                }),
    {
        let rows = self.raw_nrows();
        let mut i: usize = 0;
        while i < rows
            invariant
                rows == old(self).height(),
                self.height() == old(self).height(),
                self.width() == old(self).width(),
                j < self.width(),
                i <= rows,
                forall|a: int, b: int|
                    old(self).has(a, b) ==> #[trigger] self.at(a, b) == (if b == j && a < i {
                        negated(old(self).at(a, b))
                    } else {
                        old(self).at(a, b)
                    }),
            decreases rows - i,
        {
            let v = self.raw_get(i, j);
            assert(old(self).has(i as int, j as int));
            self.raw_set(i, j, neg(v));
            i += 1;
        }
    }

    /// Rearranges the columns: afterwards column `i` holds what column
    /// `order[i]` held before.
    pub fn reorder_columns(&mut self, order: &Vec<usize>)
        requires
            order@.len() == old(self).width(),
            forall|i: int| 0 <= i < order@.len() ==> (#[trigger] order@[i]) < old(self).width(),
        ensures
            final(self).height() == old(self).height(),
            final(self).width() == old(self).width(),
            forall|a: int, b: int|
                old(self).has(a, b) ==> #[trigger] final(self).at(a, b) == old(self).at(
                    a,
                    order@[b] as int,
                ),
    {
        let rows = self.raw_nrows();
        let cols = self.raw_ncols();
        let mut r: usize = 0;
        while r < rows
            invariant
                rows == old(self).height(),
                cols == old(self).width(),
                self.height() == rows,
                self.width() == cols,
                order@.len() == cols,
                forall|i: int| 0 <= i < order@.len() ==> (#[trigger] order@[i]) < cols,
                r <= rows,
                forall|a: int, b: int|
                    0 <= a < r && 0 <= b < cols ==> #[trigger] self.at(a, b) == old(self).at(
                        a,
                        order@[b] as int,
                    ),
                forall|a: int, b: int|
                    r <= a < rows && 0 <= b < cols ==> #[trigger] self.at(a, b) == old(self).at(a, b),
            decreases rows - r,
        {
            let mut line: Vec<u64> = Vec::new();
            let mut i: usize = 0;
            while i < cols
                invariant
                    self.height() == rows,
                    self.width() == cols,
                    order@.len() == cols,
                    forall|i: int| 0 <= i < order@.len() ==> (#[trigger] order@[i]) < cols,
                    r < rows,
                    i <= cols,
                    line@.len() == i,
                    forall|b: int|
                        0 <= b < i ==> #[trigger] line@[b] == self.at(r as int, order@[b] as int),
                decreases cols - i,
            {
                line.push(self.raw_get(r, order[i]));
                i += 1;
            }
            let ghost read = *self;
            let mut i: usize = 0;
            while i < cols
                invariant
                    self.height() == rows,
                    self.width() == cols,
                    read.height() == rows,
                    read.width() == cols,
                    r < rows,
                    i <= cols,
                    line@.len() == cols,
                    forall|b: int| 0 <= b < i ==> #[trigger] self.at(r as int, b) == line@[b],
                    forall|a: int, b: int|
                        0 <= a < rows && a != r && 0 <= b < cols ==> #[trigger] self.at(a, b)
                            == read.at(a, b),
                decreases cols - i,
            {
                self.raw_set(r, i, line[i]);
                i += 1;
            }
            r += 1;
        }
    }

    /// Rearranges the rows: afterwards row `i` holds what row `order[i]` held
    /// before.
    pub fn reorder_rows(&mut self, order: &Vec<usize>)
        requires
            order@.len() == old(self).height(),
            forall|i: int| 0 <= i < order@.len() ==> (#[trigger] order@[i]) < old(self).height(),
        ensures
            final(self).height() == old(self).height(),
            final(self).width() == old(self).width(),
            forall|a: int, b: int|
                old(self).has(a, b) ==> #[trigger] final(self).at(a, b) == old(self).at(
                    order@[a] as int,
                    b,
                ),
    {
        let rows = self.raw_nrows();
        let cols = self.raw_ncols();
        let mut c: usize = 0;
        while c < cols
            invariant
                rows == old(self).height(),
                cols == old(self).width(),
                self.height() == rows,
                self.width() == cols,
                order@.len() == rows,
                forall|i: int| 0 <= i < order@.len() ==> (#[trigger] order@[i]) < rows,
                c <= cols,
                forall|a: int, b: int|
                    0 <= a < rows && 0 <= b < c ==> #[trigger] self.at(a, b) == old(self).at(
                        order@[a] as int,
                        b,
                    ),
                forall|a: int, b: int|
                    0 <= a < rows && c <= b < cols ==> #[trigger] self.at(a, b) == old(self).at(a, b),
            decreases cols - c,
        {
            let mut line: Vec<u64> = Vec::new();
            let mut i: usize = 0;
            while i < rows
                invariant
                    self.height() == rows,
                    self.width() == cols,
                    order@.len() == rows,
                    forall|i: int| 0 <= i < order@.len() ==> (#[trigger] order@[i]) < rows,
                    c < cols,
                    i <= rows,
                    line@.len() == i,
                    forall|a: int|
                        0 <= a < i ==> #[trigger] line@[a] == self.at(order@[a] as int, c as int),
                decreases rows - i,
            {
                line.push(self.raw_get(order[i], c));
                i += 1;
            }
            let ghost read = *self;
            let mut i: usize = 0;
            while i < rows
                invariant
                    self.height() == rows,
                    self.width() == cols,
                    read.height() == rows,
                    read.width() == cols,
                    c < cols,
                    i <= rows,
                    line@.len() == rows,
                    forall|a: int| 0 <= a < i ==> #[trigger] self.at(a, c as int) == line@[a],
                    forall|a: int, b: int|
                        0 <= a < rows && b != c && 0 <= b < cols ==> #[trigger] self.at(a, b)
                            == read.at(a, b),
                decreases rows - i,
            {
                self.raw_set(i, c, line[i]);
                i += 1;
            }
            c += 1;
        }
    }
}

impl Clone for Matrix {
    /// A matrix of the same shape with the same cells.
    fn clone(&self) -> (m: Self)
        ensures
            m.same_as(self),
    {
        self.raw_clone()
    }
}

} // verus!
