//! The connection matrix, kept in a dense `nalgebra` matrix.
//!
//! Verus cannot look inside the `nalgebra` type, so this file is the one
//! place where its behaviour is stated without proof. Everything else in the
//! crate reasons about a matrix only through [`matrix_rows`] and
//! [`matrix_width`].

use vstd::prelude::*;

verus! {

/// A dense table of optional edge indices, held in a
/// `nalgebra::DMatrix<Option<usize>>`.
///
/// The struct is opaque to the verifier: what it holds is named by
/// [`matrix_rows`] and [`matrix_width`], and only the functions of this file
/// touch the field.
#[verifier::external_body]
#[derive(Debug, PartialEq)]
pub struct ConnectionMatrix {
    cells: nalgebra::DMatrix<Option<usize>>,
}

/// The contents of a matrix, row by row: `matrix_rows(m)[i][j]` is the cell in
/// row `i` and column `j`, and `matrix_rows(m).len()` is the number of rows.
pub uninterp spec fn matrix_rows(m: ConnectionMatrix) -> Seq<Seq<Option<usize>>>;

/// The number of columns of a matrix (every row has this many cells).
pub uninterp spec fn matrix_width(m: ConnectionMatrix) -> nat;

impl ConnectionMatrix {
    /// The cell in row `i`, column `j`.
    pub open spec fn cell(&self, i: int, j: int) -> Option<usize> {
        matrix_rows(*self)[i][j]
    }

    /// Number of rows, as a specification value.
    pub open spec fn height(&self) -> nat {
        matrix_rows(*self).len()
    }

    /// `(i, j)` addresses a cell of the matrix.
    pub open spec fn in_bounds(&self, i: int, j: int) -> bool {
        0 <= i < self.height() && 0 <= j < matrix_width(*self)
    }

    /// Calls `nalgebra::DMatrix::from_vec(nrows, ncols, data)`.
    ///
    /// Claimed of it: the result has `nrows` rows of `ncols` cells each, and
    /// it is filled from `data` column by column, so that the cell in row `i`
    /// and column `j` is `data[i + j * nrows]`. The call panics unless `data`
    /// has exactly `nrows * ncols` elements, which `requires` demands.
    #[verifier::external_body]
    pub(crate) fn from_vec(nrows: usize, ncols: usize, data: Vec<Option<usize>>) -> (m:
        ConnectionMatrix)
        requires
            nrows * ncols == data@.len(),
        ensures
            m.height() == nrows,
            matrix_width(m) == ncols,
            forall|i: int| 0 <= i < nrows ==> (#[trigger] matrix_rows(m)[i]).len() == ncols,
            forall|i: int, j: int|
                0 <= i < nrows && 0 <= j < ncols ==> #[trigger] m.cell(i, j) == data@[i + j
                    * nrows],
    {
        ConnectionMatrix { cells: nalgebra::DMatrix::from_vec(nrows, ncols, data) }
    }

    /// Calls `nalgebra::Matrix::nrows`.
    ///
    /// Claimed of it: it returns the number of rows.
    #[verifier::external_body]
    pub(crate) fn row_count(&self) -> (n: usize)
        ensures
            n == self.height(),
    {
        self.cells.nrows()
    }

    /// Calls `nalgebra::Matrix::ncols`.
    ///
    /// Claimed of it: it returns the number of columns, and every row of the
    /// matrix has that many cells.
    #[verifier::external_body]
    pub(crate) fn column_count(&self) -> (n: usize)
        ensures
            n == matrix_width(*self),
            forall|i: int| 0 <= i < self.height() ==> (#[trigger] matrix_rows(*self)[i]).len() == n,
    {
        self.cells.ncols()
    }

    /// Reads one cell through `nalgebra`'s `Index<(usize, usize)>`.
    ///
    /// Claimed of it: it returns the cell in row `row` and column `col`. The
    /// index operation panics outside the matrix, which `requires` excludes.
    #[verifier::external_body]
    pub(crate) fn read(&self, row: usize, col: usize) -> (value: Option<usize>)
        requires
            self.in_bounds(row as int, col as int),
        ensures
            value == self.cell(row as int, col as int),
    {
        self.cells[(row, col)]
    }

    /// Writes one cell through `nalgebra`'s `IndexMut<(usize, usize)>`.
    ///
    /// Claimed of it: the cell in row `row` and column `col` becomes `value`,
    /// every other cell and the shape stay as they were. The index operation
    /// panics outside the matrix, which `requires` excludes.
    #[verifier::external_body]
    pub(crate) fn write(&mut self, row: usize, col: usize, value: Option<usize>)
        requires
            old(self).in_bounds(row as int, col as int),
        ensures
            final(self).height() == old(self).height(),
            matrix_width(*final(self)) == matrix_width(*old(self)),
            final(self).cell(row as int, col as int) == value,
            forall|i: int, j: int|
                old(self).in_bounds(i, j) && !(i == row && j == col) ==> #[trigger] final(self).cell(
                    i,
                    j,
                ) == old(self).cell(i, j),
    {
        self.cells[(row, col)] = value;
    }

    /// Number of rows.
    pub fn nrows(&self) -> (n: usize)
        ensures
            n == self.height(),
    {
        self.row_count()
    }

    /// Number of columns.
    pub fn ncols(&self) -> (n: usize)
        ensures
            n == matrix_width(*self),
    {
        self.column_count()
    }

    /// The edge index stored at `(row, col)`, or `None` where the cell is
    /// empty or lies outside the matrix.
    pub fn get(&self, row: usize, col: usize) -> (value: Option<usize>)
        ensures
            value == if self.in_bounds(row as int, col as int) {
                self.cell(row as int, col as int)
            } else {
                None
            },
    {
        if row < self.row_count() && col < self.column_count() {
            self.read(row, col)
        } else {
            None
        }
    }
}

} // verus!
