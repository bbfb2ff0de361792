//! Dense two-dimensional storage, kept in an `ndarray` array.
//!
//! The array and its one-dimensional views are opaque to the verifier. What
//! they hold is named by [`matrix_rows`], [`matrix_width`] and
//! [`slice_items`]; the private functions of this module state, without
//! proof, what each `ndarray` call does to those names. Everything else in
//! the crate is proved from these statements.

use vstd::prelude::*;
use crate::util::error::UtahError;

verus! {

/// The error of `ndarray`'s shape checks.
#[verifier::external_type_specification]
#[verifier::external_body]
pub struct ExShapeError(ndarray::ShapeError);

/// A dense matrix of `i64` cells, stored in an `ndarray::Array2<i64>`.
#[verifier::external_body]
pub struct Matrix {
    inner: ndarray::Array2<i64>,
}

/// A borrowed one-dimensional run of cells, stored as an
/// `ndarray::ArrayView1<i64>`: a row or a column of a [`Matrix`], or a slice.
#[verifier::external_body]
pub struct SliceView<'a> {
    inner: ndarray::ArrayView1<'a, i64>,
}

/// The rows of a matrix, top to bottom, each left to right.
pub uninterp spec fn matrix_rows(m: Matrix) -> Seq<Seq<i64>>;

/// The number of columns of a matrix (it is not to be read off the rows when
/// there are none).
pub uninterp spec fn matrix_width(m: Matrix) -> nat;

/// The cells that a view gives access to, in order.
pub uninterp spec fn slice_items(v: SliceView<'_>) -> Seq<i64>;

/// Cuts a row-major run of cells into `nrows` rows of `ncols` cells.
pub open spec fn rows_of(cells: Seq<i64>, nrows: nat, ncols: nat) -> Seq<Seq<i64>> {
    Seq::new(nrows, |i: int| cells.subrange(i * ncols, i * ncols + ncols))
}

/// The shapes that `ndarray` accepts for `len` cells: the shape holds exactly
/// `len` cells, and the product of its non-zero axis lengths fits in `isize`.
pub open spec fn shape_accepted(nrows: nat, ncols: nat, len: nat) -> bool {
    &&& nrows * ncols == len
    &&& nrows != 0 && ncols != 0 ==> nrows * ncols <= isize::MAX
    &&& nrows == 0 ==> ncols <= isize::MAX
    &&& ncols == 0 ==> nrows <= isize::MAX
}

/// Column `j` of a sequence of rows.
pub open spec fn column_of(rows: Seq<Seq<i64>>, j: int) -> Seq<i64> {
    Seq::new(rows.len(), |i: int| rows[i][j])
}

/// The rows of the transposed matrix: row `j` is column `j` of `rows`.
pub open spec fn transpose_of(rows: Seq<Seq<i64>>, ncols: nat) -> Seq<Seq<i64>> {
    Seq::new(ncols, |j: int| column_of(rows, j))
}

/// `ndarray::Array2::from_shape_vec` with a `(nrows, ncols)` shape. Claims:
/// the call succeeds exactly on the shapes of [`shape_accepted`], and the
/// array then holds the cells in row-major order.
#[verifier::external_body]
fn array_from_shape_vec(nrows: usize, ncols: usize, cells: Vec<i64>) -> (r: Result<
    Matrix,
    ndarray::ShapeError,
>)
    ensures
        r is Ok <==> shape_accepted(nrows as nat, ncols as nat, cells@.len()),
        r matches Ok(m) ==> matrix_rows(m) == rows_of(cells@, nrows as nat, ncols as nat)
            && matrix_width(m) == ncols,
{
    match ndarray::Array2::from_shape_vec((nrows, ncols), cells) {
        Ok(a) => Ok(Matrix { inner: a }),
        Err(e) => Err(e),
    }
}

/// `ndarray::ArrayBase::dim` of a two-dimensional array. Claims: it returns
/// the number of rows and the number of columns, and every row has as many
/// cells as there are columns.
#[verifier::external_body]
fn array_dim(m: &Matrix) -> (d: (usize, usize))
    ensures
        d.0 == matrix_rows(*m).len(),
        d.1 == matrix_width(*m),
        forall|i: int| 0 <= i < d.0 ==> (#[trigger] matrix_rows(*m)[i]).len() == d.1,
{
    m.inner.dim()
}

/// `ndarray::ArrayBase::row`. Claims: the view gives the cells of row `i`.
/// The call panics on an index out of bounds, which `requires` leaves out.
#[verifier::external_body]
fn array_row<'a>(m: &'a Matrix, i: usize) -> (v: SliceView<'a>)
    requires
        i < matrix_rows(*m).len(),
    ensures
        slice_items(v) == matrix_rows(*m)[i as int],
{
    SliceView { inner: m.inner.row(i) }
}

/// `ndarray::ArrayBase::column`. Claims: the view gives the cells of column
/// `j`, top to bottom. The call panics on an index out of bounds, which
/// `requires` leaves out.
#[verifier::external_body]
fn array_column<'a>(m: &'a Matrix, j: usize) -> (v: SliceView<'a>)
    requires
        j < matrix_width(*m),
    ensures
        slice_items(v) == column_of(matrix_rows(*m), j as int),
{
    SliceView { inner: m.inner.column(j) }
}

/// Assignment through `ndarray`'s `IndexMut` with a `[i, j]` index. Claims:
/// the cell at row `i`, column `j` becomes `x` and nothing else changes. The
/// call panics on an index out of bounds, which `requires` leaves out.
#[verifier::external_body]
fn array_set(m: &mut Matrix, i: usize, j: usize, x: i64)
    requires
        i < matrix_rows(*old(m)).len(),
        j < matrix_width(*old(m)),
    ensures
        matrix_width(*final(m)) == matrix_width(*old(m)),
        matrix_rows(*final(m)) == matrix_rows(*old(m)).update(
            i as int,
            matrix_rows(*old(m))[i as int].update(j as int, x),
        ),
{
    m.inner[[i, j]] = x;
}

/// `ndarray::ArrayBase::reversed_axes`. Claims: rows and columns change
/// places.
#[verifier::external_body]
fn array_reversed_axes(m: Matrix) -> (t: Matrix)
    ensures
        matrix_width(t) == matrix_rows(m).len(),
        matrix_rows(t) == transpose_of(matrix_rows(m), matrix_width(m)),
{
    Matrix { inner: m.inner.reversed_axes() }
}

/// `ndarray::aview1`. Claims: the view gives the cells of the slice.
#[verifier::external_body]
fn array_view_of<'a>(cells: &'a [i64]) -> (v: SliceView<'a>)
    ensures
        slice_items(v) == cells@,
{
    SliceView { inner: ndarray::aview1(cells) }
}

/// `ndarray::ArrayBase::len` of a one-dimensional view. Claims: it is the
/// number of cells of the view.
#[verifier::external_body]
fn array_view_len(v: &SliceView<'_>) -> (n: usize)
    ensures
        n == slice_items(*v).len(),
{
    v.inner.len()
}

/// Indexing through `ndarray`'s `Index` with a `usize` index. Claims: it is
/// cell `i` of the view. The call panics on an index out of bounds, which
/// `requires` leaves out.
#[verifier::external_body]
fn array_view_get(v: &SliceView<'_>, i: usize) -> (x: i64)
    requires
        i < slice_items(*v).len(),
    ensures
        x == slice_items(*v)[i as int],
{
    v.inner[i]
}

/// `ndarray::ArrayBase::to_vec` of a one-dimensional view. Claims: the vector
/// holds the cells of the view, in order.
#[verifier::external_body]
fn array_view_to_vec(v: &SliceView<'_>) -> (cells: Vec<i64>)
    ensures
        cells@ == slice_items(*v),
{
    v.inner.to_vec()
}

/// `Clone::clone` of an `ndarray` view. Claims: the copy gives the same
/// cells.
#[verifier::external_body]
fn array_view_clone<'a>(v: &SliceView<'a>) -> (c: SliceView<'a>)
    ensures
        slice_items(c) == slice_items(*v),
{
    SliceView { inner: v.inner.clone() }
}

impl View for Matrix {
    type V = Seq<Seq<i64>>;

    open spec fn view(&self) -> Seq<Seq<i64>> {
        matrix_rows(*self)
    }
}

impl<'a> View for SliceView<'a> {
    type V = Seq<i64>;

    open spec fn view(&self) -> Seq<i64> {
        slice_items(*self)
    }
}

/// Every row of `rows` has `ncols` cells.
pub open spec fn rectangular(rows: Seq<Seq<i64>>, ncols: nat) -> bool {
    forall|i: int| 0 <= i < rows.len() ==> (#[trigger] rows[i]).len() == ncols
}

/// Row `i` of a row-major run of `nrows * ncols` cells lies inside the run.
pub proof fn lemma_row_bounds(i: int, nrows: nat, ncols: nat)
    requires
        0 <= i < nrows,
    ensures
        0 <= i * ncols,
        i * ncols + ncols <= nrows * ncols,
{
    assert(0 <= i * ncols && (i + 1) * ncols <= nrows * ncols) by (nonlinear_arith)
        requires
            0 <= i < nrows,
    ;
    assert((i + 1) * ncols == i * ncols + ncols) by (nonlinear_arith);
}

/// The rows cut from a run of `nrows * ncols` cells have `ncols` cells each.
pub proof fn lemma_rows_of_rectangular(cells: Seq<i64>, nrows: nat, ncols: nat)
    requires
        cells.len() == nrows * ncols,
    ensures
        rows_of(cells, nrows, ncols).len() == nrows,
        rectangular(rows_of(cells, nrows, ncols), ncols),
{
    assert forall|i: int| 0 <= i < nrows implies (#[trigger] rows_of(cells, nrows, ncols)[i]).len()
        == ncols by {
        lemma_row_bounds(i, nrows, ncols);
    }
}

impl Matrix {
    /// The number of columns.
    pub open spec fn width(&self) -> nat {
        matrix_width(*self)
    }

    /// Builds the matrix of `nrows` rows and `ncols` columns that holds
    /// `cells` in row-major order. Fails with `ShapeMismatch` where the shape
    /// does not hold exactly `cells.len()` cells, or is more than the
    /// storage can address.
    pub fn from_shape_vec(nrows: usize, ncols: usize, cells: Vec<i64>) -> (r: Result<
        Matrix,
        UtahError,
    >)
        ensures
            r is Ok <==> shape_accepted(nrows as nat, ncols as nat, cells@.len()),
            r matches Ok(m) ==> m@ == rows_of(cells@, nrows as nat, ncols as nat) && m.width()
                == ncols && rectangular(m@, m.width()),
            r matches Err(e) ==> e == UtahError::ShapeMismatch,
    {
        proof {
            if shape_accepted(nrows as nat, ncols as nat, cells@.len()) {
                lemma_rows_of_rectangular(cells@, nrows as nat, ncols as nat);
            }
        }
        match array_from_shape_vec(nrows, ncols, cells) {
            Ok(m) => Ok(m),
            Err(_) => Err(UtahError::ShapeMismatch),
        }
    }

    /// The number of rows and the number of columns.
    pub fn dim(&self) -> (d: (usize, usize))
        ensures
            d.0 == self@.len(),
            d.1 == self.width(),
            rectangular(self@, self.width()),
    {
        array_dim(self)
    }

    /// A view of row `i`.
    pub fn row(&self, i: usize) -> (v: SliceView<'_>)
        requires
            i < self@.len(),
        ensures
            v@ == self@[i as int],
    {
        array_row(self, i)
    }

    /// A view of column `j`.
    pub fn column(&self, j: usize) -> (v: SliceView<'_>)
        requires
            j < self.width(),
        ensures
            v@ == column_of(self@, j as int),
    {
        array_column(self, j)
    }

    /// Writes `x` into the cell at row `i`, column `j`.
    pub fn set(&mut self, i: usize, j: usize, x: i64)
        requires
            i < old(self)@.len(),
            j < old(self).width(),
        ensures
            final(self).width() == old(self).width(),
            final(self)@ == old(self)@.update(i as int, old(self)@[i as int].update(j as int, x)),
    {
        array_set(self, i, j, x)
    }

    /// The transposed matrix.
    pub fn transposed(self) -> (t: Matrix)
        ensures
            t.width() == self@.len(),
            t@ == transpose_of(self@, self.width()),
    {
        array_reversed_axes(self)
    }
}

impl<'a> SliceView<'a> {
    /// A view of the cells of a slice.
    pub fn from_slice(cells: &'a [i64]) -> (v: SliceView<'a>)
        ensures
            v@ == cells@,
    {
        array_view_of(cells)
    }

    /// Another view of the same cells.
    pub fn duplicate(&self) -> (v: SliceView<'a>)
        ensures
            v@ == self@,
    {
        array_view_clone(self)
    }

    /// The number of cells.
    pub fn len(&self) -> (n: usize)
        ensures
            n == self@.len(),
    {
        array_view_len(self)
    }

    /// Cell `i`.
    pub fn get(&self, i: usize) -> (x: i64)
        requires
            i < self@.len(),
        ensures
            x == self@[i as int],
    {
        array_view_get(self, i)
    }

    /// The cells, copied into a vector.
    pub fn to_vec(&self) -> (cells: Vec<i64>)
        ensures
            cells@ == self@,
    {
        array_view_to_vec(self)
    }
}

} // verus!
