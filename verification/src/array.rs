//! The storage of the price table: a two-dimensional array of `ndarray` that
//! holds one 64-bit pattern per cell.
//!
//! Nothing in this file is proved. Each function makes one call into
//! `ndarray`, and its contract says what that call is taken to do to the rows
//! of the array.

use ndarray::Array2;
use vstd::prelude::*;

verus! {

/// An `ndarray::Array2<u64>`. The verifier does not look inside: the cells
/// are reached through the functions of this file only.
#[verifier::external_body]
#[derive(Debug)]
pub struct CellArray {
    inner: Array2<u64>,
}

/// The rows of an array from the first to the last, each row the sequence of
/// its cells from the first column to the last.
pub uninterp spec fn array_rows(a: CellArray) -> Seq<Seq<u64>>;

/// Calls `Array2::zeros` with the shape `(rows, cols)`. Taken from it: the
/// array has `rows` rows of `cols` cells, and every cell is zero. It panics
/// where the number of cells is above `isize::MAX`, and the allocation
/// where the number of bytes is; both are left out here.
#[verifier::external_body]
pub(crate) fn zeros(rows: usize, cols: usize) -> (a: CellArray)
    requires
        1 <= rows,
        1 <= cols,
        rows * cols * 8 <= isize::MAX,
    ensures
        array_rows(a) == Seq::new(rows as nat, |t: int| Seq::new(cols as nat, |i: int| 0u64)),
{
    CellArray { inner: Array2::zeros((rows, cols)) }
}

/// Indexes the array by `[t, i]`. Taken from it: the result is cell `i` of
/// row `t`. It panics outside the array, which is left out here.
#[verifier::external_body]
pub(crate) fn read_cell(a: &CellArray, t: usize, i: usize) -> (v: u64)
    requires
        t < array_rows(*a).len(),
        i < array_rows(*a)[t as int].len(),
    ensures
        v == array_rows(*a)[t as int][i as int],
{
    a.inner[[t, i]]
}

/// Assigns through the index `[t, i]`. Taken from it: cell `i` of row `t`
/// holds `v` afterwards, and every other cell is unchanged. It panics
/// outside the array, which is left out here.
#[verifier::external_body]
pub(crate) fn write_cell(a: &mut CellArray, t: usize, i: usize, v: u64)
    requires
        t < array_rows(*old(a)).len(),
        i < array_rows(*old(a))[t as int].len(),
    ensures
        array_rows(*final(a)) == array_rows(*old(a)).update(
            t as int,
            array_rows(*old(a))[t as int].update(i as int, v),
        ),
{
    a.inner[[t, i]] = v;
}

/// Calls `row` and copies the view with `to_vec`. Taken from them: the
/// result holds the cells of row `t` in their order. `row` panics outside
/// the array, which is left out here.
#[verifier::external_body]
pub(crate) fn row_to_vec(a: &CellArray, t: usize) -> (v: Vec<u64>)
    requires
        t < array_rows(*a).len(),
    ensures
        v@ == array_rows(*a)[t as int],
{
    a.inner.row(t).to_vec()
}

/// Calls `column` and copies the view with `to_vec`. Taken from them: the
/// result holds cell `i` of every row, from the first row to the last.
/// `column` panics outside the array, which is left out here.
#[verifier::external_body]
pub(crate) fn column_to_vec(a: &CellArray, i: usize) -> (v: Vec<u64>)
    requires
        1 <= array_rows(*a).len(),
        i < array_rows(*a)[0].len(),
    ensures
        v@ == Seq::new(array_rows(*a).len(), |t: int| array_rows(*a)[t][i as int]),
{
    a.inner.column(i).to_vec()
}

} // verus!
