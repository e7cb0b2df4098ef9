//! Trusted wrappers around `ndarray::Array2<usize>`, the two-dimensional
//! array that backs the engine's cost and direction grids.
//!
//! `ndarray::ArrayBase` cannot be declared to the verifier (its definition is
//! bounded by the `RawData` trait), so the array lives in a private field of
//! an opaque struct and is reached only through the wrappers below.

use vstd::prelude::*;

verus! {

/// A `rows x cols` grid of `usize` cells, backed by `ndarray::Array2`.
#[verifier::external_body]
pub struct Grid {
    inner: ndarray::Array2<usize>,
}

/// The cells of the grid, keyed by `(row, column)`.
pub uninterp spec fn grid_map(g: Grid) -> Map<(int, int), usize>;

/// The shape `(rows, columns)` the grid was created with.
pub uninterp spec fn grid_dim(g: Grid) -> (int, int);

/// Relies on `ndarray::Array2::from_elem`: a fresh `rows x cols` array with
/// every cell equal to `fill`.  It panics only when the product of the
/// non-zero axis lengths overflows `isize`; with both lengths positive and
/// their product bounded, the precondition rules that out.
#[verifier::external_body]
pub(crate) fn grid_new(rows: usize, cols: usize, fill: usize) -> (g: Grid)
    requires
        1 <= rows,
        1 <= cols,
        rows * cols <= isize::MAX as int,
    ensures
        grid_dim(g) == (rows as int, cols as int),
        forall|i: int, j: int|
            0 <= i < rows && 0 <= j < cols ==> grid_map(g)[(i, j)] == fill,
{
    Grid { inner: ndarray::Array2::from_elem((rows, cols), fill) }
}

/// Relies on `ndarray`'s `Index<[usize; 2]>` impl: returns the cell at
/// `(i, j)`; in-bounds indices never panic.
#[verifier::external_body]
pub(crate) fn grid_get(g: &Grid, i: usize, j: usize) -> (v: usize)
    requires
        0 <= i < grid_dim(*g).0,
        0 <= j < grid_dim(*g).1,
    ensures
        v == grid_map(*g)[(i as int, j as int)],
{
    g.inner[[i, j]]
}

/// Relies on `ndarray`'s `IndexMut<[usize; 2]>` impl: overwrites the cell at
/// `(i, j)` and nothing else; in-bounds indices never panic.
#[verifier::external_body]
pub(crate) fn grid_set(g: &mut Grid, i: usize, j: usize, v: usize)
    requires
        0 <= i < grid_dim(*old(g)).0,
        0 <= j < grid_dim(*old(g)).1,
    ensures
        grid_dim(*final(g)) == grid_dim(*old(g)),
        grid_map(*final(g)) == grid_map(*old(g)).insert((i as int, j as int), v),
{
    g.inner[[i, j]] = v;
}

} // verus!
