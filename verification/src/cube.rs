//! A three-dimensional cube of `u64` samples, stored in an `ndarray::Array3`.
//!
//! Axis 0 is the receiver (angle) axis, axis 1 the chirp (Doppler) axis and
//! axis 2 the sample (range) axis, as in the radar cube of the demo.

use vstd::prelude::*;

verus! {

/// A cube of samples held in an `ndarray::Array3<u64>` in standard (row-major) layout.
#[verifier::external_body]
pub struct Cube {
    array: ndarray::Array3<u64>,
}

/// The shape `(nz, ny, nx)` that a cube was made with.
pub uninterp spec fn cube_shape(c: Cube) -> (nat, nat, nat);

/// The samples of a cube, in row-major order of `(z, y, x)`.
pub uninterp spec fn cube_values(c: Cube) -> Seq<u64>;

/// Position of `(i, j, k)` in the row-major order of a `(_, ny, nx)` cube.
pub open spec fn flat_index(i: int, j: int, k: int, ny: int, nx: int) -> int {
    (i * ny + j) * nx + k
}

/// The product of the axis lengths that are not zero.
pub open spec fn nonzero_product(nz: int, ny: int, nx: int) -> int {
    (if nz == 0 { 1 } else { nz }) * (if ny == 0 { 1 } else { ny }) * (if nx == 0 { 1 } else { nx })
}

impl Cube {
    pub open spec fn nz(self) -> nat {
        cube_shape(self).0
    }

    pub open spec fn ny(self) -> nat {
        cube_shape(self).1
    }

    pub open spec fn nx(self) -> nat {
        cube_shape(self).2
    }

    /// Whether `(i, j, k)` is an index of the cube.
    pub open spec fn contains_index(self, i: int, j: int, k: int) -> bool {
        0 <= i < self.nz() && 0 <= j < self.ny() && 0 <= k < self.nx()
    }

    /// The sample at `(i, j, k)`.
    pub open spec fn at(self, i: int, j: int, k: int) -> u64 {
        cube_values(self)[flat_index(i, j, k, self.ny() as int, self.nx() as int)]
    }

    /// Builds a cube of shape `shape` from `values` in row-major order.
    ///
    /// Returns `None` exactly when `ndarray` refuses the shape: when the number
    /// of values is not `nz * ny * nx`, or when the product of the non-zero axis
    /// lengths exceeds `isize::MAX`.
    pub fn from_shape_vec(shape: (usize, usize, usize), values: Vec<u64>) -> (res: Option<Cube>)
        ensures
            res is Some <==> (shape.0 * shape.1 * shape.2 == values.len() && nonzero_product(
                shape.0 as int,
                shape.1 as int,
                shape.2 as int,
            ) <= isize::MAX),
            res matches Some(c) ==> cube_shape(c) == (shape.0 as nat, shape.1 as nat, shape.2 as nat)
                && cube_values(c) == values@,
    {
        array3_from_shape_vec(shape, values)
    }

    /// The shape `(nz, ny, nx)` of the cube.
    pub fn dim(&self) -> (d: (usize, usize, usize))
        ensures
            d.0 == self.nz(),
            d.1 == self.ny(),
            d.2 == self.nx(),
            cube_values(*self).len() == d.0 * d.1 * d.2,
    {
        array3_dim(self)
    }

    /// The sample at `(i, j, k)`.
    pub fn get(&self, i: usize, j: usize, k: usize) -> (v: u64)
        requires
            self.contains_index(i as int, j as int, k as int),
        ensures
            v == self.at(i as int, j as int, k as int),
    {
        array3_get(self, i, j, k)
    }
}

/// Calls `ndarray::Array3::from_shape_vec` with a `(nz, ny, nx)` shape, which lays
/// the values out in row-major order. Per its source, it fails exactly when the
/// product of the non-zero axis lengths overflows `isize::MAX` or when
/// `nz * ny * nx` differs from the number of values.
#[verifier::external_body]
fn array3_from_shape_vec(shape: (usize, usize, usize), values: Vec<u64>) -> (res: Option<Cube>)
    ensures
        res is Some <==> (shape.0 * shape.1 * shape.2 == values.len() && nonzero_product(
            shape.0 as int,
            shape.1 as int,
            shape.2 as int,
        ) <= isize::MAX),
        res matches Some(c) ==> cube_shape(c) == (shape.0 as nat, shape.1 as nat, shape.2 as nat)
            && cube_values(c) == values@,
{
    match ndarray::Array3::from_shape_vec(shape, values) {
        Ok(array) => Some(Cube { array }),
        Err(_) => None,
    }
}

/// Calls `ndarray::ArrayBase::dim`, which returns the shape of the array as a
/// tuple `(nz, ny, nx)`; the array holds `nz * ny * nx` elements.
#[verifier::external_body]
fn array3_dim(c: &Cube) -> (d: (usize, usize, usize))
    ensures
        d.0 == cube_shape(*c).0,
        d.1 == cube_shape(*c).1,
        d.2 == cube_shape(*c).2,
        cube_values(*c).len() == d.0 * d.1 * d.2,
{
    c.array.dim()
}

/// Indexes the array with `(i, j, k)`; `ndarray` panics on an index out of
/// bounds, which `requires` rules out, and otherwise returns the element at
/// that logical position.
#[verifier::external_body]
fn array3_get(c: &Cube, i: usize, j: usize, k: usize) -> (v: u64)
    requires
        i < cube_shape(*c).0,
        j < cube_shape(*c).1,
        k < cube_shape(*c).2,
    ensures
        v == cube_values(*c)[flat_index(i as int, j as int, k as int, cube_shape(*c).1 as int, cube_shape(*c).2 as int)],
{
    c.array[(i, j, k)]
}

} // verus!
