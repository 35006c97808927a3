//! Layout of the 62^3 interior of a chunk (no padding), stored XZY.

use vstd::prelude::*;

use crate::voxel::chunk::Scalar;

verus! {

pub const SIZE: usize = 62;

pub const SIZE_SCALAR: Scalar = 62;

pub const USIZE: usize = SIZE;

pub const Z_STRIDE: usize = 1;

pub const X_STRIDE: usize = SIZE;

pub const Y_STRIDE: usize = SIZE * SIZE;

pub const ARR_STRIDE: usize = SIZE * SIZE * SIZE;

/// The linear index of a point in the 62^3 XZY array.
pub open spec fn spec_linearize(x: int, y: int, z: int) -> int {
    z + x * 62 + y * 3844
}

/// The point whose linear index is `i`, as integers.
pub open spec fn spec_delinearize(i: int) -> (int, int, int) {
    let y = i / 3844;
    let rest = i - y * 3844;
    (rest / 62, y, rest % 62)
}

/// Linear index of a point into a 62^3 XZY array.
pub fn linearize(point: [Scalar; 3]) -> (r: usize)
    requires
        point[0] >= 0,
        point[1] >= 0,
        point[2] >= 0,
        spec_linearize(point[0] as int, point[1] as int, point[2] as int) <= usize::MAX,
    ensures
        r == spec_linearize(point[0] as int, point[1] as int, point[2] as int),
{
    let x = point[0] as usize;
    let y = point[1] as usize;
    let z = point[2] as usize;
    proof {
        assert(0 <= x * 62 && 0 <= y * 3844) by (nonlinear_arith)
            requires x >= 0, y >= 0 {}
    }
    z + x * X_STRIDE + y * Y_STRIDE
}

/// Linear index of a point shifted by one on every axis.
pub fn pad_linearize(point: [Scalar; 3]) -> (r: usize)
    requires
        point[0] >= -1,
        point[1] >= -1,
        point[2] >= -1,
        point[0] < i32::MAX,
        point[1] < i32::MAX,
        point[2] < i32::MAX,
        spec_linearize(point[0] + 1, point[1] + 1, point[2] + 1) <= usize::MAX,
    ensures
        r == spec_linearize(point[0] + 1, point[1] + 1, point[2] + 1),
{
    let x = (point[0] + 1) as usize;
    let y = (point[1] + 1) as usize;
    let z = (point[2] + 1) as usize;
    proof {
        assert(0 <= x * 62 && 0 <= y * 3844) by (nonlinear_arith)
            requires x >= 0, y >= 0 {}
    }
    z + x * X_STRIDE + y * Y_STRIDE
}

/// The point at a linear index of a 62^3 XZY array.
pub fn delinearize(index: usize) -> (r: [Scalar; 3])
    requires
        index / 3844 <= i32::MAX,
    ensures
        r[0] == spec_delinearize(index as int).0,
        r[1] == spec_delinearize(index as int).1,
        r[2] == spec_delinearize(index as int).2,
{
    let y = index / Y_STRIDE;
    proof {
        assert(y * 3844 <= index && index - y * 3844 < 3844) by (nonlinear_arith)
            requires y == index / 3844 {}
    }
    let rest = index - y * Y_STRIDE;
    let x = rest / X_STRIDE;
    let z = rest % X_STRIDE;
    [x as Scalar, y as Scalar, z as Scalar]
}

/// Delinearizing a linearized point in the 62^3 array gives the point back.
pub proof fn lemma_delinearize_linearize(x: int, y: int, z: int)
    requires
        0 <= x < 62,
        0 <= y,
        0 <= z < 62,
    ensures
        spec_delinearize(spec_linearize(x, y, z)) == (x, y, z),
{
    let i = spec_linearize(x, y, z);
    assert(i / 3844 == y) by (nonlinear_arith)
        requires i == z + x * 62 + y * 3844, 0 <= x < 62, 0 <= z < 62, 0 <= y {}
    let rest = i - y * 3844;
    assert(rest == z + x * 62);
    assert(rest / 62 == x) by (nonlinear_arith)
        requires rest == z + x * 62, 0 <= z < 62, 0 <= x {}
    assert(rest % 62 == z) by (nonlinear_arith)
        requires rest == z + x * 62, 0 <= z < 62, 0 <= x {}
}

} // verus!
