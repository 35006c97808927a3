//! Layout of a whole chunk, 64^3 with one voxel of padding on each side, stored XZY.

use vstd::prelude::*;

use crate::voxel::chunk::Scalar;

verus! {

pub const SIZE: usize = 64;

pub const SIZE_SCALAR: Scalar = 64;

pub const USIZE: usize = SIZE;

pub const Z_STRIDE: usize = 1;

pub const X_STRIDE: usize = SIZE;

pub const Y_STRIDE: usize = SIZE * SIZE;

pub const ARR_STRIDE: usize = SIZE * SIZE * SIZE;

pub const Z_STRIDE_I: isize = 1;

pub const X_STRIDE_I: isize = 64;

pub const Y_STRIDE_I: isize = 4096;

/// The linear index of a point in the 64^3 XZY array.
pub open spec fn spec_linearize(x: int, y: int, z: int) -> int {
    z + x * 64 + y * 4096
}

/// The point whose linear index is `i`, as integers.
pub open spec fn spec_delinearize(i: int) -> (int, int, int) {
    let y = i / 4096;
    let rest = i - y * 4096;
    (rest / 64, y, rest % 64)
}

/// Linear index of a point into a 64^3 XZY array.
pub fn linearize(point: [Scalar; 3]) -> (r: usize)
    requires
        point[0] >= 0,
        point[1] >= 0,
        point[2] >= 0,
        spec_linearize(point[0] as int, point[1] as int, point[2] as int) <= usize::MAX,
    ensures
        r == spec_linearize(point[0] as int, point[1] as int, point[2] as int),
{
    let x = point[0] as usize;
    let y = point[1] as usize;
    let z = point[2] as usize;
    proof {
        assert(0 <= x * 64 && 0 <= y * 4096) by (nonlinear_arith)
            requires x >= 0, y >= 0 {}
    }
    z + x * X_STRIDE + y * Y_STRIDE
}

/// Linear index of a point shifted by one on every axis.
pub fn pad_linearize(point: [Scalar; 3]) -> (r: usize)
    requires
        point[0] >= -1,
        point[1] >= -1,
        point[2] >= -1,
        point[0] < i32::MAX,
        point[1] < i32::MAX,
        point[2] < i32::MAX,
        spec_linearize(point[0] + 1, point[1] + 1, point[2] + 1) <= usize::MAX,
    ensures
        r == spec_linearize(point[0] + 1, point[1] + 1, point[2] + 1),
{
    let x = (point[0] + 1) as usize;
    let y = (point[1] + 1) as usize;
    let z = (point[2] + 1) as usize;
    proof {
        assert(0 <= x * 64 && 0 <= y * 4096) by (nonlinear_arith)
            requires x >= 0, y >= 0 {}
    }
    z + x * X_STRIDE + y * Y_STRIDE
}

/// The point at a linear index of a 64^3 XZY array.
pub fn delinearize(index: usize) -> (r: [Scalar; 3])
    requires
        index / 4096 <= i32::MAX,
    ensures
        r[0] == spec_delinearize(index as int).0,
        r[1] == spec_delinearize(index as int).1,
        r[2] == spec_delinearize(index as int).2,
{
    let y = index / Y_STRIDE;
    proof {
        assert(y * 4096 <= index && index - y * 4096 < 4096) by (nonlinear_arith)
            requires y == index / 4096 {}
    }
    let rest = index - y * Y_STRIDE;
    let x = rest / X_STRIDE;
    let z = rest % X_STRIDE;
    [x as Scalar, y as Scalar, z as Scalar]
}

/// Signed linear offset of a relative point: how far apart two indices are
/// whose points differ by `offset`.
pub fn pad_linearize_offset(offset: [Scalar; 3]) -> (r: isize)
    requires
        -2 <= offset[0] <= 2,
        -2 <= offset[1] <= 2,
        -2 <= offset[2] <= 2,
    ensures
        r == spec_linearize(offset[0] as int, offset[1] as int, offset[2] as int),
{
    let x = offset[0] as isize;
    let y = offset[1] as isize;
    let z = offset[2] as isize;
    z + x * X_STRIDE_I + y * Y_STRIDE_I
}

/// Delinearizing a linearized point in the 64^3 array gives the point back.
pub proof fn lemma_delinearize_linearize(x: int, y: int, z: int)
    requires
        0 <= x < 64,
        0 <= y,
        0 <= z < 64,
    ensures
        spec_delinearize(spec_linearize(x, y, z)) == (x, y, z),
{
    let i = spec_linearize(x, y, z);
    assert(i / 4096 == y) by (nonlinear_arith)
        requires i == z + x * 64 + y * 4096, 0 <= x < 64, 0 <= z < 64, 0 <= y {}
    let rest = i - y * 4096;
    assert(rest == z + x * 64);
    assert(rest / 64 == x) by (nonlinear_arith)
        requires rest == z + x * 64, 0 <= z < 64, 0 <= x {}
    assert(rest % 64 == z) by (nonlinear_arith)
        requires rest == z + x * 64, 0 <= z < 64, 0 <= x {}
}

} // verus!
