//! Integer vectors and Euclidean division helpers used by the voxel world.

use vstd::prelude::*;

verus! {

/// A point or offset on the integer voxel lattice.
#[derive(Clone, Copy, PartialEq, Eq, Structural, Debug, Hash)]
pub struct IVec3 {
    pub x: i32,
    pub y: i32,
    pub z: i32,
}

/// Floor division of `a` by a positive divisor, as a mathematical integer.
pub open spec fn floor_div(a: int, d: int) -> int {
    a / d
}

/// Euclidean remainder of `a` by a positive divisor.
pub open spec fn floor_mod(a: int, d: int) -> int {
    a % d
}

impl IVec3 {
    pub fn new(x: i32, y: i32, z: i32) -> (r: IVec3)
        ensures
            r.x == x,
            r.y == y,
            r.z == z,
    {
        IVec3 { x, y, z }
    }

    pub fn splat(v: i32) -> (r: IVec3)
        ensures
            r.x == v,
            r.y == v,
            r.z == v,
    {
        IVec3 { x: v, y: v, z: v }
    }

    pub fn to_array(self) -> (r: [i32; 3])
        ensures
            r[0] == self.x,
            r[1] == self.y,
            r[2] == self.z,
    {
        [self.x, self.y, self.z]
    }

    pub fn from_array(a: [i32; 3]) -> (r: IVec3)
        ensures
            r.x == a[0],
            r.y == a[1],
            r.z == a[2],
    {
        IVec3 { x: a[0], y: a[1], z: a[2] }
    }

    /// Whether the component-wise sum fits in `i32`.
    pub open spec fn add_fits(self, o: IVec3) -> bool {
        i32::MIN <= self.x + o.x <= i32::MAX
        && i32::MIN <= self.y + o.y <= i32::MAX
        && i32::MIN <= self.z + o.z <= i32::MAX
    }

    /// Whether the component-wise difference fits in `i32`.
    pub open spec fn sub_fits(self, o: IVec3) -> bool {
        i32::MIN <= self.x - o.x <= i32::MAX
        && i32::MIN <= self.y - o.y <= i32::MAX
        && i32::MIN <= self.z - o.z <= i32::MAX
    }

    pub fn add(self, o: IVec3) -> (r: IVec3)
        requires
            self.add_fits(o),
        ensures
            r.x == self.x + o.x,
            r.y == self.y + o.y,
            r.z == self.z + o.z,
    {
        IVec3 { x: self.x + o.x, y: self.y + o.y, z: self.z + o.z }
    }

    pub fn sub(self, o: IVec3) -> (r: IVec3)
        requires
            self.sub_fits(o),
        ensures
            r.x == self.x - o.x,
            r.y == self.y - o.y,
            r.z == self.z - o.z,
    {
        IVec3 { x: self.x - o.x, y: self.y - o.y, z: self.z - o.z }
    }

    /// Component-wise minimum.
    pub fn min(self, o: IVec3) -> (r: IVec3)
        ensures
            r.x == if self.x <= o.x { self.x } else { o.x },
            r.y == if self.y <= o.y { self.y } else { o.y },
            r.z == if self.z <= o.z { self.z } else { o.z },
    {
        IVec3 {
            x: if self.x <= o.x { self.x } else { o.x },
            y: if self.y <= o.y { self.y } else { o.y },
            z: if self.z <= o.z { self.z } else { o.z },
        }
    }

    /// Component-wise maximum.
    pub fn max(self, o: IVec3) -> (r: IVec3)
        ensures
            r.x == if self.x >= o.x { self.x } else { o.x },
            r.y == if self.y >= o.y { self.y } else { o.y },
            r.z == if self.z >= o.z { self.z } else { o.z },
    {
        IVec3 {
            x: if self.x >= o.x { self.x } else { o.x },
            y: if self.y >= o.y { self.y } else { o.y },
            z: if self.z >= o.z { self.z } else { o.z },
        }
    }
}

/// Euclidean division by a positive divisor, as `i32::div_euclid` computes it.
pub fn div_euclid(a: i32, d: i32) -> (r: i32)
    requires
        d > 0,
    ensures
        r == floor_div(a as int, d as int),
{
    let q = a.checked_div_euclid(d);
    proof {
        if a >= 0 {
            assert(0 <= (a as int) / (d as int) && (a as int) / (d as int) <= (a as int)) by (nonlinear_arith)
                requires a >= 0, d >= 1 {}
        } else {
            assert((a as int) <= (a as int) / (d as int) && (a as int) / (d as int) < 0) by (nonlinear_arith)
                requires a < 0, d >= 1 {}
        }
    }
    match q {
        Some(q) => q,
        None => 0,
    }
}

/// Euclidean remainder by a positive divisor, as `i32::rem_euclid` computes it.
pub fn rem_euclid(a: i32, d: i32) -> (r: i32)
    requires
        d > 0,
    ensures
        r == floor_mod(a as int, d as int),
        0 <= r < d,
{
    let q = a.checked_rem_euclid(d);
    match q {
        Some(q) => q,
        None => 0,
    }
}

} // verus!
