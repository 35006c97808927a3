//! Voxel AABB: integer boxes with inclusive bounds for the max.

use vstd::prelude::*;

use crate::math::IVec3;

verus! {

/// An axis-aligned box of voxels; both `min` and `max` are inside it.
#[derive(Debug, Clone, Copy, PartialEq, Eq, Structural)]
pub struct VoxelAabb {
    pub min: IVec3,
    /// Inclusive because voxels/integer lattice.
    pub max: IVec3,
}

/// Whether the box holds the lattice point `(x, y, z)`.
pub open spec fn box_contains(b: VoxelAabb, x: int, y: int, z: int) -> bool {
    &&& b.min.x <= x <= b.max.x
    &&& b.min.y <= y <= b.max.y
    &&& b.min.z <= z <= b.max.z
}

/// Whether some box of the list holds the point.
pub open spec fn list_covers(s: Seq<VoxelAabb>, x: int, y: int, z: int) -> bool {
    exists|k: int| 0 <= k < s.len() && #[trigger] box_contains(s[k], x, y, z)
}

/// Whether no point lies in two boxes of the list.
pub open spec fn pairwise_disjoint(s: Seq<VoxelAabb>) -> bool {
    forall|i: int, j: int, x: int, y: int, z: int|
        0 <= i < s.len() && 0 <= j < s.len() && i != j && #[trigger] box_contains(s[i], x, y, z)
            ==> !#[trigger] box_contains(s[j], x, y, z)
}

/// Whether the box holds at least one point.
pub open spec fn box_nonempty(b: VoxelAabb) -> bool {
    b.min.x <= b.max.x && b.min.y <= b.max.y && b.min.z <= b.max.z
}

/// Whether box `inner` lies inside box `outer`.
pub open spec fn box_within(inner: VoxelAabb, outer: VoxelAabb) -> bool {
    &&& outer.min.x <= inner.min.x && inner.max.x <= outer.max.x
    &&& outer.min.y <= inner.min.y && inner.max.y <= outer.max.y
    &&& outer.min.z <= inner.min.z && inner.max.z <= outer.max.z
}

/// Whether box `b` lies inside one of the boxes of `s`.
pub open spec fn within_one_of(b: VoxelAabb, s: Seq<VoxelAabb>) -> bool {
    exists|j: int| 0 <= j < s.len() && #[trigger] box_within(b, s[j])
}

/// A non-empty box whose corners lie in `outer` lies inside it.
pub proof fn lemma_corners_within(inner: VoxelAabb, outer: VoxelAabb)
    requires
        box_nonempty(inner),
        box_contains(outer, inner.min.x as int, inner.min.y as int, inner.min.z as int),
        box_contains(outer, inner.max.x as int, inner.max.y as int, inner.max.z as int),
    ensures
        box_within(inner, outer),
{
}

/// Whether the box's coordinates leave room for `+ 1` on its max corner.
pub open spec fn max_below_limit(b: VoxelAabb) -> bool {
    b.max.x < i32::MAX && b.max.y < i32::MAX && b.max.z < i32::MAX
}

pub open spec fn spec_min(a: i32, b: i32) -> i32 {
    if a <= b { a } else { b }
}

pub open spec fn spec_max(a: i32, b: i32) -> i32 {
    if a >= b { a } else { b }
}

pub open spec fn spec_overlaps(a: VoxelAabb, b: VoxelAabb) -> bool {
    a.min.x <= b.max.x && a.max.x >= b.min.x && a.min.y <= b.max.y && a.max.y >= b.min.y
        && a.min.z <= b.max.z && a.max.z >= b.min.z
}

pub open spec fn spec_intersection_box(a: VoxelAabb, b: VoxelAabb) -> VoxelAabb {
    VoxelAabb {
        min: IVec3 { x: spec_max(a.min.x, b.min.x), y: spec_max(a.min.y, b.min.y), z: spec_max(a.min.z, b.min.z) },
        max: IVec3 { x: spec_min(a.max.x, b.max.x), y: spec_min(a.max.y, b.max.y), z: spec_min(a.max.z, b.max.z) },
    }
}

pub open spec fn spec_can_merge_y(a: VoxelAabb, b: VoxelAabb) -> bool {
    a.min.x == b.min.x && a.max.x == b.max.x && a.min.z == b.min.z && a.max.z == b.max.z
        && (a.max.y + 1 == b.min.y || b.max.y + 1 == a.min.y)
}

pub open spec fn spec_can_merge(a: VoxelAabb, b: VoxelAabb) -> bool {
    let same_x = a.min.x == b.min.x && a.max.x == b.max.x;
    let same_y = a.min.y == b.min.y && a.max.y == b.max.y;
    let same_z = a.min.z == b.min.z && a.max.z == b.max.z;
    (same_y && same_z && (a.max.x + 1 == b.min.x || b.max.x + 1 == a.min.x))
        || (same_x && same_z && (a.max.y + 1 == b.min.y || b.max.y + 1 == a.min.y))
        || (same_x && same_y && (a.max.z + 1 == b.min.z || b.max.z + 1 == a.min.z))
}

pub open spec fn spec_merge(a: VoxelAabb, b: VoxelAabb) -> VoxelAabb {
    VoxelAabb {
        min: IVec3 { x: spec_min(a.min.x, b.min.x), y: spec_min(a.min.y, b.min.y), z: spec_min(a.min.z, b.min.z) },
        max: IVec3 { x: spec_max(a.max.x, b.max.x), y: spec_max(a.max.y, b.max.y), z: spec_max(a.max.z, b.max.z) },
    }
}

/// Two boxes overlap exactly when some voxel lies in both, and their
/// intersection box holds exactly the voxels that lie in both.
pub proof fn lemma_overlap_points(a: VoxelAabb, b: VoxelAabb)
    requires
        box_nonempty(a),
        box_nonempty(b),
    ensures
        spec_overlaps(a, b) <==> exists|x: int, y: int, z: int| box_contains(a, x, y, z) && #[trigger] box_contains(
            b,
            x,
            y,
            z,
        ),
        forall|x: int, y: int, z: int| #[trigger] box_contains(spec_intersection_box(a, b), x, y, z) <==> (
        box_contains(a, x, y, z) && box_contains(b, x, y, z)),
        spec_overlaps(a, b) == spec_overlaps(b, a),
{
    if spec_overlaps(a, b) {
        let i = spec_intersection_box(a, b);
        assert(box_contains(a, i.min.x as int, i.min.y as int, i.min.z as int));
        assert(box_contains(b, i.min.x as int, i.min.y as int, i.min.z as int));
    }
}

/// Whether the points of `c` are exactly those of `a` and of `b`.
pub open spec fn covers_exactly(c: VoxelAabb, a: VoxelAabb, b: VoxelAabb) -> bool {
    forall|x: int, y: int, z: int| #[trigger] box_contains(c, x, y, z) <==> (box_contains(a, x, y, z)
        || box_contains(b, x, y, z))
}

/// Boxes that may be merged share no voxel, and the merged box holds
/// exactly the voxels of the two.
pub proof fn lemma_merge_exact(a: VoxelAabb, b: VoxelAabb)
    requires
        spec_can_merge(a, b),
        box_nonempty(a),
        box_nonempty(b),
    ensures
        !spec_overlaps(a, b),
        covers_exactly(spec_merge(a, b), a, b),
{
}

/// Two boxes holding voxels that share none and whose merged box holds
/// exactly their voxels may be merged: mergeability is exactly that the
/// union of the two is a box.
pub proof fn lemma_union_box_merges(a: VoxelAabb, b: VoxelAabb)
    requires
        box_nonempty(a),
        box_nonempty(b),
        !spec_overlaps(a, b),
        covers_exactly(spec_merge(a, b), a, b),
    ensures
        spec_can_merge(a, b),
{
    let m = spec_merge(a, b);
    {
        if a.max.x < b.min.x {
            if a.max.x + 1 < b.min.x {
                assert(box_contains(m, (a.max.x + 1) as int, a.min.y as int, a.min.z as int));
            }
            if a.min.y < b.min.y {
                assert(box_contains(m, b.min.x as int, a.min.y as int, b.min.z as int));
            }
            if b.min.y < a.min.y {
                assert(box_contains(m, a.min.x as int, b.min.y as int, a.min.z as int));
            }
            if a.max.y > b.max.y {
                assert(box_contains(m, b.min.x as int, a.max.y as int, b.min.z as int));
            }
            if b.max.y > a.max.y {
                assert(box_contains(m, a.min.x as int, b.max.y as int, a.min.z as int));
            }
            if a.min.z < b.min.z {
                assert(box_contains(m, b.min.x as int, b.min.y as int, a.min.z as int));
            }
            if b.min.z < a.min.z {
                assert(box_contains(m, a.min.x as int, a.min.y as int, b.min.z as int));
            }
            if a.max.z > b.max.z {
                assert(box_contains(m, b.min.x as int, b.min.y as int, a.max.z as int));
            }
            if b.max.z > a.max.z {
                assert(box_contains(m, a.min.x as int, a.min.y as int, b.max.z as int));
            }
        } else if b.max.x < a.min.x {
            if b.max.x + 1 < a.min.x {
                assert(box_contains(m, (b.max.x + 1) as int, b.min.y as int, b.min.z as int));
            }
            if b.min.y < a.min.y {
                assert(box_contains(m, a.min.x as int, b.min.y as int, a.min.z as int));
            }
            if a.min.y < b.min.y {
                assert(box_contains(m, b.min.x as int, a.min.y as int, b.min.z as int));
            }
            if b.max.y > a.max.y {
                assert(box_contains(m, a.min.x as int, b.max.y as int, a.min.z as int));
            }
            if a.max.y > b.max.y {
                assert(box_contains(m, b.min.x as int, a.max.y as int, b.min.z as int));
            }
            if b.min.z < a.min.z {
                assert(box_contains(m, a.min.x as int, a.min.y as int, b.min.z as int));
            }
            if a.min.z < b.min.z {
                assert(box_contains(m, b.min.x as int, b.min.y as int, a.min.z as int));
            }
            if b.max.z > a.max.z {
                assert(box_contains(m, a.min.x as int, a.min.y as int, b.max.z as int));
            }
            if a.max.z > b.max.z {
                assert(box_contains(m, b.min.x as int, b.min.y as int, a.max.z as int));
            }
        } else if a.max.y < b.min.y {
            if a.max.y + 1 < b.min.y {
                assert(box_contains(m, a.min.x as int, (a.max.y + 1) as int, a.min.z as int));
            }
            if a.min.x < b.min.x {
                assert(box_contains(m, a.min.x as int, b.min.y as int, b.min.z as int));
            }
            if b.min.x < a.min.x {
                assert(box_contains(m, b.min.x as int, a.min.y as int, a.min.z as int));
            }
            if a.max.x > b.max.x {
                assert(box_contains(m, a.max.x as int, b.min.y as int, b.min.z as int));
            }
            if b.max.x > a.max.x {
                assert(box_contains(m, b.max.x as int, a.min.y as int, a.min.z as int));
            }
            if a.min.z < b.min.z {
                assert(box_contains(m, b.min.x as int, b.min.y as int, a.min.z as int));
            }
            if b.min.z < a.min.z {
                assert(box_contains(m, a.min.x as int, a.min.y as int, b.min.z as int));
            }
            if a.max.z > b.max.z {
                assert(box_contains(m, b.min.x as int, b.min.y as int, a.max.z as int));
            }
            if b.max.z > a.max.z {
                assert(box_contains(m, a.min.x as int, a.min.y as int, b.max.z as int));
            }
        } else if b.max.y < a.min.y {
            if b.max.y + 1 < a.min.y {
                assert(box_contains(m, b.min.x as int, (b.max.y + 1) as int, b.min.z as int));
            }
            if b.min.x < a.min.x {
                assert(box_contains(m, b.min.x as int, a.min.y as int, a.min.z as int));
            }
            if a.min.x < b.min.x {
                assert(box_contains(m, a.min.x as int, b.min.y as int, b.min.z as int));
            }
            if b.max.x > a.max.x {
                assert(box_contains(m, b.max.x as int, a.min.y as int, a.min.z as int));
            }
            if a.max.x > b.max.x {
                assert(box_contains(m, a.max.x as int, b.min.y as int, b.min.z as int));
            }
            if b.min.z < a.min.z {
                assert(box_contains(m, a.min.x as int, a.min.y as int, b.min.z as int));
            }
            if a.min.z < b.min.z {
                assert(box_contains(m, b.min.x as int, b.min.y as int, a.min.z as int));
            }
            if b.max.z > a.max.z {
                assert(box_contains(m, a.min.x as int, a.min.y as int, b.max.z as int));
            }
            if a.max.z > b.max.z {
                assert(box_contains(m, b.min.x as int, b.min.y as int, a.max.z as int));
            }
        } else if a.max.z < b.min.z {
            if a.max.z + 1 < b.min.z {
                assert(box_contains(m, a.min.x as int, a.min.y as int, (a.max.z + 1) as int));
            }
            if a.min.x < b.min.x {
                assert(box_contains(m, a.min.x as int, b.min.y as int, b.min.z as int));
            }
            if b.min.x < a.min.x {
                assert(box_contains(m, b.min.x as int, a.min.y as int, a.min.z as int));
            }
            if a.max.x > b.max.x {
                assert(box_contains(m, a.max.x as int, b.min.y as int, b.min.z as int));
            }
            if b.max.x > a.max.x {
                assert(box_contains(m, b.max.x as int, a.min.y as int, a.min.z as int));
            }
            if a.min.y < b.min.y {
                assert(box_contains(m, b.min.x as int, a.min.y as int, b.min.z as int));
            }
            if b.min.y < a.min.y {
                assert(box_contains(m, a.min.x as int, b.min.y as int, a.min.z as int));
            }
            if a.max.y > b.max.y {
                assert(box_contains(m, b.min.x as int, a.max.y as int, b.min.z as int));
            }
            if b.max.y > a.max.y {
                assert(box_contains(m, a.min.x as int, b.max.y as int, a.min.z as int));
            }
        } else if b.max.z < a.min.z {
            if b.max.z + 1 < a.min.z {
                assert(box_contains(m, b.min.x as int, b.min.y as int, (b.max.z + 1) as int));
            }
            if b.min.x < a.min.x {
                assert(box_contains(m, b.min.x as int, a.min.y as int, a.min.z as int));
            }
            if a.min.x < b.min.x {
                assert(box_contains(m, a.min.x as int, b.min.y as int, b.min.z as int));
            }
            if b.max.x > a.max.x {
                assert(box_contains(m, b.max.x as int, a.min.y as int, a.min.z as int));
            }
            if a.max.x > b.max.x {
                assert(box_contains(m, a.max.x as int, b.min.y as int, b.min.z as int));
            }
            if b.min.y < a.min.y {
                assert(box_contains(m, a.min.x as int, b.min.y as int, a.min.z as int));
            }
            if a.min.y < b.min.y {
                assert(box_contains(m, b.min.x as int, a.min.y as int, b.min.z as int));
            }
            if b.max.y > a.max.y {
                assert(box_contains(m, a.min.x as int, b.max.y as int, a.min.z as int));
            }
            if a.max.y > b.max.y {
                assert(box_contains(m, b.min.x as int, a.max.y as int, b.min.z as int));
            }
        }
    }
}

/// Two boxes holding voxels may be merged when they match on two axes and
/// touch on the third, whichever axis that is and whichever box comes
/// first along it.
pub proof fn lemma_touching_boxes_merge(a: VoxelAabb, b: VoxelAabb)
    requires
        box_nonempty(a),
        box_nonempty(b),
    ensures
        a.min.y == b.min.y && a.max.y == b.max.y && a.min.z == b.min.z && a.max.z == b.max.z
            && (a.max.x + 1 == b.min.x || b.max.x + 1 == a.min.x) ==> spec_can_merge(a, b),
        a.min.x == b.min.x && a.max.x == b.max.x && a.min.z == b.min.z && a.max.z == b.max.z
            && (a.max.y + 1 == b.min.y || b.max.y + 1 == a.min.y) ==> spec_can_merge(a, b),
        a.min.x == b.min.x && a.max.x == b.max.x && a.min.y == b.min.y && a.max.y == b.max.y
            && (a.max.z + 1 == b.min.z || b.max.z + 1 == a.min.z) ==> spec_can_merge(a, b),
        spec_can_merge(a, b) == spec_can_merge(b, a),
{
}

/// Merging two adjacent boxes that each hold voxels loses and gains none:
/// the merged box holds as many voxels as the two together.
pub proof fn lemma_merge_volume(a: VoxelAabb, b: VoxelAabb)
    requires
        spec_can_merge(a, b),
        box_nonempty(a),
        box_nonempty(b),
    ensures
        spec_merge(a, b).spec_volume() == a.spec_volume() + b.spec_volume(),
{
    let m = spec_merge(a, b);
    let (ax, ay, az) = (extent(a.min.x, a.max.x), extent(a.min.y, a.max.y), extent(a.min.z, a.max.z));
    let (bx, by, bz) = (extent(b.min.x, b.max.x), extent(b.min.y, b.max.y), extent(b.min.z, b.max.z));
    let (mx, my, mz) = (extent(m.min.x, m.max.x), extent(m.min.y, m.max.y), extent(m.min.z, m.max.z));
    if a.min.y == b.min.y && a.max.y == b.max.y && a.min.z == b.min.z && a.max.z == b.max.z && (a.max.x + 1
        == b.min.x || b.max.x + 1 == a.min.x) {
        assert(mx == ax + bx && my == ay && mz == az);
        assert(mx * my * mz == ax * ay * az + bx * by * bz) by (nonlinear_arith)
            requires mx == ax + bx, my == ay, mz == az, by == ay, bz == az;
    } else if a.min.x == b.min.x && a.max.x == b.max.x && a.min.z == b.min.z && a.max.z == b.max.z && (a.max.y
        + 1 == b.min.y || b.max.y + 1 == a.min.y) {
        assert(my == ay + by && mx == ax && mz == az);
        assert(mx * my * mz == ax * ay * az + bx * by * bz) by (nonlinear_arith)
            requires my == ay + by, mx == ax, mz == az, bx == ax, bz == az;
    } else {
        assert(mz == az + bz && mx == ax && my == ay);
        assert(mx * my * mz == ax * ay * az + bx * by * bz) by (nonlinear_arith)
            requires mz == az + bz, mx == ax, my == ay, bx == ax, by == ay;
    }
}

/// The number of lattice points from `lo` to `hi` inclusive: zero when `hi`
/// is below `lo`.
pub open spec fn extent(lo: i32, hi: i32) -> int {
    if hi - lo + 1 > 0 {
        hi - lo + 1
    } else {
        0
    }
}

impl VoxelAabb {
    /// The zero box: the single voxel at the origin.
    pub fn default() -> (r: Self)
        ensures
            r.min == (IVec3 { x: 0, y: 0, z: 0 }),
            r.max == (IVec3 { x: 0, y: 0, z: 0 }),
    {
        VoxelAabb { min: IVec3::new(0, 0, 0), max: IVec3::new(0, 0, 0) }
    }

    /// Directly construct a VoxelAabb.
    pub fn new(min: IVec3, max: IVec3) -> (r: Self)
        ensures
            r.min == min,
            r.max == max,
    {
        VoxelAabb { min, max }
    }

    /// Constructs an AABB from min and size.
    pub fn from_size(min: IVec3, size: IVec3) -> (r: Self)
        requires
            i32::MIN <= min.x + size.x - 1 <= i32::MAX,
            i32::MIN <= min.y + size.y - 1 <= i32::MAX,
            i32::MIN <= min.z + size.z - 1 <= i32::MAX,
            i32::MIN <= min.x + size.x <= i32::MAX,
            i32::MIN <= min.y + size.y <= i32::MAX,
            i32::MIN <= min.z + size.z <= i32::MAX,
        ensures
            r.min == min,
            r.max.x == min.x + size.x - 1,
            r.max.y == min.y + size.y - 1,
            r.max.z == min.z + size.z - 1,
    {
        VoxelAabb {
            min,
            max: IVec3::new(min.x + size.x - 1, min.y + size.y - 1, min.z + size.z - 1),
        }
    }

    /// Returns the size of the AABB.
    pub fn size(&self) -> (r: IVec3)
        requires
            i32::MIN <= self.max.x - self.min.x + 1 <= i32::MAX,
            i32::MIN <= self.max.y - self.min.y + 1 <= i32::MAX,
            i32::MIN <= self.max.z - self.min.z + 1 <= i32::MAX,
            i32::MIN <= self.max.x - self.min.x <= i32::MAX,
            i32::MIN <= self.max.y - self.min.y <= i32::MAX,
            i32::MIN <= self.max.z - self.min.z <= i32::MAX,
        ensures
            r.x == self.max.x - self.min.x + 1,
            r.y == self.max.y - self.min.y + 1,
            r.z == self.max.z - self.min.z + 1,
    {
        IVec3::new(
            self.max.x - self.min.x + 1,
            self.max.y - self.min.y + 1,
            self.max.z - self.min.z + 1,
        )
    }

    /// The number of voxels in the box: the product of its extents, an
    /// inverted axis (max below min) counting as zero.
    pub open spec fn spec_volume(self) -> int {
        extent(self.min.x, self.max.x) * extent(self.min.y, self.max.y) * extent(self.min.z, self.max.z)
    }

    /// Returns the number of voxels inside the AABB.
    pub fn volume(&self) -> (r: i32)
        requires
            i32::MIN <= self.max.x - self.min.x + 1 <= i32::MAX,
            i32::MIN <= self.max.y - self.min.y + 1 <= i32::MAX,
            i32::MIN <= self.max.z - self.min.z + 1 <= i32::MAX,
            i32::MIN <= self.max.x - self.min.x <= i32::MAX,
            i32::MIN <= self.max.y - self.min.y <= i32::MAX,
            i32::MIN <= self.max.z - self.min.z <= i32::MAX,
            extent(self.min.x, self.max.x) * extent(self.min.y, self.max.y) <= i32::MAX,
            self.spec_volume() <= i32::MAX,
        ensures
            r == self.spec_volume(),
    {
        let size = self.size();
        let sx = if size.x > 0 { size.x } else { 0 };
        let sy = if size.y > 0 { size.y } else { 0 };
        let sz = if size.z > 0 { size.z } else { 0 };
        assert(0 <= sx * sy) by (nonlinear_arith) requires sx >= 0, sy >= 0;
        assert(0 <= sx * sy * sz) by (nonlinear_arith) requires sx * sy >= 0, sz >= 0;
        sx * sy * sz
    }

    /// Returns true if this AABB overlaps with another.
    pub fn overlaps(&self, other: &VoxelAabb) -> (r: bool)
        ensures
            r == spec_overlaps(*self, *other),
    {
        self.min.x <= other.max.x && self.max.x >= other.min.x && self.min.y <= other.max.y
            && self.max.y >= other.min.y && self.min.z <= other.max.z && self.max.z >= other.min.z
    }

    /// Returns the overlapping region as an AABB, or None if they don't
    /// overlap.
    pub fn intersection(&self, other: &VoxelAabb) -> (r: Option<VoxelAabb>)
        ensures
            r == if spec_overlaps(*self, *other) {
                Some(spec_intersection_box(*self, *other))
            } else {
                None
            },
    {
        if !self.overlaps(other) {
            return None;
        }
        Some(VoxelAabb { min: self.min.max(other.min), max: self.max.min(other.max) })
    }

    /// Does this AABB fit inside another?
    pub fn fits_inside(&self, container: &VoxelAabb) -> (r: bool)
        ensures
            r == (self.min.x >= container.min.x && self.min.y >= container.min.y
                && self.min.z >= container.min.z && self.max.x <= container.max.x
                && self.max.y <= container.max.y && self.max.z <= container.max.z),
    {
        self.min.x >= container.min.x && self.min.y >= container.min.y && self.min.z
            >= container.min.z && self.max.x <= container.max.x && self.max.y <= container.max.y
            && self.max.z <= container.max.z
    }

    /// Whether the box holds the point: `min <= point <= max` on every axis.
    pub fn contains_point(&self, point: IVec3) -> (r: bool)
        ensures
            r == box_contains(*self, point.x as int, point.y as int, point.z as int),
    {
        point.x >= self.min.x && point.y >= self.min.y && point.z >= self.min.z && point.x
            <= self.max.x && point.y <= self.max.y && point.z <= self.max.z
    }

    /// Y merges: same x and z range, adjacent along y.
    pub fn can_merge_y(&self, other: &VoxelAabb) -> (r: bool)
        requires
            max_below_limit(*self),
            max_below_limit(*other),
        ensures
            r == spec_can_merge_y(*self, *other),
    {
        self.min.x == other.min.x && self.max.x == other.max.x && self.min.z == other.min.z
            && self.max.z == other.max.z && (self.max.y + 1 == other.min.y || other.max.y + 1
            == self.min.y)
    }

    /// Returns true if self and other are mergeable (contiguous on 1 axis,
    /// same on the others).
    pub fn can_merge(&self, other: &VoxelAabb) -> (r: bool)
        requires
            max_below_limit(*self),
            max_below_limit(*other),
        ensures
            r == spec_can_merge(*self, *other),
    {
        let same_x = self.min.x == other.min.x && self.max.x == other.max.x;
        let same_y = self.min.y == other.min.y && self.max.y == other.max.y;
        let same_z = self.min.z == other.min.z && self.max.z == other.max.z;
        let x_adjacent = same_y && same_z && (self.max.x + 1 == other.min.x || other.max.x + 1
            == self.min.x);
        let y_adjacent = same_x && same_z && (self.max.y + 1 == other.min.y || other.max.y + 1
            == self.min.y);
        let z_adjacent = same_x && same_y && (self.max.z + 1 == other.min.z || other.max.z + 1
            == self.min.z);
        x_adjacent || y_adjacent || z_adjacent
    }

    /// Returns a merged AABB.
    pub fn merge(&self, other: &VoxelAabb) -> (r: VoxelAabb)
        requires
            max_below_limit(*self),
            max_below_limit(*other),
            spec_can_merge(*self, *other),
        ensures
            r == spec_merge(*self, *other),
            forall|x: int, y: int, z: int| #[trigger] box_contains(r, x, y, z)
                <==> (box_contains(*self, x, y, z) || box_contains(*other, x, y, z)),
    {
        VoxelAabb { min: self.min.min(other.min), max: self.max.max(other.max) }
    }
}


/// Which part of `a` minus the inner box `ib` a point of `a` falls in: below or
/// above in z, then (inside the z slab) in front or behind in y, then (inside
/// the y slab) left or right in x; 6 when it lies in `ib`.
pub open spec fn subtract_region(ib: VoxelAabb, x: int, y: int, z: int) -> int {
    if z < ib.min.z {
        0
    } else if z > ib.max.z {
        1
    } else if y < ib.min.y {
        2
    } else if y > ib.max.y {
        3
    } else if x < ib.min.x {
        4
    } else if x > ib.max.x {
        5
    } else {
        6
    }
}

#[verifier::opaque]
/// The pieces built so far each hold exactly the points of `a` in one region,
/// and the regions grow strictly along the list.
pub open spec fn pieces_ok(s: Seq<VoxelAabb>, tags: Seq<int>, a: VoxelAabb, ib: VoxelAabb) -> bool {
    &&& s.len() == tags.len()
    &&& forall|k: int| 0 <= k < tags.len() ==> 0 <= #[trigger] tags[k] < 6
    &&& forall|k: int| 0 <= k < s.len() ==> box_nonempty(#[trigger] s[k])
    &&& forall|i: int, j: int| 0 <= i < j < tags.len() ==> tags[i] < tags[j]
    &&& forall|k: int, x: int, y: int, z: int| 0 <= k < s.len() ==>
        (#[trigger] box_contains(s[k], x, y, z) <==> (box_contains(a, x, y, z)
            && subtract_region(ib, x, y, z) == tags[k]))
}

/// Where each region's piece sits in the list: a region that holds some
/// point of `a` has its piece recorded.
pub open spec fn at_ok(at: Seq<int>, tags: Seq<int>, a: VoxelAabb, ib: VoxelAabb, n: int) -> bool {
    &&& at.len() == 6
    &&& (at[0] != -1 ==> 0 <= at[0] < tags.len() && tags[at[0]] == 0)
    &&& (at[1] != -1 ==> 0 <= at[1] < tags.len() && tags[at[1]] == 1)
    &&& (at[2] != -1 ==> 0 <= at[2] < tags.len() && tags[at[2]] == 2)
    &&& (at[3] != -1 ==> 0 <= at[3] < tags.len() && tags[at[3]] == 3)
    &&& (at[4] != -1 ==> 0 <= at[4] < tags.len() && tags[at[4]] == 4)
    &&& (at[5] != -1 ==> 0 <= at[5] < tags.len() && tags[at[5]] == 5)
    &&& (n > 0 && at[0] == -1 ==> !(a.min.z < ib.min.z))
    &&& (n > 1 && at[1] == -1 ==> !(ib.max.z < a.max.z))
    &&& (n > 2 && at[2] == -1 ==> !(a.min.y < ib.min.y))
    &&& (n > 3 && at[3] == -1 ==> !(ib.max.y < a.max.y))
    &&& (n > 4 && at[4] == -1 ==> !(a.min.x < ib.min.x))
    &&& (n > 5 && at[5] == -1 ==> !(ib.max.x < a.max.x))
}

/// Whether `ib` lies inside `a` (as the intersection of two overlapping boxes
/// does).
pub open spec fn inner_box(ib: VoxelAabb, a: VoxelAabb) -> bool {
    a.min.x <= ib.min.x && ib.max.x <= a.max.x && a.min.y <= ib.min.y && ib.max.y <= a.max.y
        && a.min.z <= ib.min.z && ib.max.z <= a.max.z
}

/// The piece of `a` minus `ib` for region `t`.
pub open spec fn piece_box(a: VoxelAabb, ib: VoxelAabb, t: int) -> VoxelAabb {
    if t == 0 {
        VoxelAabb { min: a.min, max: IVec3 { x: a.max.x, y: a.max.y, z: (ib.min.z - 1) as i32 } }
    } else if t == 1 {
        VoxelAabb { min: IVec3 { x: a.min.x, y: a.min.y, z: (ib.max.z + 1) as i32 }, max: a.max }
    } else if t == 2 {
        VoxelAabb {
            min: IVec3 { x: a.min.x, y: a.min.y, z: ib.min.z },
            max: IVec3 { x: a.max.x, y: (ib.min.y - 1) as i32, z: ib.max.z },
        }
    } else if t == 3 {
        VoxelAabb {
            min: IVec3 { x: a.min.x, y: (ib.max.y + 1) as i32, z: ib.min.z },
            max: IVec3 { x: a.max.x, y: a.max.y, z: ib.max.z },
        }
    } else if t == 4 {
        VoxelAabb {
            min: IVec3 { x: a.min.x, y: ib.min.y, z: ib.min.z },
            max: IVec3 { x: (ib.min.x - 1) as i32, y: ib.max.y, z: ib.max.z },
        }
    } else {
        VoxelAabb {
            min: IVec3 { x: (ib.max.x + 1) as i32, y: ib.min.y, z: ib.min.z },
            max: IVec3 { x: a.max.x, y: ib.max.y, z: ib.max.z },
        }
    }
}

/// Whether `a` reaches past the inner box `ib` on the side of region `t`, so
/// that `subtract` cuts a piece for it.
pub open spec fn piece_cut(a: VoxelAabb, ib: VoxelAabb, t: int) -> bool {
    if t == 0 {
        a.min.z < ib.min.z
    } else if t == 1 {
        ib.max.z < a.max.z
    } else if t == 2 {
        a.min.y < ib.min.y
    } else if t == 3 {
        ib.max.y < a.max.y
    } else if t == 4 {
        a.min.x < ib.min.x
    } else {
        ib.max.x < a.max.x
    }
}

/// The pieces of `a` around the inner box `ib` for the first `n` regions, in
/// region order: one for each side on which `a` reaches past `ib`.
pub open spec fn subtract_pieces(a: VoxelAabb, ib: VoxelAabb, n: nat) -> Seq<VoxelAabb>
    decreases n,
{
    if n == 0 {
        Seq::empty()
    } else {
        let before = subtract_pieces(a, ib, (n - 1) as nat);
        if piece_cut(a, ib, n - 1) {
            before.push(piece_box(a, ib, n - 1))
        } else {
            before
        }
    }
}

/// The number of voxels the boxes of a list hold together, counted box by
/// box.
pub open spec fn total_volume(s: Seq<VoxelAabb>) -> int
    decreases s.len(),
{
    if s.len() == 0 {
        0
    } else {
        total_volume(s.drop_last()) + s.last().spec_volume()
    }
}

/// The volume the `t`-th piece adds: its volume when it is cut, else none.
pub open spec fn piece_volume(a: VoxelAabb, ib: VoxelAabb, t: int) -> int {
    if piece_cut(a, ib, t) {
        piece_box(a, ib, t).spec_volume()
    } else {
        0
    }
}

/// The volumes the first `n` pieces add.
pub open spec fn pieces_volume(a: VoxelAabb, ib: VoxelAabb, n: int) -> int
    decreases n,
{
    if n <= 0 {
        0
    } else {
        pieces_volume(a, ib, n - 1) + piece_volume(a, ib, n - 1)
    }
}

proof fn lemma_total_volume_pieces(a: VoxelAabb, ib: VoxelAabb, n: nat)
    ensures
        total_volume(subtract_pieces(a, ib, n)) == pieces_volume(a, ib, n as int),
    decreases n,
{
    if n > 0 {
        lemma_total_volume_pieces(a, ib, (n - 1) as nat);
        let prev = subtract_pieces(a, ib, (n - 1) as nat);
        if piece_cut(a, ib, n - 1) {
            assert(prev.push(piece_box(a, ib, n - 1)).drop_last() =~= prev);
        }
    }
}

/// Subtracting loses exactly the overlap: the pieces of `a` minus `o` hold
/// as many voxels as `a` less the voxels it shares with `o`.
pub proof fn lemma_subtract_volume(a: VoxelAabb, o: VoxelAabb)
    requires
        box_nonempty(a),
        box_nonempty(o),
        spec_overlaps(a, o),
    ensures
        total_volume(subtract_pieces(a, spec_intersection_box(a, o), 6)) == a.spec_volume()
            - spec_intersection_box(a, o).spec_volume(),
{
    let ib = spec_intersection_box(a, o);
    lemma_total_volume_pieces(a, ib, 6);
    let (x, y, z) = (extent(a.min.x, a.max.x), extent(a.min.y, a.max.y), extent(a.min.z, a.max.z));
    let (xb, yb, zb) = (extent(ib.min.x, ib.max.x), extent(ib.min.y, ib.max.y), extent(ib.min.z, ib.max.z));
    let (dx0, dx1) = (ib.min.x - a.min.x, a.max.x - ib.max.x);
    let (dy0, dy1) = (ib.min.y - a.min.y, a.max.y - ib.max.y);
    let (dz0, dz1) = (ib.min.z - a.min.z, a.max.z - ib.max.z);
    assert(x == dx0 + xb + dx1 && y == dy0 + yb + dy1 && z == dz0 + zb + dz1);
    assert(dx0 >= 0 && dx1 >= 0 && dy0 >= 0 && dy1 >= 0 && dz0 >= 0 && dz1 >= 0);
    let xy = x * y;
    let ybzb = yb * zb;
    assert(piece_volume(a, ib, 0) == xy * dz0) by {
        if piece_cut(a, ib, 0) {
            assert(extent(a.min.z, (ib.min.z - 1) as i32) == dz0);
        } else {
            assert(dz0 == 0);
            assert(xy * dz0 == 0) by (nonlinear_arith) requires dz0 == 0;
        }
    }
    assert(piece_volume(a, ib, 1) == xy * dz1) by {
        if piece_cut(a, ib, 1) {
            assert(extent((ib.max.z + 1) as i32, a.max.z) == dz1);
        } else {
            assert(xy * dz1 == 0) by (nonlinear_arith) requires dz1 == 0;
        }
    }
    assert(piece_volume(a, ib, 2) == x * dy0 * zb) by {
        if piece_cut(a, ib, 2) {
            assert(extent(a.min.y, (ib.min.y - 1) as i32) == dy0);
        } else {
            assert(x * dy0 * zb == 0) by (nonlinear_arith) requires dy0 == 0;
        }
    }
    assert(piece_volume(a, ib, 3) == x * dy1 * zb) by {
        if piece_cut(a, ib, 3) {
            assert(extent((ib.max.y + 1) as i32, a.max.y) == dy1);
        } else {
            assert(x * dy1 * zb == 0) by (nonlinear_arith) requires dy1 == 0;
        }
    }
    assert(piece_volume(a, ib, 4) == dx0 * ybzb) by {
        if piece_cut(a, ib, 4) {
            assert(extent(a.min.x, (ib.min.x - 1) as i32) == dx0);
            assert(dx0 * yb * zb == dx0 * ybzb) by (nonlinear_arith) requires ybzb == yb * zb;
        } else {
            assert(dx0 * ybzb == 0) by (nonlinear_arith) requires dx0 == 0;
        }
    }
    assert(piece_volume(a, ib, 5) == dx1 * ybzb) by {
        if piece_cut(a, ib, 5) {
            assert(extent((ib.max.x + 1) as i32, a.max.x) == dx1);
            assert(dx1 * yb * zb == dx1 * ybzb) by (nonlinear_arith) requires ybzb == yb * zb;
        } else {
            assert(dx1 * ybzb == 0) by (nonlinear_arith) requires dx1 == 0;
        }
    }
    assert(xy * dz0 + xy * dz1 == xy * z - xy * zb) by (nonlinear_arith)
        requires z == dz0 + zb + dz1;
    assert(x * dy0 * zb + x * dy1 * zb == x * y * zb - x * ybzb) by (nonlinear_arith)
        requires y == dy0 + yb + dy1, ybzb == yb * zb;
    assert(dx0 * ybzb + dx1 * ybzb == x * ybzb - xb * ybzb) by (nonlinear_arith)
        requires x == dx0 + xb + dx1;
    assert(xy * z == a.spec_volume()) by (nonlinear_arith)
        requires xy == x * y, a.spec_volume() == x * y * z;
    assert(xy * zb == x * y * zb);
    assert(xb * ybzb == ib.spec_volume()) by (nonlinear_arith)
        requires ybzb == yb * zb, ib.spec_volume() == xb * yb * zb;
    assert(pieces_volume(a, ib, 6) == piece_volume(a, ib, 0) + piece_volume(a, ib, 1) + piece_volume(a, ib, 2)
        + piece_volume(a, ib, 3) + piece_volume(a, ib, 4) + piece_volume(a, ib, 5)) by {
        reveal_with_fuel(pieces_volume, 7);
    }
}

proof fn lemma_piece_box(a: VoxelAabb, ib: VoxelAabb, t: int)
    requires
        inner_box(ib, a),
        box_nonempty(ib),
        0 <= t < 6,
        t == 0 ==> a.min.z < ib.min.z,
        t == 1 ==> ib.max.z < a.max.z,
        t == 2 ==> a.min.y < ib.min.y,
        t == 3 ==> ib.max.y < a.max.y,
        t == 4 ==> a.min.x < ib.min.x,
        t == 5 ==> ib.max.x < a.max.x,
    ensures
        forall|x: int, y: int, z: int| #[trigger] box_contains(piece_box(a, ib, t), x, y, z)
            <==> (box_contains(a, x, y, z) && subtract_region(ib, x, y, z) == t),
        box_nonempty(a) ==> box_nonempty(piece_box(a, ib, t)),
{
    let pb = piece_box(a, ib, t);
    if t == 0 {
        assert(pb.max.z == ib.min.z - 1);
    } else if t == 1 {
        assert(pb.min.z == ib.max.z + 1);
    } else if t == 2 {
        assert(pb.max.y == ib.min.y - 1);
    } else if t == 3 {
        assert(pb.min.y == ib.max.y + 1);
    } else if t == 4 {
        assert(pb.max.x == ib.min.x - 1);
    } else {
        assert(pb.min.x == ib.max.x + 1);
    }
}

proof fn lemma_push_piece(s: Seq<VoxelAabb>, tags: Seq<int>, a: VoxelAabb, ib: VoxelAabb, t: int)
    requires
        pieces_ok(s, tags, a, ib),
        inner_box(ib, a),
        box_nonempty(ib),
        box_nonempty(a),
        0 <= t < 6,
        forall|k: int| 0 <= k < tags.len() ==> tags[k] < t,
        t == 0 ==> a.min.z < ib.min.z,
        t == 1 ==> ib.max.z < a.max.z,
        t == 2 ==> a.min.y < ib.min.y,
        t == 3 ==> ib.max.y < a.max.y,
        t == 4 ==> a.min.x < ib.min.x,
        t == 5 ==> ib.max.x < a.max.x,
    ensures
        pieces_ok(s.push(piece_box(a, ib, t)), tags.push(t), a, ib),
{
    reveal(pieces_ok);
    lemma_piece_box(a, ib, t);
    let s2 = s.push(piece_box(a, ib, t));
    let t2 = tags.push(t);
    assert forall|k: int, x: int, y: int, z: int| 0 <= k < s2.len() implies
        (#[trigger] box_contains(s2[k], x, y, z) <==> (box_contains(a, x, y, z)
            && subtract_region(ib, x, y, z) == t2[k])) by {
        if k < s.len() {
            assert(s2[k] == s[k]);
            assert(t2[k] == tags[k]);
        }
    }
}

proof fn lemma_pieces_final(s: Seq<VoxelAabb>, tags: Seq<int>, at: Seq<int>, a: VoxelAabb, ib: VoxelAabb, o: VoxelAabb)
    requires
        pieces_ok(s, tags, a, ib),
        at_ok(at, tags, a, ib, 6),
        box_nonempty(a),
        box_nonempty(o),
        spec_overlaps(a, o),
        ib == spec_intersection_box(a, o),
    ensures
        forall|x: int, y: int, z: int| #[trigger] list_covers(s, x, y, z)
            <==> (box_contains(a, x, y, z) && !box_contains(o, x, y, z)),
        pairwise_disjoint(s),
        forall|k: int| 0 <= k < s.len() ==> box_nonempty(#[trigger] s[k]),
{
    reveal(pieces_ok);
    assert forall|x: int, y: int, z: int| #[trigger] list_covers(s, x, y, z)
        <==> (box_contains(a, x, y, z) && !box_contains(o, x, y, z)) by {
        if box_contains(a, x, y, z) && !box_contains(o, x, y, z) {
            let rg = subtract_region(ib, x, y, z);
            assert(rg < 6);
            let k = at[rg];
            assert(0 <= k < tags.len() && tags[k] == rg);
            assert(box_contains(s[k], x, y, z));
        }
        if list_covers(s, x, y, z) {
            let k = choose|k: int| 0 <= k < s.len() && #[trigger] box_contains(s[k], x, y, z);
            assert(box_contains(s[k], x, y, z));
        }
    }
    assert forall|i: int, j: int, x: int, y: int, z: int|
        0 <= i < s.len() && 0 <= j < s.len() && i != j && #[trigger] box_contains(s[i], x, y, z)
        implies !#[trigger] box_contains(s[j], x, y, z) by {
        if i < j {
            assert(tags[i] < tags[j]);
        } else {
            assert(tags[j] < tags[i]);
        }
    }
}

proof fn lemma_pieces_empty(a: VoxelAabb, ib: VoxelAabb)
    ensures
        pieces_ok(Seq::empty(), Seq::empty(), a, ib),
{
    reveal(pieces_ok);
}

impl VoxelAabb {
    /// Returns a list of AABBs that represent self minus the overlapping
    /// region with `other`.
    #[verifier::spinoff_prover]
    #[verifier::rlimit(40)]
    pub fn subtract(&self, other: &VoxelAabb) -> (r: Vec<VoxelAabb>)
        ensures
            box_nonempty(*self) && box_nonempty(*other) ==> {
                &&& forall|x: int, y: int, z: int| #[trigger] list_covers(r@, x, y, z)
                    <==> (box_contains(*self, x, y, z) && !box_contains(*other, x, y, z))
                &&& pairwise_disjoint(r@)
                &&& forall|k: int| 0 <= k < r@.len() ==> box_nonempty(#[trigger] r@[k])
            },
            r@.len() <= 6,
            !spec_overlaps(*self, *other) ==> r@ == seq![*self],
            spec_overlaps(*self, *other) ==> r@ == subtract_pieces(
                *self,
                spec_intersection_box(*self, *other),
                6,
            ),
            box_nonempty(*self) && box_nonempty(*other) ==> total_volume(r@) == self.spec_volume() - if spec_overlaps(
                *self,
                *other,
            ) {
                spec_intersection_box(*self, *other).spec_volume()
            } else {
                0
            },
    {
        proof {
            if box_nonempty(*self) && box_nonempty(*other) && spec_overlaps(*self, *other) {
                lemma_subtract_volume(*self, *other);
            }
            reveal_with_fuel(total_volume, 2);
            assert(seq![*self].drop_last() =~= Seq::<VoxelAabb>::empty());
        }
        let intersection = match self.intersection(other) {
            Some(i) => i,
            None => {
                let r = vec![*self];
                proof {
                    assert forall|x: int, y: int, z: int| #[trigger] list_covers(r@, x, y, z)
                        <==> (box_contains(*self, x, y, z) && !box_contains(*other, x, y, z)) by {
                        if box_contains(*self, x, y, z) {
                            assert(box_contains(r@[0], x, y, z));
                        }
                    }
                    assert(r@ =~= seq![*self]);
                    assert(box_nonempty(*self) ==> box_nonempty(r@[0]));
                }
                return r;
            },
        };
        let ghost a = *self;
        let ghost ib = intersection;
        let ghost ne = box_nonempty(*self) && box_nonempty(*other);
        assert(inner_box(ib, a));
        assert(ne ==> box_nonempty(ib));
        let ghost mut tags: Seq<int> = Seq::empty();
        let ghost mut at: Seq<int> = seq![-1int, -1, -1, -1, -1, -1];
        proof {
            lemma_pieces_empty(a, ib);
        }
        let mut result: Vec<VoxelAabb> = Vec::new();
        assert(result@ == subtract_pieces(a, ib, 0));
        // Shortcut access
        let min = self.min;
        let max = self.max;
        let i_min = intersection.min;
        let i_max = intersection.max;
        // Split below (z-)
        if min.z < i_min.z {
            let ghost old_s = result@;
            result.push(VoxelAabb {
                min: IVec3::new(min.x, min.y, min.z),
                max: IVec3::new(max.x, max.y, i_min.z - 1),
            });
            proof {
                if ne {
                    lemma_push_piece(old_s, tags, a, ib, 0);
                }
                assert(result@ == old_s.push(piece_box(a, ib, 0)));
                at = at.update(0, tags.len() as int);
                tags = tags.push(0);
            }
        }
        assert(ne ==> pieces_ok(result@, tags, a, ib));
        assert(at_ok(at, tags, a, ib, 1));
        assert(result@ == subtract_pieces(a, ib, 1));
        // Split above (z+)
        if i_max.z < max.z {
            let ghost old_s = result@;
            result.push(VoxelAabb {
                min: IVec3::new(min.x, min.y, i_max.z + 1),
                max: IVec3::new(max.x, max.y, max.z),
            });
            proof {
                if ne {
                    lemma_push_piece(old_s, tags, a, ib, 1);
                }
                assert(result@ == old_s.push(piece_box(a, ib, 1)));
                at = at.update(1, tags.len() as int);
                tags = tags.push(1);
            }
        }
        assert(ne ==> pieces_ok(result@, tags, a, ib));
        assert(at_ok(at, tags, a, ib, 2));
        assert(result@ == subtract_pieces(a, ib, 2));
        // Remaining middle Z-slab
        let z0 = if i_min.z >= min.z { i_min.z } else { min.z };
        let z1 = if i_max.z <= max.z { i_max.z } else { max.z };
        // Split front (y-)
        if min.y < i_min.y {
            let ghost old_s = result@;
            result.push(VoxelAabb {
                min: IVec3::new(min.x, min.y, z0),
                max: IVec3::new(max.x, i_min.y - 1, z1),
            });
            proof {
                if ne {
                    lemma_push_piece(old_s, tags, a, ib, 2);
                }
                assert(result@ == old_s.push(piece_box(a, ib, 2)));
                at = at.update(2, tags.len() as int);
                tags = tags.push(2);
            }
        }
        assert(ne ==> pieces_ok(result@, tags, a, ib));
        assert(at_ok(at, tags, a, ib, 3));
        assert(result@ == subtract_pieces(a, ib, 3));
        // Split back (y+)
        if i_max.y < max.y {
            let ghost old_s = result@;
            result.push(VoxelAabb {
                min: IVec3::new(min.x, i_max.y + 1, z0),
                max: IVec3::new(max.x, max.y, z1),
            });
            proof {
                if ne {
                    lemma_push_piece(old_s, tags, a, ib, 3);
                }
                assert(result@ == old_s.push(piece_box(a, ib, 3)));
                at = at.update(3, tags.len() as int);
                tags = tags.push(3);
            }
        }
        assert(ne ==> pieces_ok(result@, tags, a, ib));
        assert(at_ok(at, tags, a, ib, 4));
        assert(result@ == subtract_pieces(a, ib, 4));
        // Remaining middle YZ-slab
        let y0 = if i_min.y >= min.y { i_min.y } else { min.y };
        let y1 = if i_max.y <= max.y { i_max.y } else { max.y };
        // Split left (x-)
        if min.x < i_min.x {
            let ghost old_s = result@;
            result.push(VoxelAabb {
                min: IVec3::new(min.x, y0, z0),
                max: IVec3::new(i_min.x - 1, y1, z1),
            });
            proof {
                if ne {
                    lemma_push_piece(old_s, tags, a, ib, 4);
                }
                assert(result@ == old_s.push(piece_box(a, ib, 4)));
                at = at.update(4, tags.len() as int);
                tags = tags.push(4);
            }
        }
        assert(ne ==> pieces_ok(result@, tags, a, ib));
        assert(at_ok(at, tags, a, ib, 5));
        assert(result@ == subtract_pieces(a, ib, 5));
        // Split right (x+)
        if i_max.x < max.x {
            let ghost old_s = result@;
            result.push(VoxelAabb {
                min: IVec3::new(i_max.x + 1, y0, z0),
                max: IVec3::new(max.x, y1, z1),
            });
            proof {
                if ne {
                    lemma_push_piece(old_s, tags, a, ib, 5);
                }
                assert(result@ == old_s.push(piece_box(a, ib, 5)));
                at = at.update(5, tags.len() as int);
                tags = tags.push(5);
            }
        }
        assert(ne ==> pieces_ok(result@, tags, a, ib));
        assert(at_ok(at, tags, a, ib, 6));
        assert(result@ == subtract_pieces(a, ib, 6));
        proof {
            if ne {
                lemma_pieces_final(result@, tags, at, a, ib, *other);
            }
        }
        result
    }
}


/// Whether every box of the list holds at least one point.
pub open spec fn all_nonempty(s: Seq<VoxelAabb>) -> bool {
    forall|k: int| 0 <= k < s.len() ==> box_nonempty(#[trigger] s[k])
}

/// Joining two lists that share no point keeps the boxes pairwise disjoint
/// and covers the union.
pub proof fn lemma_append_disjoint(s: Seq<VoxelAabb>, t: Seq<VoxelAabb>)
    requires
        pairwise_disjoint(s),
        pairwise_disjoint(t),
        forall|x: int, y: int, z: int| #[trigger] list_covers(s, x, y, z) ==> !list_covers(t, x, y, z),
    ensures
        pairwise_disjoint(s + t),
        forall|x: int, y: int, z: int| #[trigger] list_covers(s + t, x, y, z)
            <==> (list_covers(s, x, y, z) || list_covers(t, x, y, z)),
        all_nonempty(s) && all_nonempty(t) ==> all_nonempty(s + t),
{
    let u = s + t;
    assert forall|i: int, j: int, x: int, y: int, z: int|
        0 <= i < u.len() && 0 <= j < u.len() && i != j && #[trigger] box_contains(u[i], x, y, z)
        implies !#[trigger] box_contains(u[j], x, y, z) by {
        if i < s.len() && j < s.len() {
        } else if i >= s.len() && j >= s.len() {
            assert(u[i] == t[i - s.len()]);
            assert(u[j] == t[j - s.len()]);
        } else if i < s.len() {
            assert(list_covers(s, x, y, z));
            if box_contains(u[j], x, y, z) {
                assert(box_contains(t[j - s.len()], x, y, z));
                assert(list_covers(t, x, y, z));
            }
        } else {
            assert(box_contains(t[i - s.len()], x, y, z));
            assert(list_covers(t, x, y, z));
            if box_contains(u[j], x, y, z) {
                assert(box_contains(s[j], x, y, z));
                assert(list_covers(s, x, y, z));
            }
        }
    }
    assert forall|x: int, y: int, z: int| #[trigger] list_covers(u, x, y, z)
        <==> (list_covers(s, x, y, z) || list_covers(t, x, y, z)) by {
        if list_covers(u, x, y, z) {
            let k = choose|k: int| 0 <= k < u.len() && #[trigger] box_contains(u[k], x, y, z);
            if k < s.len() {
                assert(box_contains(s[k], x, y, z));
            } else {
                assert(box_contains(t[k - s.len()], x, y, z));
            }
        }
        if list_covers(s, x, y, z) {
            let k = choose|k: int| 0 <= k < s.len() && #[trigger] box_contains(s[k], x, y, z);
            assert(box_contains(u[k], x, y, z));
        }
        if list_covers(t, x, y, z) {
            let k = choose|k: int| 0 <= k < t.len() && #[trigger] box_contains(t[k], x, y, z);
            assert(box_contains(u[k + s.len()], x, y, z));
        }
    }
    if all_nonempty(s) && all_nonempty(t) {
        assert forall|k: int| 0 <= k < u.len() implies box_nonempty(#[trigger] u[k]) by {
            if k < s.len() {
                assert(u[k] == s[k]);
            } else {
                assert(u[k] == t[k - s.len()]);
            }
        }
    }
}

/// Subtract `existing` from every fragment of a disjoint list.
fn subtract_all(fragments: &Vec<VoxelAabb>, existing: &VoxelAabb) -> (r: Vec<VoxelAabb>)
    ensures
        pairwise_disjoint(fragments@) && all_nonempty(fragments@) && box_nonempty(*existing) ==> {
            &&& pairwise_disjoint(r@)
            &&& all_nonempty(r@)
            &&& forall|x: int, y: int, z: int| #[trigger] list_covers(r@, x, y, z)
                <==> (list_covers(fragments@, x, y, z) && !box_contains(*existing, x, y, z))
        },
{
    let ghost ok = pairwise_disjoint(fragments@) && all_nonempty(fragments@) && box_nonempty(*existing);
    let mut out: Vec<VoxelAabb> = Vec::new();
    let mut k: usize = 0;
    while k < fragments.len()
        invariant
            k <= fragments@.len(),
            ok == (pairwise_disjoint(fragments@) && all_nonempty(fragments@) && box_nonempty(*existing)),
            ok ==> pairwise_disjoint(out@),
            ok ==> all_nonempty(out@),
            ok ==> forall|x: int, y: int, z: int| #[trigger] list_covers(out@, x, y, z)
                <==> (list_covers(fragments@.subrange(0, k as int), x, y, z) && !box_contains(*existing, x, y, z)),
        decreases fragments@.len() - k,
    {
        let frag = fragments[k];
        let mut pieces = frag.subtract(existing);
        let ghost old_out = out@;
        let ghost pre = fragments@.subrange(0, k as int);
        let ghost pre2 = fragments@.subrange(0, k + 1);
        proof {
          if ok {
            assert(box_nonempty(frag));
            assert forall|x: int, y: int, z: int| #[trigger] list_covers(old_out, x, y, z)
                implies !list_covers(pieces@, x, y, z) by {
                let j = choose|j: int| 0 <= j < pre.len() && #[trigger] box_contains(pre[j], x, y, z);
                assert(box_contains(fragments@[j], x, y, z));
                if list_covers(pieces@, x, y, z) {
                    assert(box_contains(frag, x, y, z));
                    assert(fragments@[k as int] == frag);
                    assert(j != k);
                }
            }
            lemma_append_disjoint(old_out, pieces@);
          }
        }
        out.append(&mut pieces);
        proof {
          if ok {
            assert forall|x: int, y: int, z: int| #[trigger] list_covers(out@, x, y, z)
                <==> (list_covers(pre2, x, y, z) && !box_contains(*existing, x, y, z)) by {
                if list_covers(pre2, x, y, z) {
                    let j = choose|j: int| 0 <= j < pre2.len() && #[trigger] box_contains(pre2[j], x, y, z);
                    if j < k {
                        assert(box_contains(pre[j], x, y, z));
                    } else {
                        assert(box_contains(frag, x, y, z));
                    }
                }
                if list_covers(pre, x, y, z) {
                    let j = choose|j: int| 0 <= j < pre.len() && #[trigger] box_contains(pre[j], x, y, z);
                    assert(box_contains(pre2[j], x, y, z));
                }
                if box_contains(frag, x, y, z) {
                    assert(box_contains(pre2[k as int], x, y, z));
                }
            }
          }
        }
        k += 1;
    }
    assert(fragments@.subrange(0, k as int) =~= fragments@);
    out
}

impl VoxelAabb {
    /// Split the boxes of a list so that no two of them overlap, keeping the
    /// points that the list covers. Each piece lies inside a box of the list,
    /// and the first box is kept whole, first.
    pub fn remove_overlaps(list: Vec<VoxelAabb>) -> (r: Vec<VoxelAabb>)
        ensures
            all_nonempty(list@) ==> {
                &&& pairwise_disjoint(r@)
                &&& all_nonempty(r@)
                &&& forall|x: int, y: int, z: int| #[trigger] list_covers(r@, x, y, z)
                    <==> list_covers(list@, x, y, z)
                &&& forall|k: int| 0 <= k < r@.len() ==> within_one_of(#[trigger] r@[k], list@)
            },
            list@.len() > 0 ==> r@.len() > 0 && r@[0] == list@[0],
    {
        let ghost ne = all_nonempty(list@);
        let mut result: Vec<VoxelAabb> = Vec::new();
        let mut i: usize = 0;
        while i < list.len()
            invariant
                i <= list@.len(),
                ne == all_nonempty(list@),
                ne ==> pairwise_disjoint(result@),
                ne ==> all_nonempty(result@),
                ne ==> forall|x: int, y: int, z: int| #[trigger] list_covers(result@, x, y, z)
                    <==> list_covers(list@.subrange(0, i as int), x, y, z),
                ne ==> forall|k: int| 0 <= k < result@.len() ==> within_one_of(#[trigger] result@[k], list@.subrange(0, i as int)),
                i > 0 ==> result@.len() > 0 && result@[0] == list@[0],
                i == 0 ==> result@.len() == 0,
            decreases list@.len() - i,
        {
            let current = list[i];
            let mut fragments: Vec<VoxelAabb> = vec![current];
            proof {
                if ne {
                    assert(box_nonempty(list@[i as int]));
                    assert forall|x: int, y: int, z: int| #[trigger] list_covers(fragments@, x, y, z)
                        <==> box_contains(current, x, y, z) by {
                        if box_contains(current, x, y, z) {
                            assert(box_contains(fragments@[0], x, y, z));
                        }
                    }
                }
            }
            let mut j: usize = 0;
            while j < result.len()
                invariant
                    j <= result@.len(),
                    ne == all_nonempty(list@),
                    ne ==> pairwise_disjoint(result@),
                    ne ==> all_nonempty(result@),
                    ne ==> pairwise_disjoint(fragments@),
                    ne ==> all_nonempty(fragments@),
                    ne ==> forall|x: int, y: int, z: int| #[trigger] list_covers(fragments@, x, y, z)
                        <==> (box_contains(current, x, y, z) && !list_covers(result@.subrange(0, j as int), x, y, z)),
                    result@.len() == 0 ==> fragments@ == seq![current],
                decreases result@.len() - j,
            {
                let existing = result[j];
                let ghost pre = result@.subrange(0, j as int);
                let ghost pre2 = result@.subrange(0, j + 1);
                proof {
                    if ne {
                        assert(box_nonempty(result@[j as int]));
                    }
                }
                fragments = subtract_all(&fragments, &existing);
                proof {
                    if ne {
                        assert forall|x: int, y: int, z: int| #[trigger] list_covers(fragments@, x, y, z)
                            <==> (box_contains(current, x, y, z) && !list_covers(pre2, x, y, z)) by {
                            if list_covers(pre2, x, y, z) {
                                let q = choose|q: int| 0 <= q < pre2.len() && #[trigger] box_contains(pre2[q], x, y, z);
                                if q < j {
                                    assert(box_contains(pre[q], x, y, z));
                                } else {
                                    assert(box_contains(existing, x, y, z));
                                }
                            }
                            if list_covers(pre, x, y, z) {
                                let q = choose|q: int| 0 <= q < pre.len() && #[trigger] box_contains(pre[q], x, y, z);
                                assert(box_contains(pre2[q], x, y, z));
                            }
                            if box_contains(existing, x, y, z) {
                                assert(box_contains(pre2[j as int], x, y, z));
                            }
                        }
                    }
                }
                j += 1;
            }
            let ghost old_result = result@;
            let ghost frags = fragments@;
            proof {
                if ne {
                    assert(result@.subrange(0, j as int) =~= result@);
                    lemma_append_disjoint(old_result, fragments@);
                }
            }
            result.append(&mut fragments);
            proof {
                assert(result@ == old_result + frags);
                if i == 0 {
                    assert(frags == seq![current]);
                    assert(result@[0] == list@[0]);
                } else {
                    assert(result@[0] == old_result[0]);
                }
                if ne {
                    assert forall|k: int| 0 <= k < result@.len() implies within_one_of(#[trigger] result@[k], list@.subrange(0, i + 1)) by {
                        let pre = list@.subrange(0, i as int);
                        let pre2 = list@.subrange(0, i + 1);
                        if k < old_result.len() {
                            assert(result@[k] == old_result[k]);
                            assert(within_one_of(old_result[k], pre));
                            let j = choose|j: int| 0 <= j < pre.len() && #[trigger] box_within(old_result[k], pre[j]);
                            assert(pre2[j] == pre[j]);
                            assert(box_within(result@[k], pre2[j]));
                        } else {
                            let f = frags[k - old_result.len()];
                            assert(result@[k] == f);
                            assert(box_nonempty(f));
                            assert(box_contains(f, f.min.x as int, f.min.y as int, f.min.z as int));
                            assert(box_contains(f, f.max.x as int, f.max.y as int, f.max.z as int));
                            assert(list_covers(frags, f.min.x as int, f.min.y as int, f.min.z as int));
                            assert(list_covers(frags, f.max.x as int, f.max.y as int, f.max.z as int));
                            lemma_corners_within(f, current);
                            assert(pre2[i as int] == current);
                            assert(box_within(result@[k], pre2[i as int]));
                        }
                    }
                }
                if ne {
                    let pre = list@.subrange(0, i as int);
                    let pre2 = list@.subrange(0, i + 1);
                    assert(result@ == old_result + frags);
                    assert forall|x: int, y: int, z: int| #[trigger] list_covers(result@, x, y, z)
                        <==> list_covers(pre2, x, y, z) by {
                        assert(list_covers(result@, x, y, z) <==> (list_covers(old_result, x, y, z) || list_covers(frags, x, y, z)));
                        assert(list_covers(old_result, x, y, z) <==> list_covers(pre, x, y, z));
                        assert(list_covers(frags, x, y, z) <==> (box_contains(current, x, y, z) && !list_covers(old_result, x, y, z)));
                        if list_covers(pre2, x, y, z) {
                            let q = choose|q: int| 0 <= q < pre2.len() && #[trigger] box_contains(pre2[q], x, y, z);
                            if q < i {
                                assert(pre2[q] == pre[q]);
                                assert(box_contains(pre[q], x, y, z));
                            } else {
                                assert(pre2[q] == current);
                                assert(box_contains(current, x, y, z));
                            }
                        }
                        if list_covers(pre, x, y, z) {
                            let q = choose|q: int| 0 <= q < pre.len() && #[trigger] box_contains(pre[q], x, y, z);
                            assert(pre2[q] == pre[q]);
                            assert(box_contains(pre2[q], x, y, z));
                        }
                        if box_contains(current, x, y, z) {
                            assert(pre2[i as int] == current);
                            assert(box_contains(pre2[i as int], x, y, z));
                        }
                    }
                }
            }
            i += 1;
        }
        assert(list@.subrange(0, i as int) =~= list@);
        result
    }
}

/// The merge test of a merge pass: along y only, or along any axis.
pub open spec fn mergeable(a: VoxelAabb, b: VoxelAabb, y_only: bool) -> bool {
    if y_only {
        spec_can_merge_y(a, b)
    } else {
        spec_can_merge(a, b)
    }
}

/// Whether the `k`-th box can be merged with a box before it.
pub open spec fn has_partner(l: Seq<VoxelAabb>, k: int, y_only: bool) -> bool {
    exists|j: int| 0 <= j < k && #[trigger] mergeable(l[k], l[j], y_only)
}

/// Scanning from the `k`-th box down, the first box that can be merged
/// with an earlier one.
pub open spec fn scan_partner(l: Seq<VoxelAabb>, k: int, y_only: bool) -> Option<int>
    decreases k + 1,
{
    if k < 0 {
        None
    } else if has_partner(l, k, y_only) {
        Some(k)
    } else {
        scan_partner(l, k - 1, y_only)
    }
}

/// The merge passes: a pass takes boxes from the back; at the first box with
/// a partner it stops and keeps only the boxes taken before it (the merged
/// box is not kept); a pass without a partner gives the list reversed and
/// ends the passes.
pub open spec fn merge_passes(l: Seq<VoxelAabb>, y_only: bool) -> Seq<VoxelAabb>
    decreases l.len(),
{
    match scan_partner(l, l.len() - 1, y_only) {
        None => l.reverse(),
        Some(k) => if 0 <= k < l.len() {
            merge_passes(l.subrange(k + 1, l.len() as int).reverse(), y_only)
        } else {
            l
        },
    }
}

/// Every box is below the limit that merging can add to.
pub open spec fn all_below_limit(l: Seq<VoxelAabb>) -> bool {
    forall|i: int| 0 <= i < l.len() ==> max_below_limit(#[trigger] l[i])
}

proof fn lemma_scan_in_range(l: Seq<VoxelAabb>, k: int, y_only: bool)
    ensures
        match scan_partner(l, k, y_only) {
            Some(m) => 0 <= m <= k && has_partner(l, m, y_only),
            None => forall|m: int| 0 <= m <= k ==> !#[trigger] has_partner(l, m, y_only),
        },
    decreases k + 1,
{
    if k >= 0 && !has_partner(l, k, y_only) {
        lemma_scan_in_range(l, k - 1, y_only);
    }
}

/// What the passes leave has no box that merges with a later one, and
/// every box it holds was in the list.
pub proof fn lemma_merge_passes(l: Seq<VoxelAabb>, y_only: bool)
    ensures
        forall|i: int, j: int| 0 <= i < j < merge_passes(l, y_only).len()
            ==> !#[trigger] mergeable(merge_passes(l, y_only)[i], merge_passes(l, y_only)[j], y_only),
        forall|i: int| 0 <= i < merge_passes(l, y_only).len() ==> l.contains(#[trigger] merge_passes(l, y_only)[i]),
    decreases l.len(),
{
    lemma_scan_in_range(l, l.len() - 1, y_only);
    match scan_partner(l, l.len() - 1, y_only) {
        None => {
            let r = l.reverse();
            assert forall|i: int, j: int| 0 <= i < j < r.len() implies !#[trigger] mergeable(r[i], r[j], y_only) by {
                let k = l.len() - 1 - i;
                let jj = l.len() - 1 - j;
                assert(!has_partner(l, k, y_only));
                assert(r[i] == l[k] && r[j] == l[jj]);
            }
            assert forall|i: int| 0 <= i < r.len() implies l.contains(#[trigger] r[i]) by {
                assert(r[i] == l[l.len() - 1 - i]);
            }
        },
        Some(k) => {
            let t = l.subrange(k + 1, l.len() as int).reverse();
            lemma_merge_passes(t, y_only);
            let r = merge_passes(t, y_only);
            assert forall|i: int| 0 <= i < r.len() implies l.contains(#[trigger] r[i]) by {
                assert(t.contains(r[i]));
                let m = choose|m: int| 0 <= m < t.len() && t[m] == r[i];
                assert(l[l.len() - 1 - m] == r[i]);
            }
        },
    }
}

impl VoxelAabb {
    /// One implementation of both merge passes.
    fn merge_adjacent_by(list: Vec<VoxelAabb>, y_only: bool) -> (r: Vec<VoxelAabb>)
        requires
            all_below_limit(list@),
        ensures
            r@ == merge_passes(list@, y_only),
    {
        let ghost orig = list@;
        let mut list = list;
        let mut changed = true;
        while changed
            invariant
                all_below_limit(list@),
                changed ==> merge_passes(list@, y_only) == merge_passes(orig, y_only),
                !changed ==> list@ == merge_passes(orig, y_only),
            decreases list@.len() + (if changed { 1int } else { 0int }),
        {
            changed = false;
            let ghost l0 = list@;
            let ghost n = l0.len() as int;
            let mut new_list: Vec<VoxelAabb> = Vec::new();
            let mut merged_at: Option<usize> = None;
            while list.len() > 0
                invariant_except_break
                    merged_at is None,
                    list@.len() <= n,
                    list@ == l0.subrange(0, list@.len() as int),
                    new_list@ == l0.subrange(list@.len() as int, n).reverse(),
                    scan_partner(l0, n - 1, y_only) == scan_partner(l0, list@.len() - 1, y_only),
                invariant
                    l0.len() == n,
                    all_below_limit(l0),
                ensures
                    merged_at is None ==> list@.len() == 0 && new_list@ == l0.subrange(0, n).reverse()
                        && scan_partner(l0, n - 1, y_only) == scan_partner(l0, -1, y_only),
                    merged_at matches Some(m) ==> {
                        &&& m < n
                        &&& has_partner(l0, m as int, y_only)
                        &&& scan_partner(l0, n - 1, y_only) == scan_partner(l0, m as int, y_only)
                        &&& new_list@ == l0.subrange(m + 1, n).reverse()
                    },
                decreases list@.len(),
            {
                let a = list.pop().unwrap();
                let m = list.len();
                assert(a == l0[m as int]);
                let mut j: usize = 0;
                let mut found = false;
                while j < list.len()
                    invariant
                        j <= list@.len(),
                        list@ == l0.subrange(0, m as int),
                        a == l0[m as int],
                        all_below_limit(l0),
                        m < n,
                        l0.len() == n,
                        forall|t: int| 0 <= t < j ==> !#[trigger] mergeable(a, l0[t], y_only),
                        found ==> j < list@.len() && mergeable(a, l0[j as int], y_only),
                    ensures
                        !found ==> forall|t: int| 0 <= t < m ==> !#[trigger] mergeable(a, l0[t], y_only),
                        found ==> j < m && mergeable(a, l0[j as int], y_only),
                    decreases list@.len() - j,
                {
                    let b = list[j];
                    assert(max_below_limit(l0[j as int]) && max_below_limit(l0[m as int]));
                    let hit = if y_only { a.can_merge_y(&b) } else { a.can_merge(&b) };
                    if hit {
                        found = true;
                        break;
                    }
                    j += 1;
                }
                if found {
                    assert(has_partner(l0, m as int, y_only));
                    merged_at = Some(m);
                    break;
                } else {
                    assert(!has_partner(l0, m as int, y_only));
                    new_list.push(a);
                    assert(new_list@ =~= l0.subrange(m as int, n).reverse());
                }
            }
            proof {
                if merged_at is None {
                    assert(l0.subrange(0, n) =~= l0);
                }
                assert forall|i: int| 0 <= i < new_list@.len() implies max_below_limit(#[trigger] new_list@[i]) by {
                    if merged_at is None {
                        assert(new_list@[i] == l0[n - 1 - i]);
                    } else {
                        let m = merged_at.unwrap() as int;
                        assert(new_list@[i] == l0.subrange(m + 1, n)[n - m - 2 - i]);
                    }
                }
            }
            match merged_at {
                Some(m) => {
                    proof {
                        assert(scan_partner(l0, m as int, y_only) == Some(m as int));
                    }
                    changed = true;
                    list = new_list;
                },
                None => {
                    list = new_list;
                },
            }
        }
        list
    }

    /// Merge boxes that touch along y and share their x and z extents, pass
    /// after pass (see `merge_passes`).
    pub fn merge_adjacent_y_priority(list: Vec<VoxelAabb>) -> (r: Vec<VoxelAabb>)
        requires
            all_below_limit(list@),
        ensures
            r@ == merge_passes(list@, true),
    {
        Self::merge_adjacent_by(list, true)
    }

    /// Merge boxes that touch along one axis and share the other two
    /// extents, pass after pass (see `merge_passes`).
    pub fn merge_adjacent(list: Vec<VoxelAabb>) -> (r: Vec<VoxelAabb>)
        requires
            all_below_limit(list@),
        ensures
            r@ == merge_passes(list@, false),
    {
        Self::merge_adjacent_by(list, false)
    }
}

} // verus!
