//! The order of queued voxel updates.

use std::cmp::Ordering;

use vstd::prelude::*;
use vstd::std_specs::cmp::PartialOrdSpecImpl;

use crate::math::IVec3;
use crate::voxel::voxels::VoxelUpdate;

verus! {

/// How two integers compare, largest first.
pub open spec fn descending(a: i32, b: i32) -> Ordering {
    if b < a {
        Ordering::Less
    } else if a < b {
        Ordering::Greater
    } else {
        Ordering::Equal
    }
}

/// The order of updates: by descending y, then descending x, then
/// descending z.
pub open spec fn update_order(a: IVec3, b: IVec3) -> Ordering {
    if a.y != b.y {
        descending(a.y, b.y)
    } else if a.x != b.x {
        descending(a.x, b.x)
    } else {
        descending(a.z, b.z)
    }
}

fn compare_descending(a: i32, b: i32) -> (r: Ordering)
    ensures
        r == descending(a, b),
{
    if b < a {
        Ordering::Less
    } else if a < b {
        Ordering::Greater
    } else {
        Ordering::Equal
    }
}

impl VoxelUpdate {
    /// Compares two updates: the higher one first, then by descending x,
    /// then by descending z.
    pub fn cmp(&self, other: &Self) -> (r: Ordering)
        ensures
            r == update_order(self.0, other.0),
    {
        if self.0.y != other.0.y {
            compare_descending(self.0.y, other.0.y)
        } else if self.0.x != other.0.x {
            compare_descending(self.0.x, other.0.x)
        } else {
            compare_descending(self.0.z, other.0.z)
        }
    }
}

impl PartialOrd for VoxelUpdate {
    fn partial_cmp(&self, other: &Self) -> (r: Option<Ordering>) {
        Some(VoxelUpdate::cmp(self, other))
    }
}

impl PartialOrdSpecImpl for VoxelUpdate {
    open spec fn obeys_partial_cmp_spec() -> bool {
        true
    }

    open spec fn partial_cmp_spec(&self, other: &Self) -> Option<Ordering> {
        Some(update_order(self.0, other.0))
    }
}

/// The order is total and consistent with equality: two updates compare
/// equal exactly when they are the same point, and swapping them reverses
/// the order.
pub proof fn lemma_update_order(a: IVec3, b: IVec3)
    ensures
        (update_order(a, b) == Ordering::Equal) <==> a == b,
        update_order(a, b) == Ordering::Less <==> update_order(b, a) == Ordering::Greater,
{
}

} // verus!
