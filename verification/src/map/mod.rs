//! World generation data: the digsite's boxes of diggable voxels.

use vstd::prelude::*;

use crate::voxel::voxel_aabb::{all_nonempty, list_covers, pairwise_disjoint, VoxelAabb};

pub mod object;

verus! {

/// A digsite: the boxes of voxels it spans.
pub struct Digsite {
    voxel_aabbs: Vec<VoxelAabb>,
}

impl Digsite {
    /// The boxes of the digsite, in order.
    pub closed spec fn boxes(&self) -> Seq<VoxelAabb> {
        self.voxel_aabbs@
    }

    pub fn new(voxel_aabbs: Vec<VoxelAabb>) -> (r: Self)
        ensures
            r.boxes() == voxel_aabbs@,
    {
        Digsite { voxel_aabbs }
    }

    pub fn voxel_aabbs(&self) -> (r: &[VoxelAabb])
        ensures
            r@ == self.boxes(),
    {
        self.voxel_aabbs.as_slice()
    }

    /// Replace the boxes by disjoint ones covering the same voxels: each box
    /// in turn loses what the boxes kept before it cover.
    pub fn remove_aabb_overlaps(&mut self)
        ensures
            all_nonempty(old(self).boxes()) ==> {
                &&& pairwise_disjoint(final(self).boxes())
                &&& all_nonempty(final(self).boxes())
                &&& forall|x: int, y: int, z: int| #[trigger] list_covers(final(self).boxes(), x, y, z)
                    <==> list_covers(old(self).boxes(), x, y, z)
            },
    {
        let mut list: Vec<VoxelAabb> = Vec::new();
        std::mem::swap(&mut list, &mut self.voxel_aabbs);
        self.voxel_aabbs = VoxelAabb::remove_overlaps(list);
    }
}

} // verus!
