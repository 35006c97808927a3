//! Placing objects in a digsite: boxes are picked at random, weighted by
//! their volume.

use rand::rngs::StdRng;
use rand::Rng;
use vstd::prelude::*;

use crate::map::Digsite;
use crate::voxel::voxel_aabb::{extent, VoxelAabb};

verus! {

/// The standard seeded random number generator of `rand`.
#[verifier::external_type_specification]
#[verifier::external_body]
pub struct ExStdRng(StdRng);

/// `Rng::random_range(0..max)`: a random number in `0..max`.
#[verifier::external_body]
fn random_below(rng: &mut StdRng, max: i32) -> (r: i32)
    requires
        max > 0,
    ensures
        0 <= r < max,
{
    rng.random_range(0..max)
}

/// Whether a box's size and volume fit in `i32`.
pub open spec fn volume_fits(a: VoxelAabb) -> bool {
    &&& i32::MIN <= a.max.x - a.min.x + 1 <= i32::MAX
    &&& i32::MIN <= a.max.y - a.min.y + 1 <= i32::MAX
    &&& i32::MIN <= a.max.z - a.min.z + 1 <= i32::MAX
    &&& i32::MIN <= a.max.x - a.min.x <= i32::MAX
    &&& i32::MIN <= a.max.y - a.min.y <= i32::MAX
    &&& i32::MIN <= a.max.z - a.min.z <= i32::MAX
    &&& extent(a.min.x, a.max.x) * extent(a.min.y, a.max.y) <= i32::MAX
    &&& a.spec_volume() <= i32::MAX
}

/// The total volume of the first `n` boxes.
pub open spec fn volume_sum(l: Seq<VoxelAabb>, n: int) -> int
    decreases n,
{
    if n <= 0 {
        0
    } else {
        volume_sum(l, n - 1) + l[n - 1].spec_volume()
    }
}

/// Every box's volume, and every running total, fits in `i32`.
pub open spec fn weights_fit(l: Seq<VoxelAabb>) -> bool {
    &&& forall|i: int| 0 <= i < l.len() ==> volume_fits(#[trigger] l[i])
    &&& forall|n: int| 0 <= n <= l.len() ==> i32::MIN <= #[trigger] volume_sum(l, n) <= i32::MAX
}

/// Boxes with the running total of the volumes up to and including each.
pub struct VolumeWeights {
    weights: Vec<(i32, VoxelAabb)>,
    max_volume: i32,
}

impl VolumeWeights {
    /// The weighted boxes, in order.
    pub closed spec fn entries(&self) -> Seq<(i32, VoxelAabb)> {
        self.weights@
    }

    /// The total volume.
    pub closed spec fn total(&self) -> int {
        self.max_volume as int
    }

    /// The first box whose weight the pick reaches, from the `k`-th on.
    pub open spec fn first_reached(&self, pick: int, k: int) -> Option<VoxelAabb>
        decreases self.entries().len() - k,
    {
        if k < 0 || k >= self.entries().len() {
            None
        } else if pick >= self.entries()[k].0 {
            Some(self.entries()[k].1)
        } else {
            self.first_reached(pick, k + 1)
        }
    }

    /// The total volume, the bound of the volume picks.
    pub fn max_volume(&self) -> (r: i32)
        ensures
            r == self.total(),
    {
        self.max_volume
    }

    /// The box for a volume pick: the first whose weight the pick reaches;
    /// `None` when the pick is below every weight.
    pub fn pick_volume_at(&self, volume_pick: i32) -> (r: Option<VoxelAabb>)
        ensures
            r == self.first_reached(volume_pick as int, 0),
    {
        let mut i: usize = 0;
        while i < self.weights.len()
            invariant
                i <= self.weights@.len(),
                self.first_reached(volume_pick as int, 0) == self.first_reached(volume_pick as int, i as int),
            decreases self.weights@.len() - i,
        {
            let (starting_volume, aabb) = self.weights[i];
            if volume_pick >= starting_volume {
                return Some(aabb);
            }
            i += 1;
        }
        None
    }

    /// Pick a box at random: a volume pick in `0..max_volume`, then the
    /// first box whose weight it reaches.
    pub fn pick_volume(&self, rng: &mut StdRng) -> (r: Option<VoxelAabb>)
        requires
            self.total() > 0,
        ensures
            exists|pick: int| 0 <= pick < self.total() && r == self.first_reached(pick, 0),
    {
        let volume_pick = random_below(rng, self.max_volume);
        self.pick_volume_at(volume_pick)
    }
}

impl Digsite {
    /// Each box with the running total of the volumes up to and including
    /// it, and the total volume.
    pub fn volume_weights(&self) -> (r: VolumeWeights)
        requires
            weights_fit(self.boxes()),
        ensures
            r.total() == volume_sum(self.boxes(), self.boxes().len() as int),
            r.entries().len() == self.boxes().len(),
            forall|i: int| 0 <= i < self.boxes().len() ==> #[trigger] r.entries()[i]
                == (volume_sum(self.boxes(), i + 1) as i32, self.boxes()[i]),
    {
        let aabbs = self.voxel_aabbs();
        let mut volume_weights: Vec<(i32, VoxelAabb)> = Vec::new();
        let mut volume_sum_so_far: i32 = 0;
        let mut i: usize = 0;
        while i < aabbs.len()
            invariant
                aabbs@ == self.boxes(),
                weights_fit(self.boxes()),
                i <= aabbs@.len(),
                volume_sum_so_far == volume_sum(self.boxes(), i as int),
                volume_weights@.len() == i,
                forall|k: int| 0 <= k < i ==> #[trigger] volume_weights@[k]
                    == (volume_sum(self.boxes(), k + 1) as i32, self.boxes()[k]),
            decreases aabbs@.len() - i,
        {
            let aabb = aabbs[i];
            assert(volume_fits(self.boxes()[i as int]));
            let v = aabb.volume();
            assert(i32::MIN <= volume_sum(self.boxes(), i + 1) <= i32::MAX);
            volume_weights.push((volume_sum_so_far + v, aabb));
            volume_sum_so_far = volume_sum_so_far + v;
            i += 1;
        }
        VolumeWeights { weights: volume_weights, max_volume: volume_sum_so_far }
    }
}

} // verus!
