//! Brushes: sets of voxel offsets written in one go.

use vstd::prelude::*;

use crate::math::IVec3;
use crate::voxel::voxel::Voxel;
use crate::voxel::voxels::{lemma_set_voxel_read, point_in_range, set_voxel_all, Voxels, VoxelsModel};

verus! {

/// A brush as the list of voxels it affects.
#[derive(Debug, Clone)]
pub struct BakedBrush(pub Vec<IVec3>);

impl BakedBrush {
    pub fn new(points: Vec<IVec3>) -> (r: Self)
        ensures
            r.0@ == points@,
    {
        BakedBrush(points)
    }

    /// Voxels affected by this brush without any transformation.
    pub fn local_affected_voxels(&self) -> (r: Vec<IVec3>)
        ensures
            r@ == self.0@,
    {
        let mut out: Vec<IVec3> = Vec::new();
        let mut i: usize = 0;
        while i < self.0.len()
            invariant
                i <= self.0@.len(),
                out@ == self.0@.subrange(0, i as int),
            decreases self.0@.len() - i,
        {
            out.push(self.0[i]);
            i += 1;
            assert(out@ =~= self.0@.subrange(0, i as int));
        }
        assert(self.0@.subrange(0, self.0@.len() as int) =~= self.0@);
        out
    }
}

/// Where a brush's offsets land when it is applied at `center`.
pub open spec fn brush_points(center: IVec3, offsets: Seq<IVec3>) -> Seq<IVec3> {
    Seq::new(
        offsets.len(),
        |i: int|
            IVec3 {
                x: (center.x + offsets[i].x) as i32,
                y: (center.y + offsets[i].y) as i32,
                z: (center.z + offsets[i].z) as i32,
            },
    )
}

/// Whether every offset moved to `center` stays in `i32` and in the range
/// the world can store.
pub open spec fn brush_fits(center: IVec3, offsets: Seq<IVec3>) -> bool {
    forall|i: int| 0 <= i < offsets.len() ==> center.add_fits(#[trigger] offsets[i]) && point_in_range(
        brush_points(center, offsets)[i],
    )
}

/// What a run of writes of one voxel leaves at `q`: the voxel, when one of
/// the first `n` points is `q` and `q` is in the height band the world
/// writes; else what was there.
pub proof fn lemma_set_voxel_all_world(m: VoxelsModel, pts: Seq<IVec3>, v: Voxel, n: int, q: IVec3)
    requires
        0 <= n <= pts.len(),
    ensures
        (set_voxel_all(m, pts, Seq::new(pts.len(), |i: int| v), n).world)(q) == if -50 <= q.y <= 250 && exists|i: int|
            0 <= i < n && #[trigger] pts[i] == q {
            v
        } else {
            (m.world)(q)
        },
    decreases n,
{
    let vs = Seq::new(pts.len(), |i: int| v);
    if n > 0 {
        lemma_set_voxel_all_world(m, pts, v, n - 1, q);
        lemma_set_voxel_read(set_voxel_all(m, pts, vs, n - 1), pts[n - 1], vs[n - 1], q);
        if -50 <= q.y <= 250 && pts[n - 1] != q && exists|i: int| 0 <= i < n && #[trigger] pts[i] == q {
            let i = choose|i: int| 0 <= i < n && #[trigger] pts[i] == q;
            assert(0 <= i < n - 1 && pts[i] == q);
        }
    }
}

impl Voxels {
    /// Set every voxel the brush affects, its offsets moved to `center`, to
    /// `voxel`, one `set_voxel` after another.
    pub fn apply_brush(&mut self, center: IVec3, b: &BakedBrush, voxel: Voxel)
        requires
            old(self).wf(),
            brush_fits(center, b.0@),
        ensures
            final(self).wf(),
            final(self).model() == set_voxel_all(old(self).model(), brush_points(center, b.0@), Seq::new(
                b.0@.len(),
                |i: int| voxel,
            ), b.0@.len() as int),
            forall|q: IVec3| #[trigger] final(self).world(q) == if -50 <= q.y <= 250 && exists|i: int|
                0 <= i < b.0@.len() && #[trigger] brush_points(center, b.0@)[i] == q {
                voxel
            } else {
                old(self).world(q)
            },
    {
        let points = b.local_affected_voxels();
        let ghost pts = brush_points(center, b.0@);
        let ghost vs = Seq::new(b.0@.len(), |i: int| voxel);
        let mut i: usize = 0;
        while i < points.len()
            invariant
                points@ == b.0@,
                pts == brush_points(center, b.0@),
                vs == Seq::new(b.0@.len(), |i: int| voxel),
                i <= points@.len(),
                self.wf(),
                brush_fits(center, b.0@),
                self.model() == set_voxel_all(old(self).model(), pts, vs, i as int),
            decreases points@.len() - i,
        {
            assert(center.add_fits(b.0@[i as int]) && point_in_range(pts[i as int]));
            let p = center.add(points[i]);
            assert(p == pts[i as int]);
            self.set_voxel(p, voxel);
            i += 1;
        }
        proof {
            assert forall|q: IVec3| #[trigger] self.world(q) == if -50 <= q.y <= 250 && exists|i: int|
                0 <= i < b.0@.len() && #[trigger] brush_points(center, b.0@)[i] == q {
                voxel
            } else {
                old(self).world(q)
            } by {
                lemma_set_voxel_all_world(old(self).model(), pts, voxel, b.0@.len() as int, q);
                assert(self.world(q) == (self.model().world)(q));
                assert(old(self).world(q) == (old(self).model().world)(q));
            }
        }
    }
}

} // verus!
