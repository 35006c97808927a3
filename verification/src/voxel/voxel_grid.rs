//! A simple dense voxel grid over a `Grid` shape, recording its changes.

use vstd::prelude::*;

use crate::voxel::grid::{
    lemma_delinearize_linearize, lemma_linear_parts, point_of, spec_delinearize, AxisOrder, Grid,
    Scalar,
};

verus! {

/// The voxel kinds of the dense grid.
#[derive(Debug, Clone, Copy, PartialEq, Eq, Structural, Hash)]
pub enum Voxel {
    Air,
    Dirt,
    Grass,
    Stone,
    Water,
    Base,
}

impl Voxel {
    /// All kinds, in declaration order.
    pub fn iter() -> (r: Vec<Voxel>)
        ensures
            r@ == seq![Voxel::Air, Voxel::Dirt, Voxel::Grass, Voxel::Stone, Voxel::Water, Voxel::Base],
    {
        let r = vec![Voxel::Air, Voxel::Dirt, Voxel::Grass, Voxel::Stone, Voxel::Water, Voxel::Base];
        assert(r@ =~= seq![Voxel::Air, Voxel::Dirt, Voxel::Grass, Voxel::Stone, Voxel::Water, Voxel::Base]);
        r
    }

    /// Whether this voxel takes up space: everything but air.
    pub fn filling(&self) -> (r: bool)
        ensures
            r == (*self != Voxel::Air),
    {
        match self {
            Voxel::Air => false,
            _ => true,
        }
    }

    /// Whether a ray stops at this voxel: everything but air.
    pub fn pickable(&self) -> (r: bool)
        ensures
            r == (*self != Voxel::Air),
    {
        match self {
            Voxel::Air => false,
            _ => true,
        }
    }

    /// Whether this voxel can be broken: everything but air and the base.
    pub fn breakable(&self) -> (r: bool)
        ensures
            r == (*self != Voxel::Air && *self != Voxel::Base),
    {
        match self {
            Voxel::Air | Voxel::Base => false,
            _ => true,
        }
    }
}

/// One recorded change of a grid voxel.
#[derive(Debug, Clone, Copy)]
pub struct GridChange {
    pub point: [Scalar; 3],
    pub last_voxel: Voxel,
    pub new_voxel: Voxel,
}

/// Simple Voxel grid, zero optimizations done like octrees/etc.
pub struct VoxelGrid {
    pub grid: Grid,
    pub voxels: Vec<Voxel>,
    pub surface: Vec<Scalar>,
    // Changed over the last frame.
    changed: Vec<GridChange>,
}

impl VoxelGrid {
    /// The grid's shape.
    pub closed spec fn shape(&self) -> Grid {
        self.grid
    }

    /// The voxels, by linear index.
    pub closed spec fn cells(&self) -> Seq<Voxel> {
        self.voxels@
    }

    /// The changes recorded since the last clear, in order.
    pub closed spec fn changes(&self) -> Seq<GridChange> {
        self.changed@
    }

    /// A voxel for each point of the grid's shape, which has positive size
    /// and a fitting layout.
    pub open spec fn wf(&self) -> bool {
        &&& self.shape().wf()
        &&& self.cells().len() == self.shape().spec_size()
        &&& self.shape().dims().0 >= 0 && self.shape().dims().1 >= 0 && self.shape().dims().2 >= 0
        &&& forall|p: [Scalar; 3]| #[trigger] self.shape().contains(p) ==> 0 <= self.shape().spec_linearize(p) < self.shape().spec_size()
            && i32::MIN <= (self.shape().stride().0 as i32).wrapping_mul(p[0]) + (self.shape().stride().1 as i32).wrapping_mul(p[1]) <= i32::MAX
    }

    /// The voxel at a point of the grid.
    pub open spec fn at(&self, p: [Scalar; 3]) -> Voxel {
        self.cells()[self.shape().spec_linearize(p)]
    }

    /// The voxel at the point `(x, y, z)` of the grid.
    pub open spec fn at_xyz(&self, x: Scalar, y: Scalar, z: Scalar) -> Voxel {
        self.at([x, y, z])
    }

    /// An all-air grid of the given size and axis order.
    pub fn new(dims: [Scalar; 3], ordering: AxisOrder) -> (r: Self)
        requires
            dims[0] >= 0 && dims[1] >= 0 && dims[2] >= 0,
            crate::voxel::grid::dims_fit(dims[0] as int, dims[1] as int, dims[2] as int),
        ensures
            r.wf(),
            r.shape().dims() == (dims[0] as int, dims[1] as int, dims[2] as int),
            r.shape().order() == ordering,
            forall|p: [Scalar; 3]| #[trigger] r.shape().contains(p) ==> r.at(p) == Voxel::Air,
            r.changes().len() == 0,
    {
        let grid = Grid::new(dims, ordering);
        let size = grid.size();
        proof {
            let (x, y, z) = grid.dims();
            assert(x * y * z >= 0) by (nonlinear_arith) requires x >= 0, y >= 0, z >= 0;
        }
        let mut voxels: Vec<Voxel> = Vec::new();
        let mut i: Scalar = 0;
        while i < size
            invariant
                0 <= i <= size,
                voxels@.len() == i,
                forall|j: int| 0 <= j < i ==> #[trigger] voxels@[j] == Voxel::Air,
            decreases size - i,
        {
            voxels.push(Voxel::Air);
            i += 1;
        }
        let r = VoxelGrid { grid, voxels, surface: Vec::new(), changed: Vec::new() };
        proof {
            assert forall|p: [Scalar; 3]| #[trigger] r.shape().contains(p) implies 0 <= r.shape().spec_linearize(p) < r.shape().spec_size()
                && i32::MIN <= (r.shape().stride().0 as i32).wrapping_mul(p[0]) + (r.shape().stride().1 as i32).wrapping_mul(p[1]) <= i32::MAX by {
                lemma_delinearize_linearize(r.grid, p);
                lemma_linear_parts(r.grid, p);
            }
        }
        r
    }

    pub fn linearize(&self, point: [Scalar; 3]) -> (r: Scalar)
        requires
            self.wf(),
            self.shape().contains(point),
        ensures
            r == self.shape().spec_linearize(point),
    {
        self.grid.linearize(point)
    }

    pub fn delinearize(&self, i: Scalar) -> (r: [Scalar; 3])
        requires
            self.wf(),
            self.shape().dims().0 > 0 && self.shape().dims().1 > 0 && self.shape().dims().2 > 0,
        ensures
            r@ == crate::voxel::grid::spec_delinearize(self.shape().order(), self.shape().stride(), i as int),
    {
        self.grid.delinearize(i)
    }

    pub fn point_iter(&self) -> (r: Vec<[Scalar; 3]>)
        requires
            self.wf(),
            self.shape().dims().0 > 0 && self.shape().dims().1 > 0 && self.shape().dims().2 > 0,
        ensures
            r@.len() == self.shape().spec_size(),
            forall|i: int| 0 <= i < r@.len() ==> (#[trigger] r@[i])@ == crate::voxel::grid::spec_delinearize(
                self.shape().order(), self.shape().stride(), i),
    {
        self.grid.point_iter()
    }

    /// The voxel at a point, or `None` outside the grid.
    pub fn get_voxel(&self, point: [Scalar; 3]) -> (r: Option<Voxel>)
        requires
            self.wf(),
        ensures
            r == if self.shape().contains(point) { Some(self.at(point)) } else { None },
    {
        if !self.in_bounds(point) {
            return None;
        }
        let index = self.grid.linearize(point);
        Some(self.voxels[index as usize])
    }

    /// The voxel at a point of the grid.
    pub fn voxel(&self, point: [Scalar; 3]) -> (r: Voxel)
        requires
            self.wf(),
            self.shape().contains(point),
        ensures
            r == self.at(point),
    {
        let index = self.linearize(point);
        self.linear_voxel(index)
    }

    pub fn linear_voxel(&self, index: Scalar) -> (r: Voxel)
        requires
            0 <= index < self.cells().len(),
        ensures
            r == self.cells()[index as int],
    {
        self.voxels[index as usize]
    }

    /// Set the voxel at a point of the grid, recording the change.
    pub fn set(&mut self, point: [Scalar; 3], voxel: Voxel)
        requires
            old(self).wf(),
            old(self).shape().contains(point),
        ensures
            final(self).wf(),
            final(self).shape() == old(self).shape(),
            final(self).cells() == old(self).cells().update(old(self).shape().spec_linearize(point), voxel),
            final(self).changes() == old(self).changes().push(
                GridChange { point, last_voxel: old(self).at(point), new_voxel: voxel },
            ),
    {
        let index = self.linearize(point);
        let last_voxel = self.linear_voxel(index);
        self.changed.push(GridChange { point, last_voxel, new_voxel: voxel });
        self.voxels.set(index as usize, voxel);
    }

    /// The changes recorded since the last clear.
    pub fn changed(&self) -> (r: &[GridChange])
        ensures
            r@ == self.changes(),
    {
        self.changed.as_slice()
    }

    pub fn clear_changed(&mut self)
        ensures
            final(self).changes().len() == 0,
            final(self).shape() == old(self).shape(),
            final(self).cells() == old(self).cells(),
    {
        self.changed.clear();
    }

    /// The grid's shape.
    pub fn grid(&self) -> (r: &Grid)
        ensures
            *r == self.shape(),
    {
        &self.grid
    }

    pub fn in_bounds(&self, point: [Scalar; 3]) -> (r: bool)
        ensures
            r == self.shape().contains(point),
    {
        self.grid.in_bounds(point)
    }

    pub fn array(&self) -> (r: [Scalar; 3])
        ensures
            (r[0] as int, r[1] as int, r[2] as int) == self.shape().dims(),
    {
        self.grid.array()
    }

    pub fn size(&self) -> (r: Scalar)
        ensures
            r == self.shape().spec_size(),
    {
        self.grid.size()
    }

    /// The size along x.
    pub fn width(&self) -> (r: Scalar)
        requires
            self.shape().order() == AxisOrder::XYZ || self.shape().order() == AxisOrder::XZY,
        ensures
            r == self.shape().dims().0,
    {
        self.grid.x()
    }

    /// The size along y.
    pub fn height(&self) -> (r: Scalar)
        ensures
            r == self.shape().dims().1,
    {
        self.grid.y()
    }

    /// The size along z.
    pub fn length(&self) -> (r: Scalar)
        ensures
            r == self.shape().dims().2,
    {
        self.grid.z()
    }

    /// Closest voxel to the surface at a specified x and z: the highest
    /// non-air voxel of the column, with its height.
    /// This is a hack compared to a real screenspace raycast.
    pub fn surface_voxel(&self, x: Scalar, z: Scalar) -> (r: Option<(Voxel, Scalar)>)
        requires
            self.wf(),
            self.shape().dims().1 > 0 ==> 0 <= x < self.shape().dims().0 && 0 <= z < self.shape().dims().2,
        ensures
            match r {
                Some((v, y)) => 0 <= y < self.shape().dims().1 && v != Voxel::Air && v == self.at([x, y, z])
                    && forall|h: Scalar| y < h < self.shape().dims().1 ==> #[trigger] self.at_xyz(x, h, z) == Voxel::Air,
                None => forall|h: Scalar| 0 <= h < self.shape().dims().1 ==> #[trigger] self.at_xyz(x, h, z) == Voxel::Air,
            },
    {
        let mut y = self.height();
        while y > 0
            invariant
                self.wf(),
                0 <= y <= self.shape().dims().1,
                self.shape().dims().1 > 0 ==> 0 <= x < self.shape().dims().0 && 0 <= z < self.shape().dims().2,
                forall|h: Scalar| y <= h < self.shape().dims().1 ==> #[trigger] self.at_xyz(x, h, z) == Voxel::Air,
            decreases y,
        {
            y -= 1;
            let voxel = self.voxel([x, y, z]);
            if voxel != Voxel::Air {
                return Some((voxel, y));
            }
        }
        None
    }
}

impl VoxelGrid {
    /// The points of the grid in its order, as `point_iter` lists them.
    pub open spec fn points(&self) -> Seq<[Scalar; 3]> {
        Seq::new(self.shape().spec_size() as nat, |i: int| point_of(self.shape(), i))
    }

    /// Whether a point lies in the grid and holds a pickable voxel.
    pub open spec fn solid_at(&self, p: [Scalar; 3]) -> bool {
        self.shape().contains(p) && self.at(p) != Voxel::Air
    }

    /// The points that get a box collider: those of the grid, in its order,
    /// that lie in bounds and hold a pickable voxel.
    pub fn pickable_points(&self) -> (r: Vec<[Scalar; 3]>)
        requires
            self.wf(),
        ensures
            r@ == self.points().filter(|p: [Scalar; 3]| self.solid_at(p)),
    {
        let mut out: Vec<[Scalar; 3]> = Vec::new();
        let dims = self.array();
        if dims[0] == 0 || dims[1] == 0 || dims[2] == 0 {
            proof {
                let (x, y, z) = self.shape().dims();
                assert(x * y * z == 0) by (nonlinear_arith)
                    requires x == 0 || y == 0 || z == 0;
                assert(self.points() =~= Seq::<[Scalar; 3]>::empty());
                reveal(Seq::filter);
                assert(out@ =~= self.points().filter(|p: [Scalar; 3]| self.solid_at(p)));
            }
            return out;
        }
        let pts = self.point_iter();
        assert forall|i: int| 0 <= i < pts@.len() implies #[trigger] pts@[i] == self.points()[i] by {
            let d = spec_delinearize(self.shape().order(), self.shape().stride(), i);
            assert(pts@[i]@ == d);
            assert(pts@[i] =~= self.points()[i]);
        }
        assert(pts@ =~= self.points());
        let mut i: usize = 0;
        while i < pts.len()
            invariant
                self.wf(),
                i <= pts@.len(),
                pts@ == self.points(),
                out@ == pts@.subrange(0, i as int).filter(|p: [Scalar; 3]| self.solid_at(p)),
            decreases pts@.len() - i,
        {
            let p = pts[i];
            proof {
                assert(pts@.subrange(0, i + 1).drop_last() =~= pts@.subrange(0, i as int));
                reveal(Seq::filter);
            }
            if self.in_bounds(p) && self.voxel(p).pickable() {
                out.push(p);
            }
            assert(out@ =~= pts@.subrange(0, i + 1).filter(|p: [Scalar; 3]| self.solid_at(p)));
            i += 1;
        }
        assert(pts@.subrange(0, pts@.len() as int) =~= pts@);
        out
    }

    /// The decision of a ray cast: given the grid points a ray passes
    /// through, nearest first, the index of the first one that holds a
    /// pickable voxel, or `None` when none does.
    pub fn first_pickable_hit(&self, hits: &[[Scalar; 3]]) -> (r: Option<usize>)
        requires
            self.wf(),
            forall|i: int| 0 <= i < hits@.len() ==> self.shape().contains(#[trigger] hits@[i]),
        ensures
            match r {
                Some(i) => {
                    &&& i < hits@.len()
                    &&& self.at(hits@[i as int]) != Voxel::Air
                    &&& forall|j: int| 0 <= j < i ==> #[trigger] self.at(hits@[j]) == Voxel::Air
                },
                None => forall|j: int| 0 <= j < hits@.len() ==> #[trigger] self.at(hits@[j]) == Voxel::Air,
            },
    {
        let mut i: usize = 0;
        while i < hits.len()
            invariant
                self.wf(),
                i <= hits@.len(),
                forall|k: int| 0 <= k < hits@.len() ==> self.shape().contains(#[trigger] hits@[k]),
                forall|j: int| 0 <= j < i ==> #[trigger] self.at(hits@[j]) == Voxel::Air,
            decreases hits@.len() - i,
        {
            if self.voxel(hits[i]).pickable() {
                return Some(i);
            }
            i = i + 1;
        }
        None
    }
}

/// Reading after writing: after `set(p, v)` the grid holds `v` at `p` and
/// is unchanged at every other point.
pub proof fn lemma_set_then_get(before: VoxelGrid, after: VoxelGrid, p: [Scalar; 3], v: Voxel, q: [Scalar; 3])
    requires
        before.wf(),
        before.shape().contains(p),
        before.shape().contains(q),
        after.shape() == before.shape(),
        after.cells() == before.cells().update(before.shape().spec_linearize(p), v),
    ensures
        after.at(q) == if q == p { v } else { before.at(q) },
{
    lemma_delinearize_linearize(before.grid, p);
    lemma_delinearize_linearize(before.grid, q);
    if q != p && before.shape().spec_linearize(q) == before.shape().spec_linearize(p) {
        assert(q@ =~= p@);
        assert(q[0] == p[0] && q[1] == p[1] && q[2] == p[2]);
        assert(q == p);
    }
}

} // verus!
