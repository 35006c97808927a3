//! XZ-stable, Y-smoothed meshing of a dense voxel grid: every vertex of the
//! lattice keeps its x and z, and drops by one in y where the four voxels
//! around it are neither all filled nor all empty. Faces are emitted for
//! the tops of filled voxels under air and for their sides against air.
//!
//! Vertex heights are whole numbers here, so positions are lattice points;
//! turning them into floating-point mesh data is left to the caller.

use vstd::prelude::*;

use crate::voxel::grid::{
    lemma_dims_in_range, lemma_linearize_delinearize, point_of, Grid, Scalar,
};
use crate::voxel::voxel_grid::{Voxel, VoxelGrid};

verus! {

/// The weight a voxel gives the vertices around it: filled voxels and
/// points outside the grid count one, air counts zero.
pub open spec fn weight(voxels: VoxelGrid, p: [Scalar; 3]) -> int {
    if voxels.shape().contains(p) {
        if voxels.at(p) == Voxel::Air {
            0
        } else {
            1
        }
    } else {
        1
    }
}

/// Whether the vertex at `p` keeps its full height: the four voxels whose
/// top corner it is (at `p`, one back in x, one back in z, and both) are
/// all filled or all empty.
pub open spec fn vertex_raised(voxels: VoxelGrid, p: [Scalar; 3]) -> bool {
    let n = weight(voxels, p) + weight(voxels, [(p[0] - 1) as i32, p[1], p[2]]) + weight(
        voxels,
        [(p[0] - 1) as i32, p[1], (p[2] - 1) as i32],
    ) + weight(voxels, [p[0], p[1], (p[2] - 1) as i32]);
    n == 4 || n == 0
}

/// The neighbour the face in direction `dir` looks at: directions 0 to 4 are
/// up (the top face), then -x, +x, -z and +z (the side faces).
pub open spec fn neighbour(dir: int, p: [Scalar; 3]) -> [Scalar; 3] {
    if dir == 0 {
        [p[0], (p[1] + 1) as i32, p[2]]
    } else if dir == 1 {
        [(p[0] - 1) as i32, p[1], p[2]]
    } else if dir == 2 {
        [(p[0] + 1) as i32, p[1], p[2]]
    } else if dir == 3 {
        [p[0], p[1], (p[2] - 1) as i32]
    } else {
        [p[0], p[1], (p[2] + 1) as i32]
    }
}

/// Whether a point holds air or lies outside the grid.
pub open spec fn open_at(voxels: VoxelGrid, q: [Scalar; 3]) -> bool {
    !voxels.shape().contains(q) || voxels.at(q) == Voxel::Air
}

/// Whether the grid point `p` gets the face in direction `dir`: a filled voxel
/// under air for the top face; for a side face, a filled voxel above the
/// bottom layer whose neighbour on that side is open.
pub open spec fn emits(voxels: VoxelGrid, dir: int, p: [Scalar; 3]) -> bool {
    if dir == 0 {
        voxels.at(p) != Voxel::Air && voxels.at(neighbour(0, p)) == Voxel::Air
    } else {
        voxels.at(p) != Voxel::Air && open_at(voxels, neighbour(dir, p)) && p[1] != 0
    }
}

/// The offset from a voxel to corner `k` of its face in direction `dir`.
pub open spec fn corner_offset(dir: int, k: int) -> (int, int, int) {
    if dir == 0 {
        if k == 0 { (0, 0, 0) } else if k == 1 { (1, 0, 0) } else if k == 2 { (1, 0, 1) } else { (0, 0, 1) }
    } else if dir == 1 {
        if k == 0 { (0, 0, 0) } else if k == 1 { (0, 0, 1) } else if k == 2 { (0, -1, 0) } else { (0, -1, 1) }
    } else if dir == 2 {
        if k == 0 { (1, 0, 0) } else if k == 1 { (1, 0, 1) } else if k == 2 { (1, -1, 0) } else { (1, -1, 1) }
    } else if dir == 3 {
        if k == 0 { (0, 0, 0) } else if k == 1 { (1, 0, 0) } else if k == 2 { (0, -1, 0) } else { (1, -1, 0) }
    } else {
        if k == 0 { (0, 0, 1) } else if k == 1 { (1, 0, 1) } else if k == 2 { (0, -1, 1) } else { (1, -1, 1) }
    }
}

/// Corner `k` of the face in direction `dir` of the voxel at `p`.
pub open spec fn corner(dir: int, p: [Scalar; 3], k: int) -> [Scalar; 3] {
    let o = corner_offset(dir, k);
    [(p[0] + o.0) as i32, (p[1] + o.1) as i32, (p[2] + o.2) as i32]
}

/// The two triangles of the face in direction `dir`, as offsets into its four
/// corners.
pub open spec fn triangle_order(dir: int) -> Seq<int> {
    if dir == 0 {
        seq![0, 2, 1, 0, 3, 2]
    } else if dir == 1 || dir == 4 {
        seq![0, 2, 3, 0, 3, 1]
    } else {
        seq![0, 3, 2, 0, 1, 3]
    }
}

/// The indices of a face whose first corner is vertex `c`.
pub open spec fn face_indices(dir: int, c: int) -> Seq<u32> {
    triangle_order(dir).map_values(|o: int| (c + o) as u32)
}

/// Whether no filled voxel lies in the top layer, so that every filled
/// voxel has a voxel above it.
pub open spec fn top_clear(voxels: VoxelGrid) -> bool {
    forall|p: [Scalar; 3]| #[trigger] voxels.shape().contains(p) && voxels.at(p) != Voxel::Air
        ==> p[1] + 1 < voxels.shape().dims().1
}

/// The positions and indices after the faces in direction `dir` of the first
/// `n` grid points (in the grid's order) are appended to `pos` and `idx`:
/// four corners, each placed by `lift`, and two triangles for each point
/// that emits a face.
pub open spec fn plane_faces(
    lift: spec_fn([Scalar; 3]) -> [Scalar; 3],
    voxels: VoxelGrid,
    dir: int,
    pos: Seq<[Scalar; 3]>,
    idx: Seq<u32>,
    n: nat,
) -> (Seq<[Scalar; 3]>, Seq<u32>)
    decreases n,
{
    if n == 0 {
        (pos, idx)
    } else {
        let prev = plane_faces(lift, voxels, dir, pos, idx, (n - 1) as nat);
        let p = voxels.points()[n - 1];
        if emits(voxels, dir, p) {
            let c = prev.0.len() as int;
            (
                prev.0 + seq![
                    lift(corner(dir, p, 0)),
                    lift(corner(dir, p, 1)),
                    lift(corner(dir, p, 2)),
                    lift(corner(dir, p, 3)),
                ],
                prev.1 + face_indices(dir, c),
            )
        } else {
            prev
        }
    }
}

/// The faces in all five directions, top faces first, appended to empty lists.
pub open spec fn all_faces(lift: spec_fn([Scalar; 3]) -> [Scalar; 3], voxels: VoxelGrid) -> (
    Seq<[Scalar; 3]>,
    Seq<u32>,
) {
    let n = voxels.points().len();
    let f0 = plane_faces(lift, voxels, 0, Seq::empty(), Seq::empty(), n);
    let f1 = plane_faces(lift, voxels, 1, f0.0, f0.1, n);
    let f2 = plane_faces(lift, voxels, 2, f1.0, f1.1, n);
    let f3 = plane_faces(lift, voxels, 3, f2.0, f2.1, n);
    plane_faces(lift, voxels, 4, f3.0, f3.1, n)
}

/// Where the smoothing of a grid puts the vertex at lattice point `q`: one
/// lower when `q` is a corner of the grid's voxels (the grid grown by one
/// along each axis) that does not keep its height.
pub open spec fn smooth_lift(voxels: VoxelGrid, q: [Scalar; 3]) -> [Scalar; 3] {
    let (x, y, z) = voxels.shape().dims();
    if 0 <= q[0] <= x && 0 <= q[1] <= y && 0 <= q[2] <= z && !vertex_raised(voxels, q) {
        [q[0], (q[1] - 1) as i32, q[2]]
    } else {
        q
    }
}

/// Lattice vertex heights over a grid: each vertex is at its full height or
/// one lower.
pub struct Vertices {
    grid: Grid,
    raised: Vec<bool>,
}

impl Vertices {
    /// The lattice the heights are kept on.
    pub closed spec fn shape(&self) -> Grid {
        self.grid
    }

    /// Whether each vertex is at full height, by linear index.
    pub closed spec fn heights(&self) -> Seq<bool> {
        self.raised@
    }

    /// A height for each point of a non-empty lattice.
    pub open spec fn wf(&self) -> bool {
        &&& self.shape().wf()
        &&& self.shape().dims().0 > 0 && self.shape().dims().1 > 0 && self.shape().dims().2 > 0
        &&& self.heights().len() == self.shape().spec_size()
    }

    /// Whether the vertex at `p` is at full height.
    pub open spec fn raised_at(&self, p: [Scalar; 3]) -> bool {
        self.heights()[self.shape().spec_linearize(p)]
    }

    /// Where the vertex at lattice point `p` ends up: one lower when its
    /// height was dropped; points off the lattice stay where they are.
    pub open spec fn lifted(&self, p: [Scalar; 3]) -> [Scalar; 3] {
        if self.shape().contains(p) && !self.raised_at(p) {
            [p[0], (p[1] - 1) as i32, p[2]]
        } else {
            p
        }
    }

    /// `lifted` as a function.
    pub open spec fn lifts(&self) -> spec_fn([Scalar; 3]) -> [Scalar; 3] {
        |q: [Scalar; 3]| self.lifted(q)
    }

    /// Full-height vertices over the lattice of a grid's voxel corners: the
    /// grid grown by one along each axis.
    pub fn from_unpadded_grid(grid: &Grid) -> (r: Self)
        requires
            grid.wf(),
            grid.dims().0 >= 0 && grid.dims().1 >= 0 && grid.dims().2 >= 0,
            grid.dims().0 < i32::MAX && grid.dims().1 < i32::MAX && grid.dims().2 < i32::MAX,
            crate::voxel::grid::dims_fit(grid.dims().0 + 1, grid.dims().1 + 1, grid.dims().2 + 1),
        ensures
            r.wf(),
            r.shape().dims() == (grid.dims().0 + 1, grid.dims().1 + 1, grid.dims().2 + 1),
            r.shape().order() == grid.order(),
            forall|i: int| 0 <= i < r.heights().len() ==> #[trigger] r.heights()[i],
    {
        let padded = grid.pad([1, 1, 1]);
        let size = padded.size();
        proof {
            let (x, y, z) = padded.dims();
            assert(x * y * z > 0) by (nonlinear_arith)
                requires x > 0, y > 0, z > 0;
        }
        let mut raised: Vec<bool> = Vec::new();
        let mut i: Scalar = 0;
        while i < size
            invariant
                0 <= i <= size,
                raised@.len() == i,
                forall|j: int| 0 <= j < i ==> #[trigger] raised@[j],
            decreases size - i,
        {
            raised.push(true);
            i += 1;
        }
        Vertices { grid: padded, raised }
    }

    /// The position of the vertex at lattice point `p`.
    pub fn weighted_vertex(&self, p: [Scalar; 3]) -> (r: [Scalar; 3])
        requires
            self.wf(),
        ensures
            r == self.lifted(p),
    {
        if self.grid.in_bounds(p) {
            proof {
                crate::voxel::grid::lemma_delinearize_linearize(self.grid, p);
                crate::voxel::grid::lemma_linear_parts(self.grid, p);
            }
            let index = self.grid.linearize(p);
            if self.raised[index as usize] {
                p
            } else {
                [p[0], p[1] - 1, p[2]]
            }
        } else {
            p
        }
    }

    /// Set each vertex's height from the four voxels whose top corner it is.
    pub fn set_vertex_heights(&mut self, voxels: &VoxelGrid)
        requires
            old(self).wf(),
            voxels.wf(),
        ensures
            final(self).wf(),
            final(self).shape() == old(self).shape(),
            forall|p: [Scalar; 3]| #[trigger] final(self).shape().contains(p)
                ==> final(self).raised_at(p) == vertex_raised(*voxels, p),
    {
        let mut k: usize = 0;
        while k < self.raised.len()
            invariant
                k <= self.raised@.len(),
                self.wf(),
                self.shape() == old(self).shape(),
            decreases self.raised@.len() - k,
        {
            self.raised.set(k, true);
            k += 1;
        }
        let points = self.grid.point_iter();
        let mut i: usize = 0;
        while i < points.len()
            invariant
                self.wf(),
                voxels.wf(),
                self.shape() == old(self).shape(),
                i <= points@.len(),
                points@.len() == self.shape().spec_size(),
                forall|j: int| 0 <= j < points@.len() ==> (#[trigger] points@[j])@
                    == crate::voxel::grid::spec_delinearize(self.shape().order(), self.shape().stride(), j),
                forall|j: int| 0 <= j < i ==> #[trigger] self.heights()[j] == vertex_raised(
                    *voxels,
                    point_of(self.shape(), j),
                ),
            decreases points@.len() - i,
        {
            let p = points[i];
            proof {
                lemma_linearize_delinearize(self.grid, i as int);
                assert(p =~= point_of(self.shape(), i as int));
                crate::voxel::grid::lemma_linear_parts(self.grid, p);
            }
            let w1 = voxel_weight(voxels, p);
            let w2 = voxel_weight(voxels, [p[0] - 1, p[1], p[2]]);
            let w4 = voxel_weight(voxels, [p[0] - 1, p[1], p[2] - 1]);
            let w3 = voxel_weight(voxels, [p[0], p[1], p[2] - 1]);
            let occupied = w1 + w2 + w3 + w4;
            let vertex_height = match occupied {
                4 => true,
                3 => false,
                2 => false,
                1 => false,
                _ => true,
            };
            let index = self.grid.linearize(p);
            self.raised.set(index as usize, vertex_height);
            i += 1;
        }
        proof {
            assert forall|p: [Scalar; 3]| #[trigger] self.shape().contains(p) implies self.raised_at(p)
                == vertex_raised(*voxels, p) by {
                crate::voxel::grid::lemma_delinearize_linearize(self.grid, p);
                let j = self.shape().spec_linearize(p);
                assert(point_of(self.shape(), j) =~= p);
            }
        }
    }

    /// Append the faces in direction `dir` for every voxel of the grid.
    #[verifier::spinoff_prover]
    #[verifier::rlimit(30)]
    fn plane_mesh(&self, voxels: &VoxelGrid, dir: u8, positions: &mut Vec<[Scalar; 3]>, indices: &mut Vec<u32>)
        requires
            self.wf(),
            voxels.wf(),
            dir < 5,
            dir == 0 ==> top_clear(*voxels),
            old(positions)@.len() + 4 * voxels.shape().spec_size() <= u32::MAX,
        ensures
            final(positions)@ == plane_faces(self.lifts(), *voxels, dir as int, old(positions)@, old(indices)@,
                voxels.points().len()).0,
            final(indices)@ == plane_faces(self.lifts(), *voxels, dir as int, old(positions)@, old(indices)@,
                voxels.points().len()).1,
            final(positions)@.len() <= old(positions)@.len() + 4 * voxels.shape().spec_size(),
    {
        let dims = voxels.array();
        if dims[0] == 0 || dims[1] == 0 || dims[2] == 0 {
            proof {
                let (x, y, z) = voxels.shape().dims();
                assert(x * y * z == 0) by (nonlinear_arith)
                    requires x == 0 || y == 0 || z == 0;
            }
            return;
        }
        let points = voxels.point_iter();
        let ghost pos0 = positions@;
        let ghost idx0 = indices@;
        proof {
            let (x, y, z) = voxels.shape().dims();
            assert(x * y * z >= 0) by (nonlinear_arith)
                requires x >= 0, y >= 0, z >= 0;
        }
        let mut i: usize = 0;
        while i < points.len()
            invariant
                self.wf(),
                voxels.wf(),
                voxels.shape().dims().0 > 0 && voxels.shape().dims().1 > 0 && voxels.shape().dims().2 > 0,
                dir < 5,
                dir == 0 ==> top_clear(*voxels),
                i <= points@.len(),
                points@.len() == voxels.shape().spec_size(),
                voxels.points().len() == voxels.shape().spec_size(),
                forall|j: int| 0 <= j < points@.len() ==> (#[trigger] points@[j])@
                    == crate::voxel::grid::spec_delinearize(voxels.shape().order(), voxels.shape().stride(), j),
                pos0.len() + 4 * voxels.shape().spec_size() <= u32::MAX,
                positions@.len() <= pos0.len() + 4 * i,
                positions@ == plane_faces(self.lifts(), *voxels, dir as int, pos0, idx0, i as nat).0,
                indices@ == plane_faces(self.lifts(), *voxels, dir as int, pos0, idx0, i as nat).1,
            decreases points@.len() - i,
        {
            let p = points[i];
            proof {
                lemma_linearize_delinearize(voxels.shape(), i as int);
                assert(p =~= point_of(voxels.shape(), i as int));
                assert(voxels.points()[i as int] == p);
                lemma_dims_in_range(voxels.shape());
            }
            if face_emitted(voxels, dir, p) {
                let v1 = self.weighted_vertex(face_corner(dir, p, 0));
                let v2 = self.weighted_vertex(face_corner(dir, p, 1));
                let v3 = self.weighted_vertex(face_corner(dir, p, 2));
                let v4 = self.weighted_vertex(face_corner(dir, p, 3));
                assert(v1 == (self.lifts())(corner(dir as int, p, 0)));
                assert(v2 == (self.lifts())(corner(dir as int, p, 1)));
                assert(v3 == (self.lifts())(corner(dir as int, p, 2)));
                assert(v4 == (self.lifts())(corner(dir as int, p, 3)));
                let ghost before = positions@;
                let ghost before_idx = indices@;
                let current = positions.len() as u32;
                positions.push(v1);
                positions.push(v2);
                positions.push(v3);
                positions.push(v4);
                let tri = face_triangles(dir, current);
                let mut t: usize = 0;
                while t < 6
                    invariant
                        t <= 6,
                        tri@.len() == 6,
                        indices@ == before_idx + tri@.subrange(0, t as int),
                    decreases 6 - t,
                {
                    indices.push(tri[t]);
                    t += 1;
                }
                proof {
                    assert(tri@.subrange(0, 6) =~= tri@);
                    assert(positions@ =~= before + seq![v1, v2, v3, v4]);
                }
            }
            i += 1;
        }
    }

    /// All faces of the grid with these vertex heights: top faces, then the
    /// sides towards -x, +x, -z and +z.
    pub fn mesh(&self, voxels: &VoxelGrid) -> (r: (Vec<[Scalar; 3]>, Vec<u32>))
        requires
            self.wf(),
            voxels.wf(),
            top_clear(*voxels),
            20 * voxels.shape().spec_size() <= u32::MAX,
        ensures
            (r.0@, r.1@) == all_faces(self.lifts(), *voxels),
    {
        let mut positions: Vec<[Scalar; 3]> = Vec::new();
        let mut indices: Vec<u32> = Vec::new();
        self.xz_plane_mesh(voxels, &mut positions, &mut indices);
        self.neg_zy_plane_mesh(voxels, &mut positions, &mut indices);
        self.pos_zy_plane_mesh(voxels, &mut positions, &mut indices);
        self.neg_xy_plane_mesh(voxels, &mut positions, &mut indices);
        self.pos_xy_plane_mesh(voxels, &mut positions, &mut indices);
        (positions, indices)
    }

    /// Append the top faces: one for each filled voxel under air.
    pub fn xz_plane_mesh(&self, voxels: &VoxelGrid, positions: &mut Vec<[Scalar; 3]>, indices: &mut Vec<u32>)
        requires
            self.wf(),
            voxels.wf(),
            top_clear(*voxels),
            old(positions)@.len() + 4 * voxels.shape().spec_size() <= u32::MAX,
        ensures
            final(positions)@ == plane_faces(self.lifts(), *voxels, 0, old(positions)@, old(indices)@,
                voxels.points().len()).0,
            final(indices)@ == plane_faces(self.lifts(), *voxels, 0, old(positions)@, old(indices)@,
                voxels.points().len()).1,
            final(positions)@.len() <= old(positions)@.len() + 4 * voxels.shape().spec_size(),
    {
        self.plane_mesh(voxels, 0, positions, indices)
    }

    /// Append the side faces towards -x.
    pub fn neg_zy_plane_mesh(&self, voxels: &VoxelGrid, positions: &mut Vec<[Scalar; 3]>, indices: &mut Vec<u32>)
        requires
            self.wf(),
            voxels.wf(),
            old(positions)@.len() + 4 * voxels.shape().spec_size() <= u32::MAX,
        ensures
            final(positions)@ == plane_faces(self.lifts(), *voxels, 1, old(positions)@, old(indices)@,
                voxels.points().len()).0,
            final(indices)@ == plane_faces(self.lifts(), *voxels, 1, old(positions)@, old(indices)@,
                voxels.points().len()).1,
            final(positions)@.len() <= old(positions)@.len() + 4 * voxels.shape().spec_size(),
    {
        self.plane_mesh(voxels, 1, positions, indices)
    }

    /// Append the side faces towards +x.
    pub fn pos_zy_plane_mesh(&self, voxels: &VoxelGrid, positions: &mut Vec<[Scalar; 3]>, indices: &mut Vec<u32>)
        requires
            self.wf(),
            voxels.wf(),
            old(positions)@.len() + 4 * voxels.shape().spec_size() <= u32::MAX,
        ensures
            final(positions)@ == plane_faces(self.lifts(), *voxels, 2, old(positions)@, old(indices)@,
                voxels.points().len()).0,
            final(indices)@ == plane_faces(self.lifts(), *voxels, 2, old(positions)@, old(indices)@,
                voxels.points().len()).1,
            final(positions)@.len() <= old(positions)@.len() + 4 * voxels.shape().spec_size(),
    {
        self.plane_mesh(voxels, 2, positions, indices)
    }

    /// Append the side faces towards -z.
    pub fn neg_xy_plane_mesh(&self, voxels: &VoxelGrid, positions: &mut Vec<[Scalar; 3]>, indices: &mut Vec<u32>)
        requires
            self.wf(),
            voxels.wf(),
            old(positions)@.len() + 4 * voxels.shape().spec_size() <= u32::MAX,
        ensures
            final(positions)@ == plane_faces(self.lifts(), *voxels, 3, old(positions)@, old(indices)@,
                voxels.points().len()).0,
            final(indices)@ == plane_faces(self.lifts(), *voxels, 3, old(positions)@, old(indices)@,
                voxels.points().len()).1,
            final(positions)@.len() <= old(positions)@.len() + 4 * voxels.shape().spec_size(),
    {
        self.plane_mesh(voxels, 3, positions, indices)
    }

    /// Append the side faces towards +z.
    pub fn pos_xy_plane_mesh(&self, voxels: &VoxelGrid, positions: &mut Vec<[Scalar; 3]>, indices: &mut Vec<u32>)
        requires
            self.wf(),
            voxels.wf(),
            old(positions)@.len() + 4 * voxels.shape().spec_size() <= u32::MAX,
        ensures
            final(positions)@ == plane_faces(self.lifts(), *voxels, 4, old(positions)@, old(indices)@,
                voxels.points().len()).0,
            final(indices)@ == plane_faces(self.lifts(), *voxels, 4, old(positions)@, old(indices)@,
                voxels.points().len()).1,
            final(positions)@.len() <= old(positions)@.len() + 4 * voxels.shape().spec_size(),
    {
        self.plane_mesh(voxels, 4, positions, indices)
    }
}

/// Mesh a grid: vertex heights over its voxel corners, set from the voxels,
/// then all faces.
pub fn grid_to_mesh(voxels: &VoxelGrid) -> (r: (Vec<[Scalar; 3]>, Vec<u32>))
    requires
        voxels.wf(),
        voxels.shape().dims().0 < i32::MAX && voxels.shape().dims().1 < i32::MAX && voxels.shape().dims().2 < i32::MAX,
        crate::voxel::grid::dims_fit(voxels.shape().dims().0 + 1, voxels.shape().dims().1 + 1, voxels.shape().dims().2 + 1),
        top_clear(*voxels),
        20 * voxels.shape().spec_size() <= u32::MAX,
    ensures
        (r.0@, r.1@) == all_faces(|q: [Scalar; 3]| smooth_lift(*voxels, q), *voxels),
{
    let mut vertices = Vertices::from_unpadded_grid(voxels.grid());
    vertices.set_vertex_heights(voxels);
    proof {
        assert(vertices.lifts() =~= (|q: [Scalar; 3]| smooth_lift(*voxels, q)));
    }
    vertices.mesh(voxels)
}

/// The weight of the voxel at `p`.
fn voxel_weight(voxels: &VoxelGrid, p: [Scalar; 3]) -> (r: u8)
    requires
        voxels.wf(),
    ensures
        r == weight(*voxels, p),
{
    if voxels.in_bounds(p) {
        match voxels.voxel(p) {
            Voxel::Air => 0,
            _ => 1,
        }
    } else {
        1
    }
}

/// Whether the grid point `p` gets the face in direction `dir`.
fn face_emitted(voxels: &VoxelGrid, dir: u8, p: [Scalar; 3]) -> (r: bool)
    requires
        voxels.wf(),
        voxels.shape().contains(p),
        dir < 5,
        dir == 0 ==> top_clear(*voxels),
    ensures
        r == emits(*voxels, dir as int, p),
{
    proof {
        lemma_dims_in_range(voxels.shape());
    }
    if voxels.voxel(p) == Voxel::Air {
        return false;
    }
    if dir == 0 {
        return voxels.voxel([p[0], p[1] + 1, p[2]]) == Voxel::Air;
    }
    let adjacent = match dir {
        1 => [p[0] - 1, p[1], p[2]],
        2 => [p[0] + 1, p[1], p[2]],
        3 => [p[0], p[1], p[2] - 1],
        _ => [p[0], p[1], p[2] + 1],
    };
    assert(adjacent == neighbour(dir as int, p));
    let open = match voxels.get_voxel(adjacent) {
        Some(Voxel::Air) | None => true,
        _ => false,
    };
    open && p[1] != 0
}

/// Corner `k` of the face in direction `dir` of the voxel at `p`.
fn face_corner(dir: u8, p: [Scalar; 3], k: u8) -> (r: [Scalar; 3])
    requires
        dir < 5,
        k < 4,
        0 <= p[0] < i32::MAX && 0 <= p[1] < i32::MAX && 0 <= p[2] < i32::MAX,
        dir != 0 ==> p[1] >= 1,
    ensures
        r == corner(dir as int, p, k as int),
{
    let (dx, dy, dz): (i32, i32, i32) = match dir {
        0 => match k {
            0 => (0, 0, 0),
            1 => (1, 0, 0),
            2 => (1, 0, 1),
            _ => (0, 0, 1),
        },
        1 => match k {
            0 => (0, 0, 0),
            1 => (0, 0, 1),
            2 => (0, -1, 0),
            _ => (0, -1, 1),
        },
        2 => match k {
            0 => (1, 0, 0),
            1 => (1, 0, 1),
            2 => (1, -1, 0),
            _ => (1, -1, 1),
        },
        3 => match k {
            0 => (0, 0, 0),
            1 => (1, 0, 0),
            2 => (0, -1, 0),
            _ => (1, -1, 0),
        },
        _ => match k {
            0 => (0, 0, 1),
            1 => (1, 0, 1),
            2 => (0, -1, 1),
            _ => (1, -1, 1),
        },
    };
    let r = [p[0] + dx, p[1] + dy, p[2] + dz];
    assert(r =~= corner(dir as int, p, k as int));
    r
}

/// The indices of the face in direction `dir` whose first corner is vertex `c`.
fn face_triangles(dir: u8, c: u32) -> (r: Vec<u32>)
    requires
        c as int + 3 <= u32::MAX,
    ensures
        r@ == face_indices(dir as int, c as int),
{
    let r = if dir == 0 {
        vec![c, c + 2, c + 1, c, c + 3, c + 2]
    } else if dir == 1 || dir == 4 {
        vec![c, c + 2, c + 3, c, c + 3, c + 1]
    } else {
        vec![c, c + 3, c + 2, c, c + 1, c + 3]
    };
    assert(r@ =~= face_indices(dir as int, c as int));
    r
}

} // verus!
