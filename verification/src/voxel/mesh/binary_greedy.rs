//! Binary greedy meshing of chunks: one mesh per voxel kind and one
//! collider mesh of the collidable kinds, in integer chunk coordinates.

use binary_greedy_meshing::Mesher;
use vstd::prelude::*;

use crate::math::IVec3;
use crate::voxel::chunk::VoxelChunk;
use crate::voxel::voxel::{spec_all_voxels, Voxel};
use crate::voxel::voxels::{chunk_key_in_range, Voxels};

verus! {

/// The mesher of `binary_greedy_meshing` for 62-wide chunks, with its
/// reusable buffers.
#[verifier::external_type_specification]
#[verifier::external_body]
pub struct ExMesher<const CS: usize>(Mesher<CS>);

/// The quads, per face, that greedy meshing makes of a padded voxel array
/// with its opaque and transparent column masks.
pub uninterp spec fn greedy_quads(voxels: Seq<u16>, opaque: Seq<u64>, trans: Seq<u64>) -> Seq<Seq<u64>>;

/// `(z << 12) | (y << 6) | x`: a position packed into 18 bits.
pub open spec fn packed_xyz(x: u32, y: u32, z: u32) -> u32 {
    (z << 12u32) | (y << 6u32) | x
}

/// `Vertex::pack`: texture coordinates `u` and `v` above a packed position.
pub open spec fn pack_vertex(xyz: u32, u: u32, v: u32) -> u32 {
    (v << 24u32) | (u << 18u32) | xyz
}

/// The four packed corners `Face::vertices_packed` gives for a quad on a
/// face (faces numbered up, down, right, left, front, back): the quad's
/// packed position moved by its width `w` and height `h` along the face's
/// axes, with texture coordinates from `w` and `h`.
pub open spec fn face_vertices(face: u8, quad: u64) -> Seq<u32> {
    let w = ((quad >> 18u64) & 63u64) as u32;
    let h = ((quad >> 24u64) & 63u64) as u32;
    let xyz = (quad & 0x3ffffu64) as u32;
    if face == 3 {
        seq![
            pack_vertex(xyz, h, w),
            pack_vertex((xyz + packed_xyz(0, 0, h)) as u32, 0, w),
            pack_vertex((xyz + packed_xyz(0, w, 0)) as u32, h, 0),
            pack_vertex((xyz + packed_xyz(0, w, h)) as u32, 0, 0),
        ]
    } else if face == 1 {
        seq![
            pack_vertex((xyz - packed_xyz(w, 0, 0) + packed_xyz(0, 0, h)) as u32, w, h),
            pack_vertex((xyz - packed_xyz(w, 0, 0)) as u32, w, 0),
            pack_vertex((xyz + packed_xyz(0, 0, h)) as u32, 0, h),
            pack_vertex(xyz, 0, 0),
        ]
    } else if face == 5 {
        seq![
            pack_vertex(xyz, w, h),
            pack_vertex((xyz + packed_xyz(0, h, 0)) as u32, w, 0),
            pack_vertex((xyz + packed_xyz(w, 0, 0)) as u32, 0, h),
            pack_vertex((xyz + packed_xyz(w, h, 0)) as u32, 0, 0),
        ]
    } else if face == 2 {
        seq![
            pack_vertex(xyz, 0, 0),
            pack_vertex((xyz + packed_xyz(0, 0, h)) as u32, h, 0),
            pack_vertex((xyz - packed_xyz(0, w, 0)) as u32, 0, w),
            pack_vertex((xyz + packed_xyz(0, 0, h) - packed_xyz(0, w, 0)) as u32, h, w),
        ]
    } else if face == 0 {
        seq![
            pack_vertex((xyz + packed_xyz(w, 0, h)) as u32, w, h),
            pack_vertex((xyz + packed_xyz(w, 0, 0)) as u32, w, 0),
            pack_vertex((xyz + packed_xyz(0, 0, h)) as u32, 0, h),
            pack_vertex(xyz, 0, 0),
        ]
    } else {
        seq![
            pack_vertex((xyz - packed_xyz(w, 0, 0) + packed_xyz(0, h, 0)) as u32, 0, 0),
            pack_vertex((xyz - packed_xyz(w, 0, 0)) as u32, 0, h),
            pack_vertex((xyz + packed_xyz(0, h, 0)) as u32, w, 0),
            pack_vertex(xyz, w, h),
        ]
    }
}

/// `Mesher::clear` then `Mesher::fast_mesh`: the quads of each of the six
/// faces, as their packed `u64`s. What the quads are is named, not stated;
/// that there are six lists is the shape of `Mesher::quads`.
#[verifier::external_body]
fn mesh_quads(mesher: &mut Mesher<62>, voxels: &[u16], opaque: &[u64], trans: &[u64]) -> (r: Vec<Vec<u64>>)
    requires
        voxels@.len() == 262144,
        opaque@.len() == 4096,
        trans@.len() == 4096,
    ensures
        r@.len() == 6,
        r.deep_view() == greedy_quads(voxels@, opaque@, trans@),
{
    mesher.clear();
    mesher.fast_mesh(voxels, opaque, trans);
    mesher.quads.iter().map(|face| face.iter().map(|quad| quad.0).collect()).collect()
}

/// The bits of a quad that hold its packed corner position.
pub open spec fn quad_xyz(quad: u64) -> u64 {
    quad & 0x3ffff
}

/// The width bits of a quad.
pub open spec fn quad_width(quad: u64) -> u64 {
    (quad >> 18) & 63
}

/// Whether `Face::vertices_packed` computes the corners of this quad without
/// its position going below zero: on the down and front faces the corner
/// moves back by the width in x, on the right face by the width in y.
pub open spec fn corners_fit(face: u8, quad: u64) -> bool {
    &&& face < 6
    &&& (face == 1 || face == 4) ==> quad_xyz(quad) >= quad_width(quad)
    &&& face == 2 ==> quad_xyz(quad) >= 64 * quad_width(quad)
}

/// `Face::from(face).vertices_packed(Quad(quad))`: the four packed corners
/// of a quad (position in the low 18 bits, texture coordinates above).
#[verifier::external_body]
pub(crate) fn vertices_packed(face: u8, quad: u64) -> (r: [u32; 4])
    requires
        corners_fit(face, quad),
    ensures
        r@ == face_vertices(face, quad),
{
    binary_greedy_meshing::Face::from(face).vertices_packed(binary_greedy_meshing::Quad(quad)).map(|v| v.0)
}

/// The triangle indices of `n` quads: two triangles per quad, over its four
/// corners.
pub open spec fn quad_indices(n: int) -> Seq<u32> {
    Seq::new((6 * n) as nat, |k: int| {
        let base = 4 * (k / 6);
        let corner: int = if k % 6 == 0 || k % 6 == 5 {
            2
        } else if k % 6 == 1 {
            0
        } else if k % 6 == 2 || k % 6 == 3 {
            1
        } else {
            3
        };
        (base + corner) as u32
    })
}

/// `binary_greedy_meshing::indices`: for quad `i`, the indices `4i+2, 4i,
/// 4i+1, 4i+1, 4i+3, 4i+2`.
#[verifier::external_body]
pub(crate) fn indices(num_quads: usize) -> (r: Vec<u32>)
    requires
        num_quads < 0x4000_0000,
    ensures
        r@ == quad_indices(num_quads as int),
{
    binary_greedy_meshing::indices(num_quads)
}

/// The outward normal of a face, in the order the mesher numbers them: up,
/// down, right, left, front, back.
pub open spec fn face_normal(face: int) -> (int, int, int) {
    if face == 0 {
        (0, 1, 0)
    } else if face == 1 {
        (0, -1, 0)
    } else if face == 2 {
        (1, 0, 0)
    } else if face == 3 {
        (-1, 0, 0)
    } else if face == 4 {
        (0, 0, 1)
    } else {
        (0, 0, -1)
    }
}

fn face_n(face: u8) -> (r: [i32; 3])
    requires
        face < 6,
    ensures
        r[0] == face_normal(face as int).0,
        r[1] == face_normal(face as int).1,
        r[2] == face_normal(face as int).2,
{
    if face == 0 {
        [0, 1, 0]
    } else if face == 1 {
        [0, -1, 0]
    } else if face == 2 {
        [1, 0, 0]
    } else if face == 3 {
        [-1, 0, 0]
    } else if face == 4 {
        [0, 0, 1]
    } else {
        [0, 0, -1]
    }
}

/// The corners (packed) and faces of the quads of voxel id `t` among the
/// first `n` quads of face `face`; quads whose corners do not fit are left
/// out.
pub open spec fn face_entries(quads: Seq<u64>, face: int, t: int, n: int) -> Seq<(u32, int)>
    decreases n,
{
    if n <= 0 {
        Seq::empty()
    } else {
        let q = quads[n - 1];
        let rest = face_entries(quads, face, t, n - 1);
        if (q >> 32) as int == t && corners_fit(face as u8, q) {
            rest + face_vertices(face as u8, q).map_values(|v: u32| (v, face))
        } else {
            rest
        }
    }
}

/// The entries of voxel id `t` over the first `f` faces.
pub open spec fn faces_entries(quads: Seq<Seq<u64>>, t: int, f: int) -> Seq<(u32, int)>
    decreases f,
{
    if f <= 0 {
        Seq::empty()
    } else {
        faces_entries(quads, t, f - 1) + face_entries(quads[f - 1], f - 1, t, quads[f - 1].len() as int)
    }
}

/// The corners and faces of every quad of voxel id `t`.
pub open spec fn type_entries(quads: Seq<Seq<u64>>, t: int) -> Seq<(u32, int)> {
    faces_entries(quads, t, 6)
}

/// Whether vertex positions and normals are the decoded corners and face
/// normals of `e`.
pub open spec fn decodes(pos: Seq<[u32; 3]>, nor: Seq<[i32; 3]>, e: Seq<(u32, int)>) -> bool {
    &&& pos.len() == e.len()
    &&& nor.len() == e.len()
    &&& forall|k: int| 0 <= k < e.len() ==> {
        let p = #[trigger] pos[k];
        let v = e[k].0;
        p[0] == v & 63 && p[1] == (v >> 6) & 63 && p[2] == (v >> 12) & 63
    }
    &&& forall|k: int| 0 <= k < e.len() ==> {
        let n = #[trigger] nor[k];
        let f = face_normal(e[k].1);
        n[0] == f.0 && n[1] == f.1 && n[2] == f.2
    }
}

/// The mesh of one voxel kind in one chunk: corner positions in padded
/// chunk coordinates, face normals and triangle indices.
pub struct VoxelMesh {
    pub positions: Vec<[u32; 3]>,
    pub normals: Vec<[i32; 3]>,
    pub indices: Vec<u32>,
}

/// The collision mesh: corner positions, face normals; four per quad.
pub struct ColliderMesh {
    pub positions: Vec<[i32; 3]>,
    pub normals: Vec<[i32; 3]>,
}

impl ColliderMesh {
    pub fn new() -> (r: Self)
        ensures
            r.positions@.len() == 0,
            r.normals@.len() == 0,
    {
        ColliderMesh { positions: Vec::new(), normals: Vec::new() }
    }

    pub fn clear(&mut self)
        ensures
            final(self).positions@.len() == 0,
            final(self).normals@.len() == 0,
    {
        self.positions.clear();
        self.normals.clear();
    }

    /// Append another mesh's vertices.
    pub fn combine(&mut self, other: &ColliderMesh)
        ensures
            final(self).positions@ == old(self).positions@ + other.positions@,
            final(self).normals@ == old(self).normals@ + other.normals@,
    {
        let mut i: usize = 0;
        let ghost p0 = self.positions@;
        while i < other.positions.len()
            invariant
                i <= other.positions@.len(),
                self.positions@ == p0 + other.positions@.subrange(0, i as int),
                self.normals@ == old(self).normals@,
                p0 == old(self).positions@,
            decreases other.positions@.len() - i,
        {
            self.positions.push(other.positions[i]);
            i += 1;
            assert(self.positions@ =~= p0 + other.positions@.subrange(0, i as int));
        }
        let mut i: usize = 0;
        let ghost n0 = self.normals@;
        while i < other.normals.len()
            invariant
                i <= other.normals@.len(),
                self.normals@ == n0 + other.normals@.subrange(0, i as int),
                self.positions@ == p0 + other.positions@,
                n0 == old(self).normals@,
                p0 == old(self).positions@,
            decreases other.normals@.len() - i,
        {
            self.normals.push(other.normals[i]);
            i += 1;
            assert(self.normals@ =~= n0 + other.normals@.subrange(0, i as int));
        }
        assert(other.positions@.subrange(0, other.positions@.len() as int) =~= other.positions@);
        assert(other.normals@.subrange(0, other.normals@.len() as int) =~= other.normals@);
    }

    /// Move every position by `by`.
    pub fn translate(&mut self, by: IVec3)
        requires
            forall|k: int| 0 <= k < old(self).positions@.len() ==> {
                let p = #[trigger] old(self).positions@[k];
                i32::MIN <= p[0] + by.x <= i32::MAX && i32::MIN <= p[1] + by.y <= i32::MAX
                    && i32::MIN <= p[2] + by.z <= i32::MAX
            },
        ensures
            final(self).normals@ == old(self).normals@,
            final(self).positions@.len() == old(self).positions@.len(),
            forall|k: int| 0 <= k < old(self).positions@.len() ==> {
                let p = #[trigger] old(self).positions@[k];
                let q = final(self).positions@[k];
                q[0] == p[0] + by.x && q[1] == p[1] + by.y && q[2] == p[2] + by.z
            },
    {
        let mut i: usize = 0;
        while i < self.positions.len()
            invariant
                i <= self.positions@.len(),
                self.positions@.len() == old(self).positions@.len(),
                self.normals@ == old(self).normals@,
                forall|k: int| i <= k < self.positions@.len() ==> #[trigger] self.positions@[k] == old(self).positions@[k],
                forall|k: int| 0 <= k < old(self).positions@.len() ==> {
                    let p = #[trigger] old(self).positions@[k];
                    i32::MIN <= p[0] + by.x <= i32::MAX && i32::MIN <= p[1] + by.y <= i32::MAX
                        && i32::MIN <= p[2] + by.z <= i32::MAX
                },
                forall|k: int| 0 <= k < i ==> {
                    let p = #[trigger] old(self).positions@[k];
                    let q = self.positions@[k];
                    q[0] == p[0] + by.x && q[1] == p[1] + by.y && q[2] == p[2] + by.z
                },
            decreases self.positions@.len() - i,
        {
            let p = self.positions[i];
            assert(p == old(self).positions@[i as int]);
            let q = [p[0] + by.x, p[1] + by.y, p[2] + by.z];
            self.positions.set(i, q);
            i += 1;
        }
    }

    /// The triangle indices of this mesh: two triangles per four vertices.
    pub fn indices(&self) -> (r: Vec<u32>)
        requires
            self.positions@.len() < 0x1_0000_0000,
        ensures
            r@ == quad_indices(self.positions@.len() as int / 4),
    {
        indices(self.positions.len() / 4)
    }
}


/// Whether signed vertex positions and normals are the decoded corners and
/// face normals of `e`.
pub open spec fn decodes_signed(pos: Seq<[i32; 3]>, nor: Seq<[i32; 3]>, e: Seq<(u32, int)>) -> bool {
    &&& pos.len() == e.len()
    &&& nor.len() == e.len()
    &&& forall|k: int| 0 <= k < e.len() ==> {
        let p = #[trigger] pos[k];
        let v = e[k].0;
        p[0] == v & 63 && p[1] == (v >> 6) & 63 && p[2] == (v >> 12) & 63
    }
    &&& forall|k: int| 0 <= k < e.len() ==> {
        let n = #[trigger] nor[k];
        let f = face_normal(e[k].1);
        n[0] == f.0 && n[1] == f.1 && n[2] == f.2
    }
}

/// Whether voxel id `t` gets a render mesh: its kind is rendered and it has
/// quads.
pub open spec fn has_mesh(quads: Seq<Seq<u64>>, t: int) -> bool {
    spec_all_voxels()[t].spec_rendered() && type_entries(quads, t).len() > 0
}

/// The collider entries: those of the meshed collidable kinds among the
/// first `n` voxel ids, in id order.
pub open spec fn collider_entries(quads: Seq<Seq<u64>>, n: int) -> Seq<(u32, int)>
    decreases n,
{
    if n <= 0 {
        Seq::empty()
    } else {
        let t = n - 1;
        let rest = collider_entries(quads, n - 1);
        if has_mesh(quads, t) && spec_all_voxels()[t].spec_collidable() {
            rest + type_entries(quads, t)
        } else {
            rest
        }
    }
}

/// The triangle indices of a mesh with `len` vertices (none past the range
/// the index type can count).
pub open spec fn mesh_indices(len: int) -> Seq<u32> {
    if len / 4 < 0x4000_0000 {
        quad_indices(len / 4)
    } else {
        Seq::empty()
    }
}

/// Whether `m` is the render mesh of voxel id `t`.
pub open spec fn is_type_mesh(m: Option<VoxelMesh>, quads: Seq<Seq<u64>>, t: int) -> bool {
    match m {
        Some(mesh) => has_mesh(quads, t) && decodes(mesh.positions@, mesh.normals@, type_entries(quads, t))
            && mesh.indices@ == mesh_indices(type_entries(quads, t).len() as int),
        None => !has_mesh(quads, t),
    }
}

/// Decode the corner position bits of a packed vertex.
fn decode(v: u32) -> (r: [u32; 3])
    ensures
        r[0] == v & 63 && r[1] == (v >> 6) & 63 && r[2] == (v >> 12) & 63,
{
    [v & 63, (v >> 6) & 63, (v >> 12) & 63]
}

impl VoxelChunk {
    /// Generate 1 mesh per block type for simplicity, in practice we would
    /// use a texture array and a custom shader instead. The quads of each face are decoded into corner positions (in padded
    /// chunk coordinates) and face normals per voxel id; each rendered kind
    /// with quads gets a mesh, and the collidable ones among them make up the
    /// collider mesh. Quads of an unknown id, or whose corners would leave
    /// the chunk, are skipped.
    pub fn generate_meshes(&self, mesher: &mut Mesher<62>) -> (r: (Vec<Option<VoxelMesh>>, ColliderMesh))
        requires
            self.wf(),
        ensures
            ({
                let q = greedy_quads(self.voxels@, self.opaque_mask@, self.transparent_mask@);
                &&& r.0@.len() == 9
                &&& forall|t: int| 0 <= t < 9 ==> #[trigger] is_type_mesh(r.0@[t], q, t)
                &&& decodes_signed(r.1.positions@, r.1.normals@, collider_entries(q, 9))
            }),
    {
        let quads = mesh_quads(mesher, &self.voxels, &self.opaque_mask, &self.transparent_mask);
        let ghost qs = greedy_quads(self.voxels@, self.opaque_mask@, self.transparent_mask@);
        assert(forall|f: int| 0 <= f < 6 ==> #[trigger] quads@[f]@ == qs[f]) by {
            assert forall|f: int| 0 <= f < 6 implies #[trigger] quads@[f]@ == qs[f] by {
                assert(quads.deep_view()[f] == qs[f]);
                assert(quads@[f]@ =~= quads.deep_view()[f]);
            }
        }
        let kinds: usize = Voxel::type_count();
        let mut positions: Vec<Vec<[u32; 3]>> = Vec::new();
        let mut normals: Vec<Vec<[i32; 3]>> = Vec::new();
        let mut t: usize = 0;
        while t < kinds
            invariant
                kinds == 9,
                t <= kinds,
                positions@.len() == t,
                normals@.len() == t,
                forall|u: int| 0 <= u < t ==> #[trigger] positions@[u]@.len() == 0 && normals@[u]@.len() == 0,
            decreases kinds - t,
        {
            positions.push(Vec::new());
            normals.push(Vec::new());
            t += 1;
        }
        proof {
            assert forall|u: int| 0 <= u < 9 implies #[trigger] decodes(positions@[u]@, normals@[u]@, faces_entries(qs, u, 0)) by {}
        }
        let mut f: usize = 0;
        while f < 6
            invariant
                f <= 6,
                quads@.len() == 6,
                forall|g: int| 0 <= g < 6 ==> #[trigger] quads@[g]@ == qs[g],
                positions@.len() == 9,
                normals@.len() == 9,
                forall|u: int| 0 <= u < 9 ==> #[trigger] decodes(positions@[u]@, normals@[u]@, faces_entries(qs, u, f as int)),
            decreases 6 - f,
        {
            let fq: &Vec<u64> = &quads[f];
            let face: u8 = f as u8;
            let mut j: usize = 0;
            while j < fq.len()
                invariant
                    f < 6,
                    face == f,
                    j <= fq@.len(),
                    fq@ == qs[f as int],
                    positions@.len() == 9,
                    normals@.len() == 9,
                    forall|u: int| 0 <= u < 9 ==> #[trigger] decodes(positions@[u]@, normals@[u]@,
                        faces_entries(qs, u, f as int) + face_entries(qs[f as int], f as int, u, j as int)),
                decreases fq@.len() - j,
            {
                let q = fq[j];
                let xyz = q & 0x3ffff;
                let w = (q >> 18) & 63;
                assert(w <= 63) by (bit_vector)
                    requires w == (q >> 18) & 63;
                let fits = (!(face == 1 || face == 4) || xyz >= w) && (face != 2 || xyz >= 64 * w);
                let tq = q >> 32;
                let ghost before_p = positions@;
                let ghost before_n = normals@;
                if tq < 9 && fits {
                    let t = tq as usize;
                    assert(corners_fit(face, q));
                    let verts = vertices_packed(face, q);
                    let n = face_n(face);
                    let mut pv: Vec<[u32; 3]> = Vec::new();
                    positions.set_and_swap(t, &mut pv);
                    let ghost old_pv = pv@;
                    pv.push(decode(verts[0]));
                    pv.push(decode(verts[1]));
                    pv.push(decode(verts[2]));
                    pv.push(decode(verts[3]));
                    let ghost new_pv = pv@;
                    positions.set_and_swap(t, &mut pv);
                    let mut nv: Vec<[i32; 3]> = Vec::new();
                    normals.set_and_swap(t, &mut nv);
                    let ghost old_nv = nv@;
                    nv.push(n);
                    nv.push(n);
                    nv.push(n);
                    nv.push(n);
                    let ghost new_nv = nv@;
                    normals.set_and_swap(t, &mut nv);
                    proof {
                        let add = face_vertices(face, q).map_values(|v: u32| (v, f as int));
                        assert(verts@ == face_vertices(face, q));
                        assert forall|u: int| 0 <= u < 9 implies #[trigger] decodes(positions@[u]@, normals@[u]@,
                            faces_entries(qs, u, f as int) + face_entries(qs[f as int], f as int, u, j + 1)) by {
                            let e0 = faces_entries(qs, u, f as int) + face_entries(qs[f as int], f as int, u, j as int);
                            assert(decodes(before_p[u]@, before_n[u]@, e0));
                            if u == t {
                                assert(qs[f as int][j as int] == q);
                                let e1 = faces_entries(qs, u, f as int) + face_entries(qs[f as int], f as int, u, j + 1);
                                assert(e1 =~= e0 + add);
                                assert(old_pv == before_p[u]@);
                                assert(old_nv == before_n[u]@);
                                assert(positions@[u]@ == new_pv);
                                assert(normals@[u]@ == new_nv);
                                assert(new_pv.len() == e1.len());
                                assert forall|k: int| 0 <= k < e1.len() implies {
                                    let p = #[trigger] new_pv[k];
                                    let v = e1[k].0;
                                    p[0] == v & 63 && p[1] == (v >> 6) & 63 && p[2] == (v >> 12) & 63
                                } by {
                                    if k < e0.len() {
                                        assert(new_pv[k] == old_pv[k]);
                                        assert(e1[k] == e0[k]);
                                    } else {
                                        assert(e1[k] == add[k - e0.len()]);
                                        assert(add[k - e0.len()].0 == verts@[k - e0.len()]);
                                    }
                                }
                                assert forall|k: int| 0 <= k < e1.len() implies {
                                    let nn = #[trigger] new_nv[k];
                                    let fn_ = face_normal(e1[k].1);
                                    nn[0] == fn_.0 && nn[1] == fn_.1 && nn[2] == fn_.2
                                } by {
                                    if k < e0.len() {
                                        assert(new_nv[k] == old_nv[k]);
                                        assert(e1[k] == e0[k]);
                                    } else {
                                        assert(e1[k] == add[k - e0.len()]);
                                    }
                                }
                            } else {
                                assert(qs[f as int][j as int] == q);
                                assert(positions@[u] == before_p[u]);
                                assert(normals@[u] == before_n[u]);
                            }
                        }
                    }
                } else {
                    proof {
                        assert forall|u: int| 0 <= u < 9 implies #[trigger] decodes(positions@[u]@, normals@[u]@,
                            faces_entries(qs, u, f as int) + face_entries(qs[f as int], f as int, u, j + 1)) by {
                            assert(qs[f as int][j as int] == q);
                            assert(face_entries(qs[f as int], f as int, u, j + 1) == face_entries(qs[f as int], f as int, u, j as int));
                        }
                    }
                }
                j += 1;
            }
            proof {
                assert forall|u: int| 0 <= u < 9 implies #[trigger] decodes(positions@[u]@, normals@[u]@,
                    faces_entries(qs, u, f + 1)) by {
                    assert(faces_entries(qs, u, f + 1) == faces_entries(qs, u, f as int)
                        + face_entries(qs[f as int], f as int, u, qs[f as int].len() as int));
                }
            }
            f += 1;
        }
        let all = Voxel::iter();
        let mut meshes: Vec<Option<VoxelMesh>> = Vec::new();
        let mut collider = ColliderMesh::new();
        let mut t: usize = 0;
        while t < kinds
            invariant
                kinds == 9,
                t <= kinds,
                all@ == spec_all_voxels(),
                positions@.len() == 9,
                normals@.len() == 9,
                forall|u: int| t <= u < 9 ==> #[trigger] decodes(positions@[u]@, normals@[u]@, type_entries(qs, u)),
                meshes@.len() == t,
                forall|u: int| 0 <= u < t ==> #[trigger] is_type_mesh(meshes@[u], qs, u),
                decodes_signed(collider.positions@, collider.normals@, collider_entries(qs, t as int)),
            decreases kinds - t,
        {
            let voxel = all[t];
            assert(decodes(positions@[t as int]@, normals@[t as int]@, type_entries(qs, t as int)));
            if voxel.rendered() && positions[t].len() > 0 {
                let mut pv: Vec<[u32; 3]> = Vec::new();
                positions.set_and_swap(t, &mut pv);
                let mut nv: Vec<[i32; 3]> = Vec::new();
                normals.set_and_swap(t, &mut nv);
                if voxel.collidable() {
                    let ghost cp0 = collider.positions@;
                    let ghost cn0 = collider.normals@;
                    let ghost e0 = collider_entries(qs, t as int);
                    let ghost et = type_entries(qs, t as int);
                    let mut k: usize = 0;
                    while k < pv.len()
                        invariant
                            k <= pv@.len(),
                            pv@.len() == nv@.len(),
                            decodes(pv@, nv@, et),
                            decodes_signed(cp0, cn0, e0),
                            collider.positions@.len() == cp0.len() + k,
                            collider.normals@.len() == cn0.len() + k,
                            forall|i: int| 0 <= i < cp0.len() ==> #[trigger] collider.positions@[i] == cp0[i],
                            forall|i: int| 0 <= i < cn0.len() ==> #[trigger] collider.normals@[i] == cn0[i],
                            forall|i: int| 0 <= i < k ==> {
                                let c = #[trigger] collider.positions@[cp0.len() + i];
                                let p = pv@[i];
                                c[0] == p[0] && c[1] == p[1] && c[2] == p[2]
                            },
                            forall|i: int| 0 <= i < k ==> #[trigger] collider.normals@[cn0.len() + i] == nv@[i],
                        decreases pv@.len() - k,
                    {
                        let p = pv[k];
                        assert(p == pv@[k as int]);
                        assert(p[0] < 64 && p[1] < 64 && p[2] < 64) by {
                            let v = et[k as int].0;
                            assert(v & 63 < 64 && (v >> 6) & 63 < 64 && (v >> 12) & 63 < 64) by (bit_vector);
                        }
                        collider.positions.push([p[0] as i32, p[1] as i32, p[2] as i32]);
                        collider.normals.push(nv[k]);
                        k += 1;
                    }
                    proof {
                        let e1 = collider_entries(qs, t + 1);
                        assert(e1 =~= e0 + et);
                        assert forall|i: int| 0 <= i < e1.len() implies {
                            let c = #[trigger] collider.positions@[i];
                            let v = e1[i].0;
                            c[0] == v & 63 && c[1] == (v >> 6) & 63 && c[2] == (v >> 12) & 63
                        } by {
                            if i < e0.len() {
                                assert(collider.positions@[i] == cp0[i]);
                                assert(e1[i] == e0[i]);
                            } else {
                                assert(e1[i] == et[i - e0.len()]);
                                assert(collider.positions@[cp0.len() + (i - cp0.len())] == collider.positions@[i]);
                            }
                        }
                        assert forall|i: int| 0 <= i < e1.len() implies {
                            let n = #[trigger] collider.normals@[i];
                            let fn_ = face_normal(e1[i].1);
                            n[0] == fn_.0 && n[1] == fn_.1 && n[2] == fn_.2
                        } by {
                            if i < e0.len() {
                                assert(collider.normals@[i] == cn0[i]);
                                assert(e1[i] == e0[i]);
                            } else {
                                assert(e1[i] == et[i - e0.len()]);
                                assert(collider.normals@[cn0.len() + (i - cn0.len())] == collider.normals@[i]);
                            }
                        }
                    }
                }
                let len = pv.len();
                let idx = if len / 4 < 0x4000_0000 { indices(len / 4) } else { Vec::new() };
                meshes.push(Some(VoxelMesh { positions: pv, normals: nv, indices: idx }));
            } else {
                meshes.push(None);
            }
            proof {
                assert(is_type_mesh(meshes@[t as int], qs, t as int));
                assert forall|u: int| 0 <= u < t + 1 implies #[trigger] is_type_mesh(meshes@[u], qs, u) by {
                    if u < t {
                    }
                }
            }
            t += 1;
        }
        (meshes, collider)
    }
}


/// The quads greedy meshing makes of a chunk.
pub open spec fn chunk_quads(c: VoxelChunk) -> Seq<Seq<u64>> {
    greedy_quads(c.voxels@, c.opaque_mask@, c.transparent_mask@)
}

/// The collider entries of the first `n` stored chunks, each with its chunk
/// position, in storage order.
pub open spec fn world_collider(v: Voxels, n: int) -> Seq<(u32, int, IVec3)>
    decreases n,
{
    if n <= 0 {
        Seq::empty()
    } else {
        let key = v.key_seq()[n - 1];
        world_collider(v, n - 1) + collider_entries(chunk_quads(v.chunk_of(key)), 9).map_values(
            |e: (u32, int)| (e.0, e.1, key),
        )
    }
}

/// Whether world positions and normals are the decoded corners, moved to
/// their chunk, and the face normals of `e`.
pub open spec fn decodes_world(pos: Seq<[i32; 3]>, nor: Seq<[i32; 3]>, e: Seq<(u32, int, IVec3)>) -> bool {
    &&& pos.len() == e.len()
    &&& nor.len() == e.len()
    &&& forall|k: int| 0 <= k < e.len() ==> {
        let p = #[trigger] pos[k];
        let v = e[k].0;
        let c = e[k].2;
        p[0] == (v & 63) + 62 * c.x && p[1] == ((v >> 6) & 63) + 62 * c.y && p[2] == ((v >> 12) & 63) + 62 * c.z
    }
    &&& forall|k: int| 0 <= k < e.len() ==> {
        let n = #[trigger] nor[k];
        let f = face_normal(e[k].1);
        n[0] == f.0 && n[1] == f.1 && n[2] == f.2
    }
}

impl Voxels {
    /// The meshes of every stored chunk, in storage order, and one collider
    /// mesh of all of them in world voxel coordinates.
    pub fn binary_meshes(&self, mesher: &mut Mesher<62>) -> (r: (Vec<(IVec3, Vec<Option<VoxelMesh>>)>, ColliderMesh))
        requires
            self.wf(),
        ensures
            r.0@.len() == self.key_seq().len(),
            forall|i: int| 0 <= i < r.0@.len() ==> (#[trigger] r.0@[i]).0 == self.key_seq()[i]
                && r.0@[i].1@.len() == 9
                && forall|t: int| 0 <= t < 9 ==> #[trigger] is_type_mesh(r.0@[i].1@[t],
                    chunk_quads(self.chunk_of(self.key_seq()[i])), t),
            decodes_world(r.1.positions@, r.1.normals@, world_collider(*self, self.key_seq().len() as int)),
    {
        let chunks = self.chunk_iter();
        proof {
            self.lemma_key_seq();
            assert forall|i: int| 0 <= i < self.key_seq().len() implies chunk_key_in_range(#[trigger] self.key_seq()[i]) by {
                assert(self.has_chunk(self.key_seq()[i]));
            }
        }
        let mut out: Vec<(IVec3, Vec<Option<VoxelMesh>>)> = Vec::new();
        let mut buffer = ColliderMesh::new();
        let mut k: usize = 0;
        while k < chunks.len()
            invariant
                self.wf(),
                k <= chunks@.len(),
                chunks@.len() == self.key_seq().len(),
                forall|i: int| 0 <= i < chunks@.len() ==> (#[trigger] chunks@[i]).0 == self.key_seq()[i]
                    && *chunks@[i].1 == self.chunk_of(chunks@[i].0) && chunks@[i].1.wf(),
                forall|i: int| 0 <= i < self.key_seq().len() ==> chunk_key_in_range(#[trigger] self.key_seq()[i]),
                out@.len() == k,
                forall|i: int| 0 <= i < k ==> (#[trigger] out@[i]).0 == self.key_seq()[i]
                    && out@[i].1@.len() == 9
                    && forall|t: int| 0 <= t < 9 ==> #[trigger] is_type_mesh(out@[i].1@[t],
                        chunk_quads(self.chunk_of(self.key_seq()[i])), t),
                decodes_world(buffer.positions@, buffer.normals@, world_collider(*self, k as int)),
            decreases chunks@.len() - k,
        {
            let (key, chunk) = chunks[k];
            assert(chunks@[k as int].0 == key);
            assert(chunk_key_in_range(self.key_seq()[k as int]));
            let (meshes, mut collider) = chunk.generate_meshes(mesher);
            let ghost e = collider_entries(chunk_quads(*chunk), 9);
            let off = IVec3::new(key.x * 62, key.y * 62, key.z * 62);
            proof {
                assert forall|i: int| 0 <= i < collider.positions@.len() implies {
                    let p = #[trigger] collider.positions@[i];
                    i32::MIN <= p[0] + off.x <= i32::MAX && i32::MIN <= p[1] + off.y <= i32::MAX
                        && i32::MIN <= p[2] + off.z <= i32::MAX
                } by {
                    let v = e[i].0;
                    assert(v & 63 < 64 && (v >> 6) & 63 < 64 && (v >> 12) & 63 < 64) by (bit_vector);
                }
            }
            let ghost moved_from = collider.positions@;
            collider.translate(off);
            let ghost b0p = buffer.positions@;
            let ghost b0n = buffer.normals@;
            buffer.combine(&collider);
            proof {
                let w0 = world_collider(*self, k as int);
                let add = e.map_values(|x: (u32, int)| (x.0, x.1, key));
                let w1 = world_collider(*self, k + 1);
                assert(w1 =~= w0 + add);
                assert forall|i: int| 0 <= i < w1.len() implies {
                    let p = #[trigger] buffer.positions@[i];
                    let v = w1[i].0;
                    let c = w1[i].2;
                    p[0] == (v & 63) + 62 * c.x && p[1] == ((v >> 6) & 63) + 62 * c.y && p[2] == ((v >> 12) & 63) + 62 * c.z
                } by {
                    if i < w0.len() {
                        assert(buffer.positions@[i] == b0p[i]);
                        assert(w1[i] == w0[i]);
                    } else {
                        let j = i - w0.len();
                        assert(w1[i] == add[j]);
                        assert(buffer.positions@[i] == collider.positions@[j]);
                        assert(moved_from[j] == moved_from[j]);
                    }
                }
                assert forall|i: int| 0 <= i < w1.len() implies {
                    let n = #[trigger] buffer.normals@[i];
                    let f = face_normal(w1[i].1);
                    n[0] == f.0 && n[1] == f.1 && n[2] == f.2
                } by {
                    if i < w0.len() {
                        assert(buffer.normals@[i] == b0n[i]);
                        assert(w1[i] == w0[i]);
                    } else {
                        let j = i - w0.len();
                        assert(w1[i] == add[j]);
                        assert(buffer.normals@[i] == collider.normals@[j]);
                    }
                }
            }
            out.push((key, meshes));
            k += 1;
        }
        (out, buffer)
    }
}

/// A field of six bits of a quad, starting at bit `shift`: x at 0, y at 6,
/// z at 12, width at 18 and height at 24.
pub open spec fn quad_field(quad: u64, shift: u64) -> int {
    ((quad >> shift) & 63) as int
}

/// The offset from a quad's position to corner `k` of its face, and that
/// corner's texture coordinate, for a quad of width `w` and height `h`
/// (faces in the mesher's order: up, down, right, left, front, back).
pub open spec fn corner_layout(face: int, w: int, h: int, k: int) -> ((int, int, int), (int, int)) {
    if face == 0 {
        if k == 0 { ((w, 0, h), (w, h)) } else if k == 1 { ((w, 0, 0), (w, 0)) }
        else if k == 2 { ((0, 0, h), (0, h)) } else { ((0, 0, 0), (0, 0)) }
    } else if face == 1 {
        if k == 0 { ((-w, 0, h), (w, h)) } else if k == 1 { ((-w, 0, 0), (w, 0)) }
        else if k == 2 { ((0, 0, h), (0, h)) } else { ((0, 0, 0), (0, 0)) }
    } else if face == 2 {
        if k == 0 { ((0, 0, 0), (0, 0)) } else if k == 1 { ((0, 0, h), (h, 0)) }
        else if k == 2 { ((0, -w, 0), (0, w)) } else { ((0, -w, h), (h, w)) }
    } else if face == 3 {
        if k == 0 { ((0, 0, 0), (h, w)) } else if k == 1 { ((0, 0, h), (0, w)) }
        else if k == 2 { ((0, w, 0), (h, 0)) } else { ((0, w, h), (0, 0)) }
    } else if face == 4 {
        if k == 0 { ((-w, h, 0), (0, 0)) } else if k == 1 { ((-w, 0, 0), (0, h)) }
        else if k == 2 { ((0, h, 0), (w, 0)) } else { ((0, 0, 0), (w, h)) }
    } else {
        if k == 0 { ((0, 0, 0), (w, h)) } else if k == 1 { ((0, h, 0), (w, 0)) }
        else if k == 2 { ((w, 0, 0), (0, h)) } else { ((w, h, 0), (0, 0)) }
    }
}

/// Whether `c` is corner `k` of the quad on face `face`: the quad's
/// position plus the corner's offset, with the corner's texture coordinate.
pub open spec fn is_quad_corner(c: ([i32; 3], [i32; 2]), quad: u64, face: int, k: int) -> bool {
    let w = quad_field(quad, 18);
    let h = quad_field(quad, 24);
    let (o, uv) = corner_layout(face, w, h, k);
    &&& c.0[0] == quad_field(quad, 0) + o.0
    &&& c.0[1] == quad_field(quad, 6) + o.1
    &&& c.0[2] == quad_field(quad, 12) + o.2
    &&& c.1[0] == uv.0
    &&& c.1[1] == uv.1
}

/// The four corners of a quad on a face: positions and texture
/// coordinates, in whole voxels.
pub fn pos_uvs(quad: u64, face: u8) -> (r: [([i32; 3], [i32; 2]); 4])
    requires
        face < 6,
    ensures
        forall|k: int| 0 <= k < 4 ==> is_quad_corner(#[trigger] r[k], quad, face as int, k),
{
    let x = quad & 63;
    let y = (quad >> 6) & 63;
    let z = (quad >> 12) & 63;
    let w = (quad >> 18) & 63;
    let h = (quad >> 24) & 63;
    assert(x <= 63 && y <= 63 && z <= 63 && w <= 63 && h <= 63) by (bit_vector)
        requires
            x == quad & 63,
            y == (quad >> 6) & 63,
            z == (quad >> 12) & 63,
            w == (quad >> 18) & 63,
            h == (quad >> 24) & 63,
    ;
    assert(x == quad >> 0u64 & 63) by (bit_vector)
        requires
            x == quad & 63,
    ;
    let (x, y, z, w, h) = (x as i32, y as i32, z as i32, w as i32, h as i32);
    let at = |dx: i32, dy: i32, dz: i32| -> (p: [i32; 3])
        requires
            -63 <= dx <= 63 && -63 <= dy <= 63 && -63 <= dz <= 63,
        ensures
            p[0] == x + dx && p[1] == y + dy && p[2] == z + dz,
        { [x + dx, y + dy, z + dz] };
    let r = if face == 0 {
        [(at(w, 0, h), [w, h]), (at(w, 0, 0), [w, 0]), (at(0, 0, h), [0, h]), (at(0, 0, 0), [0, 0])]
    } else if face == 1 {
        [(at(-w, 0, h), [w, h]), (at(-w, 0, 0), [w, 0]), (at(0, 0, h), [0, h]), (at(0, 0, 0), [0, 0])]
    } else if face == 2 {
        [(at(0, 0, 0), [0, 0]), (at(0, 0, h), [h, 0]), (at(0, -w, 0), [0, w]), (at(0, -w, h), [h, w])]
    } else if face == 3 {
        [(at(0, 0, 0), [h, w]), (at(0, 0, h), [0, w]), (at(0, w, 0), [h, 0]), (at(0, w, h), [0, 0])]
    } else if face == 4 {
        [(at(-w, h, 0), [0, 0]), (at(-w, 0, 0), [0, h]), (at(0, h, 0), [w, 0]), (at(0, 0, 0), [w, h])]
    } else {
        [(at(0, 0, 0), [w, h]), (at(0, h, 0), [w, 0]), (at(w, 0, 0), [0, h]), (at(w, h, 0), [0, 0])]
    };
    assert forall|k: int| 0 <= k < 4 implies is_quad_corner(#[trigger] r[k], quad, face as int, k) by {
        assert(quad_field(quad, 0) == x);
    }
    r
}

} // verus!

verus! {

/// The cross product of two vectors.
pub open spec fn cross(a: (int, int, int), b: (int, int, int)) -> (int, int, int) {
    (a.1 * b.2 - a.2 * b.1, a.2 * b.0 - a.0 * b.2, a.0 * b.1 - a.1 * b.0)
}

/// `a - b`.
pub open spec fn minus(a: (int, int, int), b: (int, int, int)) -> (int, int, int) {
    (a.0 - b.0, a.1 - b.1, a.2 - b.2)
}

/// The offset of corner `k` of a `w` by `h` quad on `face`.
pub open spec fn corner_offset(face: int, w: int, h: int, k: int) -> (int, int, int) {
    corner_layout(face, w, h, k).0
}

/// The normal that triangle `t` of a quad's indices turns towards: the
/// cross product of its second and third corners taken from its first.
pub open spec fn triangle_normal(face: int, w: int, h: int, t: int) -> (int, int, int) {
    let ix = quad_indices(1);
    let c0 = corner_offset(face, w, h, ix[3 * t] as int);
    let c1 = corner_offset(face, w, h, ix[3 * t + 1] as int);
    let c2 = corner_offset(face, w, h, ix[3 * t + 2] as int);
    cross(minus(c1, c0), minus(c2, c0))
}

/// The six face normals are the six unit axis directions, each once:
/// opposite faces (up and down, right and left, front and back) point
/// opposite ways, and up, right and front point along +y, +x and +z.
/// Both triangles of a quad on a face turn towards the face's normal: each
/// one's cross product is the normal scaled by the quad's area.
pub proof fn lemma_face_normals(w: int, h: int)
    ensures
        face_normal(0) == (0int, 1int, 0int),
        face_normal(2) == (1int, 0int, 0int),
        face_normal(4) == (0int, 0int, 1int),
        forall|f: int| 0 <= f < 3 ==> {
            let n = #[trigger] face_normal(2 * f);
            let o = face_normal(2 * f + 1);
            o == (-n.0, -n.1, -n.2)
        },
        forall|f: int, g: int| 0 <= f < 6 && 0 <= g < 6 && f != g ==> #[trigger] face_normal(f)
            != #[trigger] face_normal(g),
        forall|f: int, t: int| 0 <= f < 6 && 0 <= t < 2 ==> {
            let n = face_normal(f);
            #[trigger] triangle_normal(f, w, h, t) == (w * h * n.0, w * h * n.1, w * h * n.2)
        },
{
    let ix = quad_indices(1);
    assert(ix[0] == 2 && ix[1] == 0 && ix[2] == 1 && ix[3] == 1 && ix[4] == 3 && ix[5] == 2);
    assert forall|f: int, t: int| 0 <= f < 6 && 0 <= t < 2 implies {
        let n = face_normal(f);
        #[trigger] triangle_normal(f, w, h, t) == (w * h * n.0, w * h * n.1, w * h * n.2)
    } by {
        let n = face_normal(f);
        let tn = triangle_normal(f, w, h, t);
        assert(tn.0 == w * h * n.0 && tn.1 == w * h * n.1 && tn.2 == w * h * n.2) by (nonlinear_arith)
            requires
                tn == triangle_normal(f, w, h, t),
                n == face_normal(f),
                0 <= f < 6,
                0 <= t < 2,
                ix == quad_indices(1),
                ix[0] == 2 && ix[1] == 0 && ix[2] == 1 && ix[3] == 1 && ix[4] == 3 && ix[5] == 2;
    }
    assert forall|f: int| 0 <= f < 3 implies {
        let n = #[trigger] face_normal(2 * f);
        let o = face_normal(2 * f + 1);
        o == (-n.0, -n.1, -n.2)
    } by {
    }
}

} // verus!
