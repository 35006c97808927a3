//! Textured chunk meshes: per face, the packed corners of each quad with
//! the quad's texture layer, tint and face.

use binary_greedy_meshing::Mesher;
use std::collections::BTreeSet;
use vstd::prelude::*;

use crate::voxel::chunk::{in_unpadded_bounds, padded_index, VoxelChunk};
use crate::voxel::mesh::binary_greedy::{corners_fit, face_vertices, indices, quad_indices, vertices_packed};
use crate::voxel::mesh::material::{Face, TextureMap};
use crate::voxel::voxel::{spec_all_voxels, spec_from_id, Voxel};

verus! {

/// The quads, per face, that greedy meshing makes of a padded voxel array
/// whose transparent voxel values are listed.
pub uninterp spec fn greedy_quads_with(voxels: Seq<u16>, transparents: Seq<u16>) -> Seq<Seq<u64>>;

/// `Mesher::new` then `Mesher::mesh` with the transparent values as a set:
/// the quads of each of the six faces, as their packed `u64`s.
#[verifier::external_body]
fn mesh_quads_with(voxels: &[u16], transparents: &[u16]) -> (r: Vec<Vec<u64>>)
    requires
        voxels@.len() == 262144,
    ensures
        r@.len() == 6,
        r.deep_view() == greedy_quads_with(voxels@, transparents@),
{
    let set: BTreeSet<u16> = transparents.iter().copied().collect();
    let mut mesher = Mesher::<62>::new();
    mesher.mesh(voxels, &set);
    mesher.quads.iter().map(|face| face.iter().map(|quad| quad.0).collect()).collect()
}

/// The meshing value of a voxel: its id if it is rendered, else 0 (empty).
pub open spec fn mesh_value(v: Voxel) -> u16 {
    if v.spec_rendered() {
        v.spec_id()
    } else {
        0
    }
}

/// The ids of the transparent voxel kinds, in id order.
pub open spec fn transparent_ids(k: int) -> Seq<u16>
    decreases k,
{
    if k <= 0 {
        Seq::empty()
    } else if spec_all_voxels()[k - 1].spec_transparent() {
        transparent_ids(k - 1).push(spec_all_voxels()[k - 1].spec_id())
    } else {
        transparent_ids(k - 1)
    }
}

/// The tint of a voxel's face: grass tops and grass sides have their own.
pub open spec fn face_color(v: Voxel, face: u8) -> u32 {
    if v == Voxel::Grass && face == 0 {
        0b011_111_001
    } else if v == Voxel::Grass {
        0b110_011_001
    } else {
        0b111_111_111
    }
}

/// The data shared by a quad's corners: texture layer, tint and face.
pub open spec fn quad_info(tm: TextureMap, face: u8, quad: u64) -> u32 {
    let v = spec_from_id((quad >> 32) as int).unwrap();
    let layer = tm.spec_texture_index(v, face_of(face)) as u32;
    (layer << 12u32) | (face_color(v, face) << 3u32) | (face as u32)
}

/// The face numbered `n`.
pub open spec fn face_of(n: u8) -> Face {
    if n == 0 {
        Face::Up
    } else if n == 1 {
        Face::Down
    } else if n == 2 {
        Face::Right
    } else if n == 3 {
        Face::Left
    } else if n == 4 {
        Face::Front
    } else {
        Face::Back
    }
}

/// The vertex data of the first `n` quads of a face: each quad of a known
/// voxel id whose corners fit gives its four corners with the quad's data.
pub open spec fn face_data(tm: TextureMap, quads: Seq<u64>, face: u8, n: int) -> Seq<(u32, u32)>
    decreases n,
{
    if n <= 0 {
        Seq::empty()
    } else {
        let q = quads[n - 1];
        let rest = face_data(tm, quads, face, n - 1);
        if (q >> 32) < 9 && corners_fit(face, q) {
            rest + face_vertices(face, q).map_values(|v: u32| (v, quad_info(tm, face, q)))
        } else {
            rest
        }
    }
}

/// The mesh of one face direction of a chunk.
pub struct FaceMesh {
    /// Packed corner and packed quad data, per vertex.
    pub voxel_data: Vec<(u32, u32)>,
    pub indices: Vec<u32>,
}

impl VoxelChunk {
    /// The padded array of meshing values: each interior voxel's id if it
    /// is rendered, 0 elsewhere.
    pub fn as_binary_voxels(&self) -> (r: Vec<u16>)
        requires
            self.wf(),
        ensures
            r@.len() == 262144,
            forall|x: int, y: int, z: int| #[trigger] in_unpadded_bounds(x, y, z)
                ==> r@[padded_index(x + 1, y + 1, z + 1)] == mesh_value(self.voxel_at(x, y, z)),
            forall|i: int| 0 <= i < 262144 && !(exists|x: int, y: int, z: int| in_unpadded_bounds(x, y, z)
                && i == #[trigger] padded_index(x + 1, y + 1, z + 1)) ==> r@[i] == 0,
    {
        let mut buffer: Vec<u16> = Vec::new();
        let mut i: usize = 0;
        while i < 262144
            invariant
                i <= 262144,
                buffer@.len() == i,
                forall|k: int| 0 <= k < i ==> buffer@[k] == 0,
            decreases 262144 - i,
        {
            buffer.push(0);
            i += 1;
        }
        let ghost zero = buffer@;
        let mut y: i32 = 0;
        while y < 62
            invariant
                self.wf(),
                0 <= y <= 62,
                buffer@.len() == 262144,
                forall|x: int, yy: int, z: int| #[trigger] in_unpadded_bounds(x, yy, z) && yy < y
                    ==> buffer@[padded_index(x + 1, yy + 1, z + 1)] == mesh_value(self.voxel_at(x, yy, z)),
                forall|k: int| 0 <= k < 262144 && !(exists|x: int, yy: int, z: int| in_unpadded_bounds(x, yy, z) && yy < y
                    && k == #[trigger] padded_index(x + 1, yy + 1, z + 1)) ==> buffer@[k] == 0,
            decreases 62 - y,
        {
            let mut x: i32 = 0;
            while x < 62
                invariant
                    self.wf(),
                    0 <= y < 62,
                    0 <= x <= 62,
                    buffer@.len() == 262144,
                    forall|xx: int, yy: int, z: int| #[trigger] in_unpadded_bounds(xx, yy, z) && (yy < y || (yy == y && xx < x))
                        ==> buffer@[padded_index(xx + 1, yy + 1, z + 1)] == mesh_value(self.voxel_at(xx, yy, z)),
                    forall|k: int| 0 <= k < 262144 && !(exists|xx: int, yy: int, z: int| in_unpadded_bounds(xx, yy, z)
                        && (yy < y || (yy == y && xx < x)) && k == #[trigger] padded_index(xx + 1, yy + 1, z + 1)) ==> buffer@[k] == 0,
                decreases 62 - x,
            {
                let mut z: i32 = 0;
                while z < 62
                    invariant
                        self.wf(),
                        0 <= y < 62,
                        0 <= x < 62,
                        0 <= z <= 62,
                        buffer@.len() == 262144,
                        forall|xx: int, yy: int, zz: int| #[trigger] in_unpadded_bounds(xx, yy, zz)
                            && (yy < y || (yy == y && xx < x) || (yy == y && xx == x && zz < z))
                            ==> buffer@[padded_index(xx + 1, yy + 1, zz + 1)] == mesh_value(self.voxel_at(xx, yy, zz)),
                        forall|k: int| 0 <= k < 262144 && !(exists|xx: int, yy: int, zz: int| in_unpadded_bounds(xx, yy, zz)
                            && (yy < y || (yy == y && xx < x) || (yy == y && xx == x && zz < z))
                            && k == #[trigger] padded_index(xx + 1, yy + 1, zz + 1)) ==> buffer@[k] == 0,
                    decreases 62 - z,
                {
                    let voxel = self.voxel([x, y, z]);
                    let value: u16 = if voxel.rendered() { voxel.id() } else { 0 };
                    let index = crate::voxel::chunk::padded::pad_linearize([x, y, z]);
                    let ghost before = buffer@;
                    buffer.set(index, value);
                    proof {
                        assert forall|xx: int, yy: int, zz: int| #[trigger] in_unpadded_bounds(xx, yy, zz)
                            && (yy < y || (yy == y && xx < x) || (yy == y && xx == x && zz < z + 1))
                            implies buffer@[padded_index(xx + 1, yy + 1, zz + 1)] == mesh_value(self.voxel_at(xx, yy, zz)) by {
                            if !(xx == x && yy == y && zz == z) && padded_index(xx + 1, yy + 1, zz + 1) == padded_index(x + 1, y + 1, z + 1) {
                                crate::voxel::voxels::lemma_padded_index_injective(xx + 1, yy + 1, zz + 1, x + 1, y + 1, z + 1);
                            }
                        }
                        assert forall|k: int| 0 <= k < 262144 && !(exists|xx: int, yy: int, zz: int| in_unpadded_bounds(xx, yy, zz)
                            && (yy < y || (yy == y && xx < x) || (yy == y && xx == x && zz < z + 1))
                            && k == #[trigger] padded_index(xx + 1, yy + 1, zz + 1)) implies buffer@[k] == 0 by {
                            assert(k != index) by {
                                if k == index {
                                    assert(in_unpadded_bounds(x as int, y as int, z as int));
                                    assert(k == padded_index(x + 1, y + 1, z + 1));
                                }
                            }
                            assert(!(exists|xx: int, yy: int, zz: int| in_unpadded_bounds(xx, yy, zz)
                                && (yy < y || (yy == y && xx < x) || (yy == y && xx == x && zz < z))
                                && k == #[trigger] padded_index(xx + 1, yy + 1, zz + 1)));
                        }
                    }
                    z += 1;
                }
                x += 1;
            }
            y += 1;
        }
        buffer
    }

    /// The mesh of each face direction: every quad greedy meshing makes of
    /// the chunk (with the transparent kinds as transparent), as its four
    /// corners with its texture layer, tint and face. Quads of an unknown
    /// id, or whose corners would leave the chunk, are skipped.
    pub fn create_face_meshes(&self, texture_map: &TextureMap, lod: usize) -> (r: Vec<FaceMesh>)
        requires
            self.wf(),
        ensures
            r@.len() == 6,
            forall|f: int| 0 <= f < 6 ==> {
                let quads = greedy_quads_with(self.as_binary_voxels_spec(), transparent_ids(9))[f];
                &&& (#[trigger] r@[f]).voxel_data@ == face_data(*texture_map, quads, f as u8, quads.len() as int)
                &&& r@[f].indices@ == (if quads.len() < 0x4000_0000 { quad_indices(quads.len() as int) } else { Seq::empty() })
            },
    {
        let voxels = self.as_binary_voxels();
        proof {
            self.lemma_binary_voxels_unique(voxels@);
        }
        let all = Voxel::iter();
        let mut transparents: Vec<u16> = Vec::new();
        let mut k: usize = 0;
        while k < all.len()
            invariant
                k <= all@.len(),
                all@ == spec_all_voxels(),
                transparents@ == transparent_ids(k as int),
            decreases all@.len() - k,
        {
            if all[k].transparent() {
                transparents.push(all[k].id());
            }
            k += 1;
        }
        let quads = mesh_quads_with(voxels.as_slice(), transparents.as_slice());
        let ghost qs = greedy_quads_with(voxels@, transparents@);
        assert(forall|f: int| 0 <= f < 6 ==> #[trigger] quads@[f]@ == qs[f]) by {
            assert forall|f: int| 0 <= f < 6 implies #[trigger] quads@[f]@ == qs[f] by {
                assert(quads.deep_view()[f] == qs[f]);
                assert(quads@[f]@ =~= quads.deep_view()[f]);
            }
        }
        let mut meshes: Vec<FaceMesh> = Vec::new();
        let mut f: usize = 0;
        while f < 6
            invariant
                f <= 6,
                quads@.len() == 6,
                forall|g: int| 0 <= g < 6 ==> #[trigger] quads@[g]@ == qs[g],
                qs == greedy_quads_with(self.as_binary_voxels_spec(), transparent_ids(9)),
                meshes@.len() == f,
                forall|g: int| 0 <= g < f ==> {
                    let qg = qs[g];
                    &&& (#[trigger] meshes@[g]).voxel_data@ == face_data(*texture_map, qg, g as u8, qg.len() as int)
                    &&& meshes@[g].indices@ == (if qg.len() < 0x4000_0000 { quad_indices(qg.len() as int) } else { Seq::empty() })
                },
            decreases 6 - f,
        {
            let fq: &Vec<u64> = &quads[f];
            let face_n: u8 = f as u8;
            let face = Face::from_index(face_n);
            let indices = if fq.len() < 0x4000_0000 { indices(fq.len()) } else { Vec::new() };
            let mut voxel_data: Vec<(u32, u32)> = Vec::new();
            let mut j: usize = 0;
            while j < fq.len()
                invariant
                    f < 6,
                    face_n == f,
                    face == face_of(face_n),
                    j <= fq@.len(),
                    fq@ == qs[f as int],
                    voxel_data@ == face_data(*texture_map, qs[f as int], face_n, j as int),
                decreases fq@.len() - j,
            {
                let quad = fq[j];
                let xyz = quad & 0x3ffff;
                let w = (quad >> 18) & 63;
                assert(w <= 63) by (bit_vector)
                    requires w == (quad >> 18) & 63;
                let fits = (!(face_n == 1 || face_n == 4) || xyz >= w) && (face_n != 2 || xyz >= 64 * w);
                let id = quad >> 32;
                let ghost before = voxel_data@;
                if id < 9 && fits {
                    let voxel = match Voxel::from_id(id as u16) {
                        Some(v) => v,
                        None => Voxel::Air,
                    };
                    assert(voxel == spec_from_id((quad >> 32) as int).unwrap());
                    let layer = texture_map.get_texture_index(voxel, face) as u32;
                    let color: u32 = match (voxel, face_n) {
                        (Voxel::Grass, 0) => 0b011_111_001,
                        (Voxel::Grass, _) => 0b110_011_001,
                        _ => 0b111_111_111,
                    };
                    let info = (layer << 12u32) | (color << 3u32) | (face_n as u32);
                    assert(info == quad_info(*texture_map, face_n, quad));
                    let vertices = vertices_packed(face_n, quad);
                    voxel_data.push((vertices[0], info));
                    voxel_data.push((vertices[1], info));
                    voxel_data.push((vertices[2], info));
                    voxel_data.push((vertices[3], info));
                    proof {
                        assert(qs[f as int][j as int] == quad);
                        assert(vertices@ == face_vertices(face_n, quad));
                        assert(voxel_data@ =~= before + face_vertices(face_n, quad).map_values(|v: u32| (v, quad_info(*texture_map, face_n, quad))));
                    }
                } else {
                    assert(qs[f as int][j as int] == quad);
                }
                j += 1;
            }
            meshes.push(FaceMesh { voxel_data, indices });
            f += 1;
        }
        meshes
    }

    /// The padded array of meshing values of this chunk.
    pub closed spec fn as_binary_voxels_spec(&self) -> Seq<u16> {
        Seq::new(262144, |i: int| {
            if exists|x: int, y: int, z: int| in_unpadded_bounds(x, y, z) && i == #[trigger] padded_index(x + 1, y + 1, z + 1) {
                let (x, y, z) = choose|x: int, y: int, z: int| in_unpadded_bounds(x, y, z) && i == #[trigger] padded_index(x + 1, y + 1, z + 1);
                mesh_value(self.voxel_at(x, y, z))
            } else {
                0
            }
        })
    }

    /// The meshing-value array `as_binary_voxels` returns is the one this
    /// chunk has.
    proof fn lemma_binary_voxels_unique(&self, b: Seq<u16>)
        requires
            b.len() == 262144,
            forall|x: int, y: int, z: int| #[trigger] in_unpadded_bounds(x, y, z)
                ==> b[padded_index(x + 1, y + 1, z + 1)] == mesh_value(self.voxel_at(x, y, z)),
            forall|i: int| 0 <= i < 262144 && !(exists|x: int, y: int, z: int| in_unpadded_bounds(x, y, z)
                && i == #[trigger] padded_index(x + 1, y + 1, z + 1)) ==> b[i] == 0,
        ensures
            b == self.as_binary_voxels_spec(),
    {
        assert forall|i: int| 0 <= i < 262144 implies b[i] == #[trigger] self.as_binary_voxels_spec()[i] by {
            if exists|x: int, y: int, z: int| in_unpadded_bounds(x, y, z) && i == #[trigger] padded_index(x + 1, y + 1, z + 1) {
                let (x, y, z) = choose|x: int, y: int, z: int| in_unpadded_bounds(x, y, z) && i == #[trigger] padded_index(x + 1, y + 1, z + 1);
                assert(b[padded_index(x + 1, y + 1, z + 1)] == mesh_value(self.voxel_at(x, y, z)));
            }
        }
        assert(b =~= self.as_binary_voxels_spec());
    }
}

} // verus!
