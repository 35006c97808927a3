//! The chunk a voxel grid starts with: a base layer, dirt up to ground
//! level, and grass on top of the dirt.

use vstd::prelude::*;

use crate::voxel::chunk::{in_unpadded_bounds, padded_index, spec_padded_len, Scalar, VoxelChunk};
use crate::voxel::voxel::{spec_from_id, Voxel};

verus! {

/// The padded coordinates of a linear padded index: x, y and z.
pub open spec fn padded_point(i: int) -> (int, int, int) {
    ((i / 64) % 64, i / 4096, i % 64)
}

/// Whether linear padded index `i` is an interior point whose (unpadded)
/// height lies in `y0..y1`.
pub open spec fn in_slab(i: int, y0: int, y1: int) -> bool {
    let (x, y, z) = padded_point(i);
    1 <= x <= 62 && 1 <= z <= 62 && y0 + 1 <= y < y1 + 1 && y <= 62
}

/// The voxel of the starting chunk at interior height `y`.
pub open spec fn ground_voxel(y: int) -> Voxel {
    if y == 0 {
        Voxel::Base
    } else if 29 <= y < 31 {
        Voxel::Grass
    } else if y < 31 {
        Voxel::Dirt
    } else {
        Voxel::Air
    }
}

/// Padded coordinates and linear padded indices correspond one to one.
proof fn lemma_padded_point(x: int, y: int, z: int)
    requires
        0 <= x < 64 && 0 <= y < 64 && 0 <= z < 64,
    ensures
        0 <= padded_index(x, y, z) < 262144,
        padded_point(padded_index(x, y, z)) == (x, y, z),
{
    let i = padded_index(x, y, z);
    assert(i == z + x * 64 + y * 4096);
    assert(i % 64 == z && i / 64 == x + y * 64) by (nonlinear_arith)
        requires i == z + x * 64 + y * 4096, 0 <= z < 64, 0 <= x < 64, 0 <= y < 64;
    assert((x + y * 64) % 64 == x) by (nonlinear_arith)
        requires 0 <= x < 64, 0 <= y;
    assert(i / 4096 == y) by (nonlinear_arith)
        requires i == z + x * 64 + y * 4096, 0 <= z < 64, 0 <= x < 64, 0 <= y < 64;
}

/// Set `voxel` at every interior point with height in `y0..y1`, in x, then
/// z, then y order.
fn fill_layers(chunk: &mut VoxelChunk, y0: Scalar, y1: Scalar, voxel: Voxel)
    requires
        old(chunk).wf(),
        old(chunk).health_map() == Map::<(i32, i32, i32), i16>::empty(),
        0 <= y0 <= y1 <= 62,
    ensures
        final(chunk).wf(),
        final(chunk).health_map() == Map::<(i32, i32, i32), i16>::empty(),
        forall|i: int| 0 <= i < spec_padded_len() ==> #[trigger] final(chunk).voxels@[i] == if in_slab(i, y0 as int, y1 as int) {
            voxel.spec_id()
        } else {
            old(chunk).voxels@[i]
        },
{
    let ghost start = chunk.voxels@;
    let mut x: Scalar = 0;
    while x < 62
        invariant
            0 <= x <= 62,
            0 <= y0 <= y1 <= 62,
            chunk.wf(),
            chunk.health_map() == Map::<(i32, i32, i32), i16>::empty(),
            start.len() == spec_padded_len(),
            forall|i: int| 0 <= i < spec_padded_len() ==> #[trigger] chunk.voxels@[i] == if in_slab(i, y0 as int, y1 as int)
                && padded_point(i).0 - 1 < x {
                voxel.spec_id()
            } else {
                start[i]
            },
        decreases 62 - x,
    {
        let mut z: Scalar = 0;
        while z < 62
            invariant
                0 <= x < 62,
                0 <= z <= 62,
                0 <= y0 <= y1 <= 62,
                chunk.wf(),
                chunk.health_map() == Map::<(i32, i32, i32), i16>::empty(),
                start.len() == spec_padded_len(),
                forall|i: int| 0 <= i < spec_padded_len() ==> #[trigger] chunk.voxels@[i] == if in_slab(i, y0 as int, y1 as int)
                    && (padded_point(i).0 - 1 < x || (padded_point(i).0 - 1 == x && padded_point(i).2 - 1 < z)) {
                    voxel.spec_id()
                } else {
                    start[i]
                },
            decreases 62 - z,
        {
            let mut y: Scalar = y0;
            while y < y1
                invariant
                    0 <= x < 62,
                    0 <= z < 62,
                    0 <= y0 <= y <= y1 <= 62,
                    chunk.wf(),
                    chunk.health_map() == Map::<(i32, i32, i32), i16>::empty(),
                    start.len() == spec_padded_len(),
                    forall|i: int| 0 <= i < spec_padded_len() ==> #[trigger] chunk.voxels@[i] == if in_slab(i, y0 as int, y1 as int)
                        && (padded_point(i).0 - 1 < x || (padded_point(i).0 - 1 == x && (padded_point(i).2 - 1 < z
                        || (padded_point(i).2 - 1 == z && padded_point(i).1 - 1 < y)))) {
                        voxel.spec_id()
                    } else {
                        start[i]
                    },
                decreases y1 - y,
            {
                let ghost before = chunk.voxels@;
                chunk.set([x, y, z], voxel);
                proof {
                    let j = padded_index(x + 1, y + 1, z + 1);
                    lemma_padded_point(x + 1, y + 1, z + 1);
                    assert(chunk.health_map() =~= Map::<(i32, i32, i32), i16>::empty());
                    assert forall|i: int| 0 <= i < spec_padded_len() implies #[trigger] chunk.voxels@[i] == if in_slab(
                        i,
                        y0 as int,
                        y1 as int,
                    ) && (padded_point(i).0 - 1 < x || (padded_point(i).0 - 1 == x && (padded_point(i).2 - 1 < z
                        || (padded_point(i).2 - 1 == z && padded_point(i).1 - 1 < y + 1)))) {
                        voxel.spec_id()
                    } else {
                        start[i]
                    } by {
                        if i != j {
                            let (px, py, pz) = padded_point(i);
                            assert(0 <= px < 64 && 0 <= pz < 64 && 0 <= py < 64) by (nonlinear_arith)
                                requires 0 <= i < 262144, px == (i / 64) % 64, py == i / 4096, pz == i % 64;
                            lemma_padded_point(px, py, pz);
                            assert(padded_index(px, py, pz) == i) by (nonlinear_arith)
                                requires 0 <= i < 262144, px == (i / 64) % 64, py == i / 4096, pz == i % 64,
                                    padded_index(px, py, pz) == pz + px * 64 + py * 4096;
                            assert(!(px == x + 1 && py == y + 1 && pz == z + 1));
                        }
                    }
                }
                y += 1;
            }
            z += 1;
        }
        x += 1;
    }
}

/// The chunk a voxel grid starts with: base at the bottom, grass in the two
/// layers below ground level, dirt between, air above; the padding stays
/// air.
pub fn spawn_voxel_grid() -> (r: VoxelChunk)
    ensures
        r.wf(),
        forall|x: int, y: int, z: int| #[trigger] in_unpadded_bounds(x, y, z) ==> r.voxel_at(x, y, z) == ground_voxel(y),
        forall|i: int| 0 <= i < spec_padded_len() && !in_slab(i, 0, 62) ==> #[trigger] r.voxels@[i] == 0,
{
    let mut grid = VoxelChunk::new();
    let ground_level = grid.ground_level();
    fill_layers(&mut grid, 0, ground_level, Voxel::Dirt);
    fill_layers(&mut grid, ground_level - 2, ground_level, Voxel::Grass);
    fill_layers(&mut grid, 0, 1, Voxel::Base);
    proof {
        assert forall|x: int, y: int, z: int| #[trigger] in_unpadded_bounds(x, y, z) implies grid.voxel_at(x, y, z)
            == ground_voxel(y) by {
            lemma_padded_point(x + 1, y + 1, z + 1);
        }
    }
    grid
}

} // verus!
