use std::collections::BTreeSet;

use arch::math::IVec3;
use arch::voxel::chunk::{padded, unpadded, Scalar, VoxelChunk};
use arch::voxel::voxel::Voxel;
use arch::voxel::voxels::Voxels;

fn ivec3(x: i32, y: i32, z: i32) -> IVec3 {
    IVec3::new(x, y, z)
}

#[test]
fn create_chunk() {
    // if this fails, probably allocated too much to stack
    VoxelChunk::new();
}

#[test]
fn set_chunk_voxel() {
    let mut chunk = VoxelChunk::new();
    chunk.set([0, 0, 0], Voxel::Dirt);
    assert_eq!(chunk.voxel([0, 0, 0]), Voxel::Dirt);
    chunk.set([0, 0, 0], Voxel::Water);
    assert_eq!(chunk.voxel([0, 0, 0]), Voxel::Water);
}

#[test]
fn linearize() {
    let sanity = |point| unpadded::delinearize(unpadded::linearize(point));
    assert_eq!(sanity([1, 1, 1]), [1, 1, 1]);
    assert_eq!(sanity([61, 5, 38]), [61, 5, 38]);
    assert_eq!(sanity([0, 0, 0]), [0, 0, 0]);
}

#[test]
fn pad_linearize() {
    let sanity = |point| padded::delinearize(padded::linearize(point));
    assert_eq!(sanity([1, 1, 1]), [1, 1, 1]);
    assert_eq!(sanity([63, 5, 38]), [63, 5, 38]);
    assert_eq!(sanity([0, 0, 0]), [0, 0, 0]);
}

#[test]
fn in_chunk_bounds() {
    let chunk = VoxelChunk::new();
    assert!(chunk.in_chunk_bounds(ivec3(0, 0, 0)));
    assert!(chunk.in_chunk_bounds(ivec3(4, 4, 4)));

    assert!(!chunk.in_chunk_bounds(ivec3(62, 62, 62)));
    assert!(chunk.in_chunk_bounds(ivec3(61, 61, 61)));

    assert!(!chunk.in_chunk_bounds(ivec3(62, 0, 0)));
    assert!(!chunk.in_chunk_bounds(ivec3(0, 62, 0)));
    assert!(!chunk.in_chunk_bounds(ivec3(0, 0, 62)));

    assert!(chunk.in_chunk_bounds(ivec3(61, 0, 0)));
    assert!(chunk.in_chunk_bounds(ivec3(0, 61, 0)));
    assert!(chunk.in_chunk_bounds(ivec3(0, 0, 61)));

    assert!(!chunk.in_chunk_bounds(ivec3(-1, 0, 0)));
    assert!(!chunk.in_chunk_bounds(ivec3(0, -1, 0)));
    assert!(!chunk.in_chunk_bounds(ivec3(0, 0, -1)));
}

#[test]
fn point_iter() {
    let chunk = VoxelChunk::new();
    let points = chunk.point_iter();
    let mut iter = points.into_iter();
    assert_eq!(iter.next(), Some([0, 0, 0]));
    assert_eq!(iter.next(), Some([1, 0, 0]));
    for _ in 0..60 {
        iter.next();
    }
    assert_eq!(iter.next(), Some([0, 0, 1]));
    assert_eq!(iter.last(), Some([unpadded::SIZE as Scalar - 1; 3]));
}

#[test]
fn masks() {
    let mut chunk = VoxelChunk::new();
    let points = [[0, 0, 0], [1, 0, 0], [5, 2, 1], [9, 60, 3]];
    for point in points {
        let padded_point = point.map(|p| p + 1);
        let mask_index = padded::linearize(padded_point) / padded::SIZE;
        let mask_bit = padded::linearize(padded_point) % padded::SIZE;

        chunk.set(point, Voxel::Dirt);
        println!("{:?}:{:?} = [{:?}] [{:?}]", mask_index, mask_bit, chunk.opaque_mask[mask_index], 1u64 << mask_bit);
        assert_eq!(chunk.opaque_mask[mask_index] & (1 << mask_bit), 1 << mask_bit);
        assert_eq!(chunk.transparent_mask[mask_index] & (1 << mask_bit), 0);

        chunk.set(point, Voxel::Water);
        println!("{:?}:{:?} = arr {:?} mask {:?}", mask_index, mask_bit, chunk.opaque_mask[mask_index], 1u64 << mask_bit);
        assert_eq!(chunk.opaque_mask[mask_index] & (1 << mask_bit), 0);
        assert_eq!(chunk.transparent_mask[mask_index] & (1 << mask_bit), 1 << mask_bit);

        chunk.set(point, Voxel::Dirt);
        println!("{:?}:{:?} = [{:?}] [{:?}]", mask_index, mask_bit, chunk.opaque_mask[mask_index], 1u64 << mask_bit);
        assert_eq!(chunk.opaque_mask[mask_index] & (1 << mask_bit), 1 << mask_bit);
        assert_eq!(chunk.transparent_mask[mask_index] & (1 << mask_bit), 0);
    }

    assert_eq!(chunk.transparent_mask.iter().sum::<u64>(), 0);

    for [x, y, z] in points {
        println!(
            "{:?} ? {:?}",
            binary_greedy_meshing::pad_linearize::<62>(x as usize, y as usize, z as usize),
            padded::pad_linearize([x, y, z])
        );
    }

    let transparents = Voxel::iter().into_iter().filter(|v| v.transparent()).map(|v| v.id()).collect::<BTreeSet<_>>();
    let mask = binary_greedy_meshing::compute_opaque_mask::<62>(&chunk.voxels, &transparents);
    for index in 0..binary_greedy_meshing::Mesher::<62>::CS_P2 {
        assert_eq!(chunk.opaque_mask[index], mask[index]);
    }
}

#[test]
fn chunk_find_chunk() {
    assert_eq!(Voxels::find_chunk(ivec3(0, 0, 0)), ivec3(0, 0, 0));
    assert_eq!(Voxels::find_chunk(ivec3(63, 0, 0)), ivec3(1, 0, 0));
    assert_eq!(Voxels::find_chunk(ivec3(-1, 0, 0)), ivec3(-1, 0, 0));
    assert_eq!(Voxels::find_chunk(ivec3(-62, 0, 0)), ivec3(-1, 0, 0));
    assert_eq!(Voxels::find_chunk(ivec3(-63, 0, 0)), ivec3(-2, 0, 0));
}

#[test]
fn chunk_find_chunk_relative() {
    assert_eq!(Voxels::relative_point(ivec3(0, 0, 0), ivec3(0, 0, 0)), ivec3(0, 0, 0));
    assert_eq!(Voxels::relative_point(ivec3(0, 0, 0), ivec3(61, 0, 0)), ivec3(61, 0, 0));
    assert_eq!(Voxels::relative_point(ivec3(0, 0, 0), ivec3(62, 0, 0)), ivec3(62, 0, 0)); // oob
    assert_eq!(Voxels::relative_point(ivec3(0, 0, 0), ivec3(63, 0, 0)), ivec3(63, 0, 0)); // oob
    assert_eq!(Voxels::relative_point(ivec3(1, 0, 0), ivec3(62, 0, 0)), ivec3(0, 0, 0));
    assert_eq!(Voxels::relative_point(ivec3(1, 0, 0), ivec3(63, 0, 0)), ivec3(1, 0, 0));

    // negative handling
    assert_eq!(Voxels::relative_point(ivec3(0, 0, 0), ivec3(-1, -1, -1)), ivec3(-1, -1, -1));
    assert_eq!(Voxels::relative_point(ivec3(-1, -1, -1), ivec3(0, 0, 0)), ivec3(62, 62, 62)); // oob
    assert_eq!(Voxels::relative_point(ivec3(-1, -1, -1), ivec3(-1, -1, -1)), ivec3(61, 61, 61));
    assert_eq!(Voxels::relative_point(ivec3(-1, -1, -1), ivec3(-62, -62, -62)), ivec3(0, 0, 0));
}

#[test]
fn chunk_find_chunk_relative_unpadded() {
    assert_eq!(Voxels::relative_point_with_boundary(ivec3(0, 0, 0), ivec3(0, 0, 0)), ivec3(1, 1, 1));
    assert_eq!(Voxels::relative_point_with_boundary(ivec3(0, 0, 0), ivec3(62, 0, 0)), ivec3(63, 1, 1)); // oob
    assert_eq!(Voxels::relative_point_with_boundary(ivec3(0, 0, 0), ivec3(63, 0, 0)), ivec3(64, 1, 1)); // oob
    assert_eq!(Voxels::relative_point_with_boundary(ivec3(1, 0, 0), ivec3(61, 0, 0)), ivec3(0, 1, 1));
    assert_eq!(Voxels::relative_point_with_boundary(ivec3(1, 0, 0), ivec3(62, 0, 0)), ivec3(1, 1, 1));

    assert_eq!(Voxels::relative_point_with_boundary(ivec3(0, 0, 0), ivec3(61, 61, 61)), ivec3(62, 62, 62));
    assert_eq!(Voxels::relative_point_with_boundary(ivec3(1, 1, 1), ivec3(61, 61, 61)), ivec3(0, 0, 0));

    // negative handling
    assert_eq!(Voxels::relative_point_with_boundary(ivec3(0, 0, 0), ivec3(-1, -1, -1)), ivec3(0, 0, 0));
    assert_eq!(Voxels::relative_point_with_boundary(ivec3(-1, -1, -1), ivec3(0, 0, 0)), ivec3(63, 63, 63));
    assert_eq!(Voxels::relative_point_with_boundary(ivec3(-1, -1, -1), ivec3(-1, -1, -1)), ivec3(62, 62, 62));
    assert_eq!(Voxels::relative_point_with_boundary(ivec3(-1, -1, -1), ivec3(-62, -62, -62)), ivec3(1, 1, 1));
    assert_eq!(Voxels::relative_point_with_boundary(ivec3(-1, -1, -1), ivec3(-63, -63, -63)), ivec3(0, 0, 0));
}

#[test]
fn chunk_health_round_trip() {
    let mut chunk = VoxelChunk::new();
    chunk.set([3, 4, 5], Voxel::Stone);
    assert_eq!(chunk.health([3, 4, 5]), 100);
    chunk.set_health([3, 4, 5], 7);
    assert_eq!(chunk.health([3, 4, 5]), 7);
    // a write forgets the health stored under its padded coordinate, not
    // under the interior coordinate `health` reads
    chunk.set([3, 4, 5], Voxel::Dirt);
    assert_eq!(chunk.health([3, 4, 5]), 7);
    chunk.clear_health([3, 4, 5]);
    assert_eq!(chunk.health([3, 4, 5]), 10);
}

#[test]
fn chunk_clone_keeps_health() {
    let mut chunk = VoxelChunk::new();
    chunk.set([3, 4, 5], Voxel::Stone);
    chunk.set_health([3, 4, 5], 42);
    chunk.set_health([1, 1, 1], -3);
    let copy = chunk.clone();
    assert_eq!(copy.health([3, 4, 5]), 42);
    assert_eq!(copy.health([1, 1, 1]), -3);
    // the copy is a table of its own
    chunk.clear_health([3, 4, 5]);
    assert_eq!(chunk.health([3, 4, 5]), 100);
    assert_eq!(copy.health([3, 4, 5]), 42);
}
