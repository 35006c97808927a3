use arch::math::IVec3;
use arch::voxel::voxel::Voxel;
use arch::voxel::voxels::Voxels;

fn ivec3(x: i32, y: i32, z: i32) -> IVec3 {
    IVec3::new(x, y, z)
}

#[test]
fn voxels_find_chunk() {
    assert_eq!(Voxels::find_chunk(ivec3(0, 0, 0)), ivec3(0, 0, 0));
    assert_eq!(Voxels::find_chunk(ivec3(63, 0, 0)), ivec3(1, 0, 0));
    assert_eq!(Voxels::find_chunk(ivec3(-1, 0, 0)), ivec3(-1, 0, 0));
    assert_eq!(Voxels::find_chunk(ivec3(-62, 0, 0)), ivec3(-1, 0, 0));
    assert_eq!(Voxels::find_chunk(ivec3(-63, 0, 0)), ivec3(-2, 0, 0));
}

#[test]
fn voxels_find_chunk_relative() {
    assert_eq!(Voxels::relative_point(ivec3(0, 0, 0), ivec3(0, 0, 0)), ivec3(0, 0, 0));
    assert_eq!(Voxels::relative_point(ivec3(0, 0, 0), ivec3(61, 0, 0)), ivec3(61, 0, 0));
    assert_eq!(Voxels::relative_point(ivec3(0, 0, 0), ivec3(62, 0, 0)), ivec3(62, 0, 0)); // oob
    assert_eq!(Voxels::relative_point(ivec3(0, 0, 0), ivec3(63, 0, 0)), ivec3(63, 0, 0)); // oob
    assert_eq!(Voxels::relative_point(ivec3(1, 0, 0), ivec3(62, 0, 0)), ivec3(0, 0, 0));
    assert_eq!(Voxels::relative_point(ivec3(1, 0, 0), ivec3(63, 0, 0)), ivec3(1, 0, 0));

    // negative handling
    assert_eq!(Voxels::relative_point(ivec3(0, 0, 0), ivec3(-1, -1, -1)), ivec3(-1, -1, -1));
    assert_eq!(Voxels::relative_point(ivec3(-1, -1, -1), ivec3(0, 0, 0)), ivec3(62, 62, 62)); // oob
    assert_eq!(Voxels::relative_point(ivec3(-1, -1, -1), ivec3(-1, -1, -1)), ivec3(61, 61, 61));
    assert_eq!(Voxels::relative_point(ivec3(-1, -1, -1), ivec3(-62, -62, -62)), ivec3(0, 0, 0));
}

#[test]
fn voxels_find_chunk_relative_unpadded() {
    assert_eq!(Voxels::relative_point_with_boundary(ivec3(0, 0, 0), ivec3(0, 0, 0)), ivec3(1, 1, 1));
    assert_eq!(Voxels::relative_point_with_boundary(ivec3(0, 0, 0), ivec3(62, 0, 0)), ivec3(63, 1, 1)); // oob
    assert_eq!(Voxels::relative_point_with_boundary(ivec3(0, 0, 0), ivec3(63, 0, 0)), ivec3(64, 1, 1)); // oob
    assert_eq!(Voxels::relative_point_with_boundary(ivec3(1, 0, 0), ivec3(61, 0, 0)), ivec3(0, 1, 1));
    assert_eq!(Voxels::relative_point_with_boundary(ivec3(1, 0, 0), ivec3(62, 0, 0)), ivec3(1, 1, 1));

    assert_eq!(Voxels::relative_point_with_boundary(ivec3(0, 0, 0), ivec3(61, 61, 61)), ivec3(62, 62, 62));
    assert_eq!(Voxels::relative_point_with_boundary(ivec3(1, 1, 1), ivec3(61, 61, 61)), ivec3(0, 0, 0));

    // negative handling
    assert_eq!(Voxels::relative_point_with_boundary(ivec3(0, 0, 0), ivec3(-1, -1, -1)), ivec3(0, 0, 0));
    assert_eq!(Voxels::relative_point_with_boundary(ivec3(-1, -1, -1), ivec3(0, 0, 0)), ivec3(63, 63, 63));
    assert_eq!(Voxels::relative_point_with_boundary(ivec3(-1, -1, -1), ivec3(-1, -1, -1)), ivec3(62, 62, 62));
    assert_eq!(Voxels::relative_point_with_boundary(ivec3(-1, -1, -1), ivec3(-62, -62, -62)), ivec3(1, 1, 1));
    assert_eq!(Voxels::relative_point_with_boundary(ivec3(-1, -1, -1), ivec3(-63, -63, -63)), ivec3(0, 0, 0));
}

fn batch_points(size: i32) -> Vec<IVec3> {
    let mut points = Vec::new();
    for y in -size..=size {
        for x in -size..=size {
            for z in -size..=size {
                points.push(IVec3::new(x, y, z));
            }
        }
    }
    points
}

#[test]
fn set_voxel_batch() {
    // just make sure the batch actually does the same thing as setting directly
    let size = 1;
    let len = size * size * size;
    let points = batch_points(size);
    let voxels: Vec<Voxel> = (-len..len).map(|_| Voxel::Sand).collect();

    let mut voxels_direct = Voxels::new();
    for (point, voxel) in points.iter().zip(voxels.iter()) {
        voxels_direct.set_voxel(*point, *voxel);
    }

    let mut voxels_batch = Voxels::new();
    voxels_batch.set_voxels(&points, &voxels);

    let diff = voxels_direct.diff(&voxels_batch, 50);
    if diff.len() > 0 {
        panic!("diffs: {:?}", diff);
    }
}

#[test]
fn set_then_get_voxel() {
    let mut voxels = Voxels::new();
    assert_eq!(voxels.get_voxel(ivec3(5, 6, 7)), Voxel::Air);
    voxels.set_voxel(ivec3(5, 6, 7), Voxel::Stone);
    assert_eq!(voxels.get_voxel(ivec3(5, 6, 7)), Voxel::Stone);
    assert_eq!(voxels.get_voxel(ivec3(5, 6, 8)), Voxel::Air);
    // a chunk boundary point is written into the neighbours' paddings too
    voxels.set_voxel(ivec3(62, 0, 0), Voxel::Dirt);
    assert_eq!(voxels.get_voxel(ivec3(62, 0, 0)), Voxel::Dirt);
    let adjacent = voxels.get_adjacent_voxels(ivec3(61, 0, 0));
    // offset (1, 0, 0) is index 9 * 1 + 3 * 2 + 1 = 16
    assert_eq!(adjacent[16], Voxel::Dirt);
    let adjacent = voxels.get_adjacent_voxels(ivec3(30, 30, 30));
    assert!(adjacent.iter().all(|v| *v == Voxel::Air));
}

#[test]
fn set_voxel_outside_band_is_ignored() {
    let mut voxels = Voxels::new();
    voxels.set_voxel(ivec3(0, 251, 0), Voxel::Stone);
    voxels.set_voxel(ivec3(0, -51, 0), Voxel::Stone);
    assert_eq!(voxels.get_voxel(ivec3(0, 251, 0)), Voxel::Air);
    assert_eq!(voxels.get_voxel(ivec3(0, -51, 0)), Voxel::Air);
    assert_eq!(voxels.chunk_pos_iter().len(), 0);
    voxels.set_voxel(ivec3(0, 250, 0), Voxel::Stone);
    assert_eq!(voxels.get_voxel(ivec3(0, 250, 0)), Voxel::Stone);
}

#[test]
fn set_update_voxels_queues_neighbourhood() {
    let mut voxels = Voxels::new();
    voxels.set_voxel(ivec3(1, 2, 3), Voxel::Sand);
    let updates = voxels.take_updates();
    assert_eq!(updates.len(), 27);
    assert_eq!(updates[0].0, ivec3(0, 1, 2));
    assert_eq!(updates[13].0, ivec3(1, 2, 3));
    assert_eq!(updates[26].0, ivec3(2, 3, 4));
    assert_eq!(voxels.take_updates().len(), 0);
}

#[test]
fn chunks_overlapping_voxel_order() {
    let chunks = Voxels::chunks_overlapping_voxel(ivec3(0, 0, 0));
    assert_eq!(
        chunks,
        vec![ivec3(-1, -1, -1), ivec3(-1, -1, 0), ivec3(0, -1, -1), ivec3(0, -1, 0), ivec3(-1, 0, -1), ivec3(-1, 0, 0), ivec3(0, 0, -1), ivec3(0, 0, 0)]
    );
    let chunks = Voxels::chunks_overlapping_voxel(ivec3(30, 30, 30));
    assert_eq!(chunks, vec![ivec3(0, 0, 0)]);
    let pairs = Voxels::get_relative_points(&[ivec3(30, 30, 30)]);
    assert_eq!(pairs, vec![(ivec3(0, 0, 0), ivec3(31, 31, 31))]);
}

#[test]
fn nearby_voxels_match_get_voxel() {
    let mut voxels = Voxels::new();
    voxels.set_voxel(ivec3(10, 10, 10), Voxel::Water);
    voxels.set_voxel(ivec3(0, 5, 5), Voxel::Oil);
    let offsets = [[0, 0, 0], [1, 0, 0], [-1, 0, 0], [0, 1, 1]];
    for center in [ivec3(10, 10, 10), ivec3(9, 10, 10), ivec3(1, 5, 5), ivec3(0, 5, 5)] {
        let near = voxels.get_nearby_voxels(center, &offsets);
        for (k, o) in offsets.iter().enumerate() {
            assert_eq!(near[k], voxels.get_voxel(center.add(IVec3::from_array(*o))));
        }
    }
}

#[test]
fn diff_stops_after_cutoff() {
    let mut a = Voxels::new();
    let b = Voxels::new();
    a.set_voxel(ivec3(1, 1, 1), Voxel::Stone);
    a.set_voxel(ivec3(2, 1, 1), Voxel::Stone);
    a.set_voxel(ivec3(3, 1, 1), Voxel::Stone);
    assert_eq!(a.diff(&b, 50).len(), 3);
    assert_eq!(a.diff(&b, 1).len(), 2);
    assert_eq!(a.diff(&b, 0).len(), 1);
    assert_eq!(a.diff(&a, 50).len(), 0);
}

#[test]
fn chunk_bounds_of_one_voxel() {
    let mut voxels = Voxels::new();
    assert_eq!(voxels.chunk_bounds(), (ivec3(0, 0, 0), ivec3(0, 0, 0)));
    voxels.set_voxel(ivec3(30, 30, 30), Voxel::Dirt);
    assert_eq!(voxels.chunk_bounds(), (ivec3(0, 0, 0), ivec3(1, 1, 1)));
    assert_eq!(voxels.voxel_bounds(), (ivec3(0, 0, 0), ivec3(62, 62, 62)));
    assert_eq!(voxels.chunk_size(), ivec3(1, 1, 1));
}

#[test]
fn health_follows_home_chunk() {
    let mut voxels = Voxels::new();
    assert_eq!(voxels.health(ivec3(1, 1, 1)), None);
    voxels.set_voxel(ivec3(1, 1, 1), Voxel::Stone);
    assert_eq!(voxels.health(ivec3(1, 1, 1)), Some(100));
}

#[test]
fn smooth_voxel_clears_a_lone_voxel() {
    let mut voxels = Voxels::new();
    voxels.set_voxel(ivec3(0, 0, 0), Voxel::Dirt);
    // Centre height 1, the eight neighbours -3: (3 - 36) / 9 rounds to -3.
    voxels.smooth_voxel(ivec3(0, 0, 0), -3..=3);
    assert_eq!(voxels.get_voxel(ivec3(0, 0, 0)), Voxel::Air);
    assert_eq!(voxels.get_voxel(ivec3(0, 1, 0)), Voxel::Air);
}

fn ground(voxels: &mut Voxels, top: i32, voxel: Voxel) {
    for x in -1..=1 {
        for z in -1..=1 {
            for y in -3..=top {
                voxels.set_voxel(ivec3(x, y, z), voxel);
            }
        }
    }
}

#[test]
fn smooth_voxel_squishes_a_pillar() {
    let mut voxels = Voxels::new();
    ground(&mut voxels, -1, Voxel::Dirt);
    for y in 0..=2 {
        voxels.set_voxel(ivec3(0, y, 0), Voxel::Stone);
    }
    // Centre height 3, neighbours -1: (9 - 12) / 9 rounds to 0.
    voxels.smooth_voxel(ivec3(0, 0, 0), -3..=3);
    for y in 0..=3 {
        assert_eq!(voxels.get_voxel(ivec3(0, y, 0)), Voxel::Air);
    }
    assert_eq!(voxels.get_voxel(ivec3(0, -1, 0)), Voxel::Dirt);
    // Only the centre column changes.
    assert_eq!(voxels.get_voxel(ivec3(1, -1, 0)), Voxel::Dirt);
    assert_eq!(voxels.get_voxel(ivec3(1, 0, 0)), Voxel::Air);
}

#[test]
fn smooth_voxel_stretches_into_a_hole() {
    let mut voxels = Voxels::new();
    ground(&mut voxels, 1, Voxel::Dirt);
    for y in -2..=1 {
        voxels.set_voxel(ivec3(0, y, 0), Voxel::Air);
    }
    voxels.set_voxel(ivec3(0, -3, 0), Voxel::Stone);
    // Centre height -3, neighbours 2: (-9 + 24) / 9 rounds to 1.
    voxels.smooth_voxel(ivec3(0, 0, 0), -3..=3);
    for y in -3..=0 {
        assert_eq!(voxels.get_voxel(ivec3(0, y, 0)), Voxel::Stone);
    }
    assert_eq!(voxels.get_voxel(ivec3(0, 1, 0)), Voxel::Air);
    assert_eq!(voxels.get_voxel(ivec3(1, 1, 1)), Voxel::Dirt);
}

#[test]
fn voxels_first_pickable_hit() {
    let mut voxels = Voxels::new();
    voxels.set_voxel(ivec3(3, 0, 0), Voxel::Dirt);
    voxels.set_voxel(ivec3(5, 0, 0), Voxel::Stone);
    let hits: Vec<IVec3> = (0..8).map(|x| ivec3(x, 0, 0)).collect();
    assert_eq!(voxels.first_pickable_hit(&hits), Some(3));
    assert_eq!(voxels.first_pickable_hit(&hits[4..]), Some(1));
    assert_eq!(voxels.first_pickable_hit(&hits[..3]), None);
    assert_eq!(voxels.first_pickable_hit(&[]), None);
}

#[test]
fn writes_to_different_points_commute() {
    let (p, q) = (ivec3(3, 4, 5), ivec3(70, 4, -2));
    let mut a = Voxels::new();
    a.set_voxel(p, Voxel::Dirt);
    a.set_voxel(q, Voxel::Sand);
    let mut b = Voxels::new();
    b.set_voxel(q, Voxel::Sand);
    b.set_voxel(p, Voxel::Dirt);
    for point in [p, q, ivec3(0, 0, 0), ivec3(69, 4, -2)] {
        assert_eq!(a.get_voxel(point), b.get_voxel(point));
    }
    assert_eq!(a.get_voxel(p), Voxel::Dirt);
    assert_eq!(a.get_voxel(q), Voxel::Sand);
}

#[test]
fn set_voxel_outside_band_accepts_any_x_z() {
    let mut voxels = Voxels::new();
    voxels.set_voxel(ivec3(i32::MAX, 300, i32::MIN), Voxel::Dirt);
    voxels.set_voxel(ivec3(i32::MIN, -60, i32::MAX), Voxel::Dirt);
    assert_eq!(voxels.chunk_pos_iter().len(), 0);
    assert_eq!(voxels.take_updates().len(), 0);
}

#[test]
fn changed_chunks_are_listed_once_and_cleared() {
    let mut voxels = Voxels::new();
    voxels.set_voxel(IVec3::new(5, 5, 5), Voxel::Dirt);
    voxels.set_voxel(IVec3::new(6, 5, 5), Voxel::Dirt);
    voxels.set_voxel(IVec3::new(70, 5, 5), Voxel::Sand);
    let mut changed = voxels.changed_chunk_pos_iter();
    changed.sort_by_key(|c| (c.x, c.y, c.z));
    assert_eq!(changed, vec![IVec3::new(0, 0, 0), IVec3::new(1, 0, 0)]);
    let mut chunks: Vec<IVec3> = voxels.changed_chunk_iter().iter().map(|(c, _)| *c).collect();
    chunks.sort_by_key(|c| (c.x, c.y, c.z));
    assert_eq!(chunks, changed);
    voxels.clear_changed_chunks();
    assert!(voxels.changed_chunk_pos_iter().is_empty());
    assert!(voxels.changed_chunk_iter().is_empty());
    // the voxels stay
    assert_eq!(voxels.get_voxel(IVec3::new(70, 5, 5)), Voxel::Sand);
}

#[test]
fn queued_updates_near_the_edge_cannot_be_simulated() {
    let mut voxels = Voxels::new();
    voxels.set_voxel(IVec3::new(5, 5, 5), Voxel::Sand);
    assert!(voxels.updates_simulable());
    voxels.set_voxel(IVec3::new(2147482999, 5, 5), Voxel::Sand);
    assert!(!voxels.updates_simulable());
}

#[test]
fn adjacent_voxels_near_the_i32_limits() {
    let mut voxels = Voxels::new();
    voxels.set_voxel(ivec3(2147483000, 5, 5), Voxel::Sand);
    // the last point whose neighbours all have coordinates
    let adjacent = voxels.get_adjacent_voxels(ivec3(2147483646, -2147483647, 0));
    assert!(adjacent.iter().all(|v| *v == Voxel::Air));
    // just past the bound that writes accept, the neighbour is still read
    let adjacent = voxels.get_adjacent_voxels(ivec3(2147483001, 5, 5));
    assert_eq!(adjacent[1 * 9 + 0 * 3 + 1], Voxel::Sand);
    for (k, v) in adjacent.iter().enumerate() {
        if k != 10 {
            assert_eq!(*v, Voxel::Air);
        }
    }
}

#[test]
fn overlapping_chunks_are_listed_once() {
    let corner = Voxels::chunks_overlapping_voxel(ivec3(0, 0, 0));
    assert_eq!(corner.len(), 8);
    assert!(corner.contains(&Voxels::find_chunk(ivec3(0, 0, 0))));
    let mut sorted = corner.clone();
    sorted.sort_by_key(|c| (c.x, c.y, c.z));
    sorted.dedup();
    assert_eq!(sorted.len(), 8);
    let inside = Voxels::chunks_overlapping_voxel(ivec3(30, 30, 30));
    assert_eq!(inside, vec![ivec3(0, 0, 0)]);
}
