use arch::map::object::VolumeWeights;
use arch::map::Digsite;
use arch::math::IVec3;
use arch::voxel::brush::BakedBrush;
use arch::voxel::voxel::Voxel;
use arch::voxel::voxel_aabb::VoxelAabb;
use arch::voxel::voxels::Voxels;
use rand::SeedableRng;

fn bx(min: (i32, i32, i32), max: (i32, i32, i32)) -> VoxelAabb {
    VoxelAabb { min: IVec3::new(min.0, min.1, min.2), max: IVec3::new(max.0, max.1, max.2) }
}

#[test]
fn digsite_overlaps_removed() {
    let mut site = Digsite::new(vec![bx((0, 0, 0), (3, 3, 3)), bx((2, 2, 2), (5, 5, 5))]);
    site.remove_aabb_overlaps();
    let total: i32 = site.voxel_aabbs().iter().map(|b| b.volume()).sum();
    assert_eq!(total, 64 + 64 - 8);
}

#[test]
fn volume_weights_are_running_totals() {
    let site = Digsite::new(vec![bx((0, 0, 0), (1, 1, 1)), bx((0, 0, 0), (2, 2, 2))]);
    let weights: VolumeWeights = site.volume_weights();
    // totals 8 and 35: a pick reaches the first total it is not below
    assert_eq!(weights.pick_volume_at(8), Some(bx((0, 0, 0), (1, 1, 1))));
    assert_eq!(weights.pick_volume_at(34), Some(bx((0, 0, 0), (1, 1, 1))));
    assert_eq!(weights.pick_volume_at(7), None);
    let mut rng = rand::rngs::StdRng::seed_from_u64(7);
    for _ in 0..20 {
        let picked = weights.pick_volume(&mut rng);
        assert!(picked.is_none() || picked == Some(bx((0, 0, 0), (1, 1, 1))));
    }
}

#[test]
fn brush_sets_each_point() {
    let mut voxels = Voxels::new();
    let brush = BakedBrush::new(vec![IVec3::new(1, 1, 1), IVec3::new(2, 1, 1)]);
    voxels.apply_brush(IVec3::new(100, 100, 100), &brush, Voxel::Stone);
    // The offsets are local to the centre the brush is applied at.
    assert_eq!(voxels.get_voxel(IVec3::new(101, 101, 101)), Voxel::Stone);
    assert_eq!(voxels.get_voxel(IVec3::new(102, 101, 101)), Voxel::Stone);
    assert_eq!(voxels.get_voxel(IVec3::new(1, 1, 1)), Voxel::Air);
    assert_eq!(voxels.get_voxel(IVec3::new(100, 101, 101)), Voxel::Air);
    assert_eq!(brush.local_affected_voxels().len(), 2);
}
