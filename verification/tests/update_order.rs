use std::cmp::Ordering;

use arch::math::IVec3;
use arch::voxel::voxels::VoxelUpdate;

fn update(x: i32, y: i32, z: i32) -> VoxelUpdate {
    VoxelUpdate(IVec3::new(x, y, z))
}

#[test]
fn update_order_higher_first() {
    assert_eq!(update(0, 5, 0).cmp(&update(9, 4, 9)), Ordering::Less);
    assert_eq!(update(0, 4, 0).cmp(&update(0, 5, 0)), Ordering::Greater);
    assert_eq!(update(3, 4, 0).cmp(&update(2, 4, 9)), Ordering::Less);
    assert_eq!(update(3, 4, 1).cmp(&update(3, 4, 2)), Ordering::Greater);
    assert_eq!(update(3, 4, 2).cmp(&update(3, 4, 2)), Ordering::Equal);
    assert_eq!(update(1, 1, 1).partial_cmp(&update(1, 2, 1)), Some(Ordering::Greater));
    assert!(update(1, 2, 1) < update(1, 1, 1));
}
