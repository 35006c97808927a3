use arch::voxel::grid::{AxisOrder, Grid};
use arch::voxel::nested;
use arch::voxel::voxel_grid::{Voxel, VoxelGrid};

#[test]
fn voxel_in_bounds() {
    let grid = nested::VoxelGrid::new(5, 5, 5);
    assert!(grid.in_bounds(0, 0, 0));
    assert!(grid.in_bounds(4, 4, 4));
    assert!(!grid.in_bounds(5, 5, 5));
    assert!(!grid.in_bounds(5, 0, 0));

    // Stupid case that should never happen, but just to check:
    let grid = nested::VoxelGrid::new(0, 0, 0);
    assert!(!grid.in_bounds(0, 0, 0));
    assert!(!grid.in_bounds(3, 1, 2));
}

#[test]
fn voxel_grid_in_bounds() {
    let grid = VoxelGrid::new([5, 5, 5], AxisOrder::XYZ);
    assert!(grid.in_bounds([0, 0, 0]));
    assert!(grid.in_bounds([4, 4, 4]));
    assert!(!grid.in_bounds([5, 5, 5]));
    assert!(!grid.in_bounds([5, 0, 0]));

    // Stupid case that should never happen, but just to check:
    let grid = VoxelGrid::new([0, 0, 0], AxisOrder::XYZ);
    assert!(!grid.in_bounds([0, 0, 0]));
    assert!(!grid.in_bounds([3, 1, 2]));
}

#[test]
fn grid_linearize_round_trip() {
    for order in [AxisOrder::XYZ, AxisOrder::XZY] {
        let grid = Grid::new([3, 4, 5], order);
        assert_eq!(grid.size(), 60);
        let mut seen = vec![false; 60];
        for x in 0..3 {
            for y in 0..4 {
                for z in 0..5 {
                    let i = grid.linearize([x, y, z]);
                    assert!(0 <= i && i < 60);
                    assert!(!seen[i as usize]);
                    seen[i as usize] = true;
                    assert_eq!(grid.delinearize(i), [x, y, z]);
                }
            }
        }
        assert_eq!(grid.point_iter().len(), 60);
    }
    let grid = Grid::new([3, 4, 5], AxisOrder::XYZ);
    assert_eq!(grid.linearize([1, 2, 3]), 1 + 3 * 2 + 12 * 3);
    assert_eq!(AxisOrder::ZYX.strides([3, 4, 5]), [20, 5, 1]);
    let padded = grid.pad([2, 2, 2]);
    assert_eq!(padded.array(), [5, 6, 7]);
    assert_eq!(padded.size(), 210);
}

#[test]
fn voxel_grid_set_get() {
    let mut grid = VoxelGrid::new([4, 3, 2], AxisOrder::XZY);
    assert_eq!(grid.get_voxel([1, 2, 1]), Some(Voxel::Air));
    grid.set([1, 2, 1], Voxel::Stone);
    assert_eq!(grid.get_voxel([1, 2, 1]), Some(Voxel::Stone));
    assert_eq!(grid.voxel([1, 1, 1]), Voxel::Air);
    assert_eq!(grid.get_voxel([4, 0, 0]), None);
    assert_eq!(grid.changed().len(), 1);
    assert_eq!(grid.changed()[0].last_voxel, Voxel::Air);
    assert_eq!(grid.changed()[0].new_voxel, Voxel::Stone);
    assert_eq!(grid.surface_voxel(1, 1), Some((Voxel::Stone, 2)));
    assert_eq!(grid.surface_voxel(0, 0), None);
    grid.clear_changed();
    assert_eq!(grid.changed().len(), 0);
    assert_eq!(grid.width(), 4);
    assert_eq!(grid.height(), 3);
    assert_eq!(grid.length(), 2);
}

#[test]
fn nested_grid_set_get() {
    let mut grid = nested::VoxelGrid::new(3, 4, 5);
    assert_eq!(grid.get_voxel(2, 3, 4), Some(nested::Voxel::Air));
    assert_eq!(grid.get_voxel(3, 0, 0), None);
    grid.set(2, 1, 4, nested::Voxel::Water);
    assert_eq!(grid.voxel(2, 1, 4), nested::Voxel::Water);
    assert_eq!(grid.surface_voxel(2, 4), Some((nested::Voxel::Water, 1)));
    assert_eq!(grid.surface_voxel(0, 0), None);
    assert_eq!((grid.width(), grid.height(), grid.length()), (3, 4, 5));
}

#[test]
fn voxel_grid_kinds() {
    assert_eq!(Voxel::iter().len(), 6);
    assert!(!Voxel::Air.filling());
    assert!(Voxel::Water.filling());
    assert!(!Voxel::Base.breakable());
    assert!(Voxel::Dirt.breakable());
    assert!(Voxel::Base.pickable());
}

#[test]
fn voxel_grid_pickable_points() {
    let mut grid = VoxelGrid::new([2, 2, 2], AxisOrder::XYZ);
    assert!(grid.pickable_points().is_empty());
    grid.set([1, 0, 0], Voxel::Dirt);
    grid.set([0, 1, 1], Voxel::Water);
    grid.set([1, 1, 1], Voxel::Air);
    assert_eq!(grid.pickable_points(), vec![[1, 0, 0], [0, 1, 1]]);
    let empty = VoxelGrid::new([0, 3, 3], AxisOrder::XYZ);
    assert!(empty.pickable_points().is_empty());
}

#[test]
fn voxel_grid_first_pickable_hit() {
    let mut grid = VoxelGrid::new([4, 1, 1], AxisOrder::XYZ);
    grid.set([2, 0, 0], Voxel::Stone);
    let ray = [[0, 0, 0], [1, 0, 0], [2, 0, 0], [3, 0, 0]];
    assert_eq!(grid.first_pickable_hit(&ray), Some(2));
    assert_eq!(grid.first_pickable_hit(&ray[..2]), None);
}

#[test]
fn grid_round_trip_every_order() {
    let orders = [AxisOrder::XYZ, AxisOrder::XZY, AxisOrder::ZYX, AxisOrder::ZXY, AxisOrder::YXZ, AxisOrder::YZX];
    for order in orders {
        let grid = Grid::new([2, 3, 4], order);
        let mut seen = vec![false; 24];
        for x in 0..2 {
            for y in 0..3 {
                for z in 0..4 {
                    let i = grid.linearize([x, y, z]);
                    assert!((0..24).contains(&i));
                    assert!(!seen[i as usize]);
                    seen[i as usize] = true;
                    assert_eq!(grid.delinearize(i), [x, y, z]);
                }
            }
        }
        assert_eq!(grid.point_iter().len(), 24);
    }
    let zyx = Grid::new([2, 2, 2], AxisOrder::ZYX);
    assert_eq!(zyx.linearize([1, 0, 0]), 4);
    assert_eq!(zyx.delinearize(4), [1, 0, 0]);
}
