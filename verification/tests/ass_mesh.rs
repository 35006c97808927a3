use arch::voxel::ass_mesh::{grid_to_mesh, Vertices};
use arch::voxel::grid::AxisOrder;
use arch::voxel::voxel_grid::{Voxel, VoxelGrid};

fn column() -> VoxelGrid {
    let mut grid = VoxelGrid::new([1, 3, 1], AxisOrder::XYZ);
    grid.set([0, 0, 0], Voxel::Dirt);
    grid.set([0, 1, 0], Voxel::Stone);
    grid
}

#[test]
fn ass_vertex_heights() {
    let grid = column();
    let mut vertices = Vertices::from_unpadded_grid(grid.grid());
    assert_eq!(vertices.weighted_vertex([0, 2, 0]), [0, 2, 0]);
    vertices.set_vertex_heights(&grid);
    // Corners around the filled voxels keep their height.
    assert_eq!(vertices.weighted_vertex([0, 1, 0]), [0, 1, 0]);
    assert_eq!(vertices.weighted_vertex([1, 0, 1]), [1, 0, 1]);
    // The corners around the air on top see three filled neighbours (outside counts) and drop.
    assert_eq!(vertices.weighted_vertex([0, 2, 0]), [0, 1, 0]);
    assert_eq!(vertices.weighted_vertex([1, 2, 1]), [1, 1, 1]);
    // Above the grid everything is outside, so the height stays.
    assert_eq!(vertices.weighted_vertex([0, 3, 0]), [0, 3, 0]);
    // Off the lattice nothing moves.
    assert_eq!(vertices.weighted_vertex([5, 5, 5]), [5, 5, 5]);
}

#[test]
fn ass_column_mesh() {
    let (positions, indices) = grid_to_mesh(&column());
    assert_eq!(
        positions,
        vec![
            // top of the upper voxel
            [0, 1, 0], [1, 1, 0], [1, 1, 1], [0, 1, 1],
            // -x side
            [0, 1, 0], [0, 1, 1], [0, 0, 0], [0, 0, 1],
            // +x side
            [1, 1, 0], [1, 1, 1], [1, 0, 0], [1, 0, 1],
            // -z side
            [0, 1, 0], [1, 1, 0], [0, 0, 0], [1, 0, 0],
            // +z side
            [0, 1, 1], [1, 1, 1], [0, 0, 1], [1, 0, 1],
        ]
    );
    assert_eq!(
        indices,
        vec![
            0, 2, 1, 0, 3, 2, //
            4, 6, 7, 4, 7, 5, //
            8, 11, 10, 8, 9, 11, //
            12, 15, 14, 12, 13, 15, //
            16, 18, 19, 16, 19, 17,
        ]
    );
}

#[test]
fn ass_single_voxel_has_only_a_top() {
    let mut grid = VoxelGrid::new([1, 2, 1], AxisOrder::XYZ);
    grid.set([0, 0, 0], Voxel::Dirt);
    let (positions, indices) = grid_to_mesh(&grid);
    assert_eq!(positions, vec![[0, 0, 0], [1, 0, 0], [1, 0, 1], [0, 0, 1]]);
    assert_eq!(indices, vec![0, 2, 1, 0, 3, 2]);
}

#[test]
fn ass_plane_appends() {
    let grid = column();
    let mut vertices = Vertices::from_unpadded_grid(grid.grid());
    vertices.set_vertex_heights(&grid);
    let mut positions = vec![[9, 9, 9]];
    let mut indices = vec![7];
    vertices.pos_xy_plane_mesh(&grid, &mut positions, &mut indices);
    assert_eq!(positions, vec![[9, 9, 9], [0, 1, 1], [1, 1, 1], [0, 0, 1], [1, 0, 1]]);
    assert_eq!(indices, vec![7, 1, 3, 4, 1, 4, 2]);
}
