use arch::voxel::ground::spawn_voxel_grid;
use arch::voxel::voxel::Voxel;

#[test]
fn starting_chunk_layers() {
    let chunk = spawn_voxel_grid();
    for x in [0, 17, 61] {
        for z in [0, 30, 61] {
            assert_eq!(chunk.voxel([x, 0, z]), Voxel::Base);
            assert_eq!(chunk.voxel([x, 1, z]), Voxel::Dirt);
            assert_eq!(chunk.voxel([x, 28, z]), Voxel::Dirt);
            assert_eq!(chunk.voxel([x, 29, z]), Voxel::Grass);
            assert_eq!(chunk.voxel([x, 30, z]), Voxel::Grass);
            assert_eq!(chunk.voxel([x, 31, z]), Voxel::Air);
            assert_eq!(chunk.voxel([x, 61, z]), Voxel::Air);
        }
    }
    // The padding stays air.
    assert_eq!(chunk.voxel_from_index(0), Voxel::Air);
    assert_eq!(chunk.voxel_from_index(64 * 64 * 64 - 1), Voxel::Air);
}
