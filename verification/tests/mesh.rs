use arch::math::IVec3;
use arch::voxel::chunk::VoxelChunk;
use arch::voxel::mesh::binary_greedy::{pos_uvs, ColliderMesh};
use arch::voxel::mesh::material::{parse_block_tex_name, plan_texture_array, Face, FaceSpecifier, TextureInfo, TextureMap};
use arch::voxel::voxel::Voxel;
use arch::voxel::voxels::Voxels;
use binary_greedy_meshing::Mesher;

#[test]
fn one_voxel_mesh() {
    let mut chunk = VoxelChunk::new();
    chunk.set([3, 4, 5], Voxel::Stone);
    let mut mesher = Mesher::<62>::new();
    let (meshes, collider) = chunk.generate_meshes(&mut mesher);
    assert_eq!(meshes.len(), 9);
    let stone = meshes[Voxel::Stone.id() as usize].as_ref().unwrap();
    // six faces of four corners
    assert_eq!(stone.positions.len(), 24);
    assert_eq!(stone.normals.len(), 24);
    assert_eq!(stone.indices.len(), 36);
    assert_eq!(&stone.indices[0..6], &[2, 0, 1, 1, 3, 2]);
    for n in &stone.normals {
        assert_eq!(n.iter().map(|c| c.abs()).sum::<i32>(), 1);
    }
    assert!(meshes[Voxel::Air.id() as usize].is_none());
    assert!(meshes[Voxel::Dirt.id() as usize].is_none());
    assert_eq!(collider.positions.len(), 24);
}

#[test]
fn water_has_render_mesh_but_no_collider() {
    let mut chunk = VoxelChunk::new();
    chunk.set([1, 1, 1], Voxel::Water);
    let mut mesher = Mesher::<62>::new();
    let (meshes, collider) = chunk.generate_meshes(&mut mesher);
    assert!(meshes[Voxel::Water.id() as usize].is_some());
    assert_eq!(collider.positions.len(), 0);
}

#[test]
fn world_collider_is_translated() {
    let mut voxels = Voxels::new();
    voxels.set_voxel(IVec3::new(64, 1, 1), Voxel::Stone);
    let mut mesher = Mesher::<62>::new();
    let (chunks, collider) = voxels.binary_meshes(&mut mesher);
    assert_eq!(chunks.len(), voxels.chunk_pos_iter().len());
    assert!(!collider.positions.is_empty());
    assert!(collider.positions.iter().any(|p| p[0] >= 62));
}

#[test]
fn collider_mesh_ops() {
    let mut a = ColliderMesh::new();
    a.positions.push([1, 2, 3]);
    a.normals.push([0, 1, 0]);
    let mut b = ColliderMesh::new();
    b.combine(&a);
    b.combine(&a);
    assert_eq!(b.positions.len(), 2);
    b.translate(IVec3::new(62, 0, -62));
    assert_eq!(b.positions[1], [63, 2, -59]);
    assert_eq!(b.normals[1], [0, 1, 0]);
    b.positions.push([0, 0, 0]);
    b.positions.push([0, 0, 0]);
    assert_eq!(b.indices(), vec![2, 0, 1, 1, 3, 2]);
    b.clear();
    assert_eq!(b.positions.len(), 0);
}

#[test]
fn binary_voxels_and_face_meshes() {
    let mut chunk = VoxelChunk::new();
    chunk.set([0, 0, 0], Voxel::Grass);
    chunk.set([2, 0, 0], Voxel::Barrier);
    let values = chunk.as_binary_voxels();
    assert_eq!(values.len(), 64 * 64 * 64);
    assert_eq!(values[1 + 64 + 4096], Voxel::Grass.id());
    assert_eq!(values[1 + 3 * 64 + 4096], 0);
    let mut map = TextureMap::new();
    map.insert(Voxel::Grass, FaceSpecifier::Specific(Face::Up), 3);
    map.insert(Voxel::Grass, FaceSpecifier::Side, 4);
    let faces = chunk.create_face_meshes(&map, 1);
    assert_eq!(faces.len(), 6);
    // up face: layer 3, the grass top tint, face 0
    let up = &faces[0];
    assert_eq!(up.voxel_data.len(), 4);
    assert_eq!(up.voxel_data[0].1, (3 << 12) | (0b011_111_001 << 3) | 0);
    assert_eq!(up.indices.len(), 6);
    // right face: the side layer
    let right = &faces[2];
    assert_eq!(right.voxel_data[0].1, (4 << 12) | (0b110_011_001 << 3) | 2);
    // down face: no down, up or all texture for grass... up is used
    let down = &faces[1];
    assert_eq!(down.voxel_data[0].1, (3 << 12) | (0b110_011_001 << 3) | 1);
}

#[test]
fn texture_names() {
    assert_eq!(parse_block_tex_name("grass_top"), Some((Voxel::Grass, FaceSpecifier::Specific(Face::Up))));
    assert_eq!(parse_block_tex_name("grass_side12"), Some((Voxel::Grass, FaceSpecifier::Side)));
    assert_eq!(parse_block_tex_name("dirt"), Some((Voxel::Dirt, FaceSpecifier::All)));
    assert_eq!(parse_block_tex_name("stone_bottom"), Some((Voxel::Stone, FaceSpecifier::Specific(Face::Down))));
    assert_eq!(parse_block_tex_name("sand_front"), Some((Voxel::Sand, FaceSpecifier::Specific(Face::Front))));
    assert_eq!(parse_block_tex_name("sand_back"), Some((Voxel::Sand, FaceSpecifier::Specific(Face::Back))));
    assert_eq!(parse_block_tex_name("stone_brick"), None);
    assert_eq!(parse_block_tex_name("wood"), None);
    assert_eq!(parse_block_tex_name("Water7"), Some((Voxel::Water, FaceSpecifier::All)));
}

#[test]
fn texture_lookup_falls_back() {
    let mut map = TextureMap::new();
    map.insert(Voxel::Dirt, FaceSpecifier::All, 5);
    map.insert(Voxel::Dirt, FaceSpecifier::Side, 6);
    assert_eq!(map.get_texture_index(Voxel::Dirt, Face::Up), 5);
    assert_eq!(map.get_texture_index(Voxel::Dirt, Face::Left), 6);
    assert_eq!(map.get_texture_index(Voxel::Stone, Face::Left), 0);
    assert_eq!(Face::Down.specifiers(), vec![FaceSpecifier::Specific(Face::Down), FaceSpecifier::Specific(Face::Up), FaceSpecifier::All]);
}

#[test]
fn texture_array_layout() {
    let mut map = TextureMap::new();
    let textures = vec![
        TextureInfo { name: Some("grass_top".to_string()), width: 16, height: 16 },
        TextureInfo { name: Some("unknown".to_string()), width: 16, height: 16 },
        TextureInfo { name: None, width: 16, height: 16 },
        TextureInfo { name: Some("water".to_string()), width: 16, height: 48 },
    ];
    let plan = plan_texture_array(&mut map, &textures);
    assert_eq!(plan.included, vec![0, 3]);
    assert_eq!(plan.anim_offsets, vec![1, 1, 3, 3, 3]);
    assert_eq!(plan.layers, 5);
    assert_eq!(map.get(Voxel::Grass, FaceSpecifier::Specific(Face::Up)), Some(1));
    assert_eq!(map.get(Voxel::Water, FaceSpecifier::All), Some(2));
}

#[test]
fn quad_corners_and_uvs() {
    let quad: u64 = 1 | (2 << 6) | (3 << 12) | (4 << 18) | (5 << 24) | (7 << 32);
    assert_eq!(
        pos_uvs(quad, 0),
        [([5, 2, 8], [4, 5]), ([5, 2, 3], [4, 0]), ([1, 2, 8], [0, 5]), ([1, 2, 3], [0, 0])]
    );
    assert_eq!(
        pos_uvs(quad, 2),
        [([1, 2, 3], [0, 0]), ([1, 2, 8], [5, 0]), ([1, -2, 3], [0, 4]), ([1, -2, 8], [5, 4])]
    );
    assert_eq!(
        pos_uvs(quad, 4),
        [([-3, 7, 3], [0, 0]), ([-3, 2, 3], [0, 5]), ([1, 7, 3], [4, 0]), ([1, 2, 3], [4, 5])]
    );
}
