use arch::math::IVec3;
use arch::voxel::chunk::{unpadded, VoxelChunk};
use arch::voxel::simulation::parallel::{BoundaryUpdate, ChunkSimulationGrid, ChunkSimulationJob, ChunkSlice};
use arch::voxel::voxel::Voxel;
use arch::voxel::voxels::Voxels;

#[test]
fn test_chunk_simulation_job_creation() {
    let chunk_pos = IVec3::new(1, 2, 3);
    let chunk = VoxelChunk::new();
    let job = ChunkSimulationJob::new(chunk_pos, chunk);

    assert_eq!(job.chunk_pos, chunk_pos);
    assert!(job.is_active);
}

#[test]
fn test_chunk_simulation_job_mutable_access() {
    let chunk_pos = IVec3::new(0, 0, 0);
    let mut chunk = VoxelChunk::new();
    chunk.set([1, 1, 1], Voxel::Sand);

    let mut job = ChunkSimulationJob::new(chunk_pos, chunk);
    let chunk_guard = job.get_chunk_mut();

    // Test that we can read and write to the chunk
    assert_eq!(chunk_guard.voxel([1, 1, 1]), Voxel::Sand);
    chunk_guard.set([2, 2, 2], Voxel::Water);
    assert_eq!(chunk_guard.voxel([2, 2, 2]), Voxel::Water);
}

#[test]
fn test_boundary_update_creation() {
    let update = BoundaryUpdate {
        from_pos: IVec3::new(1, 1, 1),
        to_pos: IVec3::new(2, 1, 1),
        from_voxel: Voxel::Sand,
        to_voxel: Voxel::Air,
    };

    assert_eq!(update.from_pos, IVec3::new(1, 1, 1));
    assert_eq!(update.to_pos, IVec3::new(2, 1, 1));
    assert_eq!(update.from_voxel, Voxel::Sand);
    assert_eq!(update.to_voxel, Voxel::Air);
}

#[test]
fn test_chunk_simulation_grid_creation() {
    let grid = ChunkSimulationGrid::new();
    assert_eq!(grid.jobs.len(), 0);
    assert_eq!(grid.phase, 0);
}

#[test]
fn test_chunk_simulation_grid_from_voxels() {
    let mut voxels = Voxels::new();
    voxels.set_voxel(IVec3::new(0, 0, 0), Voxel::Sand);
    voxels.set_voxel(IVec3::new(63, 0, 0), Voxel::Water); // Different chunk

    let sim_grid = ChunkSimulationGrid::from_voxels(&voxels);

    // Should have created jobs for both chunks
    assert!(sim_grid.jobs.contains_key(&IVec3::new(0, 0, 0)));
    assert!(sim_grid.jobs.contains_key(&IVec3::new(1, 0, 0)));
    assert!(sim_grid.contains_job(IVec3::new(0, 0, 0)));
    assert!(sim_grid.contains_job(IVec3::new(1, 0, 0)));
    assert_eq!(sim_grid.job(IVec3::new(1, 0, 0)).unwrap().chunk_pos, IVec3::new(1, 0, 0));
}

#[test]
fn test_alternating_chunk_phases() {
    let mut voxels = Voxels::new();
    // Create voxels that will be in different chunks
    voxels.set_voxel(IVec3::new(0, 0, 0), Voxel::Sand); // chunk (0, 0, 0) - sum = 0 (even)
    voxels.set_voxel(IVec3::new(63, 0, 0), Voxel::Sand); // chunk (1, 0, 0) - sum = 1 (odd)
    voxels.set_voxel(IVec3::new(0, 63, 0), Voxel::Sand); // chunk (0, 1, 0) - sum = 1 (odd)
    voxels.set_voxel(IVec3::new(63, 63, 0), Voxel::Sand); // chunk (1, 1, 0) - sum = 2 (even)

    let mut sim_grid = ChunkSimulationGrid::from_voxels(&voxels);

    // Phase 0: should get even chunks
    sim_grid.phase = 0;
    let active_chunks_phase_0 = sim_grid.get_active_chunks();
    assert!(active_chunks_phase_0.contains(&IVec3::new(0, 0, 0)));
    assert!(active_chunks_phase_0.contains(&IVec3::new(1, 1, 0)));
    assert!(!active_chunks_phase_0.contains(&IVec3::new(1, 0, 0)));
    assert!(!active_chunks_phase_0.contains(&IVec3::new(0, 1, 0)));

    // Phase 1: should get odd chunks
    sim_grid.phase = 1;
    let active_chunks_phase_1 = sim_grid.get_active_chunks();
    assert!(!active_chunks_phase_1.contains(&IVec3::new(0, 0, 0)));
    assert!(!active_chunks_phase_1.contains(&IVec3::new(1, 1, 0)));
    assert!(active_chunks_phase_1.contains(&IVec3::new(1, 0, 0)));
    assert!(active_chunks_phase_1.contains(&IVec3::new(0, 1, 0)));
}

#[test]
fn test_chunk_slice_creation() {
    let mut voxels = Voxels::new();
    voxels.set_voxel(IVec3::new(0, 0, 0), Voxel::Sand);

    let sim_grid = ChunkSimulationGrid::from_voxels(&voxels);
    let slices = sim_grid.create_chunk_slices(IVec3::new(0, 0, 0));

    // Should create 62 slices (one for each y-level)
    assert_eq!(slices.len(), unpadded::SIZE);

    // Test first slice
    let first_slice = &slices[0];
    assert_eq!(first_slice.chunk_pos, IVec3::new(0, 0, 0));
    assert_eq!(first_slice.y_range, 0..1);
    assert_eq!(first_slice.x_range, 0..unpadded::SIZE);
    assert_eq!(first_slice.z_range, 0..unpadded::SIZE);

    // Test middle slice
    let middle_slice = &slices[unpadded::SIZE / 2];
    assert_eq!(middle_slice.y_range, (unpadded::SIZE / 2)..(unpadded::SIZE / 2 + 1));
}

#[test]
fn test_chunk_slice_contains_relative_pos() {
    let slice = ChunkSlice { chunk_pos: IVec3::new(0, 0, 0), y_range: 5..6, x_range: 10..20, z_range: 15..25 };

    // Test positions within the slice
    assert!(slice.contains_relative_pos(IVec3::new(15, 5, 20)));
    assert!(slice.contains_relative_pos(IVec3::new(10, 5, 15)));
    assert!(slice.contains_relative_pos(IVec3::new(19, 5, 24)));

    // Test positions outside the slice
    assert!(!slice.contains_relative_pos(IVec3::new(9, 5, 20))); // x too low
    assert!(!slice.contains_relative_pos(IVec3::new(20, 5, 20))); // x too high
    assert!(!slice.contains_relative_pos(IVec3::new(15, 4, 20))); // y too low
    assert!(!slice.contains_relative_pos(IVec3::new(15, 6, 20))); // y too high
    assert!(!slice.contains_relative_pos(IVec3::new(15, 5, 14))); // z too low
    assert!(!slice.contains_relative_pos(IVec3::new(15, 5, 25))); // z too high

    // Test negative positions (should be false)
    assert!(!slice.contains_relative_pos(IVec3::new(-1, 5, 20)));
    assert!(!slice.contains_relative_pos(IVec3::new(15, -1, 20)));
    assert!(!slice.contains_relative_pos(IVec3::new(15, 5, -1)));
}

#[test]
fn test_chunk_slice_simulation() {
    let mut voxels = Voxels::new();
    // Set up a simple test scenario
    voxels.set_voxel(IVec3::new(1, 1, 1), Voxel::Sand);
    voxels.set_voxel(IVec3::new(1, 0, 1), Voxel::Air); // Space below for sand to fall

    let mut sim_grid = ChunkSimulationGrid::from_voxels(&voxels);
    let job = sim_grid.jobs.get_mut(&IVec3::new(0, 0, 0)).unwrap();

    // Create a slice that contains our test voxel
    let slice = ChunkSlice {
        chunk_pos: IVec3::new(0, 0, 0),
        y_range: 1..2, // Only simulate y=1
        x_range: 1..2, // Only simulate x=1
        z_range: 1..2, // Only simulate z=1
    };

    // Run simulation
    slice.simulate(job);

    // Check that the simulation ran (the target below lies outside the
    // slice, so the sand stays)
    let chunk_guard = job.get_chunk_mut();
    assert_eq!(chunk_guard.voxel([1, 1, 1]), Voxel::Sand);
}

#[test]
fn test_boundary_update_collection() {
    let chunk_pos = IVec3::new(0, 0, 0);
    let chunk = VoxelChunk::new();
    let mut job = ChunkSimulationJob::new(chunk_pos, chunk);

    let update = BoundaryUpdate {
        from_pos: IVec3::new(1, 1, 1),
        to_pos: IVec3::new(2, 1, 1),
        from_voxel: Voxel::Sand,
        to_voxel: Voxel::Air,
    };

    job.add_boundary_update(update.clone());

    // Check that the update was added
    let updates = &job.boundary_updates;
    assert_eq!(updates.len(), 1);
    assert_eq!(updates[0].from_pos, update.from_pos);
    assert_eq!(updates[0].to_pos, update.to_pos);
}

#[test]
fn test_multiple_boundary_updates() {
    let chunk_pos = IVec3::new(0, 0, 0);
    let chunk = VoxelChunk::new();
    let mut job = ChunkSimulationJob::new(chunk_pos, chunk);

    let update1 = BoundaryUpdate {
        from_pos: IVec3::new(1, 1, 1),
        to_pos: IVec3::new(2, 1, 1),
        from_voxel: Voxel::Sand,
        to_voxel: Voxel::Air,
    };

    let update2 = BoundaryUpdate {
        from_pos: IVec3::new(3, 3, 3),
        to_pos: IVec3::new(4, 3, 3),
        from_voxel: Voxel::Water,
        to_voxel: Voxel::Air,
    };

    job.add_boundary_update(update1);
    job.add_boundary_update(update2);

    let updates = &job.boundary_updates;
    assert_eq!(updates.len(), 2);
}

#[test]
fn test_chunk_simulation_grid_phase_toggle() {
    let mut sim_grid = ChunkSimulationGrid::new();
    assert_eq!(sim_grid.phase, 0);

    // Toggle phase
    sim_grid.phase = (sim_grid.phase + 1) % 2;
    assert_eq!(sim_grid.phase, 1);

    // Toggle again
    sim_grid.phase = (sim_grid.phase + 1) % 2;
    assert_eq!(sim_grid.phase, 0);
}

#[test]
fn test_voxel_to_chunk_mapping() {
    // Test that our chunk finding logic works correctly
    assert_eq!(Voxels::find_chunk(IVec3::new(0, 0, 0)), IVec3::new(0, 0, 0));
    assert_eq!(Voxels::find_chunk(IVec3::new(61, 0, 0)), IVec3::new(0, 0, 0)); // Still in chunk 0
    assert_eq!(Voxels::find_chunk(IVec3::new(62, 0, 0)), IVec3::new(1, 0, 0)); // Now in chunk 1
    assert_eq!(Voxels::find_chunk(IVec3::new(-1, 0, 0)), IVec3::new(-1, 0, 0)); // Negative chunk
}

#[test]
fn test_chunk_slice_boundaries() {
    // Test that slices correctly identify boundary conditions
    let _slice = ChunkSlice {
        chunk_pos: IVec3::new(0, 0, 0),
        y_range: 0..1,
        x_range: 0..unpadded::SIZE,
        z_range: 0..unpadded::SIZE,
    };

    // Test that we can identify when a position would cross chunk boundaries
    let world_pos = IVec3::new(0, 0, 0);
    let swap_point = IVec3::new(0, -1, 0); // Move down
    let target_world_pos = world_pos.add(swap_point);
    let target_chunk_pos = Voxels::find_chunk(target_world_pos);

    // This should be a cross-chunk update
    assert_ne!(target_chunk_pos, IVec3::new(0, 0, 0));
}

#[test]
fn test_memory_efficiency() {
    // Test that our chunk size assumptions are correct
    let _chunk = VoxelChunk::new();

    // Each voxel is stored as a u16
    let expected_size = unpadded::SIZE * unpadded::SIZE * unpadded::SIZE;
    assert_eq!(expected_size, 62 * 62 * 62);
    assert_eq!(expected_size, 238328); // ~238KB per chunk

    // For a 62x1x62 slice, we're only working with ~3.8KB of data
    let slice_size = 62 * 1 * 62;
    assert_eq!(slice_size, 3844); // ~3.8KB per slice
    assert!(slice_size < 6000); // Should be under our 6K limit
}

#[test]
fn test_deterministic_phases() {
    // Test that the alternating phase system is deterministic
    let mut voxels = Voxels::new();
    voxels.set_voxel(IVec3::new(0, 0, 0), Voxel::Sand);
    voxels.set_voxel(IVec3::new(1, 0, 0), Voxel::Sand);
    voxels.set_voxel(IVec3::new(0, 1, 0), Voxel::Sand);
    voxels.set_voxel(IVec3::new(1, 1, 0), Voxel::Sand);

    let mut sim_grid = ChunkSimulationGrid::from_voxels(&voxels);

    // Run multiple cycles and verify consistency
    for cycle in 0..10 {
        sim_grid.phase = cycle % 2;
        let active_chunks = sim_grid.get_active_chunks();

        if cycle % 2 == 0 {
            // Even cycles should have even chunks
            assert!(active_chunks.iter().all(|&pos| (pos.x + pos.y + pos.z) % 2 == 0));
        } else {
            // Odd cycles should have odd chunks
            assert!(active_chunks.iter().all(|&pos| (pos.x + pos.y + pos.z) % 2 == 1));
        }
    }
}

#[test]
fn slice_sand_falls_inside_slice() {
    let mut chunk = VoxelChunk::new();
    chunk.set([5, 5, 5], Voxel::Sand);
    chunk.set([5, 4, 5], Voxel::Water);
    let mut job = ChunkSimulationJob::new(IVec3::new(0, 0, 0), chunk);
    let slice = ChunkSlice { chunk_pos: IVec3::new(0, 0, 0), y_range: 4..6, x_range: 0..62, z_range: 0..62 };
    slice.simulate(&mut job);
    // y 4 runs first (water does nothing), then the sand at y 5 swaps down
    assert_eq!(job.chunk.voxel([5, 4, 5]), Voxel::Sand);
    assert_eq!(job.chunk.voxel([5, 5, 5]), Voxel::Water);
    assert_eq!(job.boundary_updates.len(), 0);

    // sand at the bottom of a chunk defers its moves out of the chunk
    let mut chunk = VoxelChunk::new();
    chunk.set([3, 0, 3], Voxel::Sand);
    let mut job = ChunkSimulationJob::new(IVec3::new(0, 0, 0), chunk);
    let slice = ChunkSlice { chunk_pos: IVec3::new(0, 0, 0), y_range: 0..1, x_range: 0..62, z_range: 0..62 };
    slice.simulate(&mut job);
    assert_eq!(job.boundary_updates.len(), 5);
    assert_eq!(job.boundary_updates[0].from_pos, IVec3::new(3, 0, 3));
    assert_eq!(job.boundary_updates[0].to_pos, IVec3::new(3, -1, 3));
}

#[test]
fn copy_back_from_simulation() {
    let mut voxels = Voxels::new();
    voxels.set_voxel(IVec3::new(10, 10, 10), Voxel::Sand);
    let mut sim_grid = ChunkSimulationGrid::from_voxels(&voxels);
    sim_grid.jobs.get_mut(&IVec3::new(0, 0, 0)).unwrap().chunk.set([10, 10, 10], Voxel::Stone);
    arch::voxel::simulation::parallel::update_voxels_from_simulation(&mut voxels, &sim_grid);
    assert_eq!(voxels.get_chunk(IVec3::new(0, 0, 0)).unwrap().voxel([10, 10, 10]), Voxel::Stone);
}

#[test]
fn every_chunk_with_a_non_negative_or_even_sum_runs_in_one_phase() {
    let mut voxels = Voxels::new();
    voxels.set_voxel(IVec3::new(0, 0, 0), Voxel::Sand);
    let mut sim_grid = ChunkSimulationGrid::from_voxels(&voxels);
    sim_grid.phase = 0;
    let even = sim_grid.get_active_chunks();
    sim_grid.phase = 1;
    let odd = sim_grid.get_active_chunks();
    for pos in sim_grid.jobs.keys() {
        let sum = pos.x + pos.y + pos.z;
        let runs = even.contains(pos) as u32 + odd.contains(pos) as u32;
        if sum >= 0 || sum % 2 == 0 {
            assert_eq!(runs, 1);
        } else {
            // the remainder of a negative odd sum is -1: no phase takes it
            assert_eq!(runs, 0);
        }
    }
    assert!(sim_grid.jobs.contains_key(&IVec3::new(-1, 0, 0)));
    assert!(!even.contains(&IVec3::new(-1, 0, 0)) && !odd.contains(&IVec3::new(-1, 0, 0)));
}

#[test]
fn slice_simulation_only_exchanges_voxels_inside_the_slice() {
    let mut chunk = VoxelChunk::new();
    chunk.set([5, 5, 5], Voxel::Sand);
    chunk.set([6, 5, 5], Voxel::Sand);
    chunk.set([5, 4, 5], Voxel::Water);
    chunk.set([5, 9, 5], Voxel::Sand);
    let before = chunk.voxels.clone();
    let mut job = ChunkSimulationJob::new(IVec3::new(0, 0, 0), chunk);
    let slice = ChunkSlice { chunk_pos: IVec3::new(0, 0, 0), y_range: 4..6, x_range: 0..62, z_range: 0..62 };
    slice.simulate(&mut job);
    let after = job.chunk.voxels.clone();
    let mut a = before.clone();
    let mut b = after.clone();
    a.sort();
    b.sort();
    assert_eq!(a, b);
    assert_ne!(before, after);
    // the sand above the slice stays where it was
    assert_eq!(job.chunk.voxel([5, 9, 5]), Voxel::Sand);
    for y in 0..64 {
        if y == 5 || y == 6 {
            continue;
        }
        for x in 0..64 {
            for z in 0..64 {
                let i = z + x * 64 + y * 4096;
                assert_eq!(before[i], after[i]);
            }
        }
    }
}
