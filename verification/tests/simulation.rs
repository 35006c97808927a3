use arch::math::IVec3;
use arch::voxel::simulation::{falling_sands, falling_sands_grid, simulate_liquid, simulate_semisolid, simulate_structured, FallingSandTick};
use arch::voxel::voxel::Voxel;
use arch::voxel::voxels::Voxels;

fn ivec3(x: i32, y: i32, z: i32) -> IVec3 {
    IVec3::new(x, y, z)
}

#[test]
fn tick_wraps() {
    let mut tick = FallingSandTick(0);
    tick.advance();
    assert_eq!(tick.0, 1);
    let mut tick = FallingSandTick(u32::MAX / 2 - 1);
    tick.advance();
    assert_eq!(tick.0, 0);
}

#[test]
fn sand_falls_into_air() {
    let mut grid = Voxels::new();
    grid.set_voxel(ivec3(5, 5, 5), Voxel::Sand);
    simulate_semisolid(&mut grid, ivec3(5, 5, 5), Voxel::Sand, &FallingSandTick(0));
    assert_eq!(grid.get_voxel(ivec3(5, 4, 5)), Voxel::Sand);
    assert_eq!(grid.get_voxel(ivec3(5, 5, 5)), Voxel::Air);
}

#[test]
fn sand_slides_diagonally() {
    let mut grid = Voxels::new();
    grid.set_voxel(ivec3(5, 5, 5), Voxel::Sand);
    grid.set_voxel(ivec3(5, 4, 5), Voxel::Stone);
    simulate_semisolid(&mut grid, ivec3(5, 5, 5), Voxel::Sand, &FallingSandTick(0));
    // the first diagonal tried is +x
    assert_eq!(grid.get_voxel(ivec3(6, 4, 5)), Voxel::Sand);
    assert_eq!(grid.get_voxel(ivec3(5, 5, 5)), Voxel::Air);
}

#[test]
fn liquid_spreads_by_tick() {
    let mut grid = Voxels::new();
    grid.set_voxel(ivec3(5, 5, 5), Voxel::Water);
    for dx in -1..=1 {
        for dz in -1..=1 {
            grid.set_voxel(ivec3(5 + dx, 4, 5 + dz), Voxel::Stone);
        }
    }
    // tick 4: the cycle starts at the fifth place, the side at -x
    simulate_liquid(&mut grid, ivec3(5, 5, 5), Voxel::Water, &FallingSandTick(4));
    assert_eq!(grid.get_voxel(ivec3(4, 5, 5)), Voxel::Water);
    assert_eq!(grid.get_voxel(ivec3(5, 5, 5)), Voxel::Air);
}

#[test]
fn oil_floats_on_water() {
    let mut grid = Voxels::new();
    grid.set_voxel(ivec3(5, 5, 5), Voxel::Water);
    grid.set_voxel(ivec3(5, 4, 5), Voxel::Oil);
    simulate_liquid(&mut grid, ivec3(5, 5, 5), Voxel::Water, &FallingSandTick(0));
    assert_eq!(grid.get_voxel(ivec3(5, 4, 5)), Voxel::Water);
    assert_eq!(grid.get_voxel(ivec3(5, 5, 5)), Voxel::Oil);
}

#[test]
fn dirt_needs_support_to_fall() {
    let mut grid = Voxels::new();
    grid.set_voxel(ivec3(5, 5, 5), Voxel::Dirt);
    simulate_structured(&mut grid, ivec3(5, 5, 5), Voxel::Dirt, &FallingSandTick(0));
    // no neighbour holds it: it stays
    assert_eq!(grid.get_voxel(ivec3(5, 5, 5)), Voxel::Dirt);
    grid.set_voxel(ivec3(6, 5, 5), Voxel::Stone);
    simulate_structured(&mut grid, ivec3(5, 5, 5), Voxel::Dirt, &FallingSandTick(0));
    assert_eq!(grid.get_voxel(ivec3(5, 4, 5)), Voxel::Dirt);
    assert_eq!(grid.get_voxel(ivec3(5, 5, 5)), Voxel::Air);
}

#[test]
fn falling_sands_step() {
    let mut grid = Voxels::new();
    grid.set_voxel(ivec3(5, 5, 5), Voxel::Sand);
    let mut tick = FallingSandTick(0);
    let mut grids = vec![grid];
    falling_sands(&mut grids, &mut tick);
    assert_eq!(tick.0, 1);
    assert_eq!(grids[0].get_voxel(ivec3(5, 4, 5)), Voxel::Sand);
    assert_eq!(grids[0].get_voxel(ivec3(5, 5, 5)), Voxel::Air);
    // the move queued the new neighbourhoods; the next step moves it again
    falling_sands(&mut grids, &mut tick);
    assert_eq!(grids[0].get_voxel(ivec3(5, 3, 5)), Voxel::Sand);
}

#[test]
fn falling_sands_is_deterministic() {
    let build = || {
        let mut grid = Voxels::new();
        for x in 0..4 {
            grid.set_voxel(ivec3(x, 10, 0), Voxel::Sand);
            grid.set_voxel(ivec3(x, 12, 0), Voxel::Water);
        }
        grid
    };
    let mut a = build();
    let mut b = build();
    for t in 0..6 {
        falling_sands_grid(&mut a, &FallingSandTick(t));
        falling_sands_grid(&mut b, &FallingSandTick(t));
    }
    assert_eq!(a.diff(&b, 10).len(), 0);
}

fn count_kinds(grid: &Voxels) -> [usize; 4] {
    let mut counts = [0usize; 4];
    for x in -12..16 {
        for y in -10..16 {
            for z in -12..12 {
                match grid.get_voxel(ivec3(x, y, z)) {
                    Voxel::Sand => counts[0] += 1,
                    Voxel::Water => counts[1] += 1,
                    Voxel::Oil => counts[2] += 1,
                    Voxel::Dirt => counts[3] += 1,
                    _ => {}
                }
            }
        }
    }
    counts
}

#[test]
fn falling_sands_keeps_every_voxel() {
    let mut grid = Voxels::new();
    for x in 0..4 {
        grid.set_voxel(ivec3(x, 6, 0), Voxel::Sand);
        grid.set_voxel(ivec3(x, 8, 0), Voxel::Water);
        grid.set_voxel(ivec3(x, 9, 0), Voxel::Oil);
    }
    grid.set_voxel(ivec3(2, 3, 0), Voxel::Dirt);
    grid.set_voxel(ivec3(3, 3, 0), Voxel::Stone);
    let before = count_kinds(&grid);
    assert_eq!(before, [4, 4, 4, 1]);
    for t in 0..8 {
        falling_sands_grid(&mut grid, &FallingSandTick(t));
        assert_eq!(count_kinds(&grid), before);
    }
}
