use arch::math::IVec3;
use arch::voxel::voxel_aabb::VoxelAabb;

fn bx(min: (i32, i32, i32), max: (i32, i32, i32)) -> VoxelAabb {
    VoxelAabb { min: IVec3::new(min.0, min.1, min.2), max: IVec3::new(max.0, max.1, max.2) }
}

fn covers(list: &[VoxelAabb], x: i32, y: i32, z: i32) -> usize {
    list.iter()
        .filter(|b| b.min.x <= x && x <= b.max.x && b.min.y <= y && y <= b.max.y && b.min.z <= z && z <= b.max.z)
        .count()
}

#[test]
fn volume() {
    let a = VoxelAabb::from_size(IVec3::new(0, 0, 0), IVec3::new(3, 3, 3));
    assert_eq!(a.volume(), 27);

    let b = VoxelAabb::from_size(IVec3::new(1, 1, 1), IVec3::new(1, 1, 1));
    assert_eq!(b.volume(), 1);

    let c = VoxelAabb::from_size(IVec3::new(2, 2, 2), IVec3::new(0, 0, 0));
    assert_eq!(c.volume(), 0); // zero-size box
}

#[test]
fn overlap_true_simple() {
    let a = VoxelAabb::from_size(IVec3::new(0, 0, 0), IVec3::new(3, 3, 3));
    let b = VoxelAabb::from_size(IVec3::new(2, 2, 2), IVec3::new(3, 3, 3));

    assert!(a.overlaps(&b));
}

#[test]
fn overlap_true_on_edge() {
    let a = VoxelAabb::from_size(IVec3::new(0, 0, 0), IVec3::new(2, 2, 2));
    let b = VoxelAabb::from_size(IVec3::new(1, 1, 1), IVec3::new(2, 2, 2));

    assert!(a.overlaps(&b)); // touching at corner
}

#[test]
fn overlap_false_apart() {
    let a = VoxelAabb::from_size(IVec3::new(0, 0, 0), IVec3::new(2, 2, 2));
    let b = VoxelAabb::from_size(IVec3::new(5, 5, 5), IVec3::new(1, 1, 1));

    assert!(!a.overlaps(&b));
}

#[test]
fn intersection_some() {
    let a = VoxelAabb::from_size(IVec3::new(0, 0, 0), IVec3::new(3, 3, 3));
    let b = VoxelAabb::from_size(IVec3::new(2, 2, 2), IVec3::new(3, 3, 3));

    let expected = VoxelAabb { min: IVec3::new(2, 2, 2), max: IVec3::new(2, 2, 2) };

    assert_eq!(a.intersection(&b), Some(expected));
}

#[test]
fn intersection_none() {
    let a = VoxelAabb::from_size(IVec3::new(0, 0, 0), IVec3::new(2, 2, 2));
    let b = VoxelAabb::from_size(IVec3::new(5, 5, 5), IVec3::new(1, 1, 1));

    assert_eq!(a.intersection(&b), None);
}

#[test]
fn full_containment() {
    let outer = VoxelAabb::from_size(IVec3::new(0, 0, 0), IVec3::new(5, 5, 5));
    let inner = VoxelAabb::from_size(IVec3::new(1, 1, 1), IVec3::new(3, 3, 3));

    assert!(outer.overlaps(&inner));
    assert_eq!(outer.intersection(&inner), Some(inner));
}

#[test]
fn subtract_covers_difference() {
    let a = bx((0, 0, 0), (4, 4, 4));
    let b = bx((1, 1, 1), (2, 2, 2));
    let pieces = a.subtract(&b);
    assert_eq!(pieces.len(), 6);
    for x in -1..6 {
        for y in -1..6 {
            for z in -1..6 {
                let in_a = 0 <= x && x <= 4 && 0 <= y && y <= 4 && 0 <= z && z <= 4;
                let in_b = 1 <= x && x <= 2 && 1 <= y && y <= 2 && 1 <= z && z <= 2;
                let expected = if in_a && !in_b { 1 } else { 0 };
                assert_eq!(covers(&pieces, x, y, z), expected);
            }
        }
    }
    let apart = bx((10, 10, 10), (11, 11, 11));
    assert_eq!(a.subtract(&apart), vec![a]);
}

#[test]
fn remove_overlaps_keeps_coverage() {
    let list = vec![bx((0, 0, 0), (3, 3, 3)), bx((2, 2, 2), (5, 5, 5)), bx((1, 0, 0), (1, 0, 0))];
    let result = VoxelAabb::remove_overlaps(list.clone());
    for x in -1..7 {
        for y in -1..7 {
            for z in -1..7 {
                let before = covers(&list, x, y, z) > 0;
                let after = covers(&result, x, y, z);
                assert_eq!(after, if before { 1 } else { 0 });
            }
        }
    }
}

#[test]
fn merge_unions_neighbours() {
    let a = bx((0, 0, 0), (1, 1, 1));
    let b = bx((0, 2, 0), (1, 3, 1));
    assert!(a.can_merge_y(&b));
    assert!(a.can_merge(&b));
    assert_eq!(a.merge(&b), bx((0, 0, 0), (1, 3, 1)));
    let c = bx((2, 0, 0), (3, 1, 1));
    assert!(!a.can_merge_y(&c));
    assert!(a.can_merge(&c));
}

#[test]
fn merge_adjacent_passes() {
    // the last box merges with an earlier one: the pass keeps nothing taken
    // before it, and the next pass has nothing left
    let list = vec![bx((0, 0, 0), (1, 1, 1)), bx((5, 5, 5), (6, 6, 6)), bx((0, 2, 0), (1, 3, 1))];
    assert_eq!(VoxelAabb::merge_adjacent(list.clone()), vec![]);
    assert_eq!(VoxelAabb::merge_adjacent_y_priority(list), vec![]);

    // no box merges: the list comes back reversed
    let apart = vec![bx((0, 0, 0), (1, 1, 1)), bx((5, 5, 5), (6, 6, 6))];
    assert_eq!(VoxelAabb::merge_adjacent(apart.clone()), vec![apart[1], apart[0]]);

    // a box that merges along x only is kept apart by the y pass
    let xs = vec![bx((0, 0, 0), (1, 1, 1)), bx((2, 0, 0), (3, 1, 1))];
    assert_eq!(VoxelAabb::merge_adjacent_y_priority(xs.clone()), vec![xs[1], xs[0]]);
    assert_eq!(VoxelAabb::merge_adjacent(xs), vec![]);

    // only the boxes taken before the merging one survive the pass
    let mixed = vec![bx((0, 0, 0), (1, 1, 1)), bx((0, 2, 0), (1, 3, 1)), bx((9, 9, 9), (9, 9, 9))];
    assert_eq!(VoxelAabb::merge_adjacent(mixed), vec![bx((9, 9, 9), (9, 9, 9))]);
}

#[test]
fn subtract_pieces_in_order() {
    // A corner overlap: pieces come below in z, then in front in y, then left in x.
    let a = bx((0, 0, 0), (3, 3, 3));
    let b = bx((2, 2, 2), (5, 5, 5));
    let pieces = a.subtract(&b);
    assert_eq!(
        pieces,
        vec![bx((0, 0, 0), (3, 3, 1)), bx((0, 0, 2), (3, 1, 3)), bx((0, 2, 2), (1, 3, 3))]
    );
}

#[test]
fn inverted_box_holds_no_voxels() {
    let inverted = VoxelAabb::new(IVec3::new(0, 0, 0), IVec3::new(-2, -2, 0));
    assert_eq!(inverted.volume(), 0);
}

#[test]
fn contains_point_includes_max() {
    let a = VoxelAabb::new(IVec3::new(0, 0, 0), IVec3::new(2, 2, 2));
    assert!(a.contains_point(IVec3::new(2, 2, 2)));
    assert!(a.contains_point(IVec3::new(0, 0, 0)));
    assert!(!a.contains_point(IVec3::new(3, 0, 0)));
    assert!(!a.contains_point(IVec3::new(-1, 0, 0)));
}

#[test]
fn merge_adds_volumes() {
    let a = bx((0, 0, 0), (1, 1, 1));
    let b = bx((0, 2, 0), (1, 4, 1));
    let merged = a.merge(&b);
    assert_eq!(merged.volume(), a.volume() + b.volume());
    assert_eq!(merged.volume(), 20);
}

#[test]
fn subtract_removes_the_overlap_volume() {
    let a = bx((0, 0, 0), (3, 3, 3));
    let b = bx((2, 2, 2), (5, 5, 5));
    let overlap = a.intersection(&b).unwrap();
    let pieces = a.subtract(&b);
    let total: i32 = pieces.iter().map(|p| p.volume()).sum();
    assert_eq!(total, a.volume() - overlap.volume());
    assert_eq!(total, 64 - 8);
}

#[test]
fn remove_overlaps_keeps_the_first_box_and_cuts_within_the_others() {
    let list = vec![bx((0, 0, 0), (3, 3, 3)), bx((2, 2, 2), (5, 5, 5)), bx((-2, 1, 1), (0, 2, 2))];
    let result = VoxelAabb::remove_overlaps(list.clone());
    assert_eq!(result[0], list[0]);
    for piece in &result {
        assert!(list.iter().any(|b| piece.fits_inside(b)));
    }
}
