use arch::math::IVec3;
use arch::voxel::mesh::queue::{MeshQueue, PER_FRAME};

fn c(x: i32) -> IVec3 {
    IVec3::new(x, 0, 0)
}

#[test]
fn queue_dedups_changed_chunks() {
    let mut queue = MeshQueue::new();
    queue.push_changed(1, &[c(0), c(1), c(0)]);
    queue.push_changed(2, &[c(0)]);
    queue.push_changed(1, &[c(1), c(2)]);
    assert!(queue.contains(1, c(2)));
    assert!(!queue.contains(2, c(1)));
    assert_eq!(queue.pop_batch(), vec![(1, c(0)), (1, c(1)), (2, c(0)), (1, c(2))]);
    assert_eq!(queue.pop_batch(), vec![]);
    // Once taken, a chunk can be queued again.
    queue.push_changed(1, &[c(0)]);
    assert_eq!(queue.pop_batch(), vec![(1, c(0))]);
}

#[test]
fn queue_batches_per_frame() {
    let mut queue = MeshQueue::new();
    let changed: Vec<IVec3> = (0..40).map(c).collect();
    queue.push_changed(7, &changed);
    let first = queue.pop_batch();
    assert_eq!(first.len(), PER_FRAME);
    assert_eq!(first[0], (7, c(0)));
    assert_eq!(first[15], (7, c(15)));
    assert_eq!(queue.pop_batch().len(), PER_FRAME);
    let last = queue.pop_batch();
    assert_eq!(last, (32..40).map(|x| (7, c(x))).collect::<Vec<_>>());
}
