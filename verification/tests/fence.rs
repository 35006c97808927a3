use arch::proc_mesh::fence::{board_pairs, ring_neighbours};

#[test]
fn posts_turn_between_their_neighbours() {
    assert_eq!(ring_neighbours(4, 0), (3, 1));
    assert_eq!(ring_neighbours(4, 2), (1, 3));
    assert_eq!(ring_neighbours(4, 3), (2, 0));
    assert_eq!(ring_neighbours(1, 0), (0, 0));
}

#[test]
fn boards_join_neighbouring_posts() {
    assert_eq!(board_pairs(4, false), vec![(0, 1), (1, 2), (2, 3)]);
    assert_eq!(board_pairs(4, true), vec![(3, 0), (0, 1), (1, 2), (2, 3)]);
    assert_eq!(board_pairs(1, true), vec![(0, 0)]);
    assert_eq!(board_pairs(1, false), vec![]);
    assert_eq!(board_pairs(0, true), vec![]);
}
