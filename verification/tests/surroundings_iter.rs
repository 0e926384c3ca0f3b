use playform::block_position::BlockPosition;
use playform::cube_shell::cube_shell_area;
use playform::surroundings_iter::SurroundingsIter;
use playform::surroundings_loader::radius_between;

#[test]
fn shell_ordering() {
    let center = BlockPosition::new(-1, 2, 3);
    let max_distance = 4;
    let mut iter = SurroundingsIter::new(center, max_distance);

    for distance in 0..=max_distance {
        for _ in 0..cube_shell_area(distance) {
            let block_posn = iter.next().unwrap();
            assert_eq!(radius_between(&center, &block_posn), distance);
        }
    }

    assert!(iter.next().is_none());
}

#[test]
fn surroundings_distance_moves_on_after_each_shell() {
    let center = BlockPosition::new(0, 0, 0);
    let mut iter = SurroundingsIter::new(center, 1);
    assert_eq!(iter.next(), Some(center));
    assert_eq!(iter.next_distance, 1);
    for _ in 0..26 {
        assert!(iter.next().is_some());
        assert_eq!(iter.next_distance, 1);
    }
    assert_eq!(iter.next(), None);
}

#[test]
fn surroundings_with_negative_max_yield_the_center_only() {
    let center = BlockPosition::new(4, 4, 4);
    let mut iter = SurroundingsIter::new(center, -1);
    assert_eq!(iter.next(), Some(center));
    assert_eq!(iter.next(), None);
}
