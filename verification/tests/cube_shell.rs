use playform::block_position::BlockPosition;
use playform::cube_shell::{cube_diff, cube_shell, cube_shell_area};
use std::collections::HashSet;

#[test]
// Check that the surface area is correct for a few different shells.
fn test_surface_area() {
    let centers = [BlockPosition::new(0, 0, 0), BlockPosition::new(2, 1, -4)];
    for center in centers.iter() {
        for radius in 1..5 {
            assert_eq!(cube_shell(center, radius as i32).len() as u32, cube_shell_area(radius));
        }
    }
}

#[test]
fn test_simple_shell() {
    let center = BlockPosition::new(2, 0, -3);
    let radius = 1;

    let offsets = [
        (0, 0, 1),
        (0, 0, -1),
        (0, 1, 0),
        (0, 1, 1),
        (0, 1, -1),
        (0, -1, 0),
        (0, -1, 1),
        (0, -1, -1),
        (1, 0, 0),
        (1, 0, 1),
        (1, 0, -1),
        (1, 1, 0),
        (1, 1, 1),
        (1, 1, -1),
        (1, -1, 0),
        (1, -1, 1),
        (1, -1, -1),
        (-1, 0, 0),
        (-1, 0, 1),
        (-1, 0, -1),
        (-1, 1, 0),
        (-1, 1, 1),
        (-1, 1, -1),
        (-1, -1, 0),
        (-1, -1, 1),
        (-1, -1, -1),
    ];
    let expected: HashSet<BlockPosition> = offsets
        .iter()
        .map(|&(x, y, z)| BlockPosition::new(x + center.x, y + center.y, z + center.z))
        .collect();

    assert_eq!(expected, cube_shell(&center, radius).into_iter().collect());
}

#[test]
fn cube_shell_of_radius_zero_is_the_center() {
    let c = BlockPosition::new(5, -6, 7);
    assert_eq!(cube_shell(&c, 0), vec![c]);
    assert_eq!(cube_shell_area(0), 1);
}

#[test]
fn cube_shell_order_and_distinctness() {
    let c = BlockPosition::new(0, 0, 0);
    let shell = cube_shell(&c, 2);
    assert_eq!(shell.len(), 98);
    assert_eq!(cube_shell_area(2), 98);
    // x faces first, with y and z in the order 0, 1, -1, 2, -2
    assert_eq!(shell[0], BlockPosition::new(-2, 0, 0));
    assert_eq!(shell[1], BlockPosition::new(-2, 0, 1));
    assert_eq!(shell[2], BlockPosition::new(-2, 0, -1));
    let set: HashSet<BlockPosition> = shell.iter().cloned().collect();
    assert_eq!(set.len(), shell.len());
    for p in shell.iter() {
        let d = p.x.abs().max(p.y.abs()).max(p.z.abs());
        assert_eq!(d, 2);
    }
}

#[test]
fn cube_diff_covers_the_blocks_that_leave() {
    let from = BlockPosition::new(0, 0, 0);
    let to = BlockPosition::new(3, 0, 0);
    let r = 2;
    let diff: HashSet<BlockPosition> = cube_diff(&from, &to, r).into_iter().collect();
    for x in -r..=r {
        for y in -r..=r {
            for z in -r..=r {
                let p = BlockPosition::new(x, y, z);
                let outside_to = (x - to.x).abs() > r || (y - to.y).abs() > r || (z - to.z).abs() > r;
                if outside_to {
                    assert!(diff.contains(&p));
                }
            }
        }
    }
    for p in diff.iter() {
        assert!(p.x.abs() <= r && p.y.abs() <= r && p.z.abs() <= r);
    }
}

#[test]
fn cube_diff_exact_slabs() {
    let from = BlockPosition::new(0, 0, 0);
    let to = BlockPosition::new(1, 0, 0);
    // x slab: x in [-1, 0]; y slab: from.y == to.y so y in [max(-1, 1), 1] = [1]; z likewise.
    let diff = cube_diff(&from, &to, 1);
    assert_eq!(diff.len(), 2 * 3 * 3 + 3 * 1 * 3 + 3 * 3 * 1);
    assert_eq!(diff[0], BlockPosition::new(-1, -1, -1));
    assert_eq!(diff[18], BlockPosition::new(-1, 1, -1));
}

#[test]
fn block_position_keys_differ() {
    let a = BlockPosition::new(1, 2, 3);
    let b = BlockPosition::new(1, 3, 2);
    assert_ne!(a.key(), b.key());
    assert_eq!(a.key(), BlockPosition::new(1, 2, 3).key());
}

#[test]
fn cube_diff_of_negative_radius_is_empty() {
    let a = playform::block_position::BlockPosition::new(0, 0, 0);
    let b = playform::block_position::BlockPosition::new(5, 0, 0);
    assert!(playform::cube_shell::cube_diff(&a, &b, -1).is_empty());
}
