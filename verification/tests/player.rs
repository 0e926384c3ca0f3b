use playform::client::{block_changes, capped_load_distance, MAX_LOAD_DISTANCE};
use playform::block_position::BlockPosition;
use playform::cube_shell::cube_diff;
use playform::lod_map::LOD;
use playform::player::{load_distance, lod_index, solid_boundary_lod, surroundings_lod};

#[test]
fn lod_index_thresholds() {
    assert_eq!(lod_index(0), 0);
    assert_eq!(lod_index(1), 0);
    assert_eq!(lod_index(2), 1);
    assert_eq!(lod_index(8), 1);
    assert_eq!(lod_index(9), 2);
    assert_eq!(lod_index(32), 2);
    assert_eq!(lod_index(33), 3);
    assert_eq!(lod_index(1000), 3);
}

#[test]
fn load_distance_values() {
    assert_eq!(load_distance(-5), 0);
    assert_eq!(load_distance(0), 0);
    assert_eq!(load_distance(255), 0);
    assert_eq!(load_distance(256), 1);
    // second layer: 8 * 1 * 256
    assert_eq!(load_distance(256 + 2048 - 1), 1);
    assert_eq!(load_distance(256 + 2048), 2);
    // third layer at distance 2: 8 * 2 * 64
    assert_eq!(load_distance(256 + 2048 + 1024), 3);
    assert!(load_distance(i32::MAX) > 33);
}

#[test]
fn client_load_distance_is_capped() {
    assert_eq!(capped_load_distance(i32::MAX), MAX_LOAD_DISTANCE);
    assert_eq!(capped_load_distance(256), 1);
}

#[test]
fn client_block_changes_concatenate_diffs() {
    let a = BlockPosition::new(0, 0, 0);
    let b = BlockPosition::new(1, 0, 0);
    let v = block_changes(&a, &b, 2);
    let mut expected = Vec::new();
    for r in [1, 8, 32, 2] {
        expected.extend(cube_diff(&a, &b, r));
    }
    assert_eq!(v, expected);
}

#[test]
fn player_lod_functions() {
    assert_eq!(surroundings_lod(5), LOD::LodIndex(1));
    assert_eq!(solid_boundary_lod(5), LOD::Placeholder);
}

#[test]
fn negative_distances_are_most_detailed() {
    assert_eq!(playform::player::lod_index(-5), 0);
    assert_eq!(playform::player::surroundings_lod(-1), playform::lod_map::LOD::LodIndex(0));
}
