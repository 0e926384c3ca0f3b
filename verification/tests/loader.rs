use playform::block_position::BlockPosition;
use playform::lod_map::{OwnerId, LOD};
use playform::surroundings_loader::{radius_between, LODChange, SurroundingsLoader};

#[test]
fn radius_between_is_max_norm() {
    let a = BlockPosition::new(1, -2, 3);
    let b = BlockPosition::new(-1, 4, 2);
    assert_eq!(radius_between(&a, &b), 6);
    assert_eq!(radius_between(&a, &a), 0);
}

#[test]
fn loader_first_update_loads_everything() {
    let mut l = SurroundingsLoader::new(
        OwnerId(7),
        1,
        |d: i32| LOD::LodIndex(d as u32),
        |_a: BlockPosition, _b: BlockPosition| Vec::new(),
    );
    let c = BlockPosition::new(0, 0, 0);
    let mut changes = Vec::new();
    loop {
        let more = l.update(c);
        if more.is_empty() {
            break;
        }
        changes.extend(more);
    }
    assert_eq!(changes.len(), 27);
    // the center first; the distance moved on once it was yielded
    assert_eq!(changes[0], LODChange::Increase(c, LOD::LodIndex(1), OwnerId(7)));
    for ch in changes.iter() {
        match ch {
            LODChange::Increase(_, _, o) => assert_eq!(*o, OwnerId(7)),
            LODChange::Decrease(..) => panic!("no decrease expected"),
        }
    }
}

#[test]
fn loader_step_rechecks_first() {
    let mut l = SurroundingsLoader::new(
        OwnerId(1),
        1,
        |_d: i32| LOD::Placeholder,
        |_a: BlockPosition, b: BlockPosition| vec![BlockPosition::new(b.x + 5, b.y, b.z), b],
    );
    let p0 = BlockPosition::new(0, 0, 0);
    let p1 = BlockPosition::new(1, 0, 0);
    l.begin(p0);
    l.begin(p1);
    let far = BlockPosition::new(6, 0, 0);
    assert_eq!(l.step(p1), Some(LODChange::Decrease(far, None, OwnerId(1))));
    assert_eq!(l.step(p1), Some(LODChange::Decrease(p1, Some(LOD::Placeholder), OwnerId(1))));
    assert_eq!(l.step(p1), Some(LODChange::Increase(p1, LOD::Placeholder, OwnerId(1))));
}
