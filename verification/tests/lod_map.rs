use playform::block_position::BlockPosition;
use playform::lod_map::{LODChange, LODMap, OwnerId, LOD};
use std::cmp::Ordering;

#[test]
fn lod_order() {
    assert_eq!(LOD::Placeholder.cmp(&LOD::LodIndex(3)), Ordering::Less);
    assert_eq!(LOD::LodIndex(0).cmp(&LOD::LodIndex(3)), Ordering::Greater);
    assert_eq!(LOD::LodIndex(3).cmp(&LOD::LodIndex(3)), Ordering::Equal);
    assert!(LOD::LodIndex(1) < LOD::LodIndex(0));
    assert!(LOD::Placeholder <= LOD::Placeholder);
    assert_eq!(LOD::LodIndex(2).partial_cmp(&LOD::Placeholder), Some(Ordering::Greater));
}

#[test]
fn increase_on_new_block() {
    let mut m = LODMap::new();
    let p = BlockPosition::new(1, 2, 3);
    let r = m.increase_lod(p, LOD::LodIndex(2), OwnerId(0));
    assert_eq!(r, (None, Some(LODChange { desired: Some(LOD::LodIndex(2)), loaded: None })));
}

#[test]
fn increase_by_second_owner_to_more_detail() {
    let mut m = LODMap::new();
    let p = BlockPosition::new(0, 0, 0);
    m.increase_lod(p, LOD::LodIndex(2), OwnerId(0));
    // a less detailed request changes nothing that is loaded
    assert_eq!(m.increase_lod(p, LOD::Placeholder, OwnerId(1)), (None, None));
    // a more detailed one does
    assert_eq!(
        m.increase_lod(p, LOD::LodIndex(0), OwnerId(1)),
        (
            Some(LOD::Placeholder),
            Some(LODChange { desired: Some(LOD::LodIndex(0)), loaded: Some(LOD::LodIndex(2)) })
        )
    );
    // not an increase for that owner
    assert_eq!(m.increase_lod(p, LOD::LodIndex(1), OwnerId(1)), (None, None));
}

#[test]
fn decrease_falls_back_to_other_owner() {
    let mut m = LODMap::new();
    let p = BlockPosition::new(5, 5, 5);
    m.increase_lod(p, LOD::LodIndex(3), OwnerId(0));
    m.increase_lod(p, LOD::LodIndex(1), OwnerId(1));
    assert_eq!(
        m.decrease_lod(p, None, OwnerId(1)),
        (Some(LOD::LodIndex(1)), Some(LODChange { desired: Some(LOD::LodIndex(3)), loaded: Some(LOD::LodIndex(1)) }))
    );
    assert_eq!(
        m.decrease_lod(p, None, OwnerId(0)),
        (Some(LOD::LodIndex(3)), Some(LODChange { desired: None, loaded: Some(LOD::LodIndex(3)) }))
    );
}

#[test]
fn decrease_edge_cases() {
    let mut m = LODMap::new();
    let p = BlockPosition::new(0, 1, 0);
    assert_eq!(m.decrease_lod(p, None, OwnerId(0)), (None, None));
    m.increase_lod(p, LOD::LodIndex(1), OwnerId(0));
    // unknown owner
    assert_eq!(m.decrease_lod(p, None, OwnerId(9)), (None, None));
    // not a decrease
    assert_eq!(m.decrease_lod(p, Some(LOD::LodIndex(0)), OwnerId(0)), (None, None));
    // a real decrease
    assert_eq!(
        m.decrease_lod(p, Some(LOD::LodIndex(4)), OwnerId(0)),
        (
            Some(LOD::LodIndex(1)),
            Some(LODChange { desired: Some(LOD::LodIndex(4)), loaded: Some(LOD::LodIndex(1)) })
        )
    );
}

#[test]
fn owner_id_arithmetic() {
    assert_eq!(OwnerId(3) + 4, OwnerId(7));
    assert_eq!(OwnerId::default(), OwnerId(0));
}

#[test]
fn sole_request_withdrawn_unloads() {
    let mut m = LODMap::new();
    let p = BlockPosition::new(-7, 0, 2);
    assert_eq!(
        m.increase_lod(p, LOD::Placeholder, OwnerId(4)),
        (None, Some(LODChange { desired: Some(LOD::Placeholder), loaded: None }))
    );
    assert_eq!(
        m.decrease_lod(p, None, OwnerId(4)),
        (Some(LOD::Placeholder), Some(LODChange { desired: None, loaded: Some(LOD::Placeholder) }))
    );
    // nothing is left to withdraw
    assert_eq!(m.decrease_lod(p, None, OwnerId(4)), (None, None));
}

#[test]
fn withdrawing_a_less_detailed_request_returns_it_and_changes_nothing_loaded() {
    let mut m = LODMap::new();
    let p = BlockPosition::new(3, 3, 3);
    m.increase_lod(p, LOD::LodIndex(2), OwnerId(0));
    m.increase_lod(p, LOD::LodIndex(3), OwnerId(1));
    assert_eq!(m.decrease_lod(p, None, OwnerId(1)), (Some(LOD::LodIndex(3)), None));
}
