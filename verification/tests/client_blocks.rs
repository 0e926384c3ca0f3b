use playform::block_position::BlockPosition;
use playform::client::{client_action, ClientAction, LoadedBlocks, TerrainUpdate};
use playform::lod_map::{OwnerId, LOD};
use playform::surroundings_loader::LODChange;
use playform::state::EntityId;

#[test]
fn first_block_at_a_position_is_only_added() {
    let mut blocks = LoadedBlocks::new();
    let p = BlockPosition::new(1, -2, 3);
    let updates = blocks.add_block(p, vec![EntityId(7), EntityId(8)], 2);
    assert_eq!(updates, vec![TerrainUpdate::AddBlock(p, 2)]);
}

#[test]
fn replaced_block_is_taken_out_first() {
    let mut blocks = LoadedBlocks::new();
    let p = BlockPosition::new(0, 0, 0);
    let q = BlockPosition::new(0, 0, 1);
    blocks.add_block(p, vec![EntityId(1), EntityId(2)], 3);
    blocks.add_block(q, vec![EntityId(5)], 0);
    let updates = blocks.add_block(p, vec![EntityId(9)], 1);
    assert_eq!(
        updates,
        vec![
            TerrainUpdate::RemoveTerrain(EntityId(1)),
            TerrainUpdate::RemoveTerrain(EntityId(2)),
            TerrainUpdate::RemoveBlockData(p, 3),
            TerrainUpdate::AddBlock(p, 1),
        ]
    );
    let updates = blocks.add_block(p, vec![], 0);
    assert_eq!(
        updates,
        vec![
            TerrainUpdate::RemoveTerrain(EntityId(9)),
            TerrainUpdate::RemoveBlockData(p, 1),
            TerrainUpdate::AddBlock(p, 0),
        ]
    );
    let updates = blocks.add_block(q, vec![], 0);
    assert_eq!(
        updates,
        vec![
            TerrainUpdate::RemoveTerrain(EntityId(5)),
            TerrainUpdate::RemoveBlockData(q, 0),
            TerrainUpdate::AddBlock(q, 0),
        ]
    );
}

#[test]
fn unloading_takes_out_what_was_added() {
    let mut blocks = LoadedBlocks::new();
    let p = BlockPosition::new(4, 5, 6);
    assert_eq!(blocks.unload_block(p), vec![]);
    blocks.add_block(p, vec![EntityId(3), EntityId(4)], 2);
    assert_eq!(
        blocks.unload_block(p),
        vec![
            TerrainUpdate::RemoveTerrain(EntityId(3)),
            TerrainUpdate::RemoveTerrain(EntityId(4)),
            TerrainUpdate::RemoveBlockData(p, 2),
        ]
    );
    assert_eq!(blocks.unload_block(p), vec![]);
    assert_eq!(blocks.add_block(p, vec![], 1), vec![TerrainUpdate::AddBlock(p, 1)]);
}

#[test]
fn load_changes_become_requests_or_unloads() {
    let p = BlockPosition::new(1, 2, 3);
    assert_eq!(
        client_action(LODChange::Increase(p, LOD::LodIndex(2), OwnerId(0))),
        ClientAction::RequestBlock(p, 2)
    );
    assert_eq!(
        client_action(LODChange::Decrease(p, Some(LOD::LodIndex(3)), OwnerId(0))),
        ClientAction::RequestBlock(p, 3)
    );
    assert_eq!(client_action(LODChange::Decrease(p, None, OwnerId(0))), ClientAction::Unload(p));
}
