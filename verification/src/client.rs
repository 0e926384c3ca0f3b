//! The load distance of a client and the blocks it checks again when it
//! moves.
use vstd::prelude::*;
use std::collections::HashMap;
use crate::block_position::{BlockPosition, position_key, position_key_injective};
use crate::state::EntityId;
use crate::lod_map::LOD;
use crate::surroundings_loader::LODChange;
use crate::cube_shell::{cube_diff, cube_diff_seq, reach_fits};
use crate::player::{load_distance, load_cost, load_cost_monotonic, LOD_THRESHOLDS};

verus! {

broadcast use vstd::std_specs::hash::group_hash_axioms;

/// The farthest a client loads, whatever its polygon budget allows.
pub const MAX_LOAD_DISTANCE: i32 = 80;

/// The load distance of a client with a polygon budget: the one the budget
/// allows, capped at `MAX_LOAD_DISTANCE`.
pub fn capped_load_distance(polygon_budget: i32) -> (d: i32)
    ensures
        0 <= d <= MAX_LOAD_DISTANCE,
        d == 0 || load_cost(d as int) <= polygon_budget,
        d < MAX_LOAD_DISTANCE ==> load_cost(d + 1) > polygon_budget,
{
    let load_distance = load_distance(polygon_budget);
    if load_distance > MAX_LOAD_DISTANCE {
        proof {
            load_cost_monotonic(MAX_LOAD_DISTANCE as int, load_distance as int);
        }
        MAX_LOAD_DISTANCE
    } else {
        load_distance
    }
}

/// The blocks a client checks again when it moves from `last` to `cur`:
/// those that leave the cube of each level-of-detail threshold, then those
/// that leave the cube of the load distance.
pub fn block_changes(last: &BlockPosition, cur: &BlockPosition, load_distance: i32) -> (v: Vec<
    BlockPosition,
>)
    requires
        0 <= load_distance,
        reach_fits(*last, if load_distance > 32 { load_distance as int } else { 32 }),
        reach_fits(*cur, if load_distance > 32 { load_distance as int } else { 32 }),
    ensures
        v@ == cube_diff_seq(*last, *cur, 1) + cube_diff_seq(*last, *cur, 8) + cube_diff_seq(
            *last,
            *cur,
            32,
        ) + cube_diff_seq(*last, *cur, load_distance as int),
{
    let mut vec: Vec<BlockPosition> = Vec::new();
    let mut t: usize = 0;
    while t < 3
        invariant
            0 <= t <= 3,
            LOD_THRESHOLDS == [1i32, 8, 32],
            reach_fits(*last, 32),
            reach_fits(*cur, 32),
            t == 0 ==> vec@ == Seq::<BlockPosition>::empty(),
            t == 1 ==> vec@ == cube_diff_seq(*last, *cur, 1),
            t == 2 ==> vec@ == cube_diff_seq(*last, *cur, 1) + cube_diff_seq(*last, *cur, 8),
            t == 3 ==> vec@ == cube_diff_seq(*last, *cur, 1) + cube_diff_seq(*last, *cur, 8)
                + cube_diff_seq(*last, *cur, 32),
        decreases 3 - t,
    {
        let r = LOD_THRESHOLDS[t];
        let mut d = cube_diff(last, cur, r);
        vec.append(&mut d);
        t = t + 1;
    }
    let mut d = cube_diff(last, cur, load_distance);
    vec.append(&mut d);
    vec
}

/// What a client does about a change of the level of detail its
/// surroundings want for a block.
#[derive(Clone, Copy, Debug, PartialEq, Eq, Structural)]
pub enum ClientAction {
    /// Ask the server for the block at this level of detail.
    RequestBlock(BlockPosition, u32),
    /// Forget the block, as `LoadedBlocks::unload_block` does.
    Unload(BlockPosition),
}

/// The action for a change of level of detail: a block wanted at a level
/// is requested from the server, and a block no longer wanted is unloaded.
/// Clients do not load placeholders.
pub fn client_action(change: LODChange) -> (r: ClientAction)
    requires
        !(change matches LODChange::Increase(_, LOD::Placeholder, _)),
        !(change matches LODChange::Decrease(_, Some(LOD::Placeholder), _)),
    ensures
        change matches LODChange::Increase(p, LOD::LodIndex(l), _) ==> r
            == ClientAction::RequestBlock(p, l),
        change matches LODChange::Decrease(p, Some(LOD::LodIndex(l)), _) ==> r
            == ClientAction::RequestBlock(p, l),
        change matches LODChange::Decrease(p, None, _) ==> r == ClientAction::Unload(p),
{
    match change {
        LODChange::Increase(p, LOD::LodIndex(l), _) => ClientAction::RequestBlock(p, l),
        LODChange::Decrease(p, Some(LOD::LodIndex(l)), _) => ClientAction::RequestBlock(p, l),
        LODChange::Decrease(p, None, _) => ClientAction::Unload(p),
        _ => vstd::pervasive::unreached(),
    }
}

/// What a client tells its view about the terrain blocks it draws.
#[derive(Clone, Copy, Debug, PartialEq, Eq, Structural)]
pub enum TerrainUpdate {
    /// Stop drawing the terrain entity with this id.
    RemoveTerrain(EntityId),
    /// Drop the data of a block at a level of detail.
    RemoveBlockData(BlockPosition, u32),
    /// Draw the block that has just arrived, at a level of detail.
    AddBlock(BlockPosition, u32),
}

/// The updates that take a loaded block out of the view: each of its
/// entities, then its data.
pub open spec fn removal_updates(position: BlockPosition, ids: Seq<EntityId>, lod: u32) -> Seq<
    TerrainUpdate,
> {
    ids.map_values(|id: EntityId| TerrainUpdate::RemoveTerrain(id)).push(
        TerrainUpdate::RemoveBlockData(position, lod),
    )
}

/// The updates that take a loaded block out of the view.
fn removal_updates_of(position: BlockPosition, ids: &Vec<EntityId>, lod: u32) -> (r: Vec<
    TerrainUpdate,
>)
    ensures
        r@ == removal_updates(position, ids@, lod),
{
    let mut updates: Vec<TerrainUpdate> = Vec::new();
    let mut i: usize = 0;
    while i < ids.len()
        invariant
            0 <= i <= ids.len(),
            updates@ == ids@.take(i as int).map_values(|id: EntityId| TerrainUpdate::RemoveTerrain(id)),
        decreases ids.len() - i,
    {
        updates.push(TerrainUpdate::RemoveTerrain(ids[i]));
        i = i + 1;
        proof {
            assert(ids@.take(i as int) == ids@.take(i - 1).push(ids@[i - 1]));
        }
    }
    proof {
        assert(ids@.take(i as int) == ids@);
    }
    updates.push(TerrainUpdate::RemoveBlockData(position, lod));
    updates
}

/// The blocks a client has received, each with the ids of its terrain
/// entities and its level of detail.
pub struct LoadedBlocks {
    blocks: HashMap<u128, (Vec<EntityId>, u32)>,
}

impl LoadedBlocks {
    /// The entities and the level of detail of each loaded block.
    pub closed spec fn view(&self) -> Map<BlockPosition, (Seq<EntityId>, u32)> {
        Map::new(
            |p: BlockPosition| self.blocks@.contains_key(position_key(p)),
            |p: BlockPosition|
                (self.blocks@[position_key(p)].0@, self.blocks@[position_key(p)].1),
        )
    }

    /// No block is loaded.
    pub fn new() -> (t: LoadedBlocks)
        ensures
            t.view() == Map::<BlockPosition, (Seq<EntityId>, u32)>::empty(),
    {
        let t = LoadedBlocks { blocks: HashMap::new() };
        proof {
            assert(t.view() =~= Map::<BlockPosition, (Seq<EntityId>, u32)>::empty());
        }
        t
    }

    /// Records a block that has arrived from the server, and returns what the
    /// view has to do: take out the block that was at that position, if any,
    /// then draw the new one.
    pub fn add_block(&mut self, position: BlockPosition, ids: Vec<EntityId>, lod: u32) -> (r: Vec<
        TerrainUpdate,
    >)
        ensures
            final(self).view() == old(self).view().insert(position, (ids@, lod)),
            r@ == (if old(self).view().contains_key(position) {
                removal_updates(
                    position,
                    old(self).view()[position].0,
                    old(self).view()[position].1,
                )
            } else {
                Seq::<TerrainUpdate>::empty()
            }).push(TerrainUpdate::AddBlock(position, lod)),
    {
        let k = position.key();
        let ghost new_ids = ids@;
        let prev = self.blocks.insert(k, (ids, lod));
        proof {
            assert forall|q: BlockPosition| q != position implies position_key(q) != k by {
                position_key_injective(q, position);
            }
            assert(self.view() =~= old(self).view().insert(position, (new_ids, lod)));
        }
        let mut updates: Vec<TerrainUpdate> = match prev {
            Some((prev_ids, prev_lod)) => removal_updates_of(position, &prev_ids, prev_lod),
            None => Vec::new(),
        };
        updates.push(TerrainUpdate::AddBlock(position, lod));
        updates
    }

    /// Forgets the block at `position`, if it was loaded, and returns what
    /// the view has to do to take it out: nothing when it was not loaded.
    pub fn unload_block(&mut self, position: BlockPosition) -> (r: Vec<TerrainUpdate>)
        ensures
            final(self).view() == old(self).view().remove(position),
            r@ == (if old(self).view().contains_key(position) {
                removal_updates(
                    position,
                    old(self).view()[position].0,
                    old(self).view()[position].1,
                )
            } else {
                Seq::<TerrainUpdate>::empty()
            }),
    {
        let k = position.key();
        let prev = self.blocks.remove(&k);
        proof {
            assert forall|q: BlockPosition| q != position implies position_key(q) != k by {
                position_key_injective(q, position);
            }
            assert(self.view() =~= old(self).view().remove(position));
        }
        match prev {
            Some((prev_ids, prev_lod)) => removal_updates_of(position, &prev_ids, prev_lod),
            None => Vec::new(),
        }
    }
}

/// A block unloaded right after it was added is taken out of the view with
/// exactly the entities and the level of detail it was added with, and the
/// other loaded blocks are as they were before the add.
pub proof fn unload_takes_out_what_was_added(
    before: Map<BlockPosition, (Seq<EntityId>, u32)>,
    position: BlockPosition,
    ids: Seq<EntityId>,
    lod: u32,
)
    ensures
        ({
            let after = before.insert(position, (ids, lod));
            &&& after.contains_key(position)
            &&& removal_updates(position, after[position].0, after[position].1) == removal_updates(
                position,
                ids,
                lod,
            )
            &&& after.remove(position) == before.remove(position)
        }),
{
    assert(before.insert(position, (ids, lod)).remove(position) =~= before.remove(position));
}

} // verus!
