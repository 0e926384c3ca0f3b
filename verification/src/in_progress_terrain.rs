//! The blocks being loaded, each held by a solid placeholder entity until its
//! terrain arrives.
use vstd::prelude::*;
use std::collections::HashMap;
use crate::block_position::{BlockPosition, position_key, position_key_injective};
use crate::id_allocator::IdAllocator;
use crate::state::EntityId;

verus! {

broadcast use vstd::std_specs::hash::group_hash_axioms;

/// The blocks marked as in progress, with the entity that stands for each.
pub struct InProgressTerrain {
    blocks: HashMap<u128, EntityId>,
}

impl InProgressTerrain {
    /// The entity of each block in progress.
    pub closed spec fn view(&self) -> Map<BlockPosition, EntityId> {
        Map::new(
            |p: BlockPosition| self.blocks@.contains_key(position_key(p)),
            |p: BlockPosition| self.blocks@[position_key(p)],
        )
    }

    /// No block is in progress.
    pub fn new() -> (t: InProgressTerrain)
        ensures
            t.view() == Map::<BlockPosition, EntityId>::empty(),
    {
        let t = InProgressTerrain { blocks: HashMap::new() };
        proof {
            assert(t.view() =~= Map::<BlockPosition, EntityId>::empty());
        }
        t
    }

    /// Marks a block as in progress, with a fresh entity to make it solid,
    /// and returns that entity; returns `None`, changing nothing, when the
    /// block is in progress already.
    pub fn insert(&mut self, id_allocator: &mut IdAllocator<EntityId>, block_position: &BlockPosition) -> (r:
        Option<EntityId>)
        requires
            old(id_allocator).issued() < u32::MAX,
        ensures
            old(self).view().contains_key(*block_position) ==> r is None && final(self).view() == old(self).view() && final(id_allocator).issued() == old(id_allocator).issued(),
            !old(self).view().contains_key(*block_position) ==> (r matches Some(id) && id.0
                == old(id_allocator).issued() && final(id_allocator).issued() == old(id_allocator).issued() + 1
                && final(self).view() == old(self).view().insert(*block_position, id)),
    {
        let k = block_position.key();
        if self.blocks.contains_key(&k) {
            return None;
        }
        let id = id_allocator.allocate();
        self.blocks.insert(k, id);
        proof {
            assert forall|q: BlockPosition| q != *block_position implies position_key(q) != k by {
                position_key_injective(q, *block_position);
            }
            assert(self.view() =~= old(self).view().insert(*block_position, id));
        }
        Some(id)
    }

    /// Unmarks an in-progress block, either because loading is done, or the
    /// block was unloaded, and returns the entity that stood for it.
    pub fn remove(&mut self, block_position: &BlockPosition) -> (r: Option<EntityId>)
        ensures
            old(self).view().contains_key(*block_position) ==> r == Some(
                old(self).view()[*block_position],
            ),
            !old(self).view().contains_key(*block_position) ==> r is None,
            final(self).view() == old(self).view().remove(*block_position),
    {
        let k = block_position.key();
        let r = self.blocks.remove(&k);
        proof {
            assert forall|q: BlockPosition| q != *block_position implies position_key(q) != k by {
                position_key_injective(q, *block_position);
            }
            assert(self.view() =~= old(self).view().remove(*block_position));
        }
        r
    }
}

} // verus!
