//! Ids of the entities of the world.
use vstd::prelude::*;
use crate::id_allocator::IdValue;
use vstd::std_specs::ops::AddSpecImpl;

verus! {

/// The id of an entity of the world (a block, a mob, the player).
#[derive(Clone, Copy, Debug, PartialEq, Eq, Structural, Hash)]
pub struct EntityId(pub u32);

impl Default for EntityId {
    fn default() -> (r: EntityId)
        ensures
            r == EntityId(0),
    {
        EntityId(0)
    }
}

impl core::ops::Add<u32> for EntityId {
    type Output = EntityId;

    fn add(self, rhs: u32) -> (r: EntityId) {
        EntityId(self.0 + rhs)
    }
}

impl AddSpecImpl<u32> for EntityId {
    open spec fn obeys_add_spec() -> bool {
        true
    }

    open spec fn add_req(self, rhs: u32) -> bool {
        self.0 + rhs <= u32::MAX
    }

    open spec fn add_spec(self, rhs: u32) -> EntityId {
        EntityId((self.0 + rhs) as u32)
    }
}

impl IdValue for EntityId {
    open spec fn index(&self) -> int {
        self.0 as int
    }

    fn first() -> (r: Self) {
        EntityId(0)
    }

    fn is_last(&self) -> (r: bool) {
        self.0 == u32::MAX
    }

    fn after(&self) -> (r: Self) {
        *self + 1
    }

    proof fn index_range(a: Self) {
    }

    proof fn index_injective(a: Self, b: Self) {
    }
}

} // verus!
