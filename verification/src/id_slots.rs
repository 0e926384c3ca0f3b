//! The slots of a vertex buffer, each held by the entity whose vertices it
//! holds: the entity of each slot, and the slot of each entity.
use vstd::prelude::*;
use std::collections::HashMap;
use crate::state::EntityId;

verus! {

broadcast use vstd::std_specs::hash::group_hash_axioms;

/// Which entity holds each slot of a buffer, and which slot each entity
/// holds.
pub struct IdSlots {
    id_to_index: HashMap<u32, usize>,
    index_to_id: Vec<EntityId>,
}

impl IdSlots {
    /// The entity of each slot, by slot.
    pub closed spec fn ids(&self) -> Seq<EntityId> {
        self.index_to_id@
    }

    /// The slot of each entity.
    pub closed spec fn slots(&self) -> Map<EntityId, usize> {
        Map::new(
            |id: EntityId| self.id_to_index@.contains_key(id.0),
            |id: EntityId| self.id_to_index@[id.0],
        )
    }

    /// The two agree: no entity holds two slots, and the slot of an entity is
    /// the one it holds.
    pub open spec fn wf(&self) -> bool {
        &&& forall|i: int, j: int|
            0 <= i < j < self.ids().len() ==> #[trigger] self.ids()[i] != #[trigger] self.ids()[j]
        &&& forall|i: int|
            0 <= i < self.ids().len() ==> #[trigger] self.slots().contains_key(self.ids()[i])
                && self.slots()[self.ids()[i]] == i
        &&& forall|id: EntityId| #[trigger]
            self.slots().contains_key(id) ==> self.slots()[id] < self.ids().len()
                && self.ids()[self.slots()[id] as int] == id
    }

    /// No slot is held.
    pub fn new() -> (s: IdSlots)
        ensures
            s.ids() == Seq::<EntityId>::empty(),
            s.slots() == Map::<EntityId, usize>::empty(),
            s.wf(),
    {
        let s = IdSlots { id_to_index: HashMap::new(), index_to_id: Vec::new() };
        proof {
            assert(s.slots() =~= Map::<EntityId, usize>::empty());
        }
        s
    }

    /// The number of slots held.
    pub fn len(&self) -> (n: usize)
        ensures
            n == self.ids().len(),
    {
        self.index_to_id.len()
    }

    /// The slot that `id` holds, if any.
    pub fn index_of(&self, id: EntityId) -> (r: Option<usize>)
        ensures
            r == (if self.slots().contains_key(id) {
                Some(self.slots()[id])
            } else {
                None
            }),
    {
        match self.id_to_index.get(&id.0) {
            Some(i) => Some(*i),
            None => None,
        }
    }

    /// Gives `id` the next slot.
    pub fn push(&mut self, id: EntityId)
        ensures
            final(self).ids() == old(self).ids().push(id),
            final(self).slots() == old(self).slots().insert(id, old(self).ids().len() as usize),
            old(self).wf() && !old(self).slots().contains_key(id) ==> final(self).wf(),
    {
        let n = self.index_to_id.len();
        self.id_to_index.insert(id.0, n);
        self.index_to_id.push(id);
        proof {
            assert(self.slots() =~= old(self).slots().insert(id, n));
            if old(self).wf() && !old(self).slots().contains_key(id) {
                assert forall|i: int, j: int|
                    0 <= i < j < self.ids().len() implies #[trigger] self.ids()[i]
                    != #[trigger] self.ids()[j] by {
                    if j == n {
                        assert(old(self).slots().contains_key(old(self).ids()[i]));
                    }
                }
                assert forall|i: int| 0 <= i < self.ids().len() implies #[trigger]
                    self.slots().contains_key(self.ids()[i]) && self.slots()[self.ids()[i]]
                    == i by {
                    if i < n {
                        assert(old(self).slots().contains_key(old(self).ids()[i]));
                    }
                }
            }
        }
    }

    /// Frees the slot of `id` by moving the entity of the last slot into it,
    /// as the buffer moves that entity's vertices; returns the freed slot.
    pub fn swap_remove(&mut self, id: EntityId) -> (idx: usize)
        requires
            old(self).wf(),
            old(self).slots().contains_key(id),
        ensures
            idx == old(self).slots()[id],
            final(self).ids() == old(self).ids().update(idx as int, old(self).ids().last()).drop_last(),
            final(self).slots() == (if old(self).ids().last() == id {
                old(self).slots().remove(id)
            } else {
                old(self).slots().remove(id).insert(old(self).ids().last(), idx)
            }),
            final(self).wf(),
    {
        let idx = *self.id_to_index.get(&id.0).unwrap();
        let last = self.index_to_id.len() - 1;
        let swapped_id = self.index_to_id[last];
        self.index_to_id.swap_remove(idx);
        self.id_to_index.remove(&id.0);
        if id != swapped_id {
            self.id_to_index.insert(swapped_id.0, idx);
        }
        proof {
            let old_ids = old(self).ids();
            let old_slots = old(self).slots();
            assert(old_slots.contains_key(old_ids[last as int]));
            if id == swapped_id {
                assert(self.slots() =~= old_slots.remove(id));
                assert(idx == last);
            } else {
                assert(self.slots() =~= old_slots.remove(id).insert(swapped_id, idx));
                assert(idx < last);
            }
            assert forall|i: int, j: int|
                0 <= i < j < self.ids().len() implies #[trigger] self.ids()[i]
                != #[trigger] self.ids()[j] by {
                assert(old_slots.contains_key(old_ids[i]));
                assert(old_slots.contains_key(old_ids[j]));
            }
            assert forall|i: int| 0 <= i < self.ids().len() implies #[trigger]
                self.slots().contains_key(self.ids()[i]) && self.slots()[self.ids()[i]]
                == i by {
                assert(old_slots.contains_key(old_ids[i]));
            }
            assert forall|k: EntityId| #[trigger]
                self.slots().contains_key(k) implies self.slots()[k] < self.ids().len()
                && self.ids()[self.slots()[k] as int] == k by {
                assert(old_slots.contains_key(k));
            }
        }
        idx
    }
}

} // verus!
