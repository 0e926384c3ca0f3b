//! The mobs: how a mob plays tag with the player, and the vertex buffers of
//! the mobs, one box of triangles per mob.
use vstd::prelude::*;
use vstd::layout::size_of;
use crate::common::TRIANGLE_VERTICES_PER_BOX;
use crate::glw::gl_buffer::{BufferWrite, DrawCall, DrawMode, GLArray, GLBuffer, GLByteBuffer};
use crate::glw::vertex::{AttribData, GLType, attribs_bytes};
use crate::id_slots::IdSlots;
use crate::state::EntityId;

verus! {

/// The number of vertices the mob buffers hold: the triangles of 32 boxes.
pub const MOB_BUFFER_CAPACITY: usize = 1152;

/// The inputs of the mob shader: a position and a colour per vertex.
pub fn mob_attribs() -> (r: [AttribData<'static>; 2])
    ensures
        r@[0].size == 3 && r@[0].unit == GLType::Float,
        r@[1].size == 4 && r@[1].unit == GLType::Float,
        attribs_bytes(r@, 2) == 28,
{
    let r = [
        AttribData { name: "position", size: 3, unit: GLType::Float },
        AttribData { name: "in_color", size: 4, unit: GLType::Float },
    ];
    proof {
        reveal_with_fuel(attribs_bytes, 3);
    }
    r
}

/// The triangles of the mobs in video memory, and the slot of each mob.
pub struct MobBuffers<T> {
    /// the mob of each slot, and the slot of each mob
    pub slots: IdSlots,
    pub triangles: GLArray<T>,
}

impl<T> MobBuffers<T> {
    /// The mob of each slot, by slot.
    pub open spec fn ids(&self) -> Seq<EntityId> {
        self.slots.ids()
    }

    /// The slot of each mob.
    pub open spec fn slots(&self) -> Map<EntityId, usize> {
        self.slots.slots()
    }

    /// Each mob holds one slot, and each slot one mob.
    pub open spec fn wf(&self) -> bool {
        self.slots.wf()
    }

    /// No mob, in the vertex buffer and array that OpenGL has given, with
    /// room for `MOB_BUFFER_CAPACITY` vertices laid out by `mob_attribs`.
    pub fn new(buffer_gl_id: u32, array_gl_id: u32) -> (b: MobBuffers<T>)
        requires
            buffer_gl_id != 0,
            MOB_BUFFER_CAPACITY * size_of::<T>() <= usize::MAX,
            size_of::<T>() as int % 28 == 0,
        ensures
            b.ids() == Seq::<EntityId>::empty(),
            b.slots() == Map::<EntityId, usize>::empty(),
            b.wf(),
            b.triangles.buffer.byte_buffer == (GLByteBuffer {
                gl_id: buffer_gl_id,
                length: 0,
                capacity: (MOB_BUFFER_CAPACITY * size_of::<T>()) as usize,
            }),
            b.triangles.buffer.length == 0,
            b.triangles.gl_id == array_gl_id,
            b.triangles.mode == DrawMode::Triangles,
            b.triangles.attrib_span == size_of::<T>() as int / 28,
            b.triangles.length == 0,
    {
        assert(MOB_BUFFER_CAPACITY == 32 * TRIANGLE_VERTICES_PER_BOX);
        let buffer: GLBuffer<T> = GLBuffer::new(buffer_gl_id, MOB_BUFFER_CAPACITY);
        let attribs = mob_attribs();
        MobBuffers {
            slots: IdSlots::new(),
            triangles: GLArray::new(array_gl_id, &attribs, DrawMode::Triangles, buffer),
        }
    }

    /// Adds the triangles of mob `id` at the end; their bytes are to be
    /// written where the returned range says.
    pub fn push(&mut self, id: EntityId, triangles: &[T]) -> (w: BufferWrite)
        requires
            old(self).triangles.buffer.byte_buffer.length + triangles@.len() * size_of::<T>()
                <= old(self).triangles.buffer.byte_buffer.capacity,
            old(self).triangles.buffer.length + triangles@.len() <= usize::MAX,
            old(self).triangles.length + triangles@.len() * old(self).triangles.attrib_span
                <= usize::MAX,
        ensures
            w == (BufferWrite {
                offset: old(self).triangles.buffer.byte_buffer.length,
                count: (triangles@.len() * size_of::<T>()) as usize,
            }),
            final(self).ids() == old(self).ids().push(id),
            final(self).slots() == old(self).slots().insert(id, old(self).ids().len() as usize),
            old(self).wf() && !old(self).slots().contains_key(id) ==> final(self).wf(),
            final(self).triangles.buffer.byte_buffer.length == old(self).triangles.buffer.byte_buffer.length
                + triangles@.len() * size_of::<T>(),
            final(self).triangles.buffer.byte_buffer.capacity
                == old(self).triangles.buffer.byte_buffer.capacity,
            final(self).triangles.buffer.length == old(self).triangles.buffer.length
                + triangles@.len(),
            final(self).triangles.length == old(self).triangles.length + triangles@.len()
                * old(self).triangles.attrib_span,
            final(self).triangles.attrib_span == old(self).triangles.attrib_span,
    {
        self.slots.push(id);
        self.triangles.push(triangles)
    }

    /// Overwrites the triangles of mob `id`, from the value its slot
    /// numbers on; their bytes are to be written where the returned range
    /// says.
    pub fn update(&mut self, id: EntityId, triangles: &[T]) -> (w: BufferWrite)
        requires
            old(self).slots().contains_key(id),
            old(self).slots()[id] * size_of::<T>() + triangles@.len() * size_of::<T>()
                <= old(self).triangles.buffer.byte_buffer.length,
            old(self).triangles.buffer.byte_buffer.wf(),
        ensures
            w == (BufferWrite {
                offset: (old(self).slots()[id] * size_of::<T>()) as usize,
                count: (triangles@.len() * size_of::<T>()) as usize,
            }),
            final(self).ids() == old(self).ids(),
            final(self).slots() == old(self).slots(),
            final(self).wf() == old(self).wf(),
            final(self).triangles.buffer.byte_buffer == old(self).triangles.buffer.byte_buffer,
            final(self).triangles.buffer.length == old(self).triangles.buffer.length,
            final(self).triangles.length == old(self).triangles.length,
            final(self).triangles.attrib_span == old(self).triangles.attrib_span,
    {
        let idx = self.slots.index_of(id).unwrap();
        self.triangles.buffer.update(idx, triangles)
    }

    /// Draws the triangles of every mob.
    pub fn draw(&self) -> (d: DrawCall)
        requires
            self.triangles.buffer.length <= self.triangles.length,
            self.triangles.buffer.length * self.triangles.attrib_span <= usize::MAX,
        ensures
            d == (DrawCall {
                first: 0,
                count: (self.triangles.buffer.length * self.triangles.attrib_span) as usize,
            }),
    {
        self.triangles.draw()
    }
}

/// What a mob is doing in its game of tag with the player.
#[derive(Clone, Copy, Debug, PartialEq, Eq, Structural)]
pub enum MobBehavior {
    /// Waiting to be tagged: the player comes within reach.
    WaitToBeTagged,
    /// Tagged: waiting for the player to get away before giving chase.
    WaitForDistance,
    /// Chasing the player until it is within reach.
    FollowPlayer,
    /// Has tagged the player back: waiting for the player to leave its reach.
    WaitToReset,
}

/// How a mob's speed changes in one update.
#[derive(Clone, Copy, Debug, PartialEq, Eq, Structural)]
pub enum MobMotion {
    /// The speed stays as it is.
    Keep,
    /// The mob stops.
    Stop,
    /// The mob heads for the player, at half the distance per update.
    Chase,
}

/// One update of a mob: `near` says whether the player is within reach
/// (closer than 2), `far` whether it has got away (farther than 8).
pub open spec fn behave_spec(state: MobBehavior, near: bool, far: bool) -> (MobBehavior, MobMotion) {
    match state {
        MobBehavior::WaitToBeTagged => if near {
            (MobBehavior::WaitForDistance, MobMotion::Keep)
        } else {
            (state, MobMotion::Keep)
        },
        MobBehavior::WaitForDistance => if far {
            (MobBehavior::FollowPlayer, MobMotion::Keep)
        } else {
            (state, MobMotion::Keep)
        },
        MobBehavior::FollowPlayer => if near {
            (MobBehavior::WaitToReset, MobMotion::Stop)
        } else {
            (state, MobMotion::Chase)
        },
        MobBehavior::WaitToReset => if !near {
            (MobBehavior::WaitToBeTagged, MobMotion::Keep)
        } else {
            (state, MobMotion::Keep)
        },
    }
}

/// One update of a mob: its next behaviour and how its speed changes.
pub fn behave(state: MobBehavior, near: bool, far: bool) -> (r: (MobBehavior, MobMotion))
    ensures
        r == behave_spec(state, near, far),
{
    match state {
        MobBehavior::WaitToBeTagged => {
            if near {
                (MobBehavior::WaitForDistance, MobMotion::Keep)
            } else {
                (state, MobMotion::Keep)
            }
        },
        MobBehavior::WaitForDistance => {
            if far {
                (MobBehavior::FollowPlayer, MobMotion::Keep)
            } else {
                (state, MobMotion::Keep)
            }
        },
        MobBehavior::FollowPlayer => {
            if near {
                (MobBehavior::WaitToReset, MobMotion::Stop)
            } else {
                (state, MobMotion::Chase)
            }
        },
        MobBehavior::WaitToReset => {
            if !near {
                (MobBehavior::WaitToBeTagged, MobMotion::Keep)
            } else {
                (state, MobMotion::Keep)
            }
        },
    }
}

/// The state a mob reaches from `state` through the updates `inputs`, each
/// a pair of `near` and `far`.
pub open spec fn behave_run(state: MobBehavior, inputs: Seq<(bool, bool)>) -> MobBehavior
    decreases inputs.len(),
{
    if inputs.len() == 0 {
        state
    } else {
        behave_run(behave_spec(state, inputs[0].0, inputs[0].1).0, inputs.drop_first())
    }
}

/// Tag: a mob gives chase only after the player has tagged it and then got
/// away, and it chases until it has tagged the player back. From waiting to
/// be tagged, a run of updates in which the player never comes within reach
/// leaves the mob waiting; a chasing mob keeps chasing while the player stays
/// out of reach.
pub proof fn tag_is_played_in_turn(inputs: Seq<(bool, bool)>)
    ensures
        (forall|i: int| 0 <= i < inputs.len() ==> !(#[trigger] inputs[i]).0) ==> behave_run(
            MobBehavior::WaitToBeTagged,
            inputs,
        ) == MobBehavior::WaitToBeTagged,
        (forall|i: int| 0 <= i < inputs.len() ==> !(#[trigger] inputs[i]).0) ==> behave_run(
            MobBehavior::FollowPlayer,
            inputs,
        ) == MobBehavior::FollowPlayer,
        forall|near: bool, far: bool|
            #[trigger] behave_spec(MobBehavior::FollowPlayer, near, far).1 == MobMotion::Chase
                <==> !near,
        forall|s: MobBehavior, near: bool, far: bool|
            #[trigger] behave_spec(s, near, far).1 == MobMotion::Chase ==> s == MobBehavior::FollowPlayer,
    decreases inputs.len(),
{
    if inputs.len() > 0 {
        tag_is_played_in_turn(inputs.drop_first());
        if forall|i: int| 0 <= i < inputs.len() ==> !(#[trigger] inputs[i]).0 {
            assert(!inputs[0].0);
            assert forall|i: int| 0 <= i < inputs.drop_first().len() implies !(
            #[trigger] inputs.drop_first()[i]).0 by {
                assert(inputs.drop_first()[i] == inputs[i + 1]);
            }
        }
    }
}

/// The behaviour that follows `s` in a round of tag: tagged, the mob waits
/// for the player to get away, then chases it, then waits to be left, then
/// waits to be tagged again.
pub open spec fn tag_next(s: MobBehavior) -> MobBehavior {
    match s {
        MobBehavior::WaitToBeTagged => MobBehavior::WaitForDistance,
        MobBehavior::WaitForDistance => MobBehavior::FollowPlayer,
        MobBehavior::FollowPlayer => MobBehavior::WaitToReset,
        MobBehavior::WaitToReset => MobBehavior::WaitToBeTagged,
    }
}

/// An update either keeps a mob's behaviour or moves it on to the next one in
/// the round of tag, never skipping one; a mob is tagged, and its chase ends,
/// only when the player is within reach, it gives chase only when the player
/// has got away, and it stops exactly when its chase ends.
pub proof fn tag_moves_in_turn(s: MobBehavior, near: bool, far: bool)
    ensures
        behave_spec(s, near, far).0 == s || behave_spec(s, near, far).0 == tag_next(s),
        s == MobBehavior::WaitToBeTagged ==> (behave_spec(s, near, far).0 != s <==> near),
        s == MobBehavior::WaitForDistance ==> (behave_spec(s, near, far).0 != s <==> far),
        s == MobBehavior::FollowPlayer ==> (behave_spec(s, near, far).0 != s <==> near),
        s == MobBehavior::WaitToReset ==> (behave_spec(s, near, far).0 != s <==> !near),
        behave_spec(s, near, far).1 == MobMotion::Stop <==> s == MobBehavior::FollowPlayer
            && behave_spec(s, near, far).0 != s,
{
}

} // verus!
