//! The vertex buffers of the blocks: per block, one box of triangles and
//! one box of outlines, each block in one slot of both.
use vstd::prelude::*;
use vstd::layout::size_of;
use crate::common::{LINE_VERTICES_PER_BOX, TRIANGLE_VERTICES_PER_BOX};
use crate::glw::{DrawMode, GLBuffer};
use crate::glw::gl_buffer::{BufferCopy, BufferWrite, DrawCall};
use crate::glw::vertex::{AttribData, GLType, attribs_bytes};
use crate::id_slots::IdSlots;
use crate::state::EntityId;

verus! {

/// The number of blocks the block buffers hold.
pub const MAX_WORLD_SIZE: usize = 100000;

/// The inputs of the block shader: a position and a kind per vertex.
pub fn block_attribs() -> (r: [AttribData<'static>; 2])
    ensures
        attribs_bytes(r@, 2) == 16,
{
    let r = [
        AttribData { name: "position", size: 3, unit: GLType::Float },
        AttribData { name: "block_type", size: 1, unit: GLType::UInt },
    ];
    proof {
        reveal_with_fuel(attribs_bytes, 3);
    }
    r
}

/// The inputs of the outline shader: a position and a colour per vertex.
pub fn outline_attribs() -> (r: [AttribData<'static>; 2])
    ensures
        attribs_bytes(r@, 2) == 28,
{
    let r = [
        AttribData { name: "position", size: 3, unit: GLType::Float },
        AttribData { name: "in_color", size: 4, unit: GLType::Float },
    ];
    proof {
        reveal_with_fuel(attribs_bytes, 3);
    }
    r
}

/// The triangles and outlines of the blocks in video memory, and the slot
/// of each block.
pub struct BlockBuffers<T, L> {
    /// the block of each slot, and the slot of each block
    pub slots: IdSlots,
    pub triangles: GLBuffer<T>,
    pub outlines: GLBuffer<L>,
}

impl<T: Copy, L: Copy> BlockBuffers<T, L> {
    /// Each block holds one slot of both buffers, and everything pushed has
    /// been sent.
    pub open spec fn wf(&self) -> bool {
        &&& self.slots.wf()
        &&& self.layout_wf()
    }

    /// Both buffers hold one box per slot, and everything pushed has been
    /// sent.
    pub open spec fn layout_wf(&self) -> bool {
        &&& self.triangles.wf()
        &&& self.outlines.wf()
        &&& self.triangles.t_span == TRIANGLE_VERTICES_PER_BOX
        &&& self.outlines.t_span == LINE_VERTICES_PER_BOX
        &&& self.triangles.buffer@.len() == 0
        &&& self.outlines.buffer@.len() == 0
        &&& self.triangles.length == self.slots.ids().len() * TRIANGLE_VERTICES_PER_BOX
        &&& self.outlines.length == self.slots.ids().len() * LINE_VERTICES_PER_BOX
        &&& self.triangles.capacity == MAX_WORLD_SIZE * TRIANGLE_VERTICES_PER_BOX
        &&& self.outlines.capacity == MAX_WORLD_SIZE * LINE_VERTICES_PER_BOX
    }

    /// No block, in the vertex arrays and buffers that OpenGL has given,
    /// with room for `MAX_WORLD_SIZE` boxes of triangles and of outlines; a
    /// `T` is laid out by `block_attribs` and an `L` by `outline_attribs`.
    pub fn new(triangle_ids: (u32, u32), outline_ids: (u32, u32)) -> (b: BlockBuffers<T, L>)
        requires
            size_of::<T>() == 16,
            size_of::<L>() == 28,
            MAX_WORLD_SIZE * TRIANGLE_VERTICES_PER_BOX * size_of::<T>() <= usize::MAX,
            MAX_WORLD_SIZE * LINE_VERTICES_PER_BOX * size_of::<L>() <= usize::MAX,
        ensures
            b.wf(),
            b.slots.ids() == Seq::<EntityId>::empty(),
            b.triangles.vertex_array == triangle_ids.0,
            b.triangles.vertex_buffer == triangle_ids.1,
            b.triangles.mode == DrawMode::Triangles,
            b.outlines.vertex_array == outline_ids.0,
            b.outlines.vertex_buffer == outline_ids.1,
            b.outlines.mode == DrawMode::Lines,
    {
        let triangle_attribs = block_attribs();
        let line_attribs = outline_attribs();
        let triangles = GLBuffer::new(
            triangle_ids.0,
            triangle_ids.1,
            &triangle_attribs,
            TRIANGLE_VERTICES_PER_BOX as usize,
            MAX_WORLD_SIZE,
            DrawMode::Triangles,
        );
        let outlines = GLBuffer::new(
            outline_ids.0,
            outline_ids.1,
            &line_attribs,
            LINE_VERTICES_PER_BOX as usize,
            MAX_WORLD_SIZE,
            DrawMode::Lines,
        );
        BlockBuffers { slots: IdSlots::new(), triangles, outlines }
    }

    /// Adds block `id`, with its box of triangles and its box of outlines,
    /// in the next slot; returns each box with where its bytes are to be
    /// written.
    pub fn push(&mut self, id: EntityId, triangles: &[T], outlines: &[L]) -> (r: (
        (BufferWrite, Vec<T>),
        (BufferWrite, Vec<L>),
    ))
        requires
            old(self).layout_wf(),
            old(self).slots.ids().len() < MAX_WORLD_SIZE,
            triangles@.len() == TRIANGLE_VERTICES_PER_BOX,
            outlines@.len() == LINE_VERTICES_PER_BOX,
        ensures
            final(self).layout_wf(),
            old(self).wf() && !old(self).slots.slots().contains_key(id) ==> final(self).wf(),
            final(self).slots.ids() == old(self).slots.ids().push(id),
            final(self).slots.slots() == old(self).slots.slots().insert(
                id,
                old(self).slots.ids().len() as usize,
            ),
            r.0.1@ == triangles@,
            r.0.0 == (BufferWrite {
                offset: (old(self).triangles.length * size_of::<T>()) as usize,
                count: (TRIANGLE_VERTICES_PER_BOX * size_of::<T>()) as usize,
            }),
            r.1.1@ == outlines@,
            r.1.0 == (BufferWrite {
                offset: (old(self).outlines.length * size_of::<L>()) as usize,
                count: (LINE_VERTICES_PER_BOX * size_of::<L>()) as usize,
            }),
            final(self).triangles.vertex_array == old(self).triangles.vertex_array,
            final(self).triangles.vertex_buffer == old(self).triangles.vertex_buffer,
            final(self).outlines.vertex_array == old(self).outlines.vertex_array,
            final(self).outlines.vertex_buffer == old(self).outlines.vertex_buffer,
    {
        let n = self.slots.len();
        proof {
            vstd::arithmetic::mul::lemma_mul_is_distributive_add_other_way(
                TRIANGLE_VERTICES_PER_BOX as int,
                n as int,
                1,
            );
            vstd::arithmetic::mul::lemma_mul_is_distributive_add_other_way(
                LINE_VERTICES_PER_BOX as int,
                n as int,
                1,
            );
            vstd::arithmetic::mul::lemma_mul_inequality(n + 1, MAX_WORLD_SIZE as int, TRIANGLE_VERTICES_PER_BOX as int);
            vstd::arithmetic::mul::lemma_mul_inequality(n + 1, MAX_WORLD_SIZE as int, LINE_VERTICES_PER_BOX as int);
            vstd::arithmetic::div_mod::lemma_mod_self_0(TRIANGLE_VERTICES_PER_BOX as int);
            vstd::arithmetic::div_mod::lemma_mod_self_0(LINE_VERTICES_PER_BOX as int);
        }
        self.slots.push(id);
        self.triangles.push(triangles);
        self.outlines.push(outlines);
        let t = self.triangles.flush().unwrap();
        let o = self.outlines.flush().unwrap();
        (t, o)
    }

    /// Removes block `id`: the block of the last slot moves into its slot,
    /// and its triangles and outlines move over those of `id`; returns those
    /// moves of bytes, or `None` where nothing has to move.
    pub fn swap_remove(&mut self, id: EntityId) -> (r: (Option<BufferCopy>, Option<BufferCopy>))
        requires
            old(self).wf(),
            old(self).slots.slots().contains_key(id),
        ensures
            final(self).wf(),
            final(self).slots.ids() == old(self).slots.ids().update(
                old(self).slots.slots()[id] as int,
                old(self).slots.ids().last(),
            ).drop_last(),
            ({
                let idx = old(self).slots.slots()[id] as int;
                let last = old(self).slots.ids().len() - 1;
                &&& r.0 == (if idx == last {
                    None
                } else {
                    Some(
                        BufferCopy {
                            from: (last * TRIANGLE_VERTICES_PER_BOX * size_of::<T>()) as usize,
                            to: (idx * TRIANGLE_VERTICES_PER_BOX * size_of::<T>()) as usize,
                            count: (TRIANGLE_VERTICES_PER_BOX * size_of::<T>()) as usize,
                        },
                    )
                })
                &&& r.1 == (if idx == last {
                    None
                } else {
                    Some(
                        BufferCopy {
                            from: (last * LINE_VERTICES_PER_BOX * size_of::<L>()) as usize,
                            to: (idx * LINE_VERTICES_PER_BOX * size_of::<L>()) as usize,
                            count: (LINE_VERTICES_PER_BOX * size_of::<L>()) as usize,
                        },
                    )
                })
            }),
    {
        let idx = self.slots.swap_remove(id);
        let ghost n = old(self).slots.ids().len();
        proof {
            vstd::arithmetic::mul::lemma_mul_strict_inequality(
                idx as int,
                n as int,
                TRIANGLE_VERTICES_PER_BOX as int,
            );
            vstd::arithmetic::mul::lemma_mul_strict_inequality(
                idx as int,
                n as int,
                LINE_VERTICES_PER_BOX as int,
            );
            vstd::arithmetic::mul::lemma_mul_is_distributive_sub_other_way(
                TRIANGLE_VERTICES_PER_BOX as int,
                n as int,
                1,
            );
            vstd::arithmetic::mul::lemma_mul_is_distributive_sub_other_way(
                LINE_VERTICES_PER_BOX as int,
                n as int,
                1,
            );
            vstd::arithmetic::mul::lemma_mul_is_commutative(idx as int, TRIANGLE_VERTICES_PER_BOX as int);
            vstd::arithmetic::mul::lemma_mul_is_commutative(idx as int, LINE_VERTICES_PER_BOX as int);
            if idx != n - 1 {
                vstd::arithmetic::mul::lemma_mul_is_commutative(
                    (n - 1) as int,
                    TRIANGLE_VERTICES_PER_BOX as int,
                );
                vstd::arithmetic::mul::lemma_mul_is_commutative(
                    (n - 1) as int,
                    LINE_VERTICES_PER_BOX as int,
                );
                vstd::arithmetic::mul::lemma_mul_strict_inequality(
                    idx as int,
                    (n - 1) as int,
                    TRIANGLE_VERTICES_PER_BOX as int,
                );
                vstd::arithmetic::mul::lemma_mul_strict_inequality(
                    idx as int,
                    (n - 1) as int,
                    LINE_VERTICES_PER_BOX as int,
                );
            }
        }
        let t = self.triangles.swap_remove(idx);
        let o = self.outlines.swap_remove(idx);
        (t, o)
    }

    /// Draws the triangles of every block, and their outlines if asked.
    pub fn draw(&self, draw_outlines: bool) -> (r: (DrawCall, Option<DrawCall>))
        ensures
            r.0 == (DrawCall { first: 0, count: self.triangles.length }),
            r.1 == (if draw_outlines {
                Some(DrawCall { first: 0, count: self.outlines.length })
            } else {
                None
            }),
    {
        let t = self.triangles.draw();
        if draw_outlines {
            (t, Some(self.outlines.draw()))
        } else {
            (t, None)
        }
    }
}

} // verus!
