//! Containers shared with the rendering code, and a vertex buffer that
//! collects vertices in memory before they are sent to video memory.
pub mod queue;
pub mod vertex;
pub mod gl_buffer;
pub mod texture;

use vstd::prelude::*;
use vstd::layout::size_of;
use crate::glw::gl_buffer::{BufferCopy, BufferWrite, DrawCall};
use crate::glw::vertex::{AttribData, attribs_bytes};

verus! {

/// How the vertices of a buffer are drawn.
#[derive(Clone, Copy, Debug, PartialEq, Eq, Structural)]
pub enum DrawMode {
    Lines,
    Triangles,
}

/// A fixed-capacity array of vertex structures passed to OpenGL, which
/// collects new vertices in memory until it is flushed.
pub struct GLBuffer<T> {
    pub vertex_array: u32,
    pub vertex_buffer: u32,
    /// Each index in the GLBuffer is the index of a contiguous block of
    /// t_span elements.
    pub t_span: usize,
    /// in units of single Ts.
    pub length: usize,
    pub capacity: usize,
    /// How to draw this buffer.
    pub mode: DrawMode,
    /// in-memory buffer before sending to OpenGL.
    pub buffer: Vec<T>,
}

impl<T: Copy> GLBuffer<T> {
    /// The buffer holds whole blocks of `t_span` values (none when blocks
    /// are empty), no more than its capacity counting those not sent yet,
    /// and its capacity in bytes is a machine number.
    pub open spec fn wf(&self) -> bool {
        &&& self.t_span == 0 ==> self.length == 0 && self.buffer@.len() == 0
        &&& self.t_span > 0 ==> self.length as int % (self.t_span as int) == 0
            && self.buffer@.len() as int % (self.t_span as int) == 0
        &&& self.length + self.buffer@.len() <= self.capacity
        &&& self.capacity * size_of::<T>() <= usize::MAX
    }

    /// An empty buffer with room for `capacity` blocks of `t_span` values,
    /// in the vertex array and buffer that OpenGL has given; `attribs`
    /// describe the whole of a `T`, float by float.
    pub fn new(
        vertex_array: u32,
        vertex_buffer: u32,
        attribs: &[AttribData],
        t_span: usize,
        capacity: usize,
        mode: DrawMode,
    ) -> (b: GLBuffer<T>)
        requires
            attribs_bytes(attribs@, attribs@.len() as int) == size_of::<T>(),
            capacity * t_span <= usize::MAX,
            capacity * t_span * size_of::<T>() <= usize::MAX,
        ensures
            b.vertex_array == vertex_array,
            b.vertex_buffer == vertex_buffer,
            b.t_span == t_span,
            b.length == 0,
            b.capacity == capacity * t_span,
            b.mode == mode,
            b.buffer@ == Seq::<T>::empty(),
            b.wf(),
    {
        proof {
            if t_span > 0 {
                vstd::arithmetic::div_mod::lemma_small_mod(0, t_span as nat);
            }
        }
        GLBuffer {
            vertex_array,
            vertex_buffer,
            t_span,
            length: 0,
            capacity: capacity * t_span,
            mode,
            buffer: Vec::new(),
        }
    }

    /// Removes block `i` by moving the last block into its place; returns
    /// that move of bytes, or `None` when block `i` was the last one.
    pub fn swap_remove(&mut self, i: usize) -> (c: Option<BufferCopy>)
        requires
            old(self).wf(),
            i * old(self).t_span < old(self).length,
        ensures
            final(self).length == old(self).length - old(self).t_span,
            final(self).buffer == old(self).buffer,
            final(self).capacity == old(self).capacity,
            final(self).t_span == old(self).t_span,
            final(self).vertex_array == old(self).vertex_array,
            final(self).vertex_buffer == old(self).vertex_buffer,
            final(self).mode == old(self).mode,
            final(self).wf(),
            c == (if i * old(self).t_span == final(self).length {
                None
            } else {
                Some(
                    BufferCopy {
                        from: (final(self).length * size_of::<T>()) as usize,
                        to: (i * old(self).t_span * size_of::<T>()) as usize,
                        count: (old(self).t_span * size_of::<T>()) as usize,
                    },
                )
            }),
            c matches Some(cp) ==> cp.to + cp.count <= cp.from && cp.from + cp.count
                == old(self).length * size_of::<T>(),
    {
        proof {
            lemma_block_below(i as int, self.t_span as int, self.length as int);
            vstd::arithmetic::mul::lemma_mul_inequality(
                self.length as int,
                self.capacity as int,
                size_of::<T>() as int,
            );
        }
        let ghost i0 = i as int;
        let i = i * self.t_span;
        self.length = self.length - self.t_span;
        proof {
            vstd::arithmetic::div_mod::lemma_mod_sub_multiples_vanish(
                old(self).length as int,
                self.t_span as int,
            );
        }
        if i == self.length {
            return None;
        }
        let byte_size = core::mem::size_of::<T>();
        proof {
            vstd::arithmetic::mul::lemma_mul_inequality(
                self.length as int,
                self.capacity as int,
                byte_size as int,
            );
            vstd::arithmetic::mul::lemma_mul_inequality(i as int, self.capacity as int, byte_size as int);
            vstd::arithmetic::mul::lemma_mul_inequality(
                self.t_span as int,
                self.capacity as int,
                byte_size as int,
            );
        }
        proof {
            lemma_block_below(i0, self.t_span as int, self.length as int);
            vstd::arithmetic::mul::lemma_mul_is_distributive_add_other_way(
                byte_size as int,
                i as int,
                self.t_span as int,
            );
            vstd::arithmetic::mul::lemma_mul_is_distributive_add_other_way(
                byte_size as int,
                self.length as int,
                self.t_span as int,
            );
            vstd::arithmetic::mul::lemma_mul_inequality(
                (i + self.t_span) as int,
                self.length as int,
                byte_size as int,
            );
        }
        Some(BufferCopy { from: self.length * byte_size, to: i * byte_size, count: self.t_span * byte_size })
    }

    /// Adds more data into this buffer; the data are not sent to OpenGL
    /// until `flush` is called.
    pub fn push(&mut self, vs: &[T])
        requires
            old(self).wf(),
            old(self).t_span > 0,
            vs@.len() as int % (old(self).t_span as int) == 0,
            old(self).length + old(self).buffer@.len() + vs@.len() <= old(self).capacity,
        ensures
            final(self).buffer@ == old(self).buffer@ + vs@,
            final(self).length == old(self).length,
            final(self).capacity == old(self).capacity,
            final(self).t_span == old(self).t_span,
            final(self).vertex_array == old(self).vertex_array,
            final(self).vertex_buffer == old(self).vertex_buffer,
            final(self).mode == old(self).mode,
            final(self).wf(),
    {
        let mut k: usize = 0;
        while k < vs.len()
            invariant
                0 <= k <= vs@.len(),
                self.buffer@ == old(self).buffer@ + vs@.take(k as int),
                self.length == old(self).length,
                self.capacity == old(self).capacity,
                self.t_span == old(self).t_span,
                self.vertex_array == old(self).vertex_array,
                self.vertex_buffer == old(self).vertex_buffer,
                self.mode == old(self).mode,
            decreases vs@.len() - k,
        {
            self.buffer.push(vs[k]);
            k = k + 1;
            proof {
                assert(vs@.take(k as int) == vs@.take(k - 1).push(vs@[k - 1]));
            }
        }
        proof {
            assert(vs@.take(k as int) == vs@);
            vstd::arithmetic::div_mod::lemma_mod_adds(
                old(self).buffer@.len() as int,
                vs@.len() as int,
                self.t_span as int,
            );
        }
    }

    /// Sends the values collected in memory to video memory: returns them,
    /// with where their bytes are to be written, and counts them in the
    /// buffer; returns `None` when there are none.
    pub fn flush(&mut self) -> (r: Option<(BufferWrite, Vec<T>)>)
        requires
            old(self).wf(),
            old(self).t_span > 0,
        ensures
            final(self).wf(),
            final(self).buffer@ == Seq::<T>::empty(),
            final(self).length == old(self).length + old(self).buffer@.len(),
            final(self).capacity == old(self).capacity,
            final(self).t_span == old(self).t_span,
            final(self).vertex_array == old(self).vertex_array,
            final(self).vertex_buffer == old(self).vertex_buffer,
            final(self).mode == old(self).mode,
            old(self).buffer@.len() == 0 ==> r is None,
            old(self).buffer@.len() > 0 ==> (r matches Some((w, data)) && data@ == old(self).buffer@
                && w == (BufferWrite {
                offset: (old(self).length * size_of::<T>()) as usize,
                count: (old(self).buffer@.len() * size_of::<T>()) as usize,
            })),
    {
        if self.buffer.len() > 0 {
            proof {
                vstd::arithmetic::div_mod::lemma_fundamental_div_mod(
                    self.length as int,
                    self.t_span as int,
                );
                vstd::arithmetic::mul::lemma_mul_is_commutative(
                    self.t_span as int,
                    (self.length / self.t_span) as int,
                );
            }
            let w = self.update(self.length / self.t_span, self.buffer.as_slice());
            self.length = self.length + self.buffer.len();
            let mut data: Vec<T> = Vec::new();
            core::mem::swap(&mut data, &mut self.buffer);
            proof {
                vstd::arithmetic::div_mod::lemma_mod_adds(
                    old(self).length as int,
                    old(self).buffer@.len() as int,
                    self.t_span as int,
                );
                vstd::arithmetic::div_mod::lemma_small_mod(0, self.t_span as nat);
            }
            Some((w, data))
        } else {
            None
        }
    }

    /// Overwrites the blocks from block `idx` on with `vs`; their bytes are to
    /// be written where the returned range says.
    pub fn update(&self, idx: usize, vs: &[T]) -> (w: BufferWrite)
        requires
            self.wf(),
            self.t_span > 0,
            vs@.len() as int % (self.t_span as int) == 0,
            idx * self.t_span + vs@.len() <= self.capacity,
        ensures
            w == (BufferWrite {
                offset: (idx * self.t_span * size_of::<T>()) as usize,
                count: (vs@.len() * size_of::<T>()) as usize,
            }),
    {
        let byte_size = core::mem::size_of::<T>();
        proof {
            vstd::arithmetic::mul::lemma_mul_inequality(
                (idx * self.t_span) as int,
                self.capacity as int,
                byte_size as int,
            );
            vstd::arithmetic::mul::lemma_mul_inequality(
                vs@.len() as int,
                self.capacity as int,
                byte_size as int,
            );
        }
        BufferWrite { offset: idx * self.t_span * byte_size, count: vs.len() * byte_size }
    }

    /// Draws all the values sent to video memory.
    pub fn draw(&self) -> (d: DrawCall)
        ensures
            d == (DrawCall { first: 0, count: self.length }),
    {
        self.draw_slice(0, self.length)
    }

    /// Draws `len` values from the value at `start` on.
    pub fn draw_slice(&self, start: usize, len: usize) -> (d: DrawCall)
        ensures
            d == (DrawCall { first: start, count: len }),
    {
        DrawCall { first: start, count: len }
    }
}

/// A block index below `length`, which is a whole number of blocks, starts
/// a whole block below it.
pub proof fn lemma_block_below(i: int, t: int, length: int)
    requires
        0 <= i,
        0 < t,
        length % t == 0,
        i * t < length,
    ensures
        i * t + t <= length,
        t <= length,
{
    vstd::arithmetic::div_mod::lemma_fundamental_div_mod(length, t);
    let q = length / t;
    assert(length == t * q);
    if i >= q {
        vstd::arithmetic::mul::lemma_mul_inequality(q, i, t);
        vstd::arithmetic::mul::lemma_mul_is_commutative(q, t);
    }
    assert(i < q);
    vstd::arithmetic::mul::lemma_mul_inequality(i + 1, q, t);
    vstd::arithmetic::mul::lemma_mul_is_distributive_add_other_way(t, i, 1);
    vstd::arithmetic::mul::lemma_mul_is_commutative(q, t);
    vstd::arithmetic::mul::lemma_mul_increases(t, q);
}

} // verus!
