//! Fixed-capacity buffers in video memory, and the vertex arrays drawn from
//! them. These types keep the lengths and capacities; each operation says
//! which bytes of the buffer the caller has to write, copy or draw.
use vstd::prelude::*;
use core::marker::PhantomData;
use vstd::layout::size_of;
use crate::glw::vertex::{AttribData, attribs_bytes, attrib_offsets};

verus! {

/// A range of bytes of a buffer to fill with new data.
#[derive(Clone, Copy, Debug, PartialEq, Eq, Structural)]
pub struct BufferWrite {
    /// where the range starts, in bytes
    pub offset: usize,
    /// how many bytes to write
    pub count: usize,
}

/// A copy of bytes within a buffer, from one range to another that does not
/// overlap it.
#[derive(Clone, Copy, Debug, PartialEq, Eq, Structural)]
pub struct BufferCopy {
    /// where the copied range starts, in bytes
    pub from: usize,
    /// where its copy starts, in bytes
    pub to: usize,
    /// how many bytes to copy
    pub count: usize,
}

/// Fixed-size VRAM buffer for individual bytes.
#[derive(Clone, Copy, Debug, PartialEq, Eq, Structural)]
pub struct GLByteBuffer {
    pub gl_id: u32,
    /// number of bytes in the buffer.
    pub length: usize,
    /// maximum number of bytes in the buffer.
    pub capacity: usize,
}

impl GLByteBuffer {
    /// The buffer is no fuller than its capacity.
    pub open spec fn wf(&self) -> bool {
        self.length <= self.capacity
    }

    /// An empty buffer of `capacity` bytes, which OpenGL has given the id
    /// `gl_id`.
    pub fn new(gl_id: u32, capacity: usize) -> (b: GLByteBuffer)
        requires
            gl_id != 0,
        ensures
            b == (GLByteBuffer { gl_id, length: 0, capacity }),
            b.wf(),
    {
        GLByteBuffer { gl_id, length: 0, capacity }
    }

    /// Adds `count` bytes at the end; they are to be written where the
    /// returned range says.
    pub fn push(&mut self, count: usize) -> (w: BufferWrite)
        requires
            old(self).length + count <= old(self).capacity,
        ensures
            w == (BufferWrite { offset: old(self).length, count }),
            *final(self) == (GLByteBuffer { length: (old(self).length + count) as usize, ..*old(self) }),
    {
        let w = self.update_inner(self.length, count);
        self.length = self.length + count;
        w
    }

    /// Removes the `count` bytes at `i` by moving the last `count` bytes into
    /// their place; returns that move, or `None` when the removed bytes were
    /// the last ones and nothing has to move.
    pub fn swap_remove(&mut self, i: usize, count: usize) -> (c: Option<BufferCopy>)
        requires
            count <= old(self).length,
            i + count <= old(self).length,
            i + count < old(self).length ==> i + count <= old(self).length - count,
        ensures
            *final(self) == (GLByteBuffer { length: (old(self).length - count) as usize, ..*old(self) }),
            c == (if i < final(self).length {
                Some(BufferCopy { from: final(self).length, to: i, count })
            } else {
                None
            }),
            c matches Some(cp) ==> cp.to + cp.count <= cp.from && cp.from + cp.count
                == old(self).length,
    {
        self.length = self.length - count;
        if i < self.length {
            Some(BufferCopy { from: self.length, to: i, count })
        } else {
            None
        }
    }

    /// Overwrites `count` bytes at `idx`, within what the buffer holds.
    pub fn update(&self, idx: usize, count: usize) -> (w: BufferWrite)
        requires
            idx + count <= self.length,
            self.wf(),
        ensures
            w == (BufferWrite { offset: idx, count }),
    {
        self.update_inner(idx, count)
    }

    fn update_inner(&self, idx: usize, count: usize) -> (w: BufferWrite)
        requires
            idx + count <= self.capacity,
        ensures
            w == (BufferWrite { offset: idx, count }),
    {
        BufferWrite { offset: idx, count }
    }
}

/// Fixed-size typed VRAM buffer, optimized for bulk inserts.
pub struct GLBuffer<T> {
    pub byte_buffer: GLByteBuffer,
    /// number of `T`s in the buffer.
    pub length: usize,
    /// the type of the values held
    pub element: PhantomData<T>,
}

impl<T> GLBuffer<T> {
    /// The bytes of the buffer are exactly its `T`s.
    pub open spec fn wf(&self) -> bool {
        &&& self.byte_buffer.wf()
        &&& self.byte_buffer.length == self.length * size_of::<T>()
    }

    /// An empty buffer with room for `capacity` values of `T`, in the video
    /// memory buffer that OpenGL has given the id `gl_id`.
    pub fn new(gl_id: u32, capacity: usize) -> (b: GLBuffer<T>)
        requires
            gl_id != 0,
            capacity * size_of::<T>() <= usize::MAX,
        ensures
            b.byte_buffer == (GLByteBuffer {
                gl_id,
                length: 0,
                capacity: (capacity * size_of::<T>()) as usize,
            }),
            b.length == 0,
            b.wf(),
    {
        let size = core::mem::size_of::<T>();
        GLBuffer { byte_buffer: GLByteBuffer::new(gl_id, capacity * size), length: 0, element: PhantomData }
    }

    /// Adds `vs` at the end; their bytes are to be written where the returned
    /// range says.
    pub fn push(&mut self, vs: &[T]) -> (w: BufferWrite)
        requires
            old(self).byte_buffer.length + vs@.len() * size_of::<T>() <= old(self).byte_buffer.capacity,
            old(self).length + vs@.len() <= usize::MAX,
        ensures
            w == (BufferWrite {
                offset: old(self).byte_buffer.length,
                count: (vs@.len() * size_of::<T>()) as usize,
            }),
            final(self).byte_buffer == (GLByteBuffer {
                length: (old(self).byte_buffer.length + vs@.len() * size_of::<T>()) as usize,
                ..old(self).byte_buffer
            }),
            final(self).length == old(self).length + vs@.len(),
            old(self).wf() ==> final(self).wf(),
    {
        let size = core::mem::size_of::<T>();
        proof {
            vstd::arithmetic::mul::lemma_mul_is_distributive_add_other_way(
                size as int,
                old(self).length as int,
                vs@.len() as int,
            );
        }
        let w = self.byte_buffer.push(size * vs.len());
        self.length = self.length + vs.len();
        w
    }

    /// Overwrites the values from index `idx` on with `vs`, within what the
    /// buffer holds; their bytes are to be written where the returned range
    /// says.
    pub fn update(&mut self, idx: usize, vs: &[T]) -> (w: BufferWrite)
        requires
            idx * size_of::<T>() + vs@.len() * size_of::<T>() <= old(self).byte_buffer.length,
            old(self).byte_buffer.wf(),
        ensures
            w == (BufferWrite {
                offset: (idx * size_of::<T>()) as usize,
                count: (vs@.len() * size_of::<T>()) as usize,
            }),
            *final(self) == *old(self),
    {
        let size = core::mem::size_of::<T>();
        self.byte_buffer.update(idx * size, vs.len() * size)
    }

    /// Removes the `count` values at `idx` by moving the last `count` values
    /// into their place; returns that move of bytes, or `None` when nothing
    /// has to move.
    pub fn swap_remove(&mut self, idx: usize, count: usize) -> (c: Option<BufferCopy>)
        requires
            count <= old(self).length,
            count * size_of::<T>() <= old(self).byte_buffer.length,
            idx * size_of::<T>() + count * size_of::<T>() <= old(self).byte_buffer.length,
            idx * size_of::<T>() + count * size_of::<T>() < old(self).byte_buffer.length ==> idx
                * size_of::<T>() + count * size_of::<T>() <= old(self).byte_buffer.length - count
                * size_of::<T>(),
        ensures
            final(self).byte_buffer == (GLByteBuffer {
                length: (old(self).byte_buffer.length - count * size_of::<T>()) as usize,
                ..old(self).byte_buffer
            }),
            final(self).length == old(self).length - count,
            c == (if idx * size_of::<T>() < final(self).byte_buffer.length {
                Some(
                    BufferCopy {
                        from: final(self).byte_buffer.length,
                        to: (idx * size_of::<T>()) as usize,
                        count: (count * size_of::<T>()) as usize,
                    },
                )
            } else {
                None
            }),
            old(self).wf() ==> final(self).wf(),
    {
        let size = core::mem::size_of::<T>();
        proof {
            vstd::arithmetic::mul::lemma_mul_is_distributive_sub(
                size as int,
                old(self).length as int,
                count as int,
            );
            vstd::arithmetic::mul::lemma_mul_is_commutative(size as int, old(self).length as int);
            vstd::arithmetic::mul::lemma_mul_is_commutative(size as int, count as int);
            vstd::arithmetic::mul::lemma_mul_is_commutative(
                size as int,
                (old(self).length - count) as int,
            );
        }
        let c = self.byte_buffer.swap_remove(size * idx, size * count);
        self.length = self.length - count;
        c
    }
}

/// How the vertices of an array are drawn.
#[derive(Clone, Copy, Debug, PartialEq, Eq, Structural)]
pub enum DrawMode {
    Lines,
    Triangles,
    Points,
}

/// A range of vertices to draw.
#[derive(Clone, Copy, Debug, PartialEq, Eq, Structural)]
pub struct DrawCall {
    /// the first vertex to draw
    pub first: usize,
    /// how many vertices to draw
    pub count: usize,
}

/// A fixed-capacity array of bytes passed to OpenGL.
pub struct GLArray<T> {
    pub buffer: GLBuffer<T>,
    pub gl_id: u32,
    /// How to draw this buffer.
    pub mode: DrawMode,
    /// number of vertices in one `T`
    pub attrib_span: usize,
    /// length in vertices
    pub length: usize,
}

impl<T> GLArray<T> {
    /// A vertex array with the id `gl_id`, which draws the values of `buffer`
    /// as vertices laid out by `attribs`; no vertex is counted in it yet.
    pub fn new(gl_id: u32, attribs: &[AttribData], mode: DrawMode, buffer: GLBuffer<T>) -> (a: GLArray<
        T,
    >)
        requires
            attribs_bytes(attribs@, attribs@.len() as int) <= usize::MAX,
            attribs_bytes(attribs@, attribs@.len() as int) != 0,
            size_of::<T>() as int % attribs_bytes(attribs@, attribs@.len() as int) == 0,
        ensures
            a.buffer == buffer,
            a.gl_id == gl_id,
            a.mode == mode,
            a.attrib_span == size_of::<T>() as int / attribs_bytes(attribs@, attribs@.len() as int),
            a.length == 0,
    {
        let (_offsets, vertex_bytes) = attrib_offsets(attribs);
        let size = core::mem::size_of::<T>();
        GLArray { buffer, gl_id, mode, attrib_span: size / vertex_bytes, length: 0 }
    }

    /// Adds `vs` at the end; their bytes are to be written where the returned
    /// range says.
    pub fn push(&mut self, vs: &[T]) -> (w: BufferWrite)
        requires
            old(self).buffer.byte_buffer.length + vs@.len() * size_of::<T>()
                <= old(self).buffer.byte_buffer.capacity,
            old(self).buffer.length + vs@.len() <= usize::MAX,
            old(self).length + vs@.len() * old(self).attrib_span <= usize::MAX,
        ensures
            w == (BufferWrite {
                offset: old(self).buffer.byte_buffer.length,
                count: (vs@.len() * size_of::<T>()) as usize,
            }),
            final(self).buffer.byte_buffer == (GLByteBuffer {
                length: (old(self).buffer.byte_buffer.length + vs@.len() * size_of::<T>()) as usize,
                ..old(self).buffer.byte_buffer
            }),
            final(self).buffer.length == old(self).buffer.length + vs@.len(),
            final(self).length == old(self).length + vs@.len() * old(self).attrib_span,
            final(self).gl_id == old(self).gl_id,
            final(self).mode == old(self).mode,
            final(self).attrib_span == old(self).attrib_span,
    {
        let w = self.buffer.push(vs);
        proof {
            vstd::arithmetic::mul::lemma_mul_upper_bound(
                vs@.len() as int,
                vs@.len() as int,
                self.attrib_span as int,
                self.attrib_span as int,
            );
        }
        self.length = self.length + vs.len() * self.attrib_span;
        w
    }

    /// Removes the `count` values at `idx` by moving the last `count` values
    /// into their place; returns that move of bytes, or `None` when nothing
    /// has to move.
    pub fn swap_remove(&mut self, idx: usize, count: usize) -> (c: Option<BufferCopy>)
        requires
            count <= old(self).buffer.length,
            count * size_of::<T>() <= old(self).buffer.byte_buffer.length,
            idx * size_of::<T>() + count * size_of::<T>() <= old(self).buffer.byte_buffer.length,
            idx * size_of::<T>() + count * size_of::<T>() < old(self).buffer.byte_buffer.length
                ==> idx * size_of::<T>() + count * size_of::<T>()
                <= old(self).buffer.byte_buffer.length - count * size_of::<T>(),
            count * old(self).attrib_span <= old(self).length,
        ensures
            final(self).buffer.byte_buffer == (GLByteBuffer {
                length: (old(self).buffer.byte_buffer.length - count * size_of::<T>()) as usize,
                ..old(self).buffer.byte_buffer
            }),
            final(self).buffer.length == old(self).buffer.length - count,
            final(self).length == old(self).length - count * old(self).attrib_span,
            c == (if idx * size_of::<T>() < final(self).buffer.byte_buffer.length {
                Some(
                    BufferCopy {
                        from: final(self).buffer.byte_buffer.length,
                        to: (idx * size_of::<T>()) as usize,
                        count: (count * size_of::<T>()) as usize,
                    },
                )
            } else {
                None
            }),
            final(self).gl_id == old(self).gl_id,
            final(self).mode == old(self).mode,
            final(self).attrib_span == old(self).attrib_span,
    {
        let c = self.buffer.swap_remove(idx, count);
        self.length = self.length - count * self.attrib_span;
        c
    }

    /// Draws every value of the buffer.
    pub fn draw(&self) -> (d: DrawCall)
        requires
            self.buffer.length <= self.length,
            self.buffer.length * self.attrib_span <= usize::MAX,
        ensures
            d == (DrawCall { first: 0, count: (self.buffer.length * self.attrib_span) as usize }),
    {
        self.draw_slice(0, self.buffer.length)
    }

    /// Draws `len` values from the value at `start` on.
    pub fn draw_slice(&self, start: usize, len: usize) -> (d: DrawCall)
        requires
            start + len <= self.length,
            start * self.attrib_span <= usize::MAX,
            len * self.attrib_span <= usize::MAX,
        ensures
            d == (DrawCall {
                first: (start * self.attrib_span) as usize,
                count: (len * self.attrib_span) as usize,
            }),
    {
        DrawCall { first: start * self.attrib_span, count: len * self.attrib_span }
    }
}

} // verus!
