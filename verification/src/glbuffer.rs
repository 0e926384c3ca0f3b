//! Arrays of vertices in video memory, all shaded with the same program,
//! whose vertices are made of float attributes.
use vstd::prelude::*;
use core::marker::PhantomData;
use vstd::layout::size_of;
use crate::glw::gl_buffer::{BufferCopy, BufferWrite, DrawCall};
use crate::glw::vertex::{AttribData, attribs_bytes};

verus! {

/// A fixed-capacity array of float-based structures passed to OpenGL.
pub struct GLBuffer<T> {
    pub vertex_array: u32,
    pub vertex_buffer: u32,
    /// number of `T`s in the buffer.
    pub length: usize,
    /// maximum number of `T`s in the buffer.
    pub capacity: usize,
    /// the type of the values held
    pub element: PhantomData<T>,
}

impl<T> GLBuffer<T> {
    /// The buffer is no fuller than its capacity, and its capacity in bytes
    /// is a machine number.
    pub open spec fn wf(&self) -> bool {
        &&& self.length <= self.capacity
        &&& self.capacity * size_of::<T>() <= usize::MAX
    }

    /// An empty buffer that stands for no buffer of OpenGL.
    pub fn null() -> (b: GLBuffer<T>)
        ensures
            b.vertex_array == u32::MAX,
            b.vertex_buffer == u32::MAX,
            b.length == 0,
            b.capacity == 0,
            b.wf(),
    {
        GLBuffer { vertex_array: u32::MAX, vertex_buffer: u32::MAX, length: 0, capacity: 0, element: PhantomData }
    }

    /// An empty buffer with room for `capacity` values of `T`, in the vertex
    /// array and buffer that OpenGL has given; `attribs` describe the whole
    /// of a `T`, float by float.
    pub fn new(vertex_array: u32, vertex_buffer: u32, attribs: &[AttribData], capacity: usize) -> (b:
        GLBuffer<T>)
        requires
            attribs_bytes(attribs@, attribs@.len() as int) == size_of::<T>(),
            capacity * size_of::<T>() <= usize::MAX,
        ensures
            b.vertex_array == vertex_array,
            b.vertex_buffer == vertex_buffer,
            b.length == 0,
            b.capacity == capacity,
            b.wf(),
    {
        GLBuffer { vertex_array, vertex_buffer, length: 0, capacity, element: PhantomData }
    }

    /// Removes block `i` of `span` values by moving the last `span` values
    /// into its place; returns that move of bytes, or `None` when the block
    /// ended the buffer.
    pub fn swap_remove(&mut self, span: usize, i: usize) -> (c: Option<BufferCopy>)
        requires
            old(self).wf(),
            i * span < old(self).length,
            span <= old(self).length,
        ensures
            final(self).length == old(self).length - span,
            final(self).capacity == old(self).capacity,
            final(self).vertex_array == old(self).vertex_array,
            final(self).vertex_buffer == old(self).vertex_buffer,
            final(self).wf(),
            c == (if i * span == final(self).length {
                None
            } else {
                Some(
                    BufferCopy {
                        from: (final(self).length * size_of::<T>()) as usize,
                        to: (i * span * size_of::<T>()) as usize,
                        count: (span * size_of::<T>()) as usize,
                    },
                )
            }),
    {
        let i = i * span;
        self.length = self.length - span;
        if i == self.length {
            return None;
        }
        let byte_size = core::mem::size_of::<T>();
        proof {
            vstd::arithmetic::mul::lemma_mul_inequality(
                self.length as int,
                self.capacity as int,
                byte_size as int,
            );
            vstd::arithmetic::mul::lemma_mul_inequality(i as int, self.capacity as int, byte_size as int);
            vstd::arithmetic::mul::lemma_mul_inequality(span as int, self.capacity as int, byte_size as int);
        }
        Some(BufferCopy { from: self.length * byte_size, to: i * byte_size, count: span * byte_size })
    }

    /// Adds `vs` at the end; their bytes are to be written where the returned
    /// range says.
    pub fn push(&mut self, vs: &[T]) -> (w: BufferWrite)
        requires
            old(self).wf(),
            old(self).length + vs@.len() <= old(self).capacity,
        ensures
            w == (BufferWrite {
                offset: (old(self).length * size_of::<T>()) as usize,
                count: (vs@.len() * size_of::<T>()) as usize,
            }),
            final(self).length == old(self).length + vs@.len(),
            final(self).capacity == old(self).capacity,
            final(self).vertex_array == old(self).vertex_array,
            final(self).vertex_buffer == old(self).vertex_buffer,
            final(self).wf(),
    {
        let size = core::mem::size_of::<T>();
        proof {
            vstd::arithmetic::mul::lemma_mul_inequality(
                self.length as int,
                self.capacity as int,
                size as int,
            );
            vstd::arithmetic::mul::lemma_mul_inequality(
                vs@.len() as int,
                self.capacity as int,
                size as int,
            );
        }
        let w = BufferWrite { offset: self.length * size, count: vs.len() * size };
        self.length = self.length + vs.len();
        w
    }

    /// Draws all the values of the buffer.
    pub fn draw(&self) -> (d: DrawCall)
        ensures
            d == (DrawCall { first: 0, count: self.length }),
    {
        self.draw_slice(0, self.length)
    }

    /// Draws `len` values from the value at `start` on.
    pub fn draw_slice(&self, start: usize, len: usize) -> (d: DrawCall)
        ensures
            d == (DrawCall { first: start, count: len }),
    {
        DrawCall { first: start, count: len }
    }
}

} // verus!
