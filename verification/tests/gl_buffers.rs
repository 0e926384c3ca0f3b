use playform::glbuffer;
use playform::glw::gl_buffer::{BufferCopy, BufferWrite, DrawCall, DrawMode, GLArray, GLBuffer, GLByteBuffer};
use playform::glw::vertex::{attrib_offsets, attribs_divide, attribs_fill, attribs_size, AttribData, GLType};
use playform::glw;

#[derive(Clone, Copy)]
struct Vertex {
    _position: [f32; 3],
    _color: [f32; 4],
}

#[test]
fn gl_type_sizes() {
    assert_eq!(GLType::Float.size(), 4);
    assert_eq!(GLType::UInt.size(), 4);
    assert_eq!(GLType::Int.size(), 4);
    assert!(!GLType::Float.is_integral());
    assert!(GLType::UInt.is_integral());
    assert!(GLType::Int.is_integral());
}

#[test]
fn attribute_offsets_add_up() {
    let attribs = [
        AttribData { name: "position", size: 3, unit: GLType::Float },
        AttribData { name: "color", size: 4, unit: GLType::Float },
        AttribData { name: "id", size: 1, unit: GLType::UInt },
    ];
    let (offsets, total) = attrib_offsets(&attribs);
    assert_eq!(offsets, vec![0, 12, 28]);
    assert_eq!(total, 32);
    let (offsets, total) = attrib_offsets(&[]);
    assert!(offsets.is_empty());
    assert_eq!(total, 0);
}

#[test]
fn byte_buffer_push_and_update() {
    let mut b = GLByteBuffer::new(5, 16);
    assert_eq!(b, GLByteBuffer { gl_id: 5, length: 0, capacity: 16 });
    assert_eq!(b.push(6), BufferWrite { offset: 0, count: 6 });
    assert_eq!(b.push(10), BufferWrite { offset: 6, count: 10 });
    assert_eq!(b.length, 16);
    assert_eq!(b.update(4, 8), BufferWrite { offset: 4, count: 8 });
}

#[test]
fn byte_buffer_swap_remove() {
    let mut b = GLByteBuffer::new(1, 100);
    b.push(12);
    // remove bytes 2..4: the last two bytes move there
    assert_eq!(b.swap_remove(2, 2), Some(BufferCopy { from: 10, to: 2, count: 2 }));
    assert_eq!(b.length, 10);
    // removing the last bytes moves nothing
    assert_eq!(b.swap_remove(7, 3), None);
    assert_eq!(b.length, 7);
    assert_eq!(b.swap_remove(0, 7), None);
    assert_eq!(b.length, 0);
}

#[test]
fn typed_buffer_counts_bytes() {
    let mut b: GLBuffer<Vertex> = GLBuffer::new(3, 10);
    assert_eq!(b.byte_buffer, GLByteBuffer { gl_id: 3, length: 0, capacity: 280 });
    let vs = [Vertex { _position: [0.0; 3], _color: [1.0; 4] }; 4];
    assert_eq!(b.push(&vs), BufferWrite { offset: 0, count: 112 });
    assert_eq!(b.push(&vs[..2]), BufferWrite { offset: 112, count: 56 });
    assert_eq!(b.length, 6);
    assert_eq!(b.update(1, &vs[..2]), BufferWrite { offset: 28, count: 56 });
    assert_eq!(b.swap_remove(1, 2), Some(BufferCopy { from: 112, to: 28, count: 56 }));
    assert_eq!(b.length, 4);
    assert_eq!(b.byte_buffer.length, 112);
    assert_eq!(b.swap_remove(3, 1), None);
    assert_eq!(b.length, 3);
}

#[test]
fn vertex_array_counts_vertices() {
    let attribs = [
        AttribData { name: "position", size: 3, unit: GLType::Float },
        AttribData { name: "color", size: 4, unit: GLType::Float },
    ];
    let buffer: GLBuffer<[Vertex; 3]> = GLBuffer::new(2, 8);
    let mut a = GLArray::new(9, &attribs, DrawMode::Triangles, buffer);
    assert_eq!(a.attrib_span, 3);
    assert_eq!(a.length, 0);
    assert_eq!(a.mode, DrawMode::Triangles);
    let v = Vertex { _position: [0.0; 3], _color: [0.0; 4] };
    let tris = [[v; 3]; 2];
    assert_eq!(a.push(&tris), BufferWrite { offset: 0, count: 168 });
    assert_eq!(a.length, 6);
    assert_eq!(a.draw(), DrawCall { first: 0, count: 6 });
    assert_eq!(a.draw_slice(1, 1), DrawCall { first: 3, count: 3 });
    assert_eq!(a.swap_remove(0, 1), Some(BufferCopy { from: 84, to: 0, count: 84 }));
    assert_eq!(a.length, 3);
    assert_eq!(a.buffer.length, 1);
}

#[test]
fn staged_buffer_flushes_what_was_pushed() {
    let attribs = [AttribData { name: "x", size: 1, unit: GLType::Float }];
    let mut b: glw::GLBuffer<u32> = glw::GLBuffer::new(1, 2, &attribs, 3, 4, glw::DrawMode::Lines);
    assert_eq!(b.capacity, 12);
    b.push(&[1, 2, 3]);
    b.push(&[4, 5, 6]);
    assert_eq!(b.length, 0);
    match b.flush() {
        Some((w, data)) => {
            assert_eq!(w, BufferWrite { offset: 0, count: 24 });
            assert_eq!(data, vec![1, 2, 3, 4, 5, 6]);
        }
        None => panic!("two blocks were pushed"),
    }
    assert_eq!(b.length, 6);
    assert!(b.buffer.is_empty());
    assert!(b.flush().is_none());
    b.push(&[7, 8, 9]);
    match b.flush() {
        Some((w, data)) => {
            assert_eq!(w, BufferWrite { offset: 24, count: 12 });
            assert_eq!(data, vec![7, 8, 9]);
        }
        None => panic!("a block was pushed"),
    }
    assert_eq!(b.draw(), DrawCall { first: 0, count: 9 });
    assert_eq!(b.update(1, &[0, 0, 0]), BufferWrite { offset: 12, count: 12 });
    assert_eq!(b.swap_remove(0), Some(BufferCopy { from: 24, to: 0, count: 12 }));
    assert_eq!(b.length, 6);
    assert_eq!(b.swap_remove(1), None);
    assert_eq!(b.length, 3);
}

#[test]
fn float_buffer_push_and_remove() {
    let attribs = [AttribData { name: "position", size: 1, unit: GLType::Float }];
    let null: glbuffer::GLBuffer<f32> = glbuffer::GLBuffer::null();
    assert_eq!((null.vertex_array, null.vertex_buffer, null.length, null.capacity), (u32::MAX, u32::MAX, 0, 0));
    let mut b: glbuffer::GLBuffer<f32> = glbuffer::GLBuffer::new(4, 5, &attribs, 10);
    assert_eq!(b.push(&[1.0, 2.0, 3.0, 4.0, 5.0]), BufferWrite { offset: 0, count: 20 });
    assert_eq!(b.swap_remove(2, 0), Some(BufferCopy { from: 12, to: 0, count: 8 }));
    assert_eq!(b.length, 3);
    assert_eq!(b.swap_remove(1, 2), None);
    assert_eq!(b.length, 2);
    assert_eq!(b.draw(), DrawCall { first: 0, count: 2 });
}

use playform::block::BlockBuffers;
use playform::id_slots::IdSlots;
use playform::mob::{mob_attribs, MobBuffers};
use playform::state::EntityId;

#[test]
fn id_slots_follow_swap_remove() {
    let mut s = IdSlots::new();
    s.push(EntityId(10));
    s.push(EntityId(11));
    s.push(EntityId(12));
    assert_eq!(s.len(), 3);
    assert_eq!(s.index_of(EntityId(11)), Some(1));
    // the last entity moves into the freed slot
    assert_eq!(s.swap_remove(EntityId(10)), 0);
    assert_eq!(s.index_of(EntityId(12)), Some(0));
    assert_eq!(s.index_of(EntityId(10)), None);
    assert_eq!(s.index_of(EntityId(11)), Some(1));
    // removing the last one moves nothing
    assert_eq!(s.swap_remove(EntityId(11)), 1);
    assert_eq!(s.index_of(EntityId(12)), Some(0));
    assert_eq!(s.len(), 1);
    assert_eq!(s.swap_remove(EntityId(12)), 0);
    assert_eq!(s.len(), 0);
}

#[test]
fn mob_buffers_write_each_mob_in_its_slot() {
    let attribs = mob_attribs();
    assert_eq!((attribs[0].name, attribs[0].size), ("position", 3));
    assert_eq!((attribs[1].name, attribs[1].size), ("in_color", 4));
    let mut mobs: MobBuffers<Vertex> = MobBuffers::new(1, 2);
    assert_eq!(mobs.triangles.buffer.byte_buffer.capacity, 1152 * 28);
    assert_eq!(mobs.triangles.attrib_span, 1);
    let v = Vertex { _position: [0.0; 3], _color: [0.0; 4] };
    assert_eq!(mobs.push(EntityId(5), &[v; 36]), BufferWrite { offset: 0, count: 1008 });
    assert_eq!(mobs.push(EntityId(6), &[v; 36]), BufferWrite { offset: 1008, count: 1008 });
    // the slot of a mob counts vertices when it is overwritten
    assert_eq!(mobs.update(EntityId(6), &[v; 36]), BufferWrite { offset: 28, count: 1008 });
    assert_eq!(mobs.draw(), DrawCall { first: 0, count: 72 });
}

#[test]
fn block_buffers_keep_boxes_in_slots() {
    let mut blocks: BlockBuffers<[u32; 4], [u32; 7]> = BlockBuffers::new((1, 2), (3, 4));
    let ((tw, td), (ow, od)) = blocks.push(EntityId(7), &[[1; 4]; 36], &[[2; 7]; 24]);
    assert_eq!(tw, BufferWrite { offset: 0, count: 576 });
    assert_eq!(td, vec![[1; 4]; 36]);
    assert_eq!(ow, BufferWrite { offset: 0, count: 672 });
    assert_eq!(od, vec![[2; 7]; 24]);
    let ((tw, _), (ow, _)) = blocks.push(EntityId(8), &[[3; 4]; 36], &[[4; 7]; 24]);
    assert_eq!(tw, BufferWrite { offset: 576, count: 576 });
    assert_eq!(ow, BufferWrite { offset: 672, count: 672 });
    blocks.push(EntityId(9), &[[5; 4]; 36], &[[6; 7]; 24]);
    assert_eq!(blocks.draw(true), (DrawCall { first: 0, count: 108 }, Some(DrawCall { first: 0, count: 72 })));
    assert_eq!(blocks.draw(false), (DrawCall { first: 0, count: 108 }, None));
    // block 7 leaves: block 9's boxes move into its slot
    assert_eq!(
        blocks.swap_remove(EntityId(7)),
        (
            Some(BufferCopy { from: 1152, to: 0, count: 576 }),
            Some(BufferCopy { from: 1344, to: 0, count: 672 })
        )
    );
    assert_eq!(blocks.slots.index_of(EntityId(9)), Some(0));
    // the last block leaves: nothing moves
    assert_eq!(blocks.swap_remove(EntityId(8)), (None, None));
    assert_eq!(blocks.draw(true), (DrawCall { first: 0, count: 36 }, Some(DrawCall { first: 0, count: 24 })));
}


#[test]
fn attribute_layout_checks() {
    let attribs = [
        AttribData { name: "position", size: 3, unit: GLType::Float },
        AttribData { name: "in_color", size: 4, unit: GLType::Float },
    ];
    assert_eq!(attribs_size(&attribs), Some(28));
    assert!(attribs_fill::<Vertex>(&attribs));
    assert!(!attribs_fill::<[Vertex; 2]>(&attribs));
    assert!(attribs_divide::<[Vertex; 3]>(&attribs));
    assert!(!attribs_divide::<u32>(&attribs));
    assert!(!attribs_divide::<u32>(&[]));
    let huge = [AttribData { name: "x", size: usize::MAX, unit: GLType::Int }];
    assert_eq!(attribs_size(&huge), None);
    assert!(!attribs_fill::<u32>(&huge));
}
