use playform::glw::texture::TextureUnit;
use playform::id_allocator::IdAllocator;
use playform::lod_map::OwnerId;
use playform::state::EntityId;

#[test]
fn allocations_are_consecutive_and_distinct() {
    let mut a: IdAllocator<EntityId> = IdAllocator::new();
    assert_eq!(a.allocate(), EntityId(0));
    assert_eq!(a.allocate(), EntityId(1));
    assert_eq!(a.allocate(), EntityId(2));
    let mut o: IdAllocator<OwnerId> = IdAllocator::new();
    let x = o.allocate();
    let y = o.allocate();
    assert_ne!(x, y);
}

#[test]
fn entity_id_arithmetic() {
    assert_eq!(EntityId(1) + 2, EntityId(3));
    assert_eq!(EntityId::default(), EntityId(0));
}

#[test]
fn texture_units_are_handed_out_in_turn() {
    let mut units: IdAllocator<TextureUnit> = IdAllocator::new();
    assert_eq!(units.allocate(), TextureUnit { glsl_id: 0 });
    assert_eq!(units.allocate(), TextureUnit { glsl_id: 1 });
    assert_eq!(TextureUnit::default() + 5, TextureUnit { glsl_id: 5 });
}

#[test]
fn allocators_say_when_they_can_allocate() {
    let mut a: IdAllocator<EntityId> = IdAllocator::new();
    assert!(a.can_allocate());
    a.allocate();
    assert!(a.can_allocate());
    assert!(playform::id_allocator::IdValue::is_last(&EntityId(u32::MAX)));
    assert!(!playform::id_allocator::IdValue::is_last(&OwnerId(3)));
}
