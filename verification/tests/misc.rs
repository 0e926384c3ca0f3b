use playform::borrow::Borrow;
use playform::color::Color4;
use playform::event_handler::swap_remove_first;
use playform::loader::{Loader, Operation};
use playform::octree::Dimension;

#[test]
fn swap_remove_first_removes_first_match() {
    let mut v = vec![1, 2, 3, 2, 4];
    swap_remove_first(&mut v, 2);
    assert_eq!(v, vec![1, 4, 3, 2]);
    swap_remove_first(&mut v, 9);
    assert_eq!(v, vec![1, 4, 3, 2]);
}

#[test]
fn dimensions_cycle() {
    assert_eq!(Dimension::X.next(), Dimension::Y);
    assert_eq!(Dimension::Y.next(), Dimension::Z);
    assert_eq!(Dimension::Z.next(), Dimension::X);
}

#[test]
fn color_and_borrow() {
    let c = Color4::new(1u8, 2, 3, 4);
    assert_eq!((c.r, c.g, c.b, c.a), (1, 2, 3, 4));
    let _b = Borrow::borrow(vec![1]);
}

#[test]
fn loader_queue_of_operations() {
    let mut l: Loader<u32, u32> = Loader::new();
    l.push_back(Operation::Load(1));
    l.push_back(Operation::Unload(2));
    match l.pop_front() {
        Some(Operation::Load(x)) => assert_eq!(x, 1),
        _ => panic!("load first"),
    }
}

#[test]
fn sun_goes_round() {
    let mut sun = playform::sun::Sun::new();
    assert_eq!(sun.position, 0);
    sun.advance(65000);
    assert_eq!(sun.position, 65000);
    sun.advance(1000);
    assert_eq!(sun.position, 464);
    sun.advance(65536 * 3 + 6);
    assert_eq!(sun.position, 470);
}
