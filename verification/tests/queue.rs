use playform::queue::Queue;

#[test]
fn simple_queue_push_pop_slices() {
    let mut q: Queue<u32> = Queue::new(4);
    q.push_all(&[1, 2, 3]);
    assert_eq!(q.len(), 3);
    q.pop(2);
    q.push_all(&[4, 5, 6]);
    assert_eq!(q.len(), 4);
    let (l, h) = q.slices(0, q.len());
    assert_eq!(l, &[3, 4]);
    assert_eq!(h, &[5, 6]);
    assert_eq!(q.head, 2);
    assert_eq!(q.tail, 2);
}

#[test]
fn simple_queue_swap_remove_copies_from_the_end_backwards() {
    let mut q: Queue<u32> = Queue::new(8);
    q.push_all(&[1, 2, 7, 8, 3, 4]);
    q.swap_remove(2, 2);
    assert_eq!(q.len(), 4);
    // the last element lands first
    let (l, h) = q.slices(0, q.len());
    assert_eq!(l, &[1, 2, 4, 3]);
    assert!(h.is_empty());
}

#[test]
fn simple_queue_clear() {
    let mut q: Queue<u32> = Queue::new(2);
    q.push(1);
    assert!(!q.is_empty());
    q.clear();
    assert!(q.is_empty());
    assert_eq!(q.contents.len(), 0);
}

#[test]
fn simple_queue_push_after_swap_remove_fills_the_end_slot() {
    let mut q: Queue<i64> = Queue::new(4);
    q.push_all(&[1, 2, 3]);
    q.swap_remove(0, 1);
    assert_eq!(q.len(), 2);
    q.push(4);
    assert_eq!(q.len(), 3);
    let (l, h) = q.slices(0, 3);
    let all: Vec<i64> = l.iter().chain(h.iter()).cloned().collect();
    assert_eq!(all, vec![3, 2, 4]);
}

#[test]
fn simple_queue_push_all_goes_round() {
    let mut q: Queue<u32> = Queue::new(4);
    q.push_all(&[1, 2, 3, 4]);
    q.pop(3);
    q.push_all(&[5, 6]);
    // the new elements fill the slots from the end slot on, going round
    assert_eq!(q.contents, vec![5, 6, 3, 4]);
    assert_eq!(q.tail, 2);
    let (l, h) = q.slices(0, q.len());
    assert_eq!(l, &[4]);
    assert_eq!(h, &[5, 6]);
}

#[test]
fn simple_queue_swap_remove_overlapping_keeps_positions_in_range() {
    let mut q: Queue<u32> = Queue::new(8);
    q.push_all(&[0, 1, 2, 3, 4]);
    // positions 2 and 3 are replaced by positions 4 and 3
    q.swap_remove(2, 2);
    let (l, h) = q.slices(0, q.len());
    let all: Vec<u32> = l.iter().chain(h.iter()).cloned().collect();
    assert_eq!(all, vec![0, 1, 4]);
}
