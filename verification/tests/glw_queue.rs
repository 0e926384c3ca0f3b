use playform::glw::queue::vec_copy;
use playform::glw::queue::Queue;

#[test]
fn push_then_slice() {
    let elems: Vec<i64> = vec![1, 2, 3];
    let mut q = Queue::new(32);
    q.push_all(&elems);
    assert!(q.len() == elems.len());
    let (l, h) = q.slices(0, q.len() - 1);
    assert!(l.len() + h.len() == elems.len() - 1);
    for (i, elem) in l.iter().enumerate() {
        assert!(*elem == elems[i]);
    }
    for (i, elem) in h.iter().enumerate() {
        assert!(*elem == elems[i + l.len()]);
    }
}

#[test]
fn push_then_pop() {
    let popped_pushes: Vec<i64> = vec![1, 2, 3];
    let more_pushes: Vec<i64> = vec![4, 5];
    let mut q = Queue::new(32);
    q.push_all(&popped_pushes);
    q.push_all(&more_pushes);
    assert!(q.len() == popped_pushes.len() + more_pushes.len());
    q.pop(popped_pushes.len());
    assert!(q.len() == more_pushes.len());
    let (l, h) = q.slices(0, q.len());
    assert!(l.len() + h.len() == more_pushes.len());
    for (i, elem) in l.iter().enumerate() {
        assert!(*elem == more_pushes[i]);
    }
    for (i, elem) in h.iter().enumerate() {
        assert!(*elem == more_pushes[i + l.len()]);
    }
}

#[test]
fn wrapped_pushes() {
    let capacity: usize = 32;
    let popped_pushes: Vec<i64> = vec![0; capacity / 2];
    let more_pushes: Vec<i64> = (1..=capacity as i64).collect();
    let mut q: Queue<i64> = Queue::new(capacity);
    q.push_all(&popped_pushes);
    q.pop(popped_pushes.len());
    q.push_all(&more_pushes);
    assert!(q.len() == more_pushes.len());
    let (l, h) = q.slices(0, q.len());
    assert!(l.len() + h.len() == more_pushes.len());
    assert!(h.len() > 0);
    for (x, y) in l.iter().chain(h.iter()).zip(more_pushes.iter()) {
        assert!(x == y);
    }
}

#[test]
fn swap_remove_simple() {
    let mut q: Queue<i64> = Queue::new(32);
    q.push_all(&[1, 2, 3, 4, 7, 8, 5, 6]);
    q.swap_remove(4, 2);

    let i = q.iter(0, q.len());
    let elems = [1, 2, 3, 4, 5, 6i64];
    assert!(i.len() == elems.len());
    for (x, y) in i.iter().zip(elems.iter()) {
        assert!(x == y);
    }
}

#[test]
fn push_swap_remove_push() {
    let mut q: Queue<i64> = Queue::new(32);
    q.push_all(&[1, 9]);
    q.swap_remove(1, 1);
    q.push_all(&[2, 3, 4, 5]);

    let elems = [1, 2, 3, 4, 5i64];
    let i = q.iter(0, q.len());
    let mut count = 0;
    for (i, &x) in i.iter().enumerate() {
        assert!(i < elems.len());
        assert_eq!(x, elems[i]);
        count += 1;
    }
    assert!(count == q.len());
    assert!(count == elems.len());
}

#[test]
fn swap_remove_end() {
    let mut q: Queue<i64> = Queue::new(8);
    let popped = [11, 12i64];
    let elems = [1, 2, 3, 4, 5, 6, 7, 8i64];

    q.push_all(&popped);
    q.pop(popped.len());
    q.push_all(&elems);
    q.swap_remove(4, 4);
    assert!(q.len() == 4);

    let i = q.iter(0, q.len());
    let mut count = 0;
    for (i, &x) in i.iter().enumerate() {
        assert!(i < elems.len());
        assert!(x == elems[i]);
        count += 1;
    }
    assert!(count == q.len());
}

#[test]
fn swap_remove_to_broken() {
    let mut q: Queue<i64> = Queue::new(8);
    let popped = [9, 9, 9, 9i64];
    q.push_all(&popped);
    q.pop(popped.len());
    q.push_all(&[1, 2, 3, 7, 8, 6, 4, 5]);
    q.swap_remove(3, 2);

    let i = q.iter(0, q.len());
    let elems = [1, 2, 3, 4, 5, 6i64];
    assert!(i.len() == elems.len());
    for (x, y) in i.iter().zip(elems.iter()) {
        assert!(x == y);
    }
}

#[test]
fn swap_remove_from_broken() {
    let mut q: Queue<i64> = Queue::new(8);
    let popped = [9, 9, 9, 9i64];
    q.push_all(&popped);
    q.pop(popped.len());
    q.push_all(&[4, 5, 6, 1, 2, 3]);
    q.swap_remove(0, 3);

    let i = q.iter(0, q.len());
    let elems = [1, 2, 3i64];
    assert!(i.len() == elems.len());
    for (x, y) in i.iter().zip(elems.iter()) {
        assert!(x == y);
    }
}

#[test]
fn glw_queue_clear_and_empty() {
    let mut q: Queue<u8> = Queue::new(4);
    assert!(q.is_empty());
    q.push_all(&[1, 2, 3]);
    assert!(!q.is_empty());
    q.clear();
    assert!(q.is_empty());
    q.push(7);
    assert_eq!(q.iter(0, 1), vec![7]);
}

#[test]
fn glw_queue_slices_wrap_split() {
    let mut q: Queue<u8> = Queue::new(4);
    q.push_all(&[1, 2, 3]);
    q.pop(2);
    q.push_all(&[4, 5, 6]);
    // elements 3, 4 | 5, 6 around the end of the buffer
    let (l, h) = q.slices(0, 4);
    assert_eq!(l, &[3, 4]);
    assert_eq!(h, &[5, 6]);
    let (l, h) = q.slices(1, 1);
    assert!(l.is_empty() && h.is_empty());
}

#[test]
fn glw_queue_swap_remove_last_elements() {
    let mut q: Queue<u8> = Queue::new(4);
    q.push_all(&[1, 2, 3, 4]);
    q.swap_remove(2, 2);
    assert_eq!(q.iter(0, q.len()), vec![1, 2]);
}

#[test]
fn vec_copy_test() {
    let mut v = vec![1, 2, 3, 4, 5];
    vec_copy(&mut v, 1, 3, 2);
    assert_eq!(v, vec![1, 4, 5, 4, 5]);
}
