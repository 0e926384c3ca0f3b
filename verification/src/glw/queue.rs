//! Circular bounded queue whose storage grows up to a fixed capacity and is
//! reused afterwards.
use vstd::prelude::*;
use vstd::slice::slice_subrange;

verus! {

/// `a` reduced once by `cap`: the slot index of logical offset `a` when
/// `a < 2 * cap`.
pub open spec fn wrap_index(a: int, cap: int) -> int {
    if a < cap {
        a
    } else {
        a - cap
    }
}

/// Copies the `n` elements at `from` over the `n` elements at `to`; the two
/// ranges may not overlap.
pub fn vec_copy<T: Copy>(v: &mut Vec<T>, to: usize, from: usize, n: usize)
    requires
        to + n <= old(v)@.len(),
        from + n <= old(v)@.len(),
        n == 0 || to + n <= from || from + n <= to,
    ensures
        final(v)@.len() == old(v)@.len(),
        forall|i: int|
            0 <= i < old(v)@.len() ==> #[trigger] final(v)@[i] == if to <= i < to + n {
                old(v)@[from + (i - to)]
            } else {
                old(v)@[i]
            },
{
    let mut k: usize = 0;
    while k < n
        invariant
            0 <= k <= n,
            to + n <= v.len(),
            from + n <= v.len(),
            n == 0 || to + n <= from || from + n <= to,
            v@.len() == old(v)@.len(),
            forall|i: int|
                0 <= i < old(v)@.len() ==> #[trigger] v@[i] == if to <= i < to + k {
                    old(v)@[from + (i - to)]
                } else {
                    old(v)@[i]
                },
        decreases n - k,
    {
        let x = v[from + k];
        v.set(to + k, x);
        k = k + 1;
    }
}

/// `(a + b) % cap` for `a < cap` and `b <= cap`, computed without overflow.
fn add_wrapped(a: usize, b: usize, cap: usize) -> (r: usize)
    requires
        a < cap,
        b <= cap,
    ensures
        r == wrap_index(a + b, cap as int),
{
    if b >= cap - a {
        b - (cap - a)
    } else {
        a + b
    }
}

/// Circular bounded queue.
pub struct Queue<T> {
    contents: Vec<T>,
    /// the number of slots `contents` may grow to
    capacity: usize,
    /// index in `contents` the queue starts at
    head: usize,
    /// index in `contents` to place the next element at
    tail: usize,
    /// number of elements used
    length: usize,
}

impl<T: Copy> Queue<T> {
    /// The number of elements the queue can hold.
    pub closed spec fn capacity_spec(&self) -> nat {
        self.capacity as nat
    }

    /// The slot in the storage where the queue starts.
    pub closed spec fn head_spec(&self) -> int {
        self.head as int
    }

    /// The internal invariant of the queue.
    pub closed spec fn wf(&self) -> bool {
        &&& self.contents.len() <= self.capacity
        &&& self.length <= self.capacity
        &&& self.capacity == 0 ==> self.head == 0 && self.tail == 0 && self.contents.len() == 0
        &&& self.capacity > 0 ==> {
            &&& self.head < self.capacity
            &&& self.tail < self.capacity
            &&& self.tail == wrap_index(self.head + self.length, self.capacity as int)
        }
        &&& self.contents.len() < self.capacity ==> self.head + self.length == self.tail
            && self.tail <= self.contents.len()
    }

    /// The elements of the queue, oldest first.
    pub closed spec fn view(&self) -> Seq<T> {
        Seq::new(
            self.length as nat,
            |i: int| self.contents@[wrap_index(self.head + i, self.capacity as int)],
        )
    }

    /// The length of the first of the two slices that `slices(low, high)`
    /// returns: the part of `[low, high)` stored before the end of the buffer.
    pub open spec fn first_run(&self, low: int, high: int) -> int {
        let start = wrap_index(self.head_spec() + low, self.capacity_spec() as int);
        if low == high {
            0
        } else if start + (high - low) <= self.capacity_spec() {
            high - low
        } else {
            self.capacity_spec() - start
        }
    }

    /// Creates an empty queue that can hold `capacity` elements.
    pub fn new(capacity: usize) -> (q: Queue<T>)
        ensures
            q.wf(),
            q.view() == Seq::<T>::empty(),
            q.capacity_spec() == capacity,
            q.head_spec() == 0,
    {
        let q = Queue { contents: Vec::with_capacity(capacity), capacity, head: 0, tail: 0, length: 0 };
        proof {
            assert(q.view() =~= Seq::<T>::empty());
        }
        q
    }

    /// Appends `t` at the end of the queue.
    pub fn push(&mut self, t: T)
        requires
            old(self).wf(),
            old(self).view().len() < old(self).capacity_spec(),
        ensures
            final(self).wf(),
            final(self).view() == old(self).view().push(t),
            final(self).capacity_spec() == old(self).capacity_spec(),
            final(self).head_spec() == old(self).head_spec(),
    {
        let ghost old_view = self.view();
        if self.tail >= self.contents.len() {
            self.contents.push(t);
        } else {
            self.contents.set(self.tail, t);
        }
        self.tail = add_wrapped(self.tail, 1, self.capacity);
        self.length = self.length + 1;
        proof {
            assert forall|i: int| 0 <= i < self.length implies #[trigger] self.view()[i]
                == old_view.push(t)[i] by {
                if i < old_view.len() {
                    assert(wrap_index(self.head + i, self.capacity as int) != old(self).tail);
                }
            }
            assert(self.view() =~= old_view.push(t));
        }
    }

    /// Appends the elements of `ts`, in order.
    pub fn push_all(&mut self, ts: &[T])
        requires
            old(self).wf(),
            old(self).view().len() + ts@.len() <= old(self).capacity_spec(),
        ensures
            final(self).wf(),
            final(self).view() == old(self).view() + ts@,
            final(self).capacity_spec() == old(self).capacity_spec(),
            final(self).head_spec() == old(self).head_spec(),
    {
        let mut i: usize = 0;
        while i < ts.len()
            invariant
                self.wf(),
                0 <= i <= ts@.len(),
                self.view() == old(self).view() + ts@.take(i as int),
                self.capacity_spec() == old(self).capacity_spec(),
                self.head_spec() == old(self).head_spec(),
                old(self).view().len() + ts@.len() <= old(self).capacity_spec(),
            decreases ts@.len() - i,
        {
            self.push(ts[i]);
            proof {
                assert(ts@.take(i as int).push(ts@[i as int]) =~= ts@.take(i + 1));
                assert((old(self).view() + ts@.take(i as int)).push(ts@[i as int]) =~= old(self).view()
                    + ts@.take(i + 1));
            }
            i = i + 1;
        }
        proof {
            assert(ts@.take(ts@.len() as int) =~= ts@);
        }
    }

    /// Drops the `count` oldest elements.
    pub fn pop(&mut self, count: usize)
        requires
            old(self).wf(),
            count <= old(self).view().len(),
            old(self).capacity_spec() > 0,
        ensures
            final(self).wf(),
            final(self).view() == old(self).view().skip(count as int),
            final(self).capacity_spec() == old(self).capacity_spec(),
            final(self).head_spec() == wrap_index(
                old(self).head_spec() + count,
                old(self).capacity_spec() as int,
            ),
    {
        let ghost old_view = self.view();
        self.head = add_wrapped(self.head, count, self.capacity);
        self.length = self.length - count;
        proof {
            assert forall|i: int| 0 <= i < self.length implies #[trigger] self.view()[i]
                == old_view.skip(count as int)[i] by {
                assert(old_view[i + count] == self.view()[i]);
            }
            assert(self.view() =~= old_view.skip(count as int));
        }
    }

    /// Whether the queue holds no element.
    pub fn is_empty(&self) -> (r: bool)
        requires
            self.wf(),
        ensures
            r == (self.view().len() == 0),
    {
        self.length == 0
    }

    /// Swaps `count` elements from `idx` with the last `count` elements of the
    /// queue, then drops the last `count` elements.
    /// The ordering amongst those `count` elements is maintained.
    pub fn swap_remove(&mut self, idx: usize, count: usize)
        requires
            old(self).wf(),
            old(self).capacity_spec() > 0,
            count <= old(self).view().len(),
            idx + count <= old(self).view().len(),
            idx < old(self).view().len() - count ==> idx + 2 * count <= old(self).view().len(),
        ensures
            final(self).wf(),
            final(self).capacity_spec() == old(self).capacity_spec(),
            final(self).head_spec() == old(self).head_spec(),
            ({
                let v = old(self).view();
                let n = v.len() - count;
                final(self).view() == if idx < n {
                    v.take(idx as int) + v.subrange(n, v.len() as int) + v.subrange(
                        idx + count,
                        n,
                    )
                } else {
                    v.take(n)
                }
            }),
    {
        let ghost v = self.view();
        let ghost n: int = v.len() - count;
        self.length = self.length - count;
        let cap = self.capacity;
        self.tail = add_wrapped(self.tail, cap - count, cap);
        proof {
            assert(self.tail == wrap_index(self.head + self.length, cap as int));
        }
        proof {
            assert forall|i: int| 0 <= i < v.len() implies #[trigger] wrap_index(self.head + i, cap as int)
                < self.contents.len() by {}
        }
        if idx < self.length {
            let start = add_wrapped(self.head, idx, cap);
            let mut j: usize = 0;
            while j < count
                invariant
                    self.wf(),
                    self.capacity == cap,
                    cap > 0,
                    self.head == old(self).head,
                    self.tail == wrap_index(self.head + self.length, cap as int),
                    self.length == n,
                    n == v.len() - count,
                    idx + count <= n,
                    idx + 2 * count <= v.len(),
                    start == wrap_index(self.head + idx, cap as int),
                    0 <= j <= count,
                    self.contents.len() == old(self).contents.len(),
                    v.len() <= cap,
                    forall|i: int|
                        0 <= i < v.len() ==> #[trigger] wrap_index(self.head + i, cap as int)
                            < self.contents.len(),
                    forall|i: int|
                        0 <= i < v.len() ==> #[trigger] old(self).contents@[wrap_index(
                            self.head + i,
                            cap as int,
                        )] == v[i],
                    forall|i: int|
                        0 <= i < v.len() && !(idx <= i < idx + j) ==> #[trigger] self.contents@[wrap_index(
                            self.head + i,
                            cap as int,
                        )] == v[i],
                    forall|i: int|
                        idx <= i < idx + j ==> #[trigger] self.contents@[wrap_index(
                            self.head + i,
                            cap as int,
                        )] == v[n + (i - idx)],
                decreases count - j,
            {
                let from = add_wrapped(self.tail, j, cap);
                let to = add_wrapped(start, j, cap);
                proof {
                    assert(from == wrap_index(self.head + (n + j), cap as int));
                    assert(to == wrap_index(self.head + (idx + j), cap as int));
                    assert(self.contents@[from as int] == v[n + j]);
                }
                let x = self.contents[from];
                self.contents.set(to, x);
                proof {
                    assert forall|i: int|
                        0 <= i < v.len() && !(idx <= i < idx + j + 1) implies #[trigger] self.contents@[wrap_index(
                        self.head + i,
                        cap as int,
                    )] == v[i] by {
                        assert(wrap_index(self.head + i, cap as int) != to);
                    }
                    assert forall|i: int| idx <= i < idx + j + 1 implies #[trigger] self.contents@[wrap_index(
                        self.head + i,
                        cap as int,
                    )] == v[n + (i - idx)] by {
                        if i < idx + j {
                            assert(wrap_index(self.head + i, cap as int) != to);
                        }
                    }
                }
                j = j + 1;
            }
            proof {
                let r = v.take(idx as int) + v.subrange(n, v.len() as int) + v.subrange(idx + count, n);
                assert forall|i: int| 0 <= i < n implies #[trigger] self.view()[i] == r[i] by {
                    assert(self.view()[i] == self.contents@[wrap_index(self.head + i, cap as int)]);
                }
                assert(self.view() =~= r);
            }
        } else {
            proof {
                assert forall|i: int| 0 <= i < n implies #[trigger] self.view()[i] == v.take(n)[i] by {
                    assert(v[i] == old(self).contents@[wrap_index(old(self).head + i, cap as int)]);
                }
                assert(self.view() =~= v.take(n));
            }
        }
    }

    /// The number of elements in the queue.
    pub fn len(&self) -> (r: usize)
        requires
            self.wf(),
        ensures
            r == self.view().len(),
    {
        self.length
    }

    /// Removes every element and resets the queue to its initial state.
    pub fn clear(&mut self)
        requires
            old(self).wf(),
        ensures
            final(self).wf(),
            final(self).view() == Seq::<T>::empty(),
            final(self).capacity_spec() == old(self).capacity_spec(),
            final(self).head_spec() == 0,
    {
        self.contents.clear();
        self.head = 0;
        self.tail = 0;
        self.length = 0;
        proof {
            assert(self.view() =~= Seq::<T>::empty());
        }
    }

    /// The elements at positions `low` up to (excluding) `high`, oldest first.
    pub fn iter(&self, low: usize, high: usize) -> (r: Vec<T>)
        requires
            self.wf(),
            low <= high <= self.view().len(),
        ensures
            r@ == self.view().subrange(low as int, high as int),
    {
        let (l, h) = self.slices(low, high);
        let mut r: Vec<T> = Vec::new();
        let mut i: usize = 0;
        while i < l.len()
            invariant
                0 <= i <= l@.len(),
                r@ == l@.take(i as int),
            decreases l@.len() - i,
        {
            r.push(l[i]);
            proof {
                assert(l@.take(i as int).push(l@[i as int]) =~= l@.take(i + 1));
            }
            i = i + 1;
        }
        let mut k: usize = 0;
        while k < h.len()
            invariant
                0 <= k <= h@.len(),
                r@ == l@ + h@.take(k as int),
            decreases h@.len() - k,
        {
            r.push(h[k]);
            proof {
                assert(h@.take(k as int).push(h@[k as int]) =~= h@.take(k + 1));
                assert((l@ + h@.take(k as int)).push(h@[k as int]) =~= l@ + h@.take(k + 1));
            }
            k = k + 1;
        }
        proof {
            assert(l@.take(l@.len() as int) =~= l@);
            assert(h@.take(h@.len() as int) =~= h@);
        }
        r
    }

    /// The elements at positions `low` up to (excluding) `high`, as the part
    /// stored before the end of the buffer followed by the part stored from
    /// its start.
    pub fn slices(&self, low: usize, high: usize) -> (r: (&[T], &[T]))
        requires
            self.wf(),
            low <= high <= self.view().len(),
        ensures
            r.0@ + r.1@ == self.view().subrange(low as int, high as int),
            r.0@.len() == self.first_run(low as int, high as int),
    {
        if low == high {
            let e0 = slice_subrange(self.contents.as_slice(), 0, 0);
            let e1 = slice_subrange(self.contents.as_slice(), 0, 0);
            proof {
                assert(e0@ + e1@ =~= self.view().subrange(low as int, high as int));
            }
            (e0, e1)
        } else {
            let cap = self.capacity;
            let head = add_wrapped(self.head, low, cap);
            let tail = add_wrapped(self.head, high, cap);
            if head < tail {
                let l = slice_subrange(self.contents.as_slice(), head, tail);
                let h = slice_subrange(self.contents.as_slice(), 0, 0);
                proof {
                    assert(l@ + h@ =~= self.view().subrange(low as int, high as int));
                }
                (l, h)
            } else {
                let l = slice_subrange(self.contents.as_slice(), head, cap);
                let h = slice_subrange(self.contents.as_slice(), 0, tail);
                proof {
                    assert(l@ + h@ =~= self.view().subrange(low as int, high as int));
                }
                (l, h)
            }
        }
    }
}

} // verus!
