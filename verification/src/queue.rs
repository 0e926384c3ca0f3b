//! Circular bounded queue over a growable buffer, specified over its raw
//! fields: the buffer, the start and end slots and the number of elements.
use vstd::prelude::*;
use vstd::slice::slice_subrange;
use crate::glw::queue::wrap_index;

verus! {

/// The slot before `tail`, going round to the last slot of a buffer of
/// `len` slots.
pub open spec fn slot_before(tail: int, len: int) -> int {
    if tail > 0 {
        tail - 1
    } else {
        len - 1
    }
}

/// The buffer and end slot after the first `k` steps of `swap_remove`: step
/// `i` moves the end slot back by one and copies the element stored there to
/// the slot of logical position `idx + i`.
pub open spec fn swap_remove_steps<T>(
    contents: Seq<T>,
    tail: int,
    head: int,
    idx: int,
    cap: int,
    k: nat,
) -> (Seq<T>, int)
    decreases k,
{
    if k == 0 {
        (contents, tail)
    } else {
        let (c, t) = swap_remove_steps(contents, tail, head, idx, cap, (k - 1) as nat);
        let t2 = slot_before(t, contents.len() as int);
        (c.update(wrap_index(head + idx + (k - 1), cap), c[t2]), t2)
    }
}

/// The buffer after writing `ts` into the slots from `tail` on, going round
/// at `cap`, into a buffer that held `contents`: slots written past its end
/// extend it.
pub open spec fn written_from<T>(contents: Seq<T>, tail: int, cap: int, ts: Seq<T>) -> Seq<T> {
    let n = ts.len() as int;
    let len = if contents.len() >= (if tail + n < cap { tail + n } else { cap }) {
        contents.len() as int
    } else if tail + n < cap {
        tail + n
    } else {
        cap
    };
    Seq::new(
        len as nat,
        |j: int|
            if tail <= j < tail + n {
                ts[j - tail]
            } else if j + cap < tail + n {
                ts[j + cap - tail]
            } else {
                contents[j]
            },
    )
}

/// Each step of `swap_remove` moves the end slot back past one element: from
/// the slot after the last of `len` elements starting at `head`, `k` steps
/// reach the slot after the last of `len - k`.
pub proof fn lemma_swap_remove_tail<T>(
    contents: Seq<T>,
    tail: int,
    head: int,
    idx: int,
    cap: int,
    len: int,
    k: nat,
)
    requires
        0 <= head < cap,
        0 <= len <= cap,
        k <= len,
        contents.len() <= cap,
        tail == wrap_index(head + len, cap),
        contents.len() < cap ==> head + len <= contents.len(),
    ensures
        swap_remove_steps(contents, tail, head, idx, cap, k).1 == wrap_index(head + len - k, cap),
    decreases k,
{
    if k > 0 {
        lemma_swap_remove_tail(contents, tail, head, idx, cap, len, (k - 1) as nat);
    }
}

/// Circular bounded queue.
pub struct Queue<T> {
    pub contents: Vec<T>,
    /// number of slots `contents` may grow to
    pub capacity: usize,
    /// index in `contents` the queue starts at
    pub head: usize,
    /// index in `contents` to place the next element at
    pub tail: usize,
    /// number of elements used
    pub length: usize,
}

impl<T: Copy> Queue<T> {
    /// The invariant that every operation keeps: the end slot is the slot
    /// after the last element, and while the buffer is below capacity the
    /// elements lie in it without going round.
    pub open spec fn wf(&self) -> bool {
        &&& self.capacity <= usize::MAX / 2
        &&& self.contents.len() <= self.capacity
        &&& self.length <= self.capacity
        &&& self.capacity == 0 ==> self.head == 0 && self.tail == 0 && self.contents.len() == 0
        &&& self.capacity > 0 ==> self.head < self.capacity && self.tail == wrap_index(
            self.head + self.length,
            self.capacity as int,
        )
        &&& self.contents.len() < self.capacity ==> self.head + self.length <= self.contents.len()
    }

    /// Whether logical position `p` maps, by one reduction, to a slot that the
    /// buffer holds.
    pub open spec fn slot_in_buffer(&self, p: int) -> bool {
        &&& self.head + p < 2 * self.capacity
        &&& wrap_index(self.head + p, self.capacity as int) < self.contents.len()
    }

    /// The elements of the queue, oldest first.
    pub open spec fn view(&self) -> Seq<T> {
        Seq::new(
            self.length as nat,
            |i: int| self.contents@[wrap_index(self.head + i, self.capacity as int)],
        )
    }

    /// Creates an empty queue that can hold `capacity` elements.
    pub fn new(capacity: usize) -> (q: Queue<T>)
        requires
            capacity <= usize::MAX / 2,
        ensures
            q.wf(),
            q.contents@ == Seq::<T>::empty(),
            q.capacity == capacity,
            q.head == 0,
            q.tail == 0,
            q.length == 0,
    {
        Queue { contents: Vec::with_capacity(capacity), capacity, head: 0, tail: 0, length: 0 }
    }

    /// `i` reduced once by the capacity.
    fn wrap(&self, i: usize) -> (r: usize)
        requires
            i < 2 * self.capacity,
        ensures
            r == wrap_index(i as int, self.capacity as int),
            r < self.capacity,
    {
        let r = if i >= self.capacity {
            i - self.capacity
        } else {
            i
        };
        r
    }

    /// Stores `t` in the end slot, a new slot of the buffer when the end slot
    /// is past its end, then advances the end slot.
    pub fn push(&mut self, t: T)
        requires
            old(self).wf(),
            old(self).length < old(self).capacity,
        ensures
            final(self).wf(),
            final(self).contents@ == if old(self).tail < old(self).contents.len() {
                old(self).contents@.update(old(self).tail as int, t)
            } else {
                old(self).contents@.push(t)
            },
            final(self).tail == wrap_index(old(self).tail + 1, old(self).capacity as int),
            final(self).length == old(self).length + 1,
            final(self).head == old(self).head,
            final(self).capacity == old(self).capacity,
            final(self).view() == old(self).view().push(t),
    {
        let ghost old_view = self.view();
        if self.tail < self.contents.len() {
            self.contents.set(self.tail, t);
        } else {
            self.contents.push(t);
        }
        self.tail = self.wrap(self.tail + 1);
        self.length = self.length + 1;
        proof {
            assert forall|i: int| 0 <= i < self.length implies #[trigger] self.view()[i]
                == old_view.push(t)[i] by {
                if i < old_view.len() {
                    assert(wrap_index(self.head + i, self.capacity as int) != old(self).tail);
                }
            }
            assert(self.view() =~= old_view.push(t));
        }
    }

    /// Pushes the elements of `ts`, in order.
    pub fn push_all(&mut self, ts: &[T])
        requires
            old(self).wf(),
            old(self).length + ts@.len() <= old(self).capacity,
        ensures
            final(self).wf(),
            final(self).contents@ == written_from(
                old(self).contents@,
                old(self).tail as int,
                old(self).capacity as int,
                ts@,
            ),
            final(self).tail == wrap_index(old(self).tail + ts@.len(), old(self).capacity as int),
            final(self).length == old(self).length + ts@.len(),
            final(self).head == old(self).head,
            final(self).capacity == old(self).capacity,
            final(self).view() == old(self).view() + ts@,
    {
        let mut i: usize = 0;
        while i < ts.len()
            invariant
                self.wf(),
                0 <= i <= ts@.len(),
                self.length == old(self).length + i,
                self.head == old(self).head,
                self.capacity == old(self).capacity,
                old(self).length + ts@.len() <= old(self).capacity,
                self.view() == old(self).view() + ts@.take(i as int),
                old(self).wf(),
                self.contents@ == written_from(
                    old(self).contents@,
                    old(self).tail as int,
                    old(self).capacity as int,
                    ts@.take(i as int),
                ),
                self.capacity > 0 ==> self.tail == wrap_index(old(self).tail + i, old(self).capacity as int),
            decreases ts@.len() - i,
        {
            let ghost before = self.contents@;
            self.push(ts[i]);
            proof {
                let t = old(self).tail as int;
                let cap = old(self).capacity as int;
                let w = written_from(old(self).contents@, t, cap, ts@.take(i + 1));
                assert(self.contents@.len() == w.len());
                assert forall|j: int| 0 <= j < w.len() implies #[trigger] self.contents@[j] == w[j] by {
                    if j != wrap_index(t + i, cap) {
                        assert(j < before.len());
                    }
                }
                assert(self.contents@ =~= w);
                assert(ts@.take(i as int).push(ts@[i as int]) =~= ts@.take(i + 1));
                assert((old(self).view() + ts@.take(i as int)).push(ts@[i as int]) =~= old(self).view()
                    + ts@.take(i + 1));
            }
            i = i + 1;
        }
        proof {
            assert(ts@.take(ts@.len() as int) =~= ts@);
            if old(self).capacity == 0 {
                assert(written_from(old(self).contents@, 0, 0, ts@) =~= old(self).contents@);
            }
        }
    }

    /// Drops the `count` oldest elements.
    pub fn pop(&mut self, count: usize)
        requires
            old(self).wf(),
            old(self).capacity > 0,
            count <= old(self).length,
        ensures
            final(self).wf(),
            final(self).head == wrap_index(old(self).head + count, old(self).capacity as int),
            final(self).length == old(self).length - count,
            final(self).tail == old(self).tail,
            final(self).contents@ == old(self).contents@,
            final(self).capacity == old(self).capacity,
            final(self).view() == old(self).view().skip(count as int),
    {
        let ghost old_view = self.view();
        self.head = self.wrap(self.head + count);
        self.length = self.length - count;
        proof {
            assert forall|i: int| 0 <= i < self.length implies #[trigger] self.view()[i]
                == old_view.skip(count as int)[i] by {
                assert(old_view[i + count] == self.view()[i]);
            }
            assert(self.view() =~= old_view.skip(count as int));
        }
    }

    /// Whether the queue holds no element.
    pub fn is_empty(&self) -> (r: bool)
        ensures
            r == (self.length == 0),
    {
        self.length == 0
    }

    /// Moves the end slot back `count` times, each time copying the element
    /// found there to the slot of the next position from `idx` on, then drops
    /// `count` elements.
    pub fn swap_remove(&mut self, idx: usize, count: usize)
        requires
            old(self).wf(),
            count <= old(self).length,
            forall|i: int| 0 <= i < count ==> #[trigger] old(self).slot_in_buffer(idx + i),
        ensures
            final(self).wf(),
            (final(self).contents@, final(self).tail as int) == swap_remove_steps(
                old(self).contents@,
                old(self).tail as int,
                old(self).head as int,
                idx as int,
                old(self).capacity as int,
                count as nat,
            ),
            final(self).length == old(self).length - count,
            final(self).head == old(self).head,
            final(self).capacity == old(self).capacity,
            idx + count <= old(self).length ==> final(self).view() == Seq::new(
                (old(self).length - count) as nat,
                |p: int|
                    if idx <= p < idx + count {
                        old(self).view()[old(self).length - 1 - (p - idx)]
                    } else {
                        old(self).view()[p]
                    },
            ),
    {
        let ghost v = old(self).view();
        let ghost len = old(self).length as int;
        let ghost cap = old(self).capacity as int;
        let ghost head = old(self).head as int;
        let mut i: usize = 0;
        while i < count
            invariant
                old(self).wf(),
                0 <= i <= count,
                count <= old(self).length,
                self.head == old(self).head,
                self.capacity == old(self).capacity,
                self.length == old(self).length,
                self.contents.len() == old(self).contents.len(),
                self.tail <= self.contents.len(),
                self.capacity > 0 ==> self.tail < self.capacity,
                i < count ==> self.contents.len() > 0,
                (self.contents@, self.tail as int) == swap_remove_steps(
                    old(self).contents@,
                    old(self).tail as int,
                    old(self).head as int,
                    idx as int,
                    old(self).capacity as int,
                    i as nat,
                ),
                forall|k: int| 0 <= k < count ==> #[trigger] old(self).slot_in_buffer(idx + k),
                v == old(self).view(),
                len == old(self).length,
                cap == old(self).capacity,
                head == old(self).head,
                idx + count <= len ==> forall|p: int|
                    0 <= p < len && !(idx <= p < idx + i) ==> #[trigger] self.contents@[wrap_index(
                        head + p,
                        cap,
                    )] == v[p],
                idx + count <= len ==> forall|p: int|
                    idx <= p < idx + i && p <= len - 1 - (p - idx) ==> #[trigger] self.contents@[wrap_index(
                        head + p,
                        cap,
                    )] == v[len - 1 - (p - idx)],
            decreases count - i,
        {
            proof {
                lemma_swap_remove_tail(
                    old(self).contents@,
                    old(self).tail as int,
                    head,
                    idx as int,
                    cap,
                    len,
                    i as nat,
                );
            }
            let ghost before = self.contents@;
            if self.tail > 0 {
                self.tail = self.tail - 1;
            } else {
                self.tail = self.contents.len() - 1;
            }
            let swapped = self.contents[self.tail];
            proof {
                assert(old(self).slot_in_buffer(idx + i));
            }
            let target = self.wrap(self.head + idx + i);
            self.contents.set(target, swapped);
            proof {
                lemma_swap_remove_tail(
                    old(self).contents@,
                    old(self).tail as int,
                    head,
                    idx as int,
                    cap,
                    len,
                    (i + 1) as nat,
                );
                if idx + count <= len {
                    let s = len - 1 - i;
                    assert(self.tail == wrap_index(head + s, cap));
                    assert forall|p: int|
                        0 <= p < len && !(idx <= p < idx + i + 1) implies #[trigger] self.contents@[wrap_index(
                        head + p,
                        cap,
                    )] == v[p] by {
                        assert(wrap_index(head + p, cap) != target);
                    }
                    assert forall|p: int|
                        idx <= p < idx + i + 1 && p <= len - 1 - (p - idx) implies #[trigger] self.contents@[wrap_index(
                        head + p,
                        cap,
                    )] == v[len - 1 - (p - idx)] by {
                        if p < idx + i {
                            assert(wrap_index(head + p, cap) != target);
                        } else {
                            assert(before[wrap_index(head + s, cap)] == v[s]);
                        }
                    }
                }
            }
            i = i + 1;
        }
        proof {
            if old(self).capacity > 0 {
                lemma_swap_remove_tail(
                    old(self).contents@,
                    old(self).tail as int,
                    old(self).head as int,
                    idx as int,
                    old(self).capacity as int,
                    old(self).length as int,
                    count as nat,
                );
            }
        }
        self.length = self.length - count;
        proof {
            if idx + count <= len {
                let r = Seq::new(
                    (len - count) as nat,
                    |p: int| if idx <= p < idx + count { v[len - 1 - (p - idx)] } else { v[p] },
                );
                assert forall|p: int| 0 <= p < len - count implies #[trigger] self.view()[p] == r[p] by {
                    assert(self.view()[p] == self.contents@[wrap_index(head + p, cap)]);
                }
                assert(self.view() =~= r);
            }
        }
    }

    /// The number of elements in the queue.
    pub fn len(&self) -> (r: usize)
        ensures
            r == self.length,
    {
        self.length
    }

    /// Empties the buffer and resets the queue.
    pub fn clear(&mut self)
        requires
            old(self).wf(),
        ensures
            final(self).wf(),
            final(self).contents@ == Seq::<T>::empty(),
            final(self).head == 0,
            final(self).tail == 0,
            final(self).length == 0,
            final(self).capacity == old(self).capacity,
    {
        self.contents.clear();
        self.head = 0;
        self.tail = 0;
        self.length = 0;
    }

    /// The buffer slots from the slot of position `low` to the slot of
    /// position `high`: one run when the first comes before the second, and
    /// the run to the end of the buffer followed by the run from its start
    /// otherwise.
    pub fn slices(&self, low: usize, high: usize) -> (r: (&[T], &[T]))
        requires
            self.wf(),
            self.capacity > 0,
            low <= self.length,
            high <= self.length,
            wrap_index(self.head + low, self.capacity as int) <= self.contents.len(),
            wrap_index(self.head + high, self.capacity as int) <= self.contents.len(),
        ensures
            ({
                let l = wrap_index(self.head + low, self.capacity as int);
                let h = wrap_index(self.head + high, self.capacity as int);
                if l < h {
                    r.0@ == self.contents@.subrange(l, h) && r.1@ == Seq::<T>::empty()
                } else {
                    r.0@ == self.contents@.subrange(l, self.contents.len() as int) && r.1@
                        == self.contents@.subrange(0, h)
                }
            }),
    {
        let low = self.wrap(self.head + low);
        let high = self.wrap(self.head + high);
        if low < high {
            (
                slice_subrange(self.contents.as_slice(), low, high),
                slice_subrange(self.contents.as_slice(), high, high),
            )
        } else {
            (
                slice_subrange(self.contents.as_slice(), low, self.contents.len()),
                slice_subrange(self.contents.as_slice(), 0, high),
            )
        }
    }
}

} // verus!
