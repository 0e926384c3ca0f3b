//! Iteration over the positions around a center, shell by shell.
use vstd::prelude::*;
use std::collections::VecDeque;
use crate::block_position::BlockPosition;
use crate::cube_shell::{
    chebyshev, cube_shell, cube_shell_is_the_shell, cube_shell_seq, lemma_concat_contains,
    lemma_concat_no_duplicates, reach_fits, shell_area,
};

verus! {

/// The shells of radius `d` up to `max` around `center`, one after the other.
pub open spec fn shells_from(center: BlockPosition, d: int, max: int) -> Seq<BlockPosition>
    decreases max + 1 - d,
{
    if d > max {
        Seq::empty()
    } else {
        cube_shell_seq(center, d) + shells_from(center, d + 1, max)
    }
}

/// The positions of `buf`, each paired with the distance the iterator is at
/// once it has yielded that position: `d`, except after the last one, when
/// the iterator moves on to the next shell unless `d` is already `max`.
pub open spec fn tag_shell(buf: Seq<BlockPosition>, d: int, max: int) -> Seq<(BlockPosition, int)> {
    Seq::new(
        buf.len(),
        |j: int|
            (buf[j], if j == buf.len() - 1 && d < max {
                d + 1
            } else {
                d
            }),
    )
}

/// The shells of radius `d` up to `max` around `center`, each position paired
/// with the distance the iterator is at once it has yielded that position.
pub open spec fn tagged_shells(center: BlockPosition, d: int, max: int) -> Seq<(BlockPosition, int)>
    decreases max + 1 - d,
{
    if d > max {
        Seq::empty()
    } else {
        tag_shell(cube_shell_seq(center, d), d, max) + tagged_shells(center, d + 1, max)
    }
}

/// The positions of a tagged sequence.
pub open spec fn untag(s: Seq<(BlockPosition, int)>) -> Seq<BlockPosition> {
    s.map_values(|t: (BlockPosition, int)| t.0)
}

/// Yields the positions around `center`, by increasing distance up to
/// `max_distance`, one cube shell at a time.
pub struct SurroundingsIter {
    pub center: BlockPosition,
    pub next_distance: i32,
    pub max_distance: i32,
    pub to_load_buffer: VecDeque<BlockPosition>,
}

impl SurroundingsIter {
    /// The invariant that `new` establishes and `next` keeps.
    pub open spec fn wf(&self) -> bool {
        &&& 0 <= self.next_distance
        &&& self.max_distance < i32::MAX
        &&& self.max_distance >= 0 ==> reach_fits(self.center, self.max_distance as int)
        &&& self.to_load_buffer@.len() == 0 ==> self.next_distance >= self.max_distance
        &&& self.next_distance > 0 ==> self.next_distance <= self.max_distance
    }

    /// The positions still to come, in order, each with the distance the
    /// iterator is at once it has yielded it.
    pub open spec fn remaining_tagged(&self) -> Seq<(BlockPosition, int)> {
        tag_shell(self.to_load_buffer@, self.next_distance as int, self.max_distance as int)
            + tagged_shells(self.center, self.next_distance + 1, self.max_distance as int)
    }

    /// The positions still to come, in order.
    pub open spec fn remaining(&self) -> Seq<BlockPosition> {
        untag(self.remaining_tagged())
    }

    /// Starts at `center`, which comes first, then the shells of radius 1 up
    /// to `max_distance`.
    pub fn new(center: BlockPosition, max_distance: i32) -> (it: SurroundingsIter)
        requires
            max_distance < i32::MAX,
            max_distance >= 0 ==> reach_fits(center, max_distance as int),
        ensures
            it.wf(),
            it.center == center,
            it.max_distance == max_distance,
            it.next_distance == 0,
            it.to_load_buffer@ == seq![center],
    {
        let mut to_load_buffer = VecDeque::new();
        to_load_buffer.push_back(center);
        let it = SurroundingsIter { center, next_distance: 0, max_distance, to_load_buffer };
        proof {
            assert(it.to_load_buffer@ =~= seq![center]);
        }
        it
    }

    /// Yields the next position, or `None` once every shell up to
    /// `max_distance` has been yielded.
    pub fn next(&mut self) -> (r: Option<BlockPosition>)
        requires
            old(self).wf(),
        ensures
            final(self).wf(),
            final(self).center == old(self).center,
            final(self).max_distance == old(self).max_distance,
            old(self).remaining_tagged().len() == 0 ==> r is None && final(self).remaining_tagged().len()
                == 0 && final(self).next_distance == old(self).next_distance,
            old(self).remaining_tagged().len() > 0 ==> r == Some(old(self).remaining_tagged()[0].0)
                && final(self).next_distance == old(self).remaining_tagged()[0].1
                && final(self).remaining_tagged() == old(self).remaining_tagged().drop_first(),
    {
        let r = self.to_load_buffer.pop_front();
        let ghost nd = old(self).next_distance as int;
        let ghost max = old(self).max_distance as int;
        let ghost buf = old(self).to_load_buffer@;
        proof {
            if buf.len() == 0 {
                assert(tagged_shells(self.center, nd + 1, max) =~= Seq::<(BlockPosition, int)>::empty());
                assert(old(self).remaining_tagged() =~= Seq::<(BlockPosition, int)>::empty());
            }
        }
        if r.is_some() && self.to_load_buffer.len() == 0 {
            if self.next_distance < self.max_distance {
                self.next_distance = self.next_distance + 1;
                proof {
                    assert(reach_fits(self.center, self.next_distance as int));
                }
                let shell = cube_shell(&self.center, self.next_distance);
                let ghost before = self.to_load_buffer@;
                let mut i: usize = 0;
                while i < shell.len()
                    invariant
                        0 <= i <= shell@.len(),
                        self.to_load_buffer@ == before + shell@.take(i as int),
                        self.center == old(self).center,
                        self.max_distance == old(self).max_distance,
                        self.next_distance == old(self).next_distance + 1,
                        before.len() == 0,
                    decreases shell@.len() - i,
                {
                    self.to_load_buffer.push_back(shell[i]);
                    proof {
                        assert(shell@.take(i as int).push(shell@[i as int]) =~= shell@.take(i + 1));
                        assert((before + shell@.take(i as int)).push(shell@[i as int]) =~= before
                            + shell@.take(i + 1));
                    }
                    i = i + 1;
                }
                proof {
                    assert(shell@.take(shell@.len() as int) =~= shell@);
                    assert(self.to_load_buffer@ =~= shell@);
                    assert(shell_area(self.next_distance as int) > 0) by (nonlinear_arith)
                        requires
                            self.next_distance >= 1,
                    ;
                    assert(old(self).remaining_tagged().drop_first() =~= self.remaining_tagged());
                }
            } else {
                proof {
                    assert(tagged_shells(self.center, nd + 1, max) =~= Seq::<(BlockPosition, int)>::empty());
                    assert(old(self).remaining_tagged().drop_first() =~= self.remaining_tagged());
                }
            }
        } else {
            proof {
                if r.is_some() {
                    assert(old(self).remaining_tagged().drop_first() =~= self.remaining_tagged());
                }
            }
        }
        r
    }
}

/// The positions of the tagged shells are the shells.
pub proof fn untag_tagged_shells(center: BlockPosition, d: int, max: int)
    ensures
        untag(tagged_shells(center, d, max)) == shells_from(center, d, max),
    decreases max + 1 - d,
{
    if d <= max {
        untag_tagged_shells(center, d + 1, max);
        let a = tag_shell(cube_shell_seq(center, d), d, max);
        let b = tagged_shells(center, d + 1, max);
        assert(untag(a + b) =~= untag(a) + untag(b));
        assert(untag(a) =~= cube_shell_seq(center, d));
    } else {
        assert(untag(tagged_shells(center, d, max)) =~= Seq::<BlockPosition>::empty());
    }
}

/// A new iterator with a non-negative `max_distance` yields exactly the
/// shells of radius 0 up to `max_distance` around its center, in order of
/// radius.
pub proof fn surroundings_are_the_shells(it: SurroundingsIter)
    requires
        it.wf(),
        it.next_distance == 0,
        it.max_distance >= 0,
        it.to_load_buffer@ == seq![it.center],
    ensures
        it.remaining() == shells_from(it.center, 0, it.max_distance as int),
{
    let max = it.max_distance as int;
    untag_tagged_shells(it.center, 1, max);
    let a = tag_shell(it.to_load_buffer@, 0, max);
    let b = tagged_shells(it.center, 1, max);
    assert(untag(a + b) =~= untag(a) + untag(b));
    assert(untag(a) =~= seq![it.center]);
    assert(cube_shell_seq(it.center, 0) == seq![it.center]);
    assert(shells_from(it.center, 0, max) == seq![it.center] + shells_from(it.center, 1, max));
}

/// The distances the tagged shells carry lie between `d` and `max`.
proof fn lemma_tagged_shells_range(center: BlockPosition, d: int, max: int)
    requires
        d >= 0,
    ensures
        forall|i: int|
            0 <= i < tagged_shells(center, d, max).len() ==> d <= #[trigger] tagged_shells(
                center,
                d,
                max,
            )[i].1 <= max,
    decreases max + 1 - d,
{
    if d <= max {
        lemma_tagged_shells_range(center, d + 1, max);
        let a = tag_shell(cube_shell_seq(center, d), d, max);
        let b = tagged_shells(center, d + 1, max);
        assert forall|i: int| 0 <= i < (a + b).len() implies d <= #[trigger] (a + b)[i].1 <= max by {
            if i >= a.len() {
                assert((a + b)[i] == b[i - a.len()]);
            }
        }
    }
}

/// Every position still to come carries a distance between the current one
/// and the maximum one.
pub proof fn lemma_tags_in_range(it: SurroundingsIter)
    requires
        it.wf(),
        it.max_distance >= 0,
    ensures
        forall|i: int|
            0 <= i < it.remaining_tagged().len() ==> 0 <= #[trigger] it.remaining_tagged()[i].1
                <= it.max_distance,
{
    let nd = it.next_distance as int;
    let max = it.max_distance as int;
    lemma_tagged_shells_range(it.center, nd + 1, max);
    let a = tag_shell(it.to_load_buffer@, nd, max);
    let b = tagged_shells(it.center, nd + 1, max);
    assert forall|i: int| 0 <= i < (a + b).len() implies 0 <= #[trigger] (a + b)[i].1 <= max by {
        if i >= a.len() {
            assert((a + b)[i] == b[i - a.len()]);
        }
    }
}

/// The shells of radius `d` up to `max` around `center` hold each position
/// at a distance between `d` and `max` exactly once, by non-decreasing
/// distance.
pub proof fn shells_cover_each_position_once(center: BlockPosition, d: int, max: int)
    requires
        0 <= d,
        d <= max ==> reach_fits(center, max),
    ensures
        shells_from(center, d, max).no_duplicates(),
        forall|p: BlockPosition|
            shells_from(center, d, max).contains(p) <==> d <= chebyshev(center, p) <= max,
        forall|i: int, j: int|
            0 <= i <= j < shells_from(center, d, max).len() ==> chebyshev(
                center,
                #[trigger] shells_from(center, d, max)[i],
            ) <= chebyshev(center, #[trigger] shells_from(center, d, max)[j]),
    decreases max + 1 - d,
{
    let s = shells_from(center, d, max);
    if d > max {
        assert forall|p: BlockPosition| !s.contains(p) by {}
    } else {
        let a = cube_shell_seq(center, d);
        let b = shells_from(center, d + 1, max);
        assert(reach_fits(center, d));
        cube_shell_is_the_shell(center, d);
        shells_cover_each_position_once(center, d + 1, max);
        assert forall|p: BlockPosition| a.contains(p) implies !b.contains(p) by {}
        lemma_concat_no_duplicates(a, b);
        assert forall|p: BlockPosition| s.contains(p) <==> d <= chebyshev(center, p) <= max by {
            lemma_concat_contains(a, b, p);
        }
        assert forall|i: int| 0 <= i < a.len() implies chebyshev(center, #[trigger] a[i]) == d by {
            assert(a.contains(a[i]));
        }
        assert forall|i: int| 0 <= i < b.len() implies chebyshev(center, #[trigger] b[i]) > d by {
            assert(b.contains(b[i]));
        }
        assert forall|i: int, j: int|
            0 <= i <= j < s.len() implies chebyshev(center, #[trigger] s[i]) <= chebyshev(
            center,
            #[trigger] s[j],
        ) by {
            if i < a.len() {
                assert(s[i] == a[i]);
                if j < a.len() {
                    assert(s[j] == a[j]);
                } else {
                    assert(s[j] == b[j - a.len()]);
                }
            } else {
                assert(s[i] == b[i - a.len()]);
                assert(s[j] == b[j - a.len()]);
            }
        }
    }
}

} // verus!
