//! Keeping the surroundings of a moving position loaded, within a time
//! budget per update.
use vstd::prelude::*;
use std::collections::VecDeque;
use crate::block_position::BlockPosition;
use crate::cube_shell::{chebyshev, reach_fits};
use crate::lod_map::{LOD, OwnerId};
use crate::surroundings_iter::{SurroundingsIter, tag_shell, tagged_shells};
use crate::stopwatch::precise_time_ns;

verus! {

/// Rough budget (in microseconds) for how long block updating can take per
/// `SurroundingsLoader`.
pub const BLOCK_UPDATE_BUDGET: u64 = 20000;

/// The distance between two positions in the maximum norm.
pub fn radius_between(p1: &BlockPosition, p2: &BlockPosition) -> (r: i32)
    requires
        i32::MIN < p1.x - p2.x <= i32::MAX,
        i32::MIN < p1.y - p2.y <= i32::MAX,
        i32::MIN < p1.z - p2.z <= i32::MAX,
    ensures
        r == chebyshev(*p1, *p2),
{
    let dx = p1.x - p2.x;
    let dy = p1.y - p2.y;
    let dz = p1.z - p2.z;
    let dx = if dx < 0 { -dx } else { dx };
    let dy = if dy < 0 { -dy } else { dy };
    let dz = if dz < 0 { -dz } else { dz };
    let m = if dx > dy { dx } else { dy };
    if m > dz { m } else { dz }
}

/// The distance between two positions in the maximum norm, for any two
/// positions.
fn distance(p1: &BlockPosition, p2: &BlockPosition) -> (r: i64)
    ensures
        r == chebyshev(*p1, *p2),
{
    let dx = p1.x as i64 - p2.x as i64;
    let dy = p1.y as i64 - p2.y as i64;
    let dz = p1.z as i64 - p2.z as i64;
    let dx = if dx < 0 { -dx } else { dx };
    let dy = if dy < 0 { -dy } else { dy };
    let dz = if dz < 0 { -dz } else { dz };
    let m = if dx > dy { dx } else { dy };
    if m > dz { m } else { dz }
}

/// A change of the level of detail that an owner requests for a block.
#[derive(Clone, Copy, Debug, PartialEq, Eq, Structural)]
pub enum LODChange {
    Increase(BlockPosition, LOD, OwnerId),
    Decrease(BlockPosition, Option<LOD>, OwnerId),
}

/// Keeps surroundings loaded around a given world position.
pub struct SurroundingsLoader<F, G> {
    pub id: OwnerId,
    pub last_position: Option<BlockPosition>,
    /// The level of detail wanted at a distance.
    pub lod: F,
    pub max_load_distance: i32,
    pub to_load: Option<SurroundingsIter>,
    pub to_recheck: VecDeque<BlockPosition>,
    /// The blocks to check again when moving from one position to another.
    pub lod_changes: G,
}

impl<F: Fn(i32) -> LOD, G: Fn(BlockPosition, BlockPosition) -> Vec<BlockPosition>> SurroundingsLoader<
    F,
    G,
> {
    /// The invariant that the operations keep.
    pub open spec fn wf(&self) -> bool {
        &&& 0 <= self.max_load_distance < i32::MAX
        &&& forall|d: i32| 0 <= d <= self.max_load_distance ==> call_requires(self.lod, (d,))
        &&& self.to_load matches Some(it) ==> it.wf() && it.max_distance == self.max_load_distance
        &&& self.last_position is Some ==> self.to_load is Some
    }

    /// The number of changes still planned: one per block to check again and
    /// one per block still to load.
    pub open spec fn planned_len(&self) -> int {
        self.to_recheck@.len() + match self.to_load {
            Some(it) => it.remaining_tagged().len() as int,
            None => 0int,
        }
    }

    /// Whether `c` is the `i`-th planned change for a loader at `position`:
    /// first, a decrease for each block to check again, to the level wanted
    /// at its distance, or to nothing beyond the load distance; then an
    /// increase for each block still to load, to the level wanted at the
    /// distance the iteration has reached once that block is yielded.
    pub open spec fn planned_change(&self, position: BlockPosition, i: int, c: LODChange) -> bool {
        let rc = self.to_recheck@;
        if i < rc.len() {
            let bp = rc[i];
            let d = chebyshev(position, bp);
            match c {
                LODChange::Decrease(b, ol, o) => b == bp && o == self.id && if d
                    > self.max_load_distance {
                    ol is None
                } else {
                    ol matches Some(l) && call_ensures(self.lod, (d as i32,), l)
                },
                _ => false,
            }
        } else {
            let t = self.to_load.unwrap().remaining_tagged()[i - rc.len()];
            match c {
                LODChange::Increase(q, l, o) => q == t.0 && o == self.id && call_ensures(
                    self.lod,
                    (t.1 as i32,),
                    l,
                ),
                _ => false,
            }
        }
    }

    /// Whether `later` is this loader after it has made the planned
    /// `changes`, in order.
    pub open spec fn advanced(&self, later: &Self, position: BlockPosition, changes: Seq<LODChange>) -> bool {
        let k = changes.len() as int;
        let rc = self.to_recheck@;
        let done_rc = if k < rc.len() { k } else { rc.len() as int };
        &&& k <= self.planned_len()
        &&& forall|i: int| 0 <= i < k ==> self.planned_change(position, i, #[trigger] changes[i])
        &&& later.id == self.id
        &&& later.last_position == self.last_position
        &&& later.lod == self.lod
        &&& later.lod_changes == self.lod_changes
        &&& later.max_load_distance == self.max_load_distance
        &&& later.to_recheck@ == rc.skip(done_rc)
        &&& (self.to_load matches Some(it) ==> later.to_load matches Some(it2)
            && it2.remaining_tagged() == it.remaining_tagged().skip(k - done_rc))
        &&& (self.to_load is None ==> later.to_load is None)
    }

    /// Whether `later` is this loader after taking note of `position`: on a
    /// new position, iteration restarts from it, and the blocks that
    /// `lod_changes` gives for the move from the last position are added to
    /// those to check again.
    pub open spec fn begun(&self, later: &Self, position: BlockPosition) -> bool {
        &&& later.id == self.id
        &&& later.lod == self.lod
        &&& later.lod_changes == self.lod_changes
        &&& later.max_load_distance == self.max_load_distance
        &&& later.last_position == Some(position)
        &&& if self.last_position == Some(position) {
            &&& later.to_load == self.to_load
            &&& later.to_recheck@ == self.to_recheck@
        } else {
            &&& later.to_load matches Some(it) && it.center == position && it.next_distance == 0
                && it.max_distance == self.max_load_distance && it.to_load_buffer@ == seq![position]
            &&& match self.last_position {
                None => later.to_recheck@ == self.to_recheck@,
                Some(last) => exists|v: Vec<BlockPosition>|
                    call_ensures(self.lod_changes, (last, position), v) && later.to_recheck@
                        == self.to_recheck@ + v@,
            }
        }
    }

    /// Creates a loader that keeps the blocks up to `max_load_distance` loaded.
    pub fn new(id: OwnerId, max_load_distance: i32, lod: F, lod_changes: G) -> (l: Self)
        requires
            0 <= max_load_distance < i32::MAX,
            forall|d: i32| 0 <= d <= max_load_distance ==> call_requires(lod, (d,)),
        ensures
            l.wf(),
            l.id == id,
            l.last_position is None,
            l.lod == lod,
            l.lod_changes == lod_changes,
            l.max_load_distance == max_load_distance,
            l.to_load is None,
            l.to_recheck@ == Seq::<BlockPosition>::empty(),
    {
        SurroundingsLoader {
            id,
            last_position: None,
            lod,
            to_load: None,
            max_load_distance,
            to_recheck: VecDeque::new(),
            lod_changes,
        }
    }

    /// Takes note of `position`, restarting the iteration when it differs
    /// from the last position.
    pub fn begin(&mut self, position: BlockPosition)
        requires
            old(self).wf(),
            reach_fits(position, old(self).max_load_distance as int),
            old(self).last_position matches Some(last) ==> call_requires(
                old(self).lod_changes,
                (last, position),
            ),
        ensures
            final(self).wf(),
            final(self).to_load is Some,
            old(self).begun(&*final(self), position),
    {
        let position_changed = match self.last_position {
            None => true,
            Some(last) => last != position,
        };
        if position_changed {
            self.to_load = Some(SurroundingsIter::new(position, self.max_load_distance));
            match self.last_position {
                None => {},
                Some(last_position) => {
                    let v = (self.lod_changes)(last_position, position);
                    let ghost before = self.to_recheck@;
                    let mut i: usize = 0;
                    while i < v.len()
                        invariant
                            0 <= i <= v@.len(),
                            self.to_recheck@ == before + v@.take(i as int),
                            self.wf(),
                            self.id == old(self).id,
                            self.lod == old(self).lod,
                            self.lod_changes == old(self).lod_changes,
                            self.max_load_distance == old(self).max_load_distance,
                            self.last_position == old(self).last_position,
                            self.to_load matches Some(it) && it.center == position && it.next_distance
                                == 0 && it.max_distance == self.max_load_distance
                                && it.to_load_buffer@ == seq![position],
                        decreases v@.len() - i,
                    {
                        self.to_recheck.push_back(v[i]);
                        proof {
                            assert(v@.take(i as int).push(v@[i as int]) =~= v@.take(i + 1));
                            assert((before + v@.take(i as int)).push(v@[i as int]) =~= before
                                + v@.take(i + 1));
                        }
                        i = i + 1;
                    }
                    proof {
                        assert(v@.take(v@.len() as int) =~= v@);
                        assert(call_ensures(self.lod_changes, (last_position, position), v)
                            && self.to_recheck@ == old(self).to_recheck@ + v@);
                    }
                },
            }
            self.last_position = Some(position);
        }
    }

    /// Makes the next planned change, or returns `None` when none is left.
    pub fn step(&mut self, position: BlockPosition) -> (r: Option<LODChange>)
        requires
            old(self).wf(),
            old(self).to_load is Some,
        ensures
            final(self).wf(),
            final(self).to_load is Some,
            match r {
                None => old(self).planned_len() == 0 && old(self).advanced(
                    &*final(self),
                    position,
                    Seq::empty(),
                ),
                Some(c) => old(self).advanced(&*final(self), position, seq![c]),
            },
    {
        let max = self.max_load_distance;
        if let Some(block_position) = self.to_recheck.pop_front() {
            let d = distance(&position, &block_position);
            let c = if d > max as i64 {
                LODChange::Decrease(block_position, None, self.id)
            } else {
                let lod = (self.lod)(d as i32);
                LODChange::Decrease(block_position, Some(lod), self.id)
            };
            proof {
                assert(old(self).planned_change(position, 0, c));
                assert(seq![c][0] == c);
                if let Some(it) = old(self).to_load {
                    assert(it.remaining_tagged() =~= it.remaining_tagged().skip(0));
                }
            }
            Some(c)
        } else {
            let mut it = self.to_load.take().unwrap();
            let next = it.next();
            let nd = it.next_distance;
            self.to_load = Some(it);
            match next {
                None => {
                    proof {
                        assert(self.to_recheck@ =~= old(self).to_recheck@.skip(0));
                        let t = old(self).to_load.unwrap().remaining_tagged();
                        assert(t.len() == 0);
                        assert(self.to_load.unwrap().remaining_tagged() =~= t.skip(0));
                        assert(old(self).planned_len() == 0);
                    }
                    None
                },
                Some(block_position) => {
                    proof {
                        crate::surroundings_iter::lemma_tags_in_range(old(self).to_load.unwrap());
                    }
                    let lod = (self.lod)(nd);
                    let c = LODChange::Increase(block_position, lod, self.id);
                    proof {
                        assert(old(self).planned_change(position, 0, c));
                        assert(seq![c][0] == c);
                        assert(self.to_recheck@ =~= old(self).to_recheck@.skip(0));
                        let t = old(self).to_load.unwrap().remaining_tagged();
                        assert(t.drop_first() =~= t.skip(1));
                    }
                    Some(c)
                },
            }
        }
    }

    /// Takes note of `position`, then makes the planned changes, in order,
    /// until none is left or the time budget is spent, and returns them.
    pub fn update(&mut self, position: BlockPosition) -> (changes: Vec<LODChange>)
        requires
            old(self).wf(),
            reach_fits(position, old(self).max_load_distance as int),
            old(self).last_position matches Some(last) ==> call_requires(
                old(self).lod_changes,
                (last, position),
            ),
        ensures
            final(self).wf(),
            exists|mid: Self|
                old(self).begun(&mid, position) && mid.wf() && #[trigger] mid.advanced(
                    &*final(self),
                    position,
                    changes@,
                ),
    {
        self.begin(position);
        let ghost mid = *self;
        let target_time = precise_time_ns().saturating_add(BLOCK_UPDATE_BUDGET * 1000);
        let mut changes: Vec<LODChange> = Vec::new();
        proof {
            assert(self.to_recheck@ =~= mid.to_recheck@.skip(0));
            if let Some(it) = mid.to_load {
                assert(it.remaining_tagged() =~= it.remaining_tagged().skip(0));
            }
        }
        loop
            invariant
                self.wf(),
                self.to_load is Some,
                mid.wf(),
                mid.advanced(&*self, position, changes@),
            decreases self.planned_len(),
        {
            if precise_time_ns() >= target_time {
                break;
            }
            let ghost before = *self;
            match self.step(position) {
                None => {
                    proof {
                        lemma_advanced_none(mid, before, *self, position, changes@);
                    }
                    break;
                },
                Some(c) => {
                    proof {
                        lemma_advanced_push(mid, before, *self, position, changes@, c);
                    }
                    changes.push(c);
                },
            }
        }
        changes
    }
}

/// Making one more planned change after some extends the changes made.
proof fn lemma_advanced_push<F: Fn(i32) -> LOD, G: Fn(BlockPosition, BlockPosition) -> Vec<
    BlockPosition,
>>(
    a: SurroundingsLoader<F, G>,
    b: SurroundingsLoader<F, G>,
    c: SurroundingsLoader<F, G>,
    position: BlockPosition,
    changes: Seq<LODChange>,
    x: LODChange,
)
    requires
        a.advanced(&b, position, changes),
        b.advanced(&c, position, seq![x]),
        a.to_load is Some,
    ensures
        a.advanced(&c, position, changes.push(x)),
        c.planned_len() < b.planned_len(),
{
    let k = changes.len() as int;
    let rc = a.to_recheck@;
    let t = a.to_load.unwrap().remaining_tagged();
    let done_rc = if k < rc.len() { k } else { rc.len() as int };
    assert(seq![x][0] == x);
    assert(b.planned_change(position, 0, x));
    assert(a.planned_change(position, k, x)) by {
        if k < rc.len() {
            assert(b.to_recheck@[0] == rc[k]);
        } else {
            assert(b.to_recheck@.len() == 0);
            assert(b.to_load.unwrap().remaining_tagged()[0] == t[k - rc.len()]);
        }
    }
    assert forall|i: int| 0 <= i < k + 1 implies a.planned_change(
        position,
        i,
        #[trigger] changes.push(x)[i],
    ) by {
        if i < k {
            assert(changes.push(x)[i] == changes[i]);
        }
    }
    let done2 = if k + 1 < rc.len() { k + 1 } else { rc.len() as int };
    assert(c.to_recheck@ =~= rc.skip(done2));
    assert(c.to_load.unwrap().remaining_tagged() =~= t.skip(k + 1 - done2));
}

/// Making no change after some leaves the changes made as they are.
proof fn lemma_advanced_none<F: Fn(i32) -> LOD, G: Fn(BlockPosition, BlockPosition) -> Vec<
    BlockPosition,
>>(
    a: SurroundingsLoader<F, G>,
    b: SurroundingsLoader<F, G>,
    c: SurroundingsLoader<F, G>,
    position: BlockPosition,
    changes: Seq<LODChange>,
)
    requires
        a.advanced(&b, position, changes),
        b.advanced(&c, position, Seq::empty()),
        a.to_load is Some,
    ensures
        a.advanced(&c, position, changes),
{
    let k = changes.len() as int;
    let rc = a.to_recheck@;
    let t = a.to_load.unwrap().remaining_tagged();
    let done_rc = if k < rc.len() { k } else { rc.len() as int };
    assert(c.to_recheck@ =~= rc.skip(done_rc));
    assert(c.to_load.unwrap().remaining_tagged() =~= t.skip(k - done_rc));
}

} // verus!
