//! Levels of detail, and the record of which level each block is loaded at
//! on behalf of which owners.
use vstd::prelude::*;
use std::collections::HashMap;
use std::cmp::Ordering;
use vstd::std_specs::cmp::PartialOrdSpecImpl;
use vstd::std_specs::ops::AddSpecImpl;
use vstd::std_specs::hash::obeys_key_model;
use crate::block_position::{BlockPosition, position_key, position_key_injective};
use crate::id_allocator::IdValue;

verus! {

broadcast use vstd::std_specs::hash::group_hash_axioms;

/// A level of detail at which a block can be loaded.
#[derive(Clone, Copy, Debug, PartialEq, Eq, Structural)]
pub enum LOD {
    /// A level of detail; a lower index is more detailed.
    LodIndex(u32),
    /// An invisible solid block.
    Placeholder,
}

/// Whether `a` is at most as detailed as `b`: a placeholder is below every
/// level, and a greater index is less detailed.
pub open spec fn lod_le(a: LOD, b: LOD) -> bool {
    match (a, b) {
        (LOD::Placeholder, _) => true,
        (LOD::LodIndex(_), LOD::Placeholder) => false,
        (LOD::LodIndex(i), LOD::LodIndex(j)) => i >= j,
    }
}

/// The comparison of `a` with `b` in the order of `lod_le`.
pub open spec fn lod_order(a: LOD, b: LOD) -> Ordering {
    if a == b {
        Ordering::Equal
    } else if lod_le(a, b) {
        Ordering::Less
    } else {
        Ordering::Greater
    }
}

/// The more detailed of `a` and `b` (`b` when they are equal).
pub open spec fn lod_max(a: LOD, b: LOD) -> LOD {
    if lod_le(a, b) {
        b
    } else {
        a
    }
}

impl LOD {
    /// Compares two levels of detail: a placeholder is below every level, and
    /// a greater level of detail is a lower index.
    pub fn cmp(&self, other: &LOD) -> (r: Ordering)
        ensures
            r == lod_order(*self, *other),
    {
        match (*self, *other) {
            (LOD::Placeholder, LOD::Placeholder) => Ordering::Equal,
            (LOD::Placeholder, LOD::LodIndex(_)) => Ordering::Less,
            (LOD::LodIndex(_), LOD::Placeholder) => Ordering::Greater,
            (LOD::LodIndex(idx1), LOD::LodIndex(idx2)) => {
                // A greater level of detail is a lower index, so invert the
                // result of the index comparison.
                if idx1 < idx2 {
                    Ordering::Greater
                } else if idx1 > idx2 {
                    Ordering::Less
                } else {
                    Ordering::Equal
                }
            },
        }
    }
}

impl PartialOrd for LOD {
    fn partial_cmp(&self, other: &LOD) -> (r: Option<Ordering>) {
        Some(self.cmp(other))
    }
}

impl PartialOrdSpecImpl for LOD {
    open spec fn obeys_partial_cmp_spec() -> bool {
        true
    }

    open spec fn partial_cmp_spec(&self, other: &LOD) -> Option<Ordering> {
        Some(lod_order(*self, *other))
    }
}

/// These are used to identify the owners of terrain load operations.
#[derive(Clone, Copy, Debug, PartialEq, Eq, Structural, Hash)]
pub struct OwnerId(pub u32);

impl Default for OwnerId {
    fn default() -> (r: OwnerId)
        ensures
            r == OwnerId(0),
    {
        OwnerId(0)
    }
}

impl core::ops::Add<u32> for OwnerId {
    type Output = OwnerId;

    fn add(self, rhs: u32) -> (r: OwnerId) {
        OwnerId(self.0 + rhs)
    }
}

impl AddSpecImpl<u32> for OwnerId {
    open spec fn obeys_add_spec() -> bool {
        true
    }

    open spec fn add_req(self, rhs: u32) -> bool {
        self.0 + rhs <= u32::MAX
    }

    open spec fn add_spec(self, rhs: u32) -> OwnerId {
        OwnerId((self.0 + rhs) as u32)
    }
}

impl IdValue for OwnerId {
    open spec fn index(&self) -> int {
        self.0 as int
    }

    fn first() -> (r: Self) {
        OwnerId(0)
    }

    fn is_last(&self) -> (r: bool) {
        self.0 == u32::MAX
    }

    fn after(&self) -> (r: Self) {
        *self + 1
    }

    proof fn index_range(a: Self) {
    }

    proof fn index_injective(a: Self, b: Self) {
    }
}

/// A change of the level of detail a block is loaded at.
#[derive(Clone, Copy, Debug, PartialEq, Eq, Structural)]
pub struct LODChange {
    pub desired: Option<LOD>,
    pub loaded: Option<LOD>,
}

/// The load state of one block: the level of detail requested by each owner
/// (at most one entry per owner), and the level it is loaded at.
struct BlockLoadState {
    owner_lods: Vec<(OwnerId, LOD)>,
    loaded_lod: LOD,
}

/// The abstract load state of one block.
pub struct BlockLoad {
    pub owner_lods: Seq<(OwnerId, LOD)>,
    pub loaded_lod: LOD,
}

/// The most detailed level among the requests of `s` (meaningful when `s`
/// is not empty).
pub open spec fn max_lod(s: Seq<(OwnerId, LOD)>) -> LOD
    decreases s.len(),
{
    if s.len() <= 1 {
        s[0].1
    } else {
        lod_max(max_lod(s.drop_last()), s.last().1)
    }
}

/// Whether `i` is the first position of `s` that holds a request of `o`.
pub open spec fn first_of(s: Seq<(OwnerId, LOD)>, o: OwnerId, i: int) -> bool {
    &&& 0 <= i < s.len()
    &&& s[i].0 == o
    &&& forall|j: int| 0 <= j < i ==> s[j].0 != o
}

/// The position of the request of `o` in `s`, if any.
pub open spec fn owner_index(s: Seq<(OwnerId, LOD)>, o: OwnerId) -> Option<int> {
    if exists|i: int| first_of(s, o, i) {
        Some(choose|i: int| first_of(s, o, i))
    } else {
        None
    }
}

/// `s` with the element at `i` replaced by the last one, and the last one
/// dropped.
pub open spec fn swap_removed<A>(s: Seq<A>, i: int) -> Seq<A> {
    s.update(i, s.last()).drop_last()
}

/// The result of updating the requests of a block to `owners` when it is
/// loaded at `loaded`, with `prev` the owner's previous request: the new
/// block state and the returned pair. With requests left, the block is to be
/// loaded at the most detailed one; with none, it is to be unloaded.
pub open spec fn settle(owners: Seq<(OwnerId, LOD)>, loaded: LOD, prev: Option<LOD>) -> (
    BlockLoad,
    (Option<LOD>, Option<LODChange>),
) {
    if owners.len() == 0 {
        (
            BlockLoad { owner_lods: owners, loaded_lod: loaded },
            (prev, Some(LODChange { desired: None, loaded: Some(loaded) })),
        )
    } else if max_lod(owners) == loaded {
        (BlockLoad { owner_lods: owners, loaded_lod: loaded }, (prev, None))
    } else {
        (
            BlockLoad { owner_lods: owners, loaded_lod: max_lod(owners) },
            (prev, Some(LODChange { desired: Some(max_lod(owners)), loaded: Some(loaded) })),
        )
    }
}

/// What `increase_lod` does to one block: its new state (`None` when
/// unchanged) and the returned pair.
pub open spec fn increase_spec(state: Option<BlockLoad>, new_lod: LOD, owner: OwnerId) -> (
    Option<BlockLoad>,
    (Option<LOD>, Option<LODChange>),
) {
    match state {
        None => (
            Some(BlockLoad { owner_lods: seq![(owner, new_lod)], loaded_lod: new_lod }),
            (None, Some(LODChange { desired: Some(new_lod), loaded: None })),
        ),
        Some(st) => match owner_index(st.owner_lods, owner) {
            None => {
                let (b, r) = settle(st.owner_lods.push((owner, new_lod)), st.loaded_lod, None);
                (Some(b), r)
            },
            Some(i) => {
                let old_lod = st.owner_lods[i].1;
                if lod_le(new_lod, old_lod) {
                    (None, (None, None))
                } else {
                    let (b, r) = settle(
                        st.owner_lods.update(i, (owner, new_lod)),
                        st.loaded_lod,
                        Some(old_lod),
                    );
                    (Some(b), r)
                }
            },
        },
    }
}

/// What `decrease_lod` does to one block: its new state (`None` when
/// unchanged) and the returned pair.
pub open spec fn decrease_spec(state: Option<BlockLoad>, new_lod: Option<LOD>, owner: OwnerId) -> (
    Option<BlockLoad>,
    (Option<LOD>, Option<LODChange>),
) {
    match state {
        None => (None, (None, None)),
        Some(st) => match owner_index(st.owner_lods, owner) {
            None => (None, (None, None)),
            Some(i) => match new_lod {
                None => {
                    let (b, r) = settle(
                        swap_removed(st.owner_lods, i),
                        st.loaded_lod,
                        Some(st.owner_lods[i].1),
                    );
                    (Some(b), r)
                },
                Some(n) => {
                    let old_lod = st.owner_lods[i].1;
                    if lod_le(old_lod, n) {
                        (None, (None, None))
                    } else {
                        let (b, r) = settle(
                            st.owner_lods.update(i, (owner, n)),
                            st.loaded_lod,
                            Some(old_lod),
                        );
                        (Some(b), r)
                    }
                },
            },
        },
    }
}

/// Whether a block state is consistent: each owner has at most one request,
/// and a block with requests is loaded at the most detailed one.
pub open spec fn block_consistent(b: BlockLoad) -> bool {
    &&& forall|i: int, j: int|
        0 <= i < j < b.owner_lods.len() ==> b.owner_lods[i].0 != b.owner_lods[j].0
    &&& b.owner_lods.len() > 0 ==> b.loaded_lod == max_lod(b.owner_lods)
}

/// The level of detail a block is recorded as loaded at, if it has a state.
pub open spec fn recorded_level(s: Option<BlockLoad>) -> Option<LOD> {
    match s {
        None => None,
        Some(b) => Some(b.loaded_lod),
    }
}

/// The level of detail a block is wanted at: its most detailed request, if
/// it has any.
pub open spec fn desired_level(s: Option<BlockLoad>) -> Option<LOD> {
    match s {
        Some(b) => if b.owner_lods.len() > 0 {
            Some(max_lod(b.owner_lods))
        } else {
            None
        },
        None => None,
    }
}

/// The state of a block after an update that gives `nb` (`None` when the
/// state is left as it was).
pub open spec fn updated(s: Option<BlockLoad>, nb: Option<BlockLoad>) -> Option<BlockLoad> {
    match nb {
        None => s,
        Some(b) => Some(b),
    }
}

/// The most detailed request is one of the requests, and every request is at
/// most as detailed as it.
pub proof fn max_lod_is_most_detailed(s: Seq<(OwnerId, LOD)>)
    requires
        s.len() > 0,
    ensures
        exists|i: int| 0 <= i < s.len() && s[i].1 == max_lod(s),
        forall|i: int| 0 <= i < s.len() ==> lod_le(#[trigger] s[i].1, max_lod(s)),
    decreases s.len(),
{
    if s.len() == 1 {
        assert(s[0].1 == max_lod(s));
    } else {
        let init = s.drop_last();
        max_lod_is_most_detailed(init);
        let k = choose|i: int| 0 <= i < init.len() && init[i].1 == max_lod(init);
        if lod_le(max_lod(init), s.last().1) {
            assert(s[s.len() - 1].1 == max_lod(s));
        } else {
            assert(s[k].1 == max_lod(s));
        }
        assert forall|i: int| 0 <= i < s.len() implies lod_le(#[trigger] s[i].1, max_lod(s)) by {
            if i < s.len() - 1 {
                assert(init[i] == s[i]);
            }
        }
    }
}

/// Raising a request reports exactly the change of the level the block is
/// recorded as loaded at: nothing when it stays, and otherwise the level it
/// was loaded at (none for a block without a state) and the level it is now
/// wanted at, its most detailed request, which is the level it is now
/// recorded as loaded at.
pub proof fn increase_reports_the_load_change(s: Option<BlockLoad>, new_lod: LOD, owner: OwnerId)
    requires
        s matches Some(b) ==> block_consistent(b),
    ensures
        ({
            let (nb, r) = increase_spec(s, new_lod, owner);
            let after = updated(s, nb);
            &&& r.1 == if recorded_level(after) == recorded_level(s) {
                None
            } else {
                Some(LODChange { desired: desired_level(after), loaded: recorded_level(s) })
            }
            &&& desired_level(after) == recorded_level(after)
        }),
{
    if let Some(st) = s {
        match owner_index(st.owner_lods, owner) {
            None => {},
            Some(i) => {
                assert(first_of(st.owner_lods, owner, i));
            },
        }
    }
}

/// Lowering or withdrawing a request reports exactly the change of the level
/// the block is wanted at: nothing when it stays, and otherwise the level it
/// was loaded at and the level it is now wanted at, its most detailed
/// remaining request (none when no request remains), which is the level it is
/// then recorded as loaded at.
pub proof fn decrease_reports_the_load_change(s: Option<BlockLoad>, new_lod: Option<LOD>, owner: OwnerId)
    requires
        s matches Some(b) ==> block_consistent(b),
    ensures
        ({
            let (nb, r) = decrease_spec(s, new_lod, owner);
            let after = updated(s, nb);
            &&& r.1 == if desired_level(after) == desired_level(s) {
                None
            } else {
                Some(LODChange { desired: desired_level(after), loaded: recorded_level(s) })
            }
            &&& desired_level(after) matches Some(d) ==> recorded_level(after) == Some(d)
        }),
{
    if let Some(st) = s {
        match owner_index(st.owner_lods, owner) {
            None => {},
            Some(i) => {
                assert(first_of(st.owner_lods, owner, i));
            },
        }
    }
}

/// The requests of a block, if it has a state.
pub open spec fn requests(s: Option<BlockLoad>) -> Seq<(OwnerId, LOD)> {
    match s {
        None => Seq::empty(),
        Some(b) => b.owner_lods,
    }
}

/// The level of detail that `o` requests for a block, if any.
pub open spec fn request_of(s: Option<BlockLoad>, o: OwnerId) -> Option<LOD> {
    match owner_index(requests(s), o) {
        None => None,
        Some(i) => Some(requests(s)[i].1),
    }
}

/// Whether the requests of `s` are of distinct owners.
pub open spec fn owners_distinct(s: Seq<(OwnerId, LOD)>) -> bool {
    forall|i: int, j: int| 0 <= i < j < s.len() ==> s[i].0 != s[j].0
}

/// Where `s` has no request of `o`, `o` owns none of its elements.
proof fn lemma_no_owner(s: Seq<(OwnerId, LOD)>, o: OwnerId)
    requires
        owner_index(s, o) is None,
    ensures
        forall|l: LOD| !s.contains((o, l)),
{
    assert forall|l: LOD| !s.contains((o, l)) by {
        if s.contains((o, l)) {
            let k = choose|k: int| 0 <= k < s.len() && s[k] == (o, l);
            lemma_first_exists(s, o, k);
        }
    }
}

/// The request of `o` at `i`, with owners distinct, is its only one.
proof fn lemma_only_request(s: Seq<(OwnerId, LOD)>, o: OwnerId, i: int)
    requires
        owners_distinct(s),
        owner_index(s, o) == Some(i),
    ensures
        0 <= i < s.len(),
        s[i].0 == o,
        forall|l: LOD| s.contains((o, l)) <==> l == s[i].1,
{
    assert(first_of(s, o, i));
    assert forall|l: LOD| s.contains((o, l)) <==> l == s[i].1 by {
        if s.contains((o, l)) {
            let k = choose|k: int| 0 <= k < s.len() && s[k] == (o, l);
            assert(k == i);
        }
        if l == s[i].1 {
            assert(s[i] == (o, l));
        }
    }
}

/// Replacing the request at `i` by one of the same owner leaves the other
/// owners' requests as they were.
proof fn lemma_update_requests(s: Seq<(OwnerId, LOD)>, i: int, l: LOD)
    requires
        owners_distinct(s),
        0 <= i < s.len(),
    ensures
        forall|y: (OwnerId, LOD)| y.0 != s[i].0 ==> (s.update(i, (s[i].0, l)).contains(y) <==> s.contains(y)),
        forall|m: LOD| s.update(i, (s[i].0, l)).contains((s[i].0, m)) <==> m == l,
{
    let t = s.update(i, (s[i].0, l));
    assert forall|y: (OwnerId, LOD)| y.0 != s[i].0 implies (t.contains(y) <==> s.contains(y)) by {
        if t.contains(y) {
            let k = choose|k: int| 0 <= k < t.len() && t[k] == y;
            assert(s[k] == y);
        }
        if s.contains(y) {
            let k = choose|k: int| 0 <= k < s.len() && s[k] == y;
            assert(t[k] == y);
        }
    }
    assert forall|m: LOD| t.contains((s[i].0, m)) <==> m == l by {
        if t.contains((s[i].0, m)) {
            let k = choose|k: int| 0 <= k < t.len() && t[k] == (s[i].0, m);
            if k != i {
                assert(s[k].0 == s[i].0);
            }
        }
        if m == l {
            assert(t[i] == (s[i].0, m));
        }
    }
}

/// Swap-removing the request at `i` takes out that owner's request and leaves
/// the other owners' requests as they were.
proof fn lemma_swap_removed_requests(s: Seq<(OwnerId, LOD)>, i: int)
    requires
        owners_distinct(s),
        0 <= i < s.len(),
    ensures
        forall|y: (OwnerId, LOD)| y.0 != s[i].0 ==> (swap_removed(s, i).contains(y) <==> s.contains(y)),
        forall|m: LOD| !swap_removed(s, i).contains((s[i].0, m)),
{
    let t = swap_removed(s, i);
    let n = s.len() - 1;
    assert forall|y: (OwnerId, LOD)| y.0 != s[i].0 implies (t.contains(y) <==> s.contains(y)) by {
        if t.contains(y) {
            let k = choose|k: int| 0 <= k < t.len() && t[k] == y;
            if k == i {
                assert(s[n] == y);
            } else {
                assert(s[k] == y);
            }
        }
        if s.contains(y) {
            let k = choose|k: int| 0 <= k < s.len() && s[k] == y;
            if k == n {
                assert(t[i] == y);
            } else {
                assert(t[k] == y);
            }
        }
    }
    assert forall|m: LOD| !t.contains((s[i].0, m)) by {
        if t.contains((s[i].0, m)) {
            let k = choose|k: int| 0 <= k < t.len() && t[k] == (s[i].0, m);
            if k == i {
                assert(s[n].0 == s[i].0);
            } else {
                assert(s[k].0 == s[i].0);
            }
        }
    }
}

/// The request of an owner that asked for `prev` once it asks for at least
/// `new_lod`: the more detailed of the two.
pub open spec fn raised(prev: Option<LOD>, new_lod: LOD) -> LOD {
    match prev {
        Some(p) => if lod_le(new_lod, p) {
            p
        } else {
            new_lod
        },
        None => new_lod,
    }
}

/// The request of an owner that asked for `prev` once it asks for at most
/// `new_lod`, or withdraws its request when that is `None`: the less detailed
/// of the two; an owner that asked for nothing still asks for nothing.
pub open spec fn lowered(prev: Option<LOD>, new_lod: Option<LOD>) -> Option<LOD> {
    match (prev, new_lod) {
        (Some(p), Some(n)) => if lod_le(p, n) {
            Some(p)
        } else {
            Some(n)
        },
        _ => None,
    }
}

/// Raising a request of `owner` leaves every other owner's requests as they
/// were; afterwards `owner` has exactly one request, the more detailed of its
/// former one and the new one, and the former one is returned when it
/// changed.
pub proof fn increase_keeps_other_requests(s: Option<BlockLoad>, new_lod: LOD, owner: OwnerId)
    requires
        s matches Some(b) ==> block_consistent(b),
    ensures
        ({
            let (nb, r) = increase_spec(s, new_lod, owner);
            let after = updated(s, nb);
            let prev = request_of(s, owner);
            &&& forall|y: (OwnerId, LOD)|
                y.0 != owner ==> (requests(after).contains(y) <==> requests(s).contains(y))
            &&& forall|l: LOD| requests(after).contains((owner, l)) <==> l == raised(prev, new_lod)
            &&& r.0 == if prev == Some(raised(prev, new_lod)) {
                None
            } else {
                prev
            }
        }),
{
    match s {
        None => {
            let t = seq![(owner, new_lod)];
            assert forall|y: (OwnerId, LOD)| t.contains(y) <==> y == (owner, new_lod) by {
                if y == (owner, new_lod) {
                    assert(t[0] == y);
                }
            }
        },
        Some(st) => {
            let o = st.owner_lods;
            match owner_index(o, owner) {
                None => {
                    lemma_no_owner(o, owner);
                    let t = o.push((owner, new_lod));
                    assert forall|y: (OwnerId, LOD)| t.contains(y) <==> o.contains(y) || y == (
                        owner,
                        new_lod,
                    ) by {
                        if t.contains(y) {
                            let k = choose|k: int| 0 <= k < t.len() && t[k] == y;
                            if k < o.len() {
                                assert(o[k] == y);
                            }
                        }
                        if o.contains(y) {
                            let k = choose|k: int| 0 <= k < o.len() && o[k] == y;
                            assert(t[k] == y);
                        }
                        if y == (owner, new_lod) {
                            assert(t[o.len() as int] == y);
                        }
                    }
                },
                Some(i) => {
                    lemma_only_request(o, owner, i);
                    lemma_update_requests(o, i, new_lod);
                },
            }
        },
    }
}

/// Lowering a request of `owner`, or withdrawing it, leaves every other
/// owner's requests as they were; afterwards `owner` requests the less
/// detailed of its former request and the new one, or nothing after a
/// withdrawal, and the former request is returned when it changed.
pub proof fn decrease_keeps_other_requests(s: Option<BlockLoad>, new_lod: Option<LOD>, owner: OwnerId)
    requires
        s matches Some(b) ==> block_consistent(b),
    ensures
        ({
            let (nb, r) = decrease_spec(s, new_lod, owner);
            let after = updated(s, nb);
            let prev = request_of(s, owner);
            &&& forall|y: (OwnerId, LOD)|
                y.0 != owner ==> (requests(after).contains(y) <==> requests(s).contains(y))
            &&& forall|l: LOD|
                requests(after).contains((owner, l)) <==> lowered(prev, new_lod) == Some(l)
            &&& r.0 == if lowered(prev, new_lod) == prev {
                None
            } else {
                prev
            }
        }),
{
    match s {
        None => {},
        Some(st) => {
            let o = st.owner_lods;
            match owner_index(o, owner) {
                None => {
                    lemma_no_owner(o, owner);
                },
                Some(i) => {
                    lemma_only_request(o, owner, i);
                    match new_lod {
                        None => {
                            lemma_swap_removed_requests(o, i);
                        },
                        Some(n) => {
                            lemma_update_requests(o, i, n);
                        },
                    }
                },
            }
        },
    }
}

/// The record of the levels of detail at which blocks are loaded.
pub struct LODMap {
    loaded: HashMap<u128, BlockLoadState>,
}

impl LODMap {
    /// The load state of each block that has one.
    pub closed spec fn view(&self) -> Map<BlockPosition, BlockLoad> {
        Map::new(
            |p: BlockPosition| self.loaded@.contains_key(position_key(p)),
            |p: BlockPosition|
                BlockLoad {
                    owner_lods: self.loaded@[position_key(p)].owner_lods@,
                    loaded_lod: self.loaded@[position_key(p)].loaded_lod,
                },
        )
    }

    /// The state of the block at `p`, if it has one.
    pub open spec fn state_of(&self, p: BlockPosition) -> Option<BlockLoad> {
        if self.view().contains_key(p) {
            Some(self.view()[p])
        } else {
            None
        }
    }

    /// Every block state is consistent.
    pub open spec fn wf(&self) -> bool {
        forall|p: BlockPosition| #[trigger] self.view().contains_key(p) ==> block_consistent(
            self.view()[p],
        )
    }

    /// Creates a record where no block is loaded.
    pub fn new() -> (m: LODMap)
        ensures
            m.wf(),
            m.view() == Map::<BlockPosition, BlockLoad>::empty(),
    {
        let m = LODMap { loaded: HashMap::new() };
        proof {
            assert(m.view() =~= Map::<BlockPosition, BlockLoad>::empty());
        }
        m
    }
}


/// The first position of `v` that holds a request of `owner`.
fn find_owner(v: &Vec<(OwnerId, LOD)>, owner: OwnerId) -> (r: Option<usize>)
    ensures
        match r {
            None => owner_index(v@, owner) is None,
            Some(i) => owner_index(v@, owner) == Some(i as int),
        },
{
    let mut i: usize = 0;
    while i < v.len()
        invariant
            0 <= i <= v@.len(),
            forall|j: int| 0 <= j < i ==> v@[j].0 != owner,
        decreases v@.len() - i,
    {
        if v[i].0 == owner {
            proof {
                assert(first_of(v@, owner, i as int));
                let k = choose|k: int| first_of(v@, owner, k);
                assert(k == i as int) by {
                    if k < i {
                        assert(v@[k].0 != owner);
                    } else if k > i {
                        assert(v@[i as int].0 != owner);
                    }
                }
            }
            return Some(i);
        }
        i = i + 1;
    }
    proof {
        assert forall|k: int| !first_of(v@, owner, k) by {}
    }
    None
}

/// The most detailed level among the requests of `v`.
fn most_detailed(v: &Vec<(OwnerId, LOD)>) -> (m: LOD)
    requires
        v@.len() > 0,
    ensures
        m == max_lod(v@),
{
    let mut m = v[0].1;
    let mut i: usize = 1;
    proof {
        assert(v@.take(1).drop_last() =~= Seq::<(OwnerId, LOD)>::empty());
    }
    while i < v.len()
        invariant
            1 <= i <= v@.len(),
            m == max_lod(v@.take(i as int)),
        decreases v@.len() - i,
    {
        let x = v[i].1;
        let next = if m <= x { x } else { m };
        proof {
            assert(v@.take(i + 1).drop_last() =~= v@.take(i as int));
        }
        m = next;
        i = i + 1;
    }
    proof {
        assert(v@.take(v@.len() as int) =~= v@);
    }
    m
}

/// Brings `st` to the state that `settle` gives for its requests, and
/// returns the pair that `settle` gives.
fn settle_state(st: &mut BlockLoadState, prev: Option<LOD>) -> (r: (Option<LOD>, Option<LODChange>))
    ensures
        ({
            let (b, res) = settle(old(st).owner_lods@, old(st).loaded_lod, prev);
            &&& r == res
            &&& final(st).owner_lods@ == b.owner_lods
            &&& final(st).loaded_lod == b.loaded_lod
        }),
{
    let loaded_lod = st.loaded_lod;
    if st.owner_lods.len() == 0 {
        return (prev, Some(LODChange { desired: None, loaded: Some(loaded_lod) }));
    }
    let new_lod = most_detailed(&st.owner_lods);
    if new_lod == loaded_lod {
        // Already loaded at the right LOD.
        return (prev, None);
    }
    st.loaded_lod = new_lod;
    (prev, Some(LODChange { loaded: Some(loaded_lod), desired: Some(new_lod) }))
}

/// Storing a consistent block state in a map of consistent block states
/// keeps every block state consistent.
proof fn lemma_insert_consistent(m: Map<BlockPosition, BlockLoad>, p: BlockPosition, b: BlockLoad)
    requires
        forall|q: BlockPosition| #[trigger] m.contains_key(q) ==> block_consistent(m[q]),
        block_consistent(b),
    ensures
        forall|q: BlockPosition| #[trigger] m.insert(p, b).contains_key(q) ==> block_consistent(
            m.insert(p, b)[q],
        ),
{
}

/// The requests of distinct owners stay requests of distinct owners when
/// one is replaced by a request of the same owner, one of a new owner is
/// appended, or one is swap-removed.
proof fn lemma_owners_distinct(s: Seq<(OwnerId, LOD)>, owner: OwnerId, l: LOD)
    requires
        forall|i: int, j: int| 0 <= i < j < s.len() ==> s[i].0 != s[j].0,
    ensures
        forall|k: int|
            #![trigger s.update(k, (owner, l))]
            0 <= k < s.len() && s[k].0 == owner ==> {
                let t = s.update(k, (owner, l));
                forall|i: int, j: int| 0 <= i < j < t.len() ==> t[i].0 != t[j].0
            },
        owner_index(s, owner) is None ==> {
            let t = s.push((owner, l));
            forall|i: int, j: int| 0 <= i < j < t.len() ==> t[i].0 != t[j].0
        },
        forall|k: int|
            #![trigger swap_removed(s, k)]
            0 <= k < s.len() ==> {
                let t = swap_removed(s, k);
                forall|i: int, j: int| 0 <= i < j < t.len() ==> t[i].0 != t[j].0
            },
{
    if owner_index(s, owner) is None {
        assert forall|i: int| 0 <= i < s.len() implies s[i].0 != owner by {
            if s[i].0 == owner {
                assert(exists|k: int| 0 <= k < s.len() && s[k].0 == owner);
                // the first request of the owner is a witness of `first_of`
                lemma_first_exists(s, owner, i);
            }
        }
    }
}

/// When `s` holds a request of `o` at `i`, a first one exists.
proof fn lemma_first_exists(s: Seq<(OwnerId, LOD)>, o: OwnerId, i: int)
    requires
        0 <= i < s.len(),
        s[i].0 == o,
    ensures
        exists|k: int| first_of(s, o, k),
    decreases i,
{
    if forall|j: int| 0 <= j < i ==> s[j].0 != o {
        assert(first_of(s, o, i));
    } else {
        let j = choose|j: int| 0 <= j < i && s[j].0 == o;
        lemma_first_exists(s, o, j);
    }
}

/// `settle` gives a consistent block when the requests are of distinct
/// owners.
proof fn lemma_settle_consistent(owners: Seq<(OwnerId, LOD)>, loaded: LOD, prev: Option<LOD>)
    requires
        forall|i: int, j: int| 0 <= i < j < owners.len() ==> owners[i].0 != owners[j].0,
    ensures
        block_consistent(settle(owners, loaded, prev).0),
{
}

impl LODMap {
    /// Replaces the state of the block at `position` by `b`.
    fn store(&mut self, position: BlockPosition, k: u128, st: BlockLoadState)
        requires
            k == position_key(position),
        ensures
            final(self).view() == old(self).view().insert(
                position,
                BlockLoad { owner_lods: st.owner_lods@, loaded_lod: st.loaded_lod },
            ),
    {
        let ghost b = BlockLoad { owner_lods: st.owner_lods@, loaded_lod: st.loaded_lod };
        self.loaded.insert(k, st);
        proof {
            assert forall|q: BlockPosition| q != position implies position_key(q) != position_key(
                position,
            ) by {
                position_key_injective(q, position);
            }
            assert(self.view() =~= old(self).view().insert(position, b));
        }
    }

    /// Raises the level of detail that `owner` requests for the block at
    /// `position` to `new_lod`. Returns the owner's previous request, if it
    /// had one and it changed, and the change of the level the block is to be
    /// loaded at, if any.
    pub fn increase_lod(&mut self, position: BlockPosition, new_lod: LOD, owner: OwnerId) -> (r: (
        Option<LOD>,
        Option<LODChange>,
    ))
        requires
            old(self).wf(),
        ensures
            final(self).wf(),
            ({
                let (b, res) = increase_spec(old(self).state_of(position), new_lod, owner);
                &&& r == res
                &&& final(self).view() == match b {
                    None => old(self).view(),
                    Some(b) => old(self).view().insert(position, b),
                }
            }),
            r.1 == if recorded_level(final(self).state_of(position)) == recorded_level(
                old(self).state_of(position),
            ) {
                None
            } else {
                Some(
                    LODChange {
                        desired: desired_level(final(self).state_of(position)),
                        loaded: recorded_level(old(self).state_of(position)),
                    },
                )
            },
            desired_level(final(self).state_of(position)) == recorded_level(
                final(self).state_of(position),
            ),
            forall|y: (OwnerId, LOD)|
                y.0 != owner ==> (requests(final(self).state_of(position)).contains(y) <==> requests(
                    old(self).state_of(position),
                ).contains(y)),
            forall|l: LOD|
                requests(final(self).state_of(position)).contains((owner, l)) <==> l == raised(
                    request_of(old(self).state_of(position), owner),
                    new_lod,
                ),
            r.0 == if request_of(old(self).state_of(position), owner) == Some(
                raised(request_of(old(self).state_of(position), owner), new_lod),
            ) {
                None
            } else {
                request_of(old(self).state_of(position), owner)
            },
    {
        proof {
            increase_reports_the_load_change(old(self).state_of(position), new_lod, owner);
            increase_keeps_other_requests(old(self).state_of(position), new_lod, owner);
        }
        let k = position.key();
        let prior = self.loaded.remove(&k);
        proof {
            assert(load_view_opt(prior) == old(self).state_of(position));
        }
        let (st, r) = increase_block(prior, new_lod, owner);
        let ghost nb = load_view(st);
        self.store(position, k, st);
        proof {
            lemma_insert_consistent(old(self).view(), position, nb);
            assert forall|q: BlockPosition| #[trigger] self.view().contains_key(q) implies block_consistent(
                self.view()[q],
            ) by {
                assert(old(self).view().insert(position, nb).contains_key(q));
            }
            if prior is Some {
                assert(old(self).view().insert(position, load_view(prior.unwrap())) =~= old(self).view());
            }
        }
        r
    }

    /// Lowers the level of detail that `owner` requests for the block at
    /// `position` to `new_lod`, or withdraws the request when `new_lod` is
    /// `None`. Returns the owner's previous request, if it changed, and the
    /// change of the level the block is to be loaded at, if any.
    #[verifier::spinoff_prover]
    #[verifier::rlimit(40)]
    pub fn decrease_lod(&mut self, position: BlockPosition, new_lod: Option<LOD>, owner: OwnerId) -> (r: (
        Option<LOD>,
        Option<LODChange>,
    ))
        requires
            old(self).wf(),
        ensures
            final(self).wf(),
            ({
                let (b, res) = decrease_spec(old(self).state_of(position), new_lod, owner);
                &&& r == res
                &&& final(self).view() == match b {
                    None => old(self).view(),
                    Some(b) => old(self).view().insert(position, b),
                }
            }),
            r.1 == if desired_level(final(self).state_of(position)) == desired_level(
                old(self).state_of(position),
            ) {
                None
            } else {
                Some(
                    LODChange {
                        desired: desired_level(final(self).state_of(position)),
                        loaded: recorded_level(old(self).state_of(position)),
                    },
                )
            },
            desired_level(final(self).state_of(position)) matches Some(d) ==> recorded_level(
                final(self).state_of(position),
            ) == Some(d),
            forall|y: (OwnerId, LOD)|
                y.0 != owner ==> (requests(final(self).state_of(position)).contains(y) <==> requests(
                    old(self).state_of(position),
                ).contains(y)),
            forall|l: LOD|
                requests(final(self).state_of(position)).contains((owner, l)) <==> lowered(
                    request_of(old(self).state_of(position), owner),
                    new_lod,
                ) == Some(l),
            r.0 == if lowered(request_of(old(self).state_of(position), owner), new_lod) == request_of(
                old(self).state_of(position),
                owner,
            ) {
                None
            } else {
                request_of(old(self).state_of(position), owner)
            },
    {
        proof {
            decrease_reports_the_load_change(old(self).state_of(position), new_lod, owner);
            decrease_keeps_other_requests(old(self).state_of(position), new_lod, owner);
        }
        let k = position.key();
        let prior = self.loaded.remove(&k);
        proof {
            assert(load_view_opt(prior) == old(self).state_of(position));
        }
        match prior {
            None => {
                proof {
                    assert(self.view() =~= old(self).view());
                    assert forall|q: BlockPosition| #[trigger] self.view().contains_key(q) implies block_consistent(
                        self.view()[q],
                    ) by {
                        assert(old(self).view().contains_key(q));
                    }
                }
                (None, None)
            },
            Some(st) => {
                let (st, r) = decrease_block(st, new_lod, owner);
                let ghost nb = load_view(st);
                self.store(position, k, st);
                proof {
                    lemma_insert_consistent(old(self).view(), position, nb);
                    assert forall|q: BlockPosition| #[trigger] self.view().contains_key(q) implies block_consistent(
                        self.view()[q],
                    ) by {
                        assert(old(self).view().insert(position, nb).contains_key(q));
                    }
                    assert(old(self).view().insert(position, load_view(prior.unwrap())) =~= old(
                        self,
                    ).view());
                }
                r
            },
        }
    }
}

/// The abstract state of a block state.
spec fn load_view(st: BlockLoadState) -> BlockLoad {
    BlockLoad { owner_lods: st.owner_lods@, loaded_lod: st.loaded_lod }
}

/// The abstract state of a block state, if any.
spec fn load_view_opt(st: Option<BlockLoadState>) -> Option<BlockLoad> {
    match st {
        None => None,
        Some(st) => Some(load_view(st)),
    }
}

/// `increase_lod` on the state of one block.
fn increase_block(prior: Option<BlockLoadState>, new_lod: LOD, owner: OwnerId) -> (r: (
    BlockLoadState,
    (Option<LOD>, Option<LODChange>),
))
    requires
        prior matches Some(st) ==> block_consistent(load_view(st)),
    ensures
        block_consistent(load_view(r.0)),
        ({
            let (b, res) = increase_spec(load_view_opt(prior), new_lod, owner);
            &&& r.1 == res
            &&& load_view(r.0) == match b {
                None => load_view(prior.unwrap()),
                Some(b) => b,
            }
        }),
{
    match prior {
        None => {
            let mut owner_lods = Vec::new();
            owner_lods.push((owner, new_lod));
            proof {
                assert(owner_lods@ =~= seq![(owner, new_lod)]);
            }
            (
                BlockLoadState { owner_lods, loaded_lod: new_lod },
                (None, Some(LODChange { loaded: None, desired: Some(new_lod) })),
            )
        },
        Some(mut st) => {
            proof {
                lemma_owners_distinct(st.owner_lods@, owner, new_lod);
            }
            let prev_lod;
            match find_owner(&st.owner_lods, owner) {
                None => {
                    st.owner_lods.push((owner, new_lod));
                    prev_lod = None;
                },
                Some(i) => {
                    let lod = st.owner_lods[i].1;
                    if new_lod <= lod {
                        return (st, (None, None));
                    }
                    prev_lod = Some(lod);
                    st.owner_lods.set(i, (owner, new_lod));
                },
            }
            let ghost owners = st.owner_lods@;
            let ghost loaded = st.loaded_lod;
            let r = settle_state(&mut st, prev_lod);
            proof {
                lemma_settle_consistent(owners, loaded, prev_lod);
            }
            (st, r)
        },
    }
}

/// `decrease_lod` on the state of one block.
fn decrease_block(st: BlockLoadState, new_lod: Option<LOD>, owner: OwnerId) -> (r: (
    BlockLoadState,
    (Option<LOD>, Option<LODChange>),
))
    requires
        block_consistent(load_view(st)),
    ensures
        block_consistent(load_view(r.0)),
        ({
            let (b, res) = decrease_spec(Some(load_view(st)), new_lod, owner);
            &&& r.1 == res
            &&& load_view(r.0) == match b {
                None => load_view(st),
                Some(b) => b,
            }
        }),
{
    let mut st = st;
    proof {
        lemma_owners_distinct(st.owner_lods@, owner, LOD::Placeholder);
    }
    let prev_lod;
    match find_owner(&st.owner_lods, owner) {
        None => {
            return (st, (None, None));
        },
        Some(i) => {
            match new_lod {
                None => {
                    let (_, lod) = st.owner_lods.swap_remove(i);
                    prev_lod = Some(lod);
                },
                Some(new_lod) => {
                    let lod = st.owner_lods[i].1;
                    if new_lod >= lod {
                        return (st, (None, None));
                    }
                    proof {
                        lemma_owners_distinct(st.owner_lods@, owner, new_lod);
                    }
                    prev_lod = Some(lod);
                    st.owner_lods.set(i, (owner, new_lod));
                },
            }
        },
    }
    let ghost owners = st.owner_lods@;
    let ghost loaded = st.loaded_lod;
    let r = settle_state(&mut st, prev_lod);
    proof {
        lemma_settle_consistent(owners, loaded, prev_lod);
    }
    (st, r)
}

/// A block that one owner alone has asked for and then given up is to be
/// loaded at the level asked for, and then unloaded from that level, the
/// owner's withdrawn request being returned; it keeps no request.
pub proof fn sole_request_withdrawn_unloads(lod: LOD, owner: OwnerId)
    ensures
        ({
            let (st, asked) = increase_spec(None, lod, owner);
            let (after, withdrawn) = decrease_spec(st, None, owner);
            &&& asked == (None::<LOD>, Some(LODChange { desired: Some(lod), loaded: None }))
            &&& withdrawn == (Some(lod), Some(LODChange { desired: None, loaded: Some(lod) }))
            &&& after matches Some(b) && b.owner_lods.len() == 0
        }),
{
    let s = seq![(owner, lod)];
    assert(first_of(s, owner, 0));
    assert forall|i: int| first_of(s, owner, i) implies i == 0 by {}
    assert(owner_index(s, owner) == Some(0int));
    assert(swap_removed(s, 0).len() == 0);
}

} // verus!
