//! Producer of unique ids.
use vstd::prelude::*;

verus! {

/// A kind of id that is a numbered value: it has a first value and a next
/// value after each, and different numbers give different ids.
pub trait IdValue: Copy + Sized {
    /// The number of this id.
    spec fn index(&self) -> int;

    /// The first id.
    fn first() -> (r: Self)
        ensures
            r.index() == 0,
    ;

    /// Whether this is the last id, numbered `u32::MAX`.
    fn is_last(&self) -> (r: bool)
        ensures
            r == (self.index() == u32::MAX),
    ;

    /// The id after `self`.
    fn after(&self) -> (r: Self)
        requires
            0 <= self.index() < u32::MAX,
        ensures
            r.index() == self.index() + 1,
    ;

    /// Numbers are at least 0 and at most `u32::MAX`.
    proof fn index_range(a: Self)
        ensures
            0 <= a.index() <= u32::MAX,
    ;

    /// Different ids have different numbers.
    proof fn index_injective(a: Self, b: Self)
        ensures
            a.index() == b.index() ==> a == b,
    ;
}

/// Produces unique ids.
pub struct IdAllocator<Id> {
    next: Id,
}

impl<Id: IdValue> IdAllocator<Id> {
    /// The number of ids produced so far: the ids produced are exactly those
    /// numbered below it.
    pub closed spec fn issued(&self) -> int {
        self.next.index()
    }

    /// Creates an allocator that has produced nothing yet.
    pub fn new() -> (a: IdAllocator<Id>)
        ensures
            a.issued() == 0,
    {
        IdAllocator { next: Id::first() }
    }

    /// Whether the allocator can produce another id.
    pub fn can_allocate(&self) -> (r: bool)
        ensures
            r == (self.issued() < u32::MAX),
    {
        proof {
            Id::index_range(self.next);
        }
        !self.next.is_last()
    }

    /// Produces an id that this allocator has not produced yet.
    pub fn allocate(&mut self) -> (id: Id)
        requires
            old(self).issued() < u32::MAX,
        ensures
            id.index() == old(self).issued(),
            final(self).issued() == old(self).issued() + 1,
    {
        proof {
            Id::index_range(self.next);
        }
        let ret = self.next;
        self.next = self.next.after();
        ret
    }
}

/// Two ids produced by one allocator, the first before the second, differ.
pub proof fn allocations_differ<Id: IdValue>(first: Id, second: Id, issued_before_second: int)
    requires
        first.index() < issued_before_second,
        second.index() == issued_before_second,
    ensures
        first != second,
{
}

} // verus!
