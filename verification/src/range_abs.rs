//! Counting outwards from zero: `0, 1, -1, 2, -2, ...` up to a bound.
use vstd::prelude::*;

verus! {

/// The `i`-th value of the sequence `0, 1, -1, 2, -2, ...`.
pub open spec fn abs_order(i: int) -> int {
    if i % 2 == 1 {
        (i + 1) / 2
    } else {
        -(i / 2)
    }
}

/// The sequence `0, 1, -1, 2, -2, ..., n, -n` for `n = inclusive_max`.
pub open spec fn range_abs_seq(inclusive_max: int) -> Seq<int> {
    Seq::new((2 * inclusive_max + 1) as nat, |i: int| abs_order(i))
}

/// Generates `0, 1, -1, 2, -2, ..., n, -n`.
pub struct RangeAbs {
    n: i32,
    max: i32,
}

/// Creates the generator of `0, 1, -1, ..., inclusive_max, -inclusive_max`.
pub fn range_abs(inclusive_max: i32) -> (r: RangeAbs)
    requires
        0 <= inclusive_max < i32::MAX,
    ensures
        r.wf(),
        r.bound() == inclusive_max,
        r.remaining() == range_abs_seq(inclusive_max as int),
{
    RangeAbs { n: 0, max: inclusive_max + 1 }
}

impl RangeAbs {
    /// The largest value this generator yields.
    pub closed spec fn bound(self) -> int {
        self.max - 1
    }

    /// The position in `range_abs_seq(bound())` of the next value.
    pub closed spec fn position(self) -> int {
        if self.n > 0 {
            2 * self.n - 1
        } else {
            -2 * self.n
        }
    }

    /// Well-formedness: `n` is a value of the sequence, or its end.
    pub closed spec fn wf(self) -> bool {
        &&& 1 <= self.max <= i32::MAX
        &&& -self.max < self.n <= self.max
    }

    /// The values that are still to come.
    pub closed spec fn remaining(self) -> Seq<int> {
        range_abs_seq(self.bound()).subrange(
            if self.n == self.max { 2 * self.max - 1 } else { self.position() },
            2 * self.max - 1,
        )
    }

    /// Yields the next value, or `None` once `-n` has been yielded.
    pub fn next(&mut self) -> (r: Option<i32>)
        requires
            old(self).wf(),
        ensures
            final(self).wf(),
            final(self).bound() == old(self).bound(),
            old(self).remaining().len() == 0 ==> r is None && final(self).remaining().len() == 0,
            old(self).remaining().len() > 0 ==> r == Some(old(self).remaining()[0] as i32)
                && final(self).remaining() == old(self).remaining().drop_first(),
    {
        let n = self.n;
        if n == self.max {
            return None;
        }
        if n <= 0 {
            self.n = -n + 1;
        } else {
            self.n = -n;
        }
        proof {
            assert(final(self).remaining() =~= old(self).remaining().drop_first());
        }
        Some(n)
    }

    /// The value that `next` yields next (the end marker `bound() + 1` once done).
    pub closed spec fn current(self) -> int {
        self.n as int
    }

    /// The size estimate `2 * (bound() + 1 - |current()|)`, given as lower and
    /// upper bound. It is exact while `current()` is positive and one more than
    /// the number of remaining values otherwise.
    pub fn size_hint(&self) -> (r: (usize, Option<usize>))
        requires
            self.wf(),
        ensures
            r.0 == 2 * (self.bound() + 1 - (if self.current() < 0 { -self.current() } else { self.current() })),
            r.1 == Some(r.0),
            self.current() > 0 ==> r.0 == self.remaining().len(),
            self.current() <= 0 ==> r.0 == self.remaining().len() + 1,
    {
        let a: i32 = if self.n < 0 { -self.n } else { self.n };
        let sz: usize = ((self.max - a) as usize) * 2;
        (sz, Some(sz))
    }
}

} // verus!
