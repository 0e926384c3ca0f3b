//! Bookkeeping of the input events.
use vstd::prelude::*;
use vstd::std_specs::cmp::PartialEqSpec;

verus! {

/// The position of the first element of `v` equal to `t`, if any.
pub open spec fn first_equal<T: PartialEq>(v: Seq<T>, t: T) -> Option<int> {
    if exists|i: int| 0 <= i < v.len() && v[i].eq_spec(&t) && forall|j: int|
        0 <= j < i ==> !v[j].eq_spec(&t) {
        Some(
            choose|i: int|
                0 <= i < v.len() && v[i].eq_spec(&t) && forall|j: int| 0 <= j < i ==> !v[j].eq_spec(&t),
        )
    } else {
        None
    }
}

/// Removes the first element equal to `t`, if any, moving the last element
/// into its place.
pub fn swap_remove_first<T: PartialEq + Copy>(v: &mut Vec<T>, t: T)
    requires
        T::obeys_eq_spec(),
    ensures
        match first_equal(old(v)@, t) {
            None => final(v)@ == old(v)@,
            Some(i) => final(v)@ == old(v)@.update(i, old(v)@.last()).drop_last(),
        },
{
    let mut i: usize = 0;
    while i < v.len()
        invariant
            0 <= i <= v@.len(),
            v@ == old(v)@,
            T::obeys_eq_spec(),
            forall|j: int| 0 <= j < i ==> !v@[j].eq_spec(&t),
        decreases v@.len() - i,
    {
        if v[i] == t {
            proof {
                let k = choose|k: int|
                    0 <= k < v@.len() && v@[k].eq_spec(&t) && forall|j: int|
                        0 <= j < k ==> !v@[j].eq_spec(&t);
                assert(k == i) by {
                    if k < i {
                        assert(!v@[k].eq_spec(&t));
                    } else if k > i {
                        assert(!v@[i as int].eq_spec(&t));
                    }
                }
            }
            v.swap_remove(i);
            return;
        }
        i = i + 1;
    }
    proof {
        assert(!(exists|k: int|
            0 <= k < v@.len() && v@[k].eq_spec(&t) && forall|j: int| 0 <= j < k ==> !v@[j].eq_spec(&t)));
    }
}

} // verus!
