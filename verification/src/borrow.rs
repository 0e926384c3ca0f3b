//! Keeping a value alive for as long as a holder lives.
use vstd::prelude::*;

verus! {

/// Holds a value for as long as it lives.
pub struct Borrow<T> {
    borrowed: T,
}

impl<T> Borrow<T> {
    /// The value held.
    pub closed spec fn held(&self) -> T {
        self.borrowed
    }

    /// Holds `borrowed`.
    pub fn borrow(borrowed: T) -> (b: Borrow<T>)
        ensures
            b.held() == borrowed,
    {
        Borrow { borrowed }
    }
}

} // verus!
