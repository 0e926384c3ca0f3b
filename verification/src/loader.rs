//! Operations queued for the terrain loader.
use vstd::prelude::*;
use std::collections::VecDeque;

verus! {

/// A load or an unload to perform.
#[derive(Clone)]
pub enum Operation<L, U> {
    Load(L),
    Unload(U),
}

/// The queue of operations to perform, oldest first.
pub type Loader<L, U> = VecDeque<Operation<L, U>>;

} // verus!
