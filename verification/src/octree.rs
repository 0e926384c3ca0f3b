//! The axes along which the cells of the octree are split.
use vstd::prelude::*;

verus! {

/// An axis of space.
#[derive(Clone, Copy, Debug, PartialEq, Eq, Structural)]
pub enum Dimension {
    X,
    Y,
    Z,
}

impl Dimension {
    /// The axis along which the halves of a cell split along `self` are split
    /// in turn: x, then y, then z, then x again.
    pub fn next(self) -> (d: Dimension)
        ensures
            self == Dimension::X ==> d == Dimension::Y,
            self == Dimension::Y ==> d == Dimension::Z,
            self == Dimension::Z ==> d == Dimension::X,
    {
        match self {
            Dimension::X => Dimension::Y,
            Dimension::Y => Dimension::Z,
            Dimension::Z => Dimension::X,
        }
    }
}

} // verus!
