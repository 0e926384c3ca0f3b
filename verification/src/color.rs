//! Colors with an alpha channel.
use vstd::prelude::*;

verus! {

/// A color with red, green, blue and alpha components.
#[derive(Clone, Copy)]
pub struct Color4<T> {
    pub r: T,
    pub g: T,
    pub b: T,
    pub a: T,
}

impl<T: Copy> Color4<T> {
    /// The color with the given components.
    pub fn new(r: T, g: T, b: T, a: T) -> (c: Color4<T>)
        ensures
            c.r == r,
            c.g == g,
            c.b == b,
            c.a == a,
    {
        Color4 { r, g, b, a }
    }
}

} // verus!
