//! The positions of terrain blocks, and the keys by which maps find them.
use vstd::prelude::*;

verus! {

/// The integer position of a terrain block in block coordinates.
#[derive(Clone, Copy, Debug, PartialEq, Eq, Structural, Hash)]
pub struct BlockPosition {
    pub x: i32,
    pub y: i32,
    pub z: i32,
}

/// Whether `x` fits in an `i32`.
pub open spec fn fits_i32(x: int) -> bool {
    i32::MIN <= x <= i32::MAX
}

impl BlockPosition {
    /// Creates the block position `(x, y, z)`.
    pub fn new(x: i32, y: i32, z: i32) -> (p: BlockPosition)
        ensures
            p.x == x,
            p.y == y,
            p.z == z,
    {
        BlockPosition { x, y, z }
    }
}

/// The offset that makes an `i32` coordinate non-negative.
pub open spec fn coord_code(c: i32) -> int {
    c + 2147483648
}

/// A number that identifies a position: its three coordinates, made
/// non-negative, as the digits of a number in base `2^32`.
pub open spec fn position_key(p: BlockPosition) -> u128 {
    (coord_code(p.x) * 0x1_0000_0000_0000_0000 + coord_code(p.y) * 0x1_0000_0000 + coord_code(p.z)) as u128
}

/// Different positions have different keys.
pub proof fn position_key_injective(p: BlockPosition, q: BlockPosition)
    ensures
        position_key(p) == position_key(q) ==> p == q,
{
    let (a, b, c) = (coord_code(p.x), coord_code(p.y), coord_code(p.z));
    let (a2, b2, c2) = (coord_code(q.x), coord_code(q.y), coord_code(q.z));
    assert(0 <= a * 0x1_0000_0000_0000_0000 + b * 0x1_0000_0000 + c <= u128::MAX);
    assert(0 <= a2 * 0x1_0000_0000_0000_0000 + b2 * 0x1_0000_0000 + c2 <= u128::MAX);
    if position_key(p) == position_key(q) {
        assert(a * 0x1_0000_0000_0000_0000 + b * 0x1_0000_0000 + c == a2 * 0x1_0000_0000_0000_0000
            + b2 * 0x1_0000_0000 + c2);
        assert(a == a2);
        assert(b == b2);
    }
}

impl BlockPosition {
    /// The key that identifies this position.
    pub fn key(&self) -> (k: u128)
        ensures
            k == position_key(*self),
    {
        let a = (self.x as i64 + 2147483648i64) as u128;
        let b = (self.y as i64 + 2147483648i64) as u128;
        let c = (self.z as i64 + 2147483648i64) as u128;
        a * 0x1_0000_0000_0000_0000u128 + b * 0x1_0000_0000u128 + c
    }
}

} // verus!
