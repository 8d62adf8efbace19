use vstd::prelude::*;

verus! {

/// A signed integer position or offset on the 2D world grid.
#[derive(Debug, Clone, Copy, PartialEq, Eq, Structural)]
pub struct IVec2 {
    pub x: i32,
    pub y: i32,
}

impl IVec2 {
    pub fn new(x: i32, y: i32) -> (r: IVec2)
        ensures
            r.x == x,
            r.y == y,
    {
        IVec2 { x, y }
    }

    pub fn zero() -> (r: IVec2)
        ensures
            r.x == 0,
            r.y == 0,
    {
        IVec2 { x: 0, y: 0 }
    }
}

/// An unsigned integer 2D size or count.
#[derive(Debug, Clone, Copy, PartialEq, Eq, Structural)]
pub struct UVec2 {
    pub x: u32,
    pub y: u32,
}

impl UVec2 {
    pub fn new(x: u32, y: u32) -> (r: UVec2)
        ensures
            r.x == x,
            r.y == y,
    {
        UVec2 { x, y }
    }
}

/// A signed integer 3D position, used for chunk coordinates.
#[derive(Debug, Clone, Copy, PartialEq, Eq, Structural)]
pub struct IVec3 {
    pub x: i32,
    pub y: i32,
    pub z: i32,
}

/// Euclidean remainder of `v` by a positive modulus `n`.
pub fn wrap_i64(v: i64, n: i64) -> (r: i64)
    requires
        n > 0,
    ensures
        r == v % n,
        0 <= r < n,
{
    match v.checked_rem_euclid(n) {
        Some(r) => r,
        None => 0,
    }
}

} // verus!
