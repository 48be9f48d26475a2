//! A small pseudo-random number generator.
use vstd::prelude::*;

verus! {

/// Marsaglia's xorshift generator with 128 bits of state.
#[derive(Clone, Copy, Debug, PartialEq, Eq, Structural)]
pub struct Xorshift {
    pub x: u32,
    pub y: u32,
    pub z: u32,
    pub w: u32,
}

impl Xorshift {
    /// The state that every generator starts from.
    pub open spec fn seed() -> Xorshift {
        Xorshift { x: 123456789, y: 362436069, z: 521288629, w: 88675123 }
    }

    /// The state after one draw. The number drawn is its `w`.
    pub open spec fn step(self) -> Xorshift {
        let t = self.x ^ (self.x << 11);
        Xorshift { x: self.y, y: self.z, z: self.w, w: self.w ^ (self.w >> 19) ^ (t ^ (t >> 8)) }
    }

    /// A generator in its first state.
    pub fn new() -> (r: Xorshift)
        ensures
            r == Xorshift::seed(),
    {
        Xorshift { x: 123456789, y: 362436069, z: 521288629, w: 88675123 }
    }

    /// Draws the next number.
    pub fn next(&mut self) -> (r: u32)
        ensures
            *final(self) == old(self).step(),
            r == old(self).step().w,
    {
        let t = self.x ^ (self.x << 11);
        self.x = self.y;
        self.y = self.z;
        self.z = self.w;
        self.w = self.w ^ (self.w >> 19) ^ (t ^ (t >> 8));
        self.w
    }
}

/// Two.
pub fn return_two() -> (r: isize)
    ensures
        r == 2,
{
    2
}

} // verus!
