use vstd::prelude::*;

verus! {

/// A point of the lattice, or the difference of two.
#[derive(Clone, Copy, Debug, PartialEq, Eq, Structural)]
pub struct Vec3 {
    pub x: i64,
    pub y: i64,
    pub z: i64,
}

impl Vec3 {
    /// No coordinate is an infinity of the lattice.
    pub open spec fn is_finite(self) -> bool {
        &&& i64::MIN < self.x && self.x < i64::MAX
        &&& i64::MIN < self.y && self.y < i64::MAX
        &&& i64::MIN < self.z && self.z < i64::MAX
    }

    pub open spec fn spec_axis(&self, n: u32) -> i64 {
        if n == 0 {
            self.x
        } else if n == 1 {
            self.y
        } else {
            self.z
        }
    }

    pub fn new(x: i64, y: i64, z: i64) -> (r: Vec3)
        ensures
            r == (Vec3 { x, y, z }),
    {
        Vec3 { x, y, z }
    }

    /// The coordinate along axis `n`: `x` for 0, `y` for 1, `z` for every
    /// other index.
    #[verifier::when_used_as_spec(spec_axis)]
    pub fn axis(&self, n: u32) -> (r: i64)
        ensures
            r == self.spec_axis(n),
    {
        if n == 0 {
            self.x
        } else if n == 1 {
            self.y
        } else {
            self.z
        }
    }
}

} // verus!
