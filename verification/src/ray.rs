use crate::vec3::Vec3;
use vstd::prelude::*;

verus! {

/// The greatest magnitude of a coordinate of a ray that the exact tests
/// take: `2^62`.
pub const REACH: i64 = 0x4000_0000_0000_0000;

/// A ray on the lattice: the points `origin + t * direction`, and the time
/// at which the ray is cast.
#[derive(Clone, Copy, Debug, PartialEq, Eq, Structural)]
pub struct Ray {
    pub origin: Vec3,
    pub direction: Vec3,
    pub tm: i64,
}

/// `v` is at most `REACH` in magnitude.
pub open spec fn within_reach(v: i64) -> bool {
    -REACH <= v && v <= REACH
}

impl Ray {
    /// Origin and direction are within `REACH` in every coordinate.
    pub open spec fn in_reach(self) -> bool {
        &&& within_reach(self.origin.x) && within_reach(self.origin.y) && within_reach(
            self.origin.z,
        )
        &&& within_reach(self.direction.x) && within_reach(self.direction.y) && within_reach(
            self.direction.z,
        )
    }

    /// The coordinate along one axis of the point at parameter `t`.
    pub open spec fn coordinate_at(origin: i64, direction: i64, t: i64) -> int {
        origin + t * direction
    }

    /// The point at parameter `t` is a point of the lattice.
    pub open spec fn reaches(self, t: i64) -> bool {
        &&& i64::MIN <= Ray::coordinate_at(self.origin.x, self.direction.x, t) <= i64::MAX
        &&& i64::MIN <= Ray::coordinate_at(self.origin.y, self.direction.y, t) <= i64::MAX
        &&& i64::MIN <= Ray::coordinate_at(self.origin.z, self.direction.z, t) <= i64::MAX
    }

    /// The point at parameter `t`.
    pub open spec fn spec_at(&self, t: i64) -> Vec3 {
        Vec3 {
            x: Ray::coordinate_at(self.origin.x, self.direction.x, t) as i64,
            y: Ray::coordinate_at(self.origin.y, self.direction.y, t) as i64,
            z: Ray::coordinate_at(self.origin.z, self.direction.z, t) as i64,
        }
    }

    /// The ray that is cast at time 0.
    pub fn new(origin: Vec3, direction: Vec3) -> (r: Ray)
        ensures
            r == (Ray { origin, direction, tm: 0 }),
    {
        Ray { origin, direction, tm: 0 }
    }

    pub fn new_time(origin: Vec3, direction: Vec3, tm: i64) -> (r: Ray)
        ensures
            r == (Ray { origin, direction, tm }),
    {
        Ray { origin, direction, tm }
    }

    /// The point at parameter `t`, which must be a point of the lattice.
    #[verifier::when_used_as_spec(spec_at)]
    pub fn at(&self, t: i64) -> (p: Vec3)
        requires
            self.reaches(t),
        ensures
            p == self.spec_at(t),
    {
        Vec3 {
            x: along(self.origin.x, self.direction.x, t),
            y: along(self.origin.y, self.direction.y, t),
            z: along(self.origin.z, self.direction.z, t),
        }
    }
}

fn along(origin: i64, direction: i64, t: i64) -> (c: i64)
    requires
        i64::MIN <= Ray::coordinate_at(origin, direction, t) <= i64::MAX,
    ensures
        c == Ray::coordinate_at(origin, direction, t),
{
    assert(-0x4000_0000_0000_0000_0000_0000_0000_0000 <= t * direction
        <= 0x4000_0000_0000_0000_0000_0000_0000_0000) by (nonlinear_arith)
        requires
            -0x8000_0000_0000_0000 <= t <= 0x8000_0000_0000_0000,
            -0x8000_0000_0000_0000 <= direction <= 0x8000_0000_0000_0000,
    ;
    let step: i128 = t as i128 * direction as i128;
    (origin as i128 + step) as i64
}

} // verus!
