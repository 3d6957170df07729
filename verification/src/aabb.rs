use crate::interval::Interval;
use crate::ray::{within_reach, Ray};
use crate::vec3::Vec3;
use vstd::prelude::*;

verus! {

/// The least extent that a constructed box has along any axis. The lattice
/// unit is half of it, so that a flat box is padded by one unit on each side.
pub const MIN_THICKNESS: i64 = 2;

/// An axis-aligned bounding box: one interval for each axis.
#[derive(Clone, Copy, Debug, PartialEq, Eq, Structural)]
pub struct AABB {
    pub x: Interval,
    pub y: Interval,
    pub z: Interval,
}

/// Along one axis, the point of the ray at parameter `p / q` lies strictly
/// between the bounds of `iv`. The point is `origin + (p / q) * direction`;
/// the condition is cleared of the fraction, so `q` must be positive.
pub open spec fn inside_axis(iv: Interval, origin: i64, direction: i64, p: int, q: int) -> bool {
    iv.min * q < origin * q + p * direction && origin * q + p * direction < iv.max * q
}

/// The fraction `n / d` is less than `p / q`, for positive `d` and `q`.
spec fn above(n: int, d: int, p: int, q: int) -> bool {
    n * q < p * d
}

/// The fraction `n / d` is greater than `p / q`, for positive `d` and `q`.
spec fn below(n: int, d: int, p: int, q: int) -> bool {
    p * d < n * q
}

/// A bound of the range of parameters that is left: a fraction whose
/// products with another of its kind stay within 128 bits.
spec fn is_bound(n: i128, d: i128) -> bool {
    0 < d <= 0x4000_0000_0000_0000 && -0x1_0000_0000_0000_0000 <= n <= 0x1_0000_0000_0000_0000
}

/// The product of the numerator of one bound and the denominator of another
/// stays within 128 bits.
proof fn lemma_product_fits(n: int, d: int)
    by (nonlinear_arith)
    requires
        -0x1_0000_0000_0000_0000 <= n <= 0x1_0000_0000_0000_0000,
        0 < d <= 0x4000_0000_0000_0000,
    ensures
        -0x4000_0000_0000_0000_0000_0000_0000_0000 <= n * d
            <= 0x4000_0000_0000_0000_0000_0000_0000_0000,
{
}

/// Along an axis on which the ray advances, the ray is inside the interval
/// between the fractions at which it enters and leaves.
proof fn lemma_axis_forward(iv: Interval, origin: i64, direction: i64, p: int, q: int)
    by (nonlinear_arith)
    requires
        direction > 0,
    ensures
        inside_axis(iv, origin, direction, p, q) <==> above(iv.min - origin, direction as int, p, q)
            && below(iv.max - origin, direction as int, p, q),
{
}

/// Along an axis on which the ray goes back, it enters at the upper bound.
proof fn lemma_axis_backward(iv: Interval, origin: i64, direction: i64, p: int, q: int)
    by (nonlinear_arith)
    requires
        direction < 0,
    ensures
        inside_axis(iv, origin, direction, p, q) <==> above(origin - iv.max, -direction, p, q)
            && below(origin - iv.min, -direction, p, q),
{
}

/// Along an axis on which the ray does not move, it is inside the interval
/// at every parameter or at none.
proof fn lemma_axis_still(iv: Interval, origin: i64, p: int, q: int)
    by (nonlinear_arith)
    requires
        q > 0,
    ensures
        inside_axis(iv, origin, 0, p, q) <==> iv.min < origin && origin < iv.max,
{
}

/// What is above the greater of two fractions is above the lesser.
proof fn lemma_above_lesser(n1: int, d1: int, n2: int, d2: int, p: int, q: int)
    by (nonlinear_arith)
    requires
        d1 > 0,
        d2 > 0,
        q > 0,
        n1 * d2 <= n2 * d1,
        above(n2, d2, p, q),
    ensures
        above(n1, d1, p, q),
{
    assert(n1 * d2 * q <= n2 * d1 * q);
    assert(n2 * q * d1 < p * d2 * d1);
    assert((n1 * q) * d2 < (p * d1) * d2);
}

/// What is below the lesser of two fractions is below the greater.
proof fn lemma_below_greater(n1: int, d1: int, n2: int, d2: int, p: int, q: int)
    by (nonlinear_arith)
    requires
        d1 > 0,
        d2 > 0,
        q > 0,
        n1 * d2 <= n2 * d1,
        below(n1, d1, p, q),
    ensures
        below(n2, d2, p, q),
{
    assert(n1 * d2 * q <= n2 * d1 * q);
    assert(p * d1 * d2 < n1 * q * d2);
    assert((p * d2) * d1 < (n2 * q) * d1);
}

/// A fraction with something above it and below another is less than the
/// other.
proof fn lemma_between_orders(n1: int, d1: int, n2: int, d2: int, p: int, q: int)
    by (nonlinear_arith)
    requires
        d1 > 0,
        d2 > 0,
        q > 0,
        above(n1, d1, p, q),
        below(n2, d2, p, q),
    ensures
        n1 * d2 < n2 * d1,
{
    assert(n1 * q * d2 < p * d1 * d2);
    assert(p * d2 * d1 < n2 * q * d1);
    assert((n1 * d2) * q < (n2 * d1) * q);
}

/// Between two fractions of which the first is the lesser lies their mean.
proof fn lemma_mean_between(n1: int, d1: int, n2: int, d2: int)
    by (nonlinear_arith)
    requires
        d1 > 0,
        d2 > 0,
        n1 * d2 < n2 * d1,
    ensures
        2 * d1 * d2 > 0,
        above(n1, d1, n1 * d2 + n2 * d1, 2 * d1 * d2),
        below(n2, d2, n1 * d2 + n2 * d1, 2 * d1 * d2),
{
    assert((n1 * d2) * d1 < (n2 * d1) * d1);
    assert((n1 * d2) * d2 < (n2 * d1) * d2);
}

/// The parameter `p / q` lies strictly between the fractions `lo` and `hi`.
spec fn feasible(lo: (i128, i128), hi: (i128, i128), p: int, q: int) -> bool {
    above(lo.0 as int, lo.1 as int, p, q) && below(hi.0 as int, hi.1 as int, p, q)
}

/// The greater of the lower bound `lo` and the fraction `enter / den`.
spec fn raised(lo: (i128, i128), enter: i128, den: i128) -> (i128, i128) {
    if enter * lo.1 > lo.0 * den {
        (enter, den)
    } else {
        lo
    }
}

/// The lesser of the upper bound `hi` and the fraction `leave / den`.
spec fn lowered(hi: (i128, i128), leave: i128, den: i128) -> (i128, i128) {
    if leave * hi.1 < hi.0 * den {
        (leave, den)
    } else {
        hi
    }
}

/// A parameter lies between the raised and the lowered bound exactly when
/// it lies between the old bounds and between the two fractions.
proof fn lemma_narrowed(
    lo: (i128, i128),
    hi: (i128, i128),
    enter: i128,
    leave: i128,
    den: i128,
    p: int,
    q: int,
)
    requires
        q > 0,
        lo.1 > 0,
        hi.1 > 0,
        den > 0,
    ensures
        feasible(raised(lo, enter, den), lowered(hi, leave, den), p, q) <==> feasible(lo, hi, p, q)
            && above(enter as int, den as int, p, q) && below(leave as int, den as int, p, q),
{
    if enter * lo.1 > lo.0 * den {
        if above(enter as int, den as int, p, q) {
            lemma_above_lesser(lo.0 as int, lo.1 as int, enter as int, den as int, p, q);
        }
    } else {
        if above(lo.0 as int, lo.1 as int, p, q) {
            lemma_above_lesser(enter as int, den as int, lo.0 as int, lo.1 as int, p, q);
        }
    }
    if leave * hi.1 < hi.0 * den {
        if below(leave as int, den as int, p, q) {
            lemma_below_greater(leave as int, den as int, hi.0 as int, hi.1 as int, p, q);
        }
    } else {
        if below(hi.0 as int, hi.1 as int, p, q) {
            lemma_below_greater(hi.0 as int, hi.1 as int, leave as int, den as int, p, q);
        }
    }
}

/// One step of the slab test: the range of parameters between `lo` and `hi`
/// is cut down to those at which the ray is inside `iv` along one axis.
/// `None` tells that none is left.
fn narrow(iv: &Interval, origin: i64, direction: i64, lo: (i128, i128), hi: (i128, i128)) -> (out:
    Option<((i128, i128), (i128, i128))>)
    requires
        within_reach(origin),
        within_reach(direction),
        is_bound(lo.0, lo.1),
        is_bound(hi.0, hi.1),
    ensures
        match out {
            Some((lo2, hi2)) => {
                &&& is_bound(lo2.0, lo2.1)
                &&& is_bound(hi2.0, hi2.1)
                &&& lo2.0 * hi2.1 < hi2.0 * lo2.1
                &&& forall|p: int, q: int|
                    q > 0 ==> (#[trigger] feasible(lo2, hi2, p, q) <==> feasible(lo, hi, p, q)
                        && inside_axis(*iv, origin, direction, p, q))
            },
            None => forall|p: int, q: int|
                q > 0 ==> !(#[trigger] feasible(lo, hi, p, q) && inside_axis(
                    *iv,
                    origin,
                    direction,
                    p,
                    q,
                )),
        },
{
    let mut lo2 = lo;
    let mut hi2 = hi;
    if direction == 0 {
        proof {
            assert forall|p: int, q: int| q > 0 implies (inside_axis(*iv, origin, direction, p, q)
                <==> iv.min < origin && origin < iv.max) by {
                lemma_axis_still(*iv, origin, p, q);
            }
        }
        if !(iv.min < origin && origin < iv.max) {
            return None;
        }
    } else {
        let den: i128 = if direction > 0 {
            direction as i128
        } else {
            -(direction as i128)
        };
        let enter: i128 = if direction > 0 {
            iv.min as i128 - origin as i128
        } else {
            origin as i128 - iv.max as i128
        };
        let leave: i128 = if direction > 0 {
            iv.max as i128 - origin as i128
        } else {
            origin as i128 - iv.min as i128
        };
        proof {
            lemma_product_fits(enter as int, lo.1 as int);
            lemma_product_fits(lo.0 as int, den as int);
            lemma_product_fits(leave as int, hi.1 as int);
            lemma_product_fits(hi.0 as int, den as int);
        }
        if enter * lo.1 > lo.0 * den {
            lo2 = (enter, den);
        }
        if leave * hi.1 < hi.0 * den {
            hi2 = (leave, den);
        }
        proof {
            assert(lo2 == raised(lo, enter, den));
            assert(hi2 == lowered(hi, leave, den));
            assert forall|p: int, q: int| q > 0 implies (#[trigger] feasible(lo2, hi2, p, q)
                <==> feasible(lo, hi, p, q) && inside_axis(*iv, origin, direction, p, q)) by {
                lemma_narrowed(lo, hi, enter, leave, den, p, q);
                if direction > 0 {
                    lemma_axis_forward(*iv, origin, direction, p, q);
                } else {
                    lemma_axis_backward(*iv, origin, direction, p, q);
                }
            }
        }
    }
    proof {
        lemma_product_fits(lo2.0 as int, hi2.1 as int);
        lemma_product_fits(hi2.0 as int, lo2.1 as int);
    }
    if hi2.0 * lo2.1 <= lo2.0 * hi2.1 {
        proof {
            assert forall|p: int, q: int| q > 0 implies !(#[trigger] feasible(lo, hi, p, q)
                && inside_axis(*iv, origin, direction, p, q)) by {
                if feasible(lo2, hi2, p, q) {
                    lemma_between_orders(
                        lo2.0 as int,
                        lo2.1 as int,
                        hi2.0 as int,
                        hi2.1 as int,
                        p,
                        q,
                    );
                }
            }
        }
        return None;
    }
    Some((lo2, hi2))
}

/// `iv`, widened by `MIN_THICKNESS` where it is thinner than that.
pub open spec fn padded_interval(iv: Interval) -> Interval {
    if iv.spec_size() < MIN_THICKNESS {
        iv.spec_expand(MIN_THICKNESS)
    } else {
        iv
    }
}

impl AABB {
    /// The box that holds nothing and is neutral for `union`.
    pub open spec fn spec_empty() -> AABB {
        AABB { x: Interval::spec_empty(), y: Interval::spec_empty(), z: Interval::spec_empty() }
    }

    /// The box that holds the whole lattice.
    pub open spec fn spec_universe() -> AABB {
        AABB {
            x: Interval::spec_universe(),
            y: Interval::spec_universe(),
            z: Interval::spec_universe(),
        }
    }

    /// The least box with `a` and `b` among its corners.
    pub open spec fn spanning(a: Vec3, b: Vec3) -> AABB {
        AABB {
            x: Interval {
                min: if a.x <= b.x { a.x } else { b.x },
                max: if a.x >= b.x { a.x } else { b.x },
            },
            y: Interval {
                min: if a.y <= b.y { a.y } else { b.y },
                max: if a.y >= b.y { a.y } else { b.y },
            },
            z: Interval {
                min: if a.z <= b.z { a.z } else { b.z },
                max: if a.z >= b.z { a.z } else { b.z },
            },
        }
    }

    /// The least box that holds both `self` and `other`: the union, axis by
    /// axis.
    pub open spec fn union(self, other: AABB) -> AABB {
        AABB { x: self.x.union(other.x), y: self.y.union(other.y), z: self.z.union(other.z) }
    }

    /// `self` with every axis thinner than `MIN_THICKNESS` padded.
    pub open spec fn padded(self) -> AABB {
        AABB {
            x: padded_interval(self.x),
            y: padded_interval(self.y),
            z: padded_interval(self.z),
        }
    }

    /// The box extends over at least `MIN_THICKNESS` along every axis.
    pub open spec fn is_thick(self) -> bool {
        &&& self.x.spec_size() >= MIN_THICKNESS
        &&& self.y.spec_size() >= MIN_THICKNESS
        &&& self.z.spec_size() >= MIN_THICKNESS
    }

    /// Every point of `other` is a point of `self`.
    pub open spec fn encloses(self, other: AABB) -> bool {
        self.x.encloses(other.x) && self.y.encloses(other.y) && self.z.encloses(other.z)
    }

    /// At parameter `p / q` the ray is within `ray_t` and strictly inside the
    /// box.
    pub open spec fn passes_at(self, r: Ray, ray_t: Interval, p: int, q: int) -> bool {
        &&& q > 0
        &&& ray_t.min * q < p && p < ray_t.max * q
        &&& inside_axis(self.x, r.origin.x, r.direction.x, p, q)
        &&& inside_axis(self.y, r.origin.y, r.direction.y, p, q)
        &&& inside_axis(self.z, r.origin.z, r.direction.z, p, q)
    }

    /// The ray passes through the inside of the box at some parameter
    /// strictly between the bounds of `ray_t`. The parameter need not be
    /// whole: any fraction `p / q` counts.
    pub open spec fn passes_through(self, r: Ray, ray_t: Interval) -> bool {
        exists|p: int, q: int| self.passes_at(r, ray_t, p, q)
    }

    pub open spec fn spec_axis_interval(self, n: u32) -> Interval {
        if n == 1 {
            self.y
        } else if n == 2 {
            self.z
        } else {
            self.x
        }
    }

    /// The axis of greatest extent. `x` is held against `y` first and the
    /// winner against `z`. Where two axes are of one extent, `z` goes before
    /// `x` and `x` before `y`.
    pub open spec fn spec_longest_axis(&self) -> usize {
        if self.x.spec_size() >= self.y.spec_size() {
            if self.x.spec_size() > self.z.spec_size() {
                0
            } else {
                2
            }
        } else if self.y.spec_size() > self.z.spec_size() {
            1
        } else {
            2
        }
    }

    fn pad_to_minimums(&mut self)
        ensures
            *final(self) == old(self).padded(),
    {
        if self.x.size() < MIN_THICKNESS as i128 {
            self.x = self.x.expand(MIN_THICKNESS);
        }
        if self.y.size() < MIN_THICKNESS as i128 {
            self.y = self.y.expand(MIN_THICKNESS);
        }
        if self.z.size() < MIN_THICKNESS as i128 {
            self.z = self.z.expand(MIN_THICKNESS);
        }
    }

    /// The box of three intervals, padded where it is too thin. Three
    /// intervals that are finite and not empty give a thick box.
    pub fn new(x: &Interval, y: &Interval, z: &Interval) -> (r: AABB)
        ensures
            r == (AABB { x: *x, y: *y, z: *z }).padded(),
            x.is_finite() && y.is_finite() && z.is_finite() && !x.is_empty() && !y.is_empty()
                && !z.is_empty() ==> r.is_thick(),
    {
        let mut made = AABB { x: *x, y: *y, z: *z };
        made.pad_to_minimums();
        made
    }

    /// The box spanned by two points, padded where it is too thin. Two
    /// finite points give a thick box, however flat their span is.
    pub fn new_points(a: &Vec3, b: &Vec3) -> (r: AABB)
        ensures
            r == AABB::spanning(*a, *b).padded(),
            a.is_finite() && b.is_finite() ==> r.is_thick(),
            a.is_finite() && b.is_finite() ==> r.encloses(AABB::spanning(*a, *b)),
    {
        let mut made = AABB {
            x: Interval::new(if a.x <= b.x { a.x } else { b.x }, if a.x >= b.x { a.x } else { b.x }),
            y: Interval::new(if a.y <= b.y { a.y } else { b.y }, if a.y >= b.y { a.y } else { b.y }),
            z: Interval::new(if a.z <= b.z { a.z } else { b.z }, if a.z >= b.z { a.z } else { b.z }),
        };
        made.pad_to_minimums();
        made
    }

    /// The union of two boxes. Nothing is padded.
    pub fn new_aabb(box0: &AABB, box1: &AABB) -> (r: AABB)
        ensures
            r == box0.union(*box1),
    {
        AABB {
            x: Interval::new_interval(&box0.x, &box1.x),
            y: Interval::new_interval(&box0.y, &box1.y),
            z: Interval::new_interval(&box0.z, &box1.z),
        }
    }

    pub fn empty() -> (r: AABB)
        ensures
            r == AABB::spec_empty(),
    {
        AABB { x: Interval::empty(), y: Interval::empty(), z: Interval::empty() }
    }

    pub fn universe() -> (r: AABB)
        ensures
            r == AABB::spec_universe(),
    {
        AABB { x: Interval::universe(), y: Interval::universe(), z: Interval::universe() }
    }

    /// The interval of axis `n`: `y` for 1, `z` for 2, `x` for every other
    /// index.
    pub fn axis_interval(&self, n: u32) -> (r: &Interval)
        ensures
            *r == self.spec_axis_interval(n),
    {
        if n == 1 {
            &self.y
        } else if n == 2 {
            &self.z
        } else {
            &self.x
        }
    }

    /// The slab test: whether the ray passes through the inside of the box
    /// at a parameter strictly within `ray_t`. Axis by axis the range of
    /// parameters is cut down to those at which the ray is between the two
    /// planes of the box, and the test ends as soon as nothing is left. On an
    /// axis along which the ray does not move, the ray passes only if it
    /// starts strictly between the planes. The coordinates of the ray must
    /// be within `REACH`.
    pub fn hit(&self, r: &Ray, ray_t: &Interval) -> (passes: bool)
        requires
            r.in_reach(),
        ensures
            passes == self.passes_through(*r, *ray_t),
    {
        let lo0: (i128, i128) = (ray_t.min as i128, 1);
        let hi0: (i128, i128) = (ray_t.max as i128, 1);
        proof {
            assert forall|p: int, q: int| #[trigger]
                feasible(lo0, hi0, p, q) <==> (ray_t.min * q < p && p < ray_t.max * q) by {
                assert(p * 1 == p);
            }
        }
        let (lo1, hi1) = match narrow(&self.x, r.origin.x, r.direction.x, lo0, hi0) {
            Some(left) => left,
            None => {
                proof {
                    assert forall|p: int, q: int| !self.passes_at(*r, *ray_t, p, q) by {
                        assert(q > 0 ==> !(feasible(lo0, hi0, p, q) && inside_axis(
                            self.x,
                            r.origin.x,
                            r.direction.x,
                            p,
                            q,
                        )));
                    }
                }
                return false;
            },
        };
        let (lo2, hi2) = match narrow(&self.y, r.origin.y, r.direction.y, lo1, hi1) {
            Some(left) => left,
            None => {
                proof {
                    assert forall|p: int, q: int| !self.passes_at(*r, *ray_t, p, q) by {
                        assert(q > 0 ==> (feasible(lo1, hi1, p, q) <==> feasible(lo0, hi0, p, q)
                            && inside_axis(self.x, r.origin.x, r.direction.x, p, q)));
                    }
                }
                return false;
            },
        };
        let (lo3, hi3) = match narrow(&self.z, r.origin.z, r.direction.z, lo2, hi2) {
            Some(left) => left,
            None => {
                proof {
                    assert forall|p: int, q: int| !self.passes_at(*r, *ray_t, p, q) by {
                        assert(q > 0 ==> (feasible(lo1, hi1, p, q) <==> feasible(lo0, hi0, p, q)
                            && inside_axis(self.x, r.origin.x, r.direction.x, p, q)));
                        assert(q > 0 ==> (feasible(lo2, hi2, p, q) <==> feasible(lo1, hi1, p, q)
                            && inside_axis(self.y, r.origin.y, r.direction.y, p, q)));
                    }
                }
                return false;
            },
        };
        proof {
            // The mean of the two bounds that are left is a parameter at which the ray is
            // inside the box.
            let p = lo3.0 * hi3.1 + hi3.0 * lo3.1;
            let q = 2 * lo3.1 * hi3.1;
            lemma_mean_between(lo3.0 as int, lo3.1 as int, hi3.0 as int, hi3.1 as int);
            assert(feasible(lo3, hi3, p, q));
            assert(feasible(lo2, hi2, p, q));
            assert(feasible(lo1, hi1, p, q));
            assert(feasible(lo0, hi0, p, q));
            assert(self.passes_at(*r, *ray_t, p, q));
        }
        true
    }

    /// The index of the axis of greatest extent.
    #[verifier::when_used_as_spec(spec_longest_axis)]
    pub fn longest_axis(&self) -> (r: usize)
        ensures
            r == self.spec_longest_axis(),
            r <= 2,
    {
        if self.x.size() >= self.y.size() {
            if self.x.size() > self.z.size() {
                0
            } else {
                2
            }
        } else if self.y.size() > self.z.size() {
            1
        } else {
            2
        }
    }
}

impl Default for AABB {
    fn default() -> (r: AABB)
        ensures
            r == AABB::spec_empty(),
    {
        AABB { x: Interval::empty(), y: Interval::empty(), z: Interval::empty() }
    }
}

/// The union of two boxes does not depend on their order.
pub proof fn lemma_union_commutative(a: AABB, b: AABB)
    ensures
        a.union(b) == b.union(a),
{
}

/// The union of three boxes does not depend on how they are grouped.
pub proof fn lemma_union_associative(a: AABB, b: AABB, c: AABB)
    ensures
        a.union(b).union(c) == a.union(b.union(c)),
{
}

/// The empty box is neutral for union.
pub proof fn lemma_union_empty(a: AABB)
    ensures
        AABB::spec_empty().union(a) == a,
        a.union(AABB::spec_empty()) == a,
{
}

/// A union encloses both of its parts, and whatever encloses both parts
/// encloses the union.
pub proof fn lemma_union_encloses(a: AABB, b: AABB, c: AABB)
    ensures
        a.union(b).encloses(a),
        a.union(b).encloses(b),
        c.encloses(a) && c.encloses(b) && !a.x.is_empty() && !a.y.is_empty() && !a.z.is_empty()
            && !b.x.is_empty() && !b.y.is_empty() && !b.z.is_empty() ==> c.encloses(a.union(b)),
{
}

/// Padding only ever widens: whatever three intervals a box is made of, no
/// padded axis is thinner than it was, and a finite axis that is not empty
/// comes out at least `MIN_THICKNESS` wide.
pub proof fn lemma_padding_widens(iv: Interval)
    ensures
        padded_interval(iv).spec_size() >= iv.spec_size(),
        iv.is_finite() && !iv.is_empty() ==> padded_interval(iv).spec_size() >= MIN_THICKNESS,
        iv.is_finite() && !iv.is_empty() ==> padded_interval(iv).encloses(iv),
{
}

} // verus!
