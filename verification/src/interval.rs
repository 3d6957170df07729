use vstd::prelude::*;

verus! {

/// A closed interval `[min, max]` of lattice values.
///
/// Any pair of bounds is a value of the type. The interval is empty when
/// `max < min`; `i64::MIN` and `i64::MAX` stand for the two infinities.
#[derive(Clone, Copy, Debug, PartialEq, Eq, Structural)]
pub struct Interval {
    pub min: i64,
    pub max: i64,
}

/// Half of `delta`, rounded towards zero.
pub open spec fn half(delta: int) -> int {
    if delta >= 0 {
        delta / 2
    } else {
        -((-delta) / 2)
    }
}

/// `v` brought into the range of the lattice: what lies beyond an infinity
/// is that infinity.
pub open spec fn saturate(v: int) -> int {
    if v < i64::MIN {
        i64::MIN as int
    } else if v > i64::MAX {
        i64::MAX as int
    } else {
        v
    }
}

fn saturated(v: i128) -> (r: i64)
    ensures
        r == saturate(v as int),
{
    if v < i64::MIN as i128 {
        i64::MIN
    } else if v > i64::MAX as i128 {
        i64::MAX
    } else {
        v as i64
    }
}

impl Interval {
    /// The interval that holds nothing and is neutral for `union`.
    pub open spec fn spec_empty() -> Interval {
        Interval { min: i64::MAX, max: i64::MIN }
    }

    /// The interval that holds every lattice value.
    pub open spec fn spec_universe() -> Interval {
        Interval { min: i64::MIN, max: i64::MAX }
    }

    pub open spec fn is_empty(self) -> bool {
        self.max < self.min
    }

    /// Both bounds are proper lattice values, neither is an infinity.
    pub open spec fn is_finite(self) -> bool {
        i64::MIN < self.min && self.min < i64::MAX && i64::MIN < self.max && self.max < i64::MAX
    }

    pub open spec fn spec_size(self) -> int {
        self.max - self.min
    }

    pub open spec fn spec_contains(&self, x: i64) -> bool {
        self.min <= x && x <= self.max
    }

    pub open spec fn spec_surrounds(&self, x: i64) -> bool {
        self.min < x && x < self.max
    }

    pub open spec fn spec_clamp(&self, x: i64) -> i64 {
        if x < self.min {
            self.min
        } else if x > self.max {
            self.max
        } else {
            x
        }
    }

    /// The least interval that holds both `self` and `other`.
    pub open spec fn union(self, other: Interval) -> Interval {
        Interval {
            min: if self.min <= other.min { self.min } else { other.min },
            max: if self.max >= other.max { self.max } else { other.max },
        }
    }

    /// `self` widened by `half(delta)` at either end, saturating at the
    /// infinities.
    pub open spec fn spec_expand(&self, delta: i64) -> Interval {
        Interval {
            min: saturate(self.min - half(delta as int)) as i64,
            max: saturate(self.max + half(delta as int)) as i64,
        }
    }

    /// Every value of `other` is a value of `self`.
    pub open spec fn encloses(self, other: Interval) -> bool {
        other.is_empty() || (self.min <= other.min && other.max <= self.max)
    }

    pub fn new(min: i64, max: i64) -> (r: Interval)
        ensures
            r == (Interval { min, max }),
    {
        Interval { min, max }
    }

    pub fn empty() -> (r: Interval)
        ensures
            r == Interval::spec_empty(),
    {
        Interval { min: i64::MAX, max: i64::MIN }
    }

    pub fn universe() -> (r: Interval)
        ensures
            r == Interval::spec_universe(),
    {
        Interval { min: i64::MIN, max: i64::MAX }
    }

    /// The union of two intervals.
    pub fn new_interval(a: &Interval, b: &Interval) -> (r: Interval)
        ensures
            r == a.union(*b),
    {
        Interval {
            min: if a.min <= b.min { a.min } else { b.min },
            max: if a.max >= b.max { a.max } else { b.max },
        }
    }

    /// `max - min`, which is negative for an empty interval.
    pub fn size(&self) -> (r: i128)
        ensures
            r == self.spec_size(),
    {
        self.max as i128 - self.min as i128
    }

    /// Whether `min <= x <= max`.
    #[verifier::when_used_as_spec(spec_contains)]
    pub fn contains(&self, x: i64) -> (r: bool)
        ensures
            r == self.spec_contains(x),
    {
        self.min <= x && x <= self.max
    }

    /// Whether `min < x < max`.
    #[verifier::when_used_as_spec(spec_surrounds)]
    pub fn surrounds(&self, x: i64) -> (r: bool)
        ensures
            r == self.spec_surrounds(x),
    {
        self.min < x && x < self.max
    }

    /// The value of the interval nearest to `x`.
    #[verifier::when_used_as_spec(spec_clamp)]
    pub fn clamp(&self, x: i64) -> (r: i64)
        ensures
            r == self.spec_clamp(x),
    {
        if x < self.min {
            return self.min;
        }
        if x > self.max {
            return self.max;
        }
        x
    }

    /// Widens the interval by `delta` in all, half of it at either end.
    #[verifier::when_used_as_spec(spec_expand)]
    pub fn expand(&self, delta: i64) -> (r: Interval)
        ensures
            r == self.spec_expand(delta),
    {
        let wide: i128 = delta as i128;
        let padding: i128 = if wide >= 0 {
            wide / 2
        } else {
            -((-wide) / 2)
        };
        Interval::new(
            saturated(self.min as i128 - padding),
            saturated(self.max as i128 + padding),
        )
    }
}

impl Default for Interval {
    fn default() -> (r: Interval)
        ensures
            r == Interval::spec_empty(),
    {
        Interval { min: i64::MAX, max: i64::MIN }
    }
}

/// Union does not depend on the order of its arguments.
pub proof fn lemma_interval_union_commutative(a: Interval, b: Interval)
    ensures
        a.union(b) == b.union(a),
{
}

/// Union may be grouped either way.
pub proof fn lemma_interval_union_associative(a: Interval, b: Interval, c: Interval)
    ensures
        a.union(b).union(c) == a.union(b.union(c)),
{
}

/// The empty interval is neutral for union.
pub proof fn lemma_interval_union_empty(a: Interval)
    ensures
        Interval::spec_empty().union(a) == a,
        a.union(Interval::spec_empty()) == a,
{
}

/// A value lies in the union exactly when it lies between the least lower
/// and the greatest upper bound; in particular the union holds both parts.
pub proof fn lemma_interval_union_encloses(a: Interval, b: Interval)
    ensures
        a.union(b).encloses(a),
        a.union(b).encloses(b),
{
}

} // verus!
