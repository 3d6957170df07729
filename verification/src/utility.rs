use rand::Rng;
use vstd::prelude::*;

verus! {

/// One draw of `rand::Rng::gen_range` on the inclusive range `min..=max`,
/// from the generator of the calling thread. The value lies in the range;
/// which value it is differs from call to call. `gen_range` panics on an
/// empty range, so `min <= max` is asked for.
#[verifier::external_body]
fn uniform_in_range(min: i32, max: i32) -> (r: i32)
    requires
        min <= max,
    ensures
        min <= r <= max,
{
    rand::thread_rng().gen_range(min..=max)
}

/// A random integer of `[min, max]`, both ends included.
pub fn random_int_range(min: i32, max: i32) -> (r: i32)
    requires
        min <= max,
    ensures
        min <= r <= max,
{
    uniform_in_range(min, max)
}

/// `r` is the square root of `n`, rounded down.
pub open spec fn is_integer_sqrt(n: int, r: int) -> bool {
    0 <= r && r * r <= n && n < (r + 1) * (r + 1)
}

/// The square root of `n`, rounded down: the roots are counted up from 0,
/// one step wherever the next square is reached.
pub open spec fn sqrt_floor(n: nat) -> nat
    decreases n,
{
    if n == 0 {
        0
    } else {
        let below = sqrt_floor((n - 1) as nat);
        if (below + 1) * (below + 1) <= n {
            below + 1
        } else {
            below
        }
    }
}

/// `sqrt_floor` is the integer square root.
pub proof fn lemma_sqrt_floor(n: nat)
    ensures
        is_integer_sqrt(n as int, sqrt_floor(n) as int),
    decreases n,
{
    if n > 0 {
        lemma_sqrt_floor((n - 1) as nat);
        let below = sqrt_floor((n - 1) as nat) as int;
        assert((below + 2) * (below + 2) > (below + 1) * (below + 1)) by (nonlinear_arith)
            requires
                below >= 0,
        ;
    }
}

/// There is only one integer square root.
pub proof fn lemma_integer_sqrt_unique(n: int, a: int, b: int)
    by (nonlinear_arith)
    requires
        is_integer_sqrt(n, a),
        is_integer_sqrt(n, b),
    ensures
        a == b,
{
}

/// A greater number has no lesser root.
pub proof fn lemma_sqrt_floor_monotonic(a: nat, b: nat)
    ensures
        a <= b ==> sqrt_floor(a) <= sqrt_floor(b),
    decreases b,
{
    if a < b {
        lemma_sqrt_floor_monotonic(a, (b - 1) as nat);
    }
}

/// The square root of `n`, rounded down.
pub fn integer_sqrt(n: u64) -> (r: u64)
    ensures
        r == sqrt_floor(n as nat),
        is_integer_sqrt(n as int, r as int),
        r <= u32::MAX,
{
    let mut low: u64 = 0;
    let mut high: u64 = 0x1_0000_0000;
    while high - low > 1
        invariant
            low < high <= 0x1_0000_0000,
            low * low <= n,
            n < high * high,
        decreases high - low,
    {
        let mid: u64 = low + (high - low) / 2;
        assert(mid * mid <= 0x1_0000_0000 * 0x1_0000_0000) by (nonlinear_arith)
            requires
                mid <= 0x1_0000_0000,
        ;
        if mid as u128 * mid as u128 <= n as u128 {
            low = mid;
        } else {
            high = mid;
        }
    }
    proof {
        lemma_sqrt_floor(n as nat);
        lemma_integer_sqrt_unique(n as int, low as int, sqrt_floor(n as nat) as int);
    }
    low
}

} // verus!
