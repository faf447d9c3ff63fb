//! Integer square roots.

use vstd::prelude::*;

verus! {

/// Whether `s` is the square root of `n` rounded down.
pub open spec fn is_floor_sqrt(s: int, n: int) -> bool {
    0 <= s && s * s <= n < (s + 1) * (s + 1)
}

/// The square root of a non-negative `n`, rounded down.
pub open spec fn floor_sqrt(n: int) -> int {
    choose|s: int| is_floor_sqrt(s, n)
}

/// Squaring preserves strict order on the non-negative integers.
pub proof fn lemma_square_strictly_increases(s: int, t: int)
    by (nonlinear_arith)
    requires
        0 <= s < t,
    ensures
        s * s < t * t,
        (s + 1) * (s + 1) <= t * t,
{
}

/// At most one number is the rounded-down square root of `n`.
pub proof fn lemma_floor_sqrt_unique(n: int, s: int, t: int)
    requires
        is_floor_sqrt(s, n),
        is_floor_sqrt(t, n),
    ensures
        s == t,
{
    if s < t {
        lemma_square_strictly_increases(s, t);
    } else if t < s {
        lemma_square_strictly_increases(t, s);
    }
}

/// Every non-negative number has a rounded-down square root, and
/// `floor_sqrt` is it.
pub proof fn lemma_floor_sqrt(n: int)
    requires
        0 <= n,
    ensures
        is_floor_sqrt(floor_sqrt(n), n),
    decreases n,
{
    if n == 0 {
        assert(is_floor_sqrt(0, n));
    } else {
        lemma_floor_sqrt(n - 1);
        let s: int = floor_sqrt(n - 1);
        assert((s + 2) * (s + 2) > (s + 1) * (s + 1)) by (nonlinear_arith)
            requires
                0 <= s,
        ;
        if (s + 1) * (s + 1) <= n {
            assert(is_floor_sqrt(s + 1, n));
        } else {
            assert(is_floor_sqrt(s, n));
        }
    }
}

/// Any number that passes the test is the value of `floor_sqrt`.
pub proof fn lemma_floor_sqrt_is(n: int, s: int)
    requires
        is_floor_sqrt(s, n),
    ensures
        floor_sqrt(n) == s,
{
    lemma_floor_sqrt_unique(n, s, floor_sqrt(n));
}

/// Computes the square root of `n`, rounded down.
pub fn isqrt(n: u128) -> (s: u64)
    ensures
        is_floor_sqrt(s as int, n as int),
        s == floor_sqrt(n as int),
{
    let mut lo: u128 = 0;
    let mut hi: u128 = 0x1_0000_0000_0000_0000;
    assert(n < hi * hi) by (nonlinear_arith)
        requires
            hi == 0x1_0000_0000_0000_0000,
            n <= u128::MAX,
    ;
    while hi - lo > 1
        invariant
            lo < hi <= 0x1_0000_0000_0000_0000,
            lo * lo <= n < hi * hi,
        decreases hi - lo,
    {
        let mid: u128 = lo + (hi - lo) / 2;
        assert(mid * mid <= 0xFFFF_FFFF_FFFF_FFFF * 0xFFFF_FFFF_FFFF_FFFF) by (nonlinear_arith)
            requires
                0 <= mid <= 0xFFFF_FFFF_FFFF_FFFF,
        ;
        if mid * mid <= n {
            lo = mid;
        } else {
            hi = mid;
        }
    }
    proof {
        lemma_floor_sqrt_is(n as int, lo as int);
    }
    lo as u64
}

} // verus!
