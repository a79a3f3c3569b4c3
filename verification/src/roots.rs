//! Whole square roots.

use vstd::prelude::*;

verus! {

/// The largest number whose square is not above `n`.
pub open spec fn floor_sqrt(n: nat) -> nat
    decreases n,
{
    if n == 0 {
        0
    } else {
        let r = floor_sqrt((n - 1) as nat);
        if (r + 1) * (r + 1) <= n {
            r + 1
        } else {
            r
        }
    }
}

/// The smallest number whose square is not below `n`.
pub open spec fn ceil_sqrt(n: nat) -> nat {
    let r = floor_sqrt(n);
    if r * r == n {
        r
    } else {
        r + 1
    }
}

/// The whole square root lies where it says.
pub proof fn floor_sqrt_bounds(n: nat)
    ensures
        floor_sqrt(n) * floor_sqrt(n) <= n < (floor_sqrt(n) + 1) * (floor_sqrt(n) + 1),
    decreases n,
{
    let s = floor_sqrt(n);
    if n > 0 {
        floor_sqrt_bounds((n - 1) as nat);
        let r = floor_sqrt((n - 1) as nat);
        assert(((r + 1) + 1) * ((r + 1) + 1) >= (r + 1) * (r + 1) + 1) by (nonlinear_arith);
        assert(s == r || s == r + 1);
    } else {
        assert(s * s == 0 && (s + 1) * (s + 1) == 1) by (nonlinear_arith)
            requires
                s == 0,
        ;
    }
}

/// No other number lies there.
pub proof fn floor_sqrt_unique(n: nat, r: nat)
    requires
        r * r <= n < (r + 1) * (r + 1),
    ensures
        r == floor_sqrt(n),
{
    floor_sqrt_bounds(n);
    let s = floor_sqrt(n);
    if r < s {
        assert((r + 1) * (r + 1) <= s * s) by (nonlinear_arith)
            requires
                r + 1 <= s,
        ;
    } else if s < r {
        assert((s + 1) * (s + 1) <= r * r) by (nonlinear_arith)
            requires
                s + 1 <= r,
        ;
    }
}

/// The rounded-up square root is the least number whose square is not below `n`, and it is not
/// above `n`.
pub proof fn ceil_sqrt_bounds(n: nat)
    ensures
        ceil_sqrt(n) * ceil_sqrt(n) >= n,
        n > 0 ==> (ceil_sqrt(n) - 1) * (ceil_sqrt(n) - 1) < n,
        n > 0 ==> 0 < ceil_sqrt(n),
        ceil_sqrt(n) <= n,
{
    floor_sqrt_bounds(n);
    let r = floor_sqrt(n);
    if n > 0 {
        assert(r >= 1) by {
            if r == 0 {
                assert((r + 1) * (r + 1) == 1) by (nonlinear_arith)
                    requires
                        r == 0,
                ;
            }
        }
        assert((r - 1) * (r - 1) < r * r) by (nonlinear_arith)
            requires
                r >= 1,
        ;
        assert(r <= r * r) by (nonlinear_arith)
            requires
                r >= 1,
        ;
    }
}

/// Compute the largest number whose square is not above `n`.
pub fn compute_floor_sqrt(n: u64) -> (r: u64)
    ensures
        r == floor_sqrt(n as nat),
        r <= 0xffff_ffff,
        r <= n,
{
    let mut low: u64 = 0;
    let mut high: u64 = 0x1_0000_0000;
    assert(0x1_0000_0000 * 0x1_0000_0000 > n) by (nonlinear_arith)
        requires
            n <= 0xffff_ffff_ffff_ffff,
    ;
    while high - low > 1
        invariant
            low < high <= 0x1_0000_0000,
            low * low <= n < high * high,
        decreases high - low,
    {
        let middle: u64 = low + (high - low) / 2;
        assert(middle * middle <= 0xffff_ffff * 0xffff_ffff) by (nonlinear_arith)
            requires
                0 <= middle <= 0xffff_ffff,
        ;
        if middle * middle <= n {
            low = middle;
        } else {
            high = middle;
        }
    }
    proof {
        floor_sqrt_unique(n as nat, low as nat);
        assert(low <= low * low) by (nonlinear_arith)
            requires
                low >= 0,
        ;
    }
    low
}

/// Compute the smallest number whose square is not below `n`.
pub fn compute_ceil_sqrt(n: u64) -> (r: u64)
    ensures
        r == ceil_sqrt(n as nat),
        r <= n,
{
    let r: u64 = compute_floor_sqrt(n);
    proof {
        floor_sqrt_bounds(n as nat);
        ceil_sqrt_bounds(n as nat);
    }
    if r * r == n {
        r
    } else {
        r + 1
    }
}

} // verus!
