//! Rounded-up integer square roots.

use vstd::prelude::*;

verus! {

/// `s` is the least natural number whose square reaches `n`.
pub open spec fn is_ceil_sqrt(n: int, s: int) -> bool {
    &&& 0 <= s
    &&& n <= s * s
    &&& (s > 0 ==> (s - 1) * (s - 1) < n)
}

/// The square root of `n`, rounded up.
pub open spec fn ceil_sqrt(n: int) -> int {
    choose|s: int| is_ceil_sqrt(n, s)
}

/// Squaring is monotone on the naturals.
pub proof fn lemma_square_monotone(a: int, b: int)
    by (nonlinear_arith)
    requires
        0 <= a <= b,
    ensures
        a * a <= b * b,
{
}

/// Squaring is strictly monotone on the naturals.
pub proof fn lemma_square_strictly_monotone(a: int, b: int)
    by (nonlinear_arith)
    requires
        0 <= a < b,
    ensures
        a * a < b * b,
{
}

/// At most one number is the rounded-up root of `n`, so any witness is
/// `ceil_sqrt(n)`.
pub proof fn lemma_ceil_sqrt_unique(n: int, s: int)
    requires
        is_ceil_sqrt(n, s),
    ensures
        ceil_sqrt(n) == s,
{
    let t = ceil_sqrt(n);
    assert(is_ceil_sqrt(n, t));
    if t < s {
        lemma_square_monotone(t, s - 1);
    } else if s < t {
        lemma_square_monotone(s, t - 1);
    }
}

/// Below any number whose square reaches `n` lies the rounded-up root of `n`.
pub proof fn lemma_least_root_exists(n: int, k: int)
    requires
        0 <= k,
        n <= k * k,
    ensures
        is_ceil_sqrt(n, ceil_sqrt(n)),
    decreases k,
{
    if k > 0 && n <= (k - 1) * (k - 1) {
        lemma_least_root_exists(n, k - 1);
    } else {
        assert(is_ceil_sqrt(n, k));
    }
}

/// A distance that exceeds `r` has a rounded-up root that exceeds `r`.
pub proof fn lemma_root_exceeds(d2: int, r: int)
    requires
        0 <= r,
        r * r < d2,
    ensures
        r < ceil_sqrt(d2),
        is_ceil_sqrt(d2, ceil_sqrt(d2)),
{
    assert(0 <= d2 && d2 * d2 >= d2) by (nonlinear_arith)
        requires
            0 <= r,
            r * r < d2,
    ;
    lemma_least_root_exists(d2, d2);
    let s = ceil_sqrt(d2);
    if s <= r {
        lemma_square_monotone(s, r);
    }
}

/// Computes the rounded-up square root by bisection on the rounded-down one.
pub fn ceil_sqrt_u128(n: u128) -> (s: u128)
    ensures
        s == ceil_sqrt(n as int),
        is_ceil_sqrt(n as int, s as int),
        s <= 0x1_0000_0000_0000_0000,
{
    let mut lo: u128 = 0;
    let mut hi: u128 = 0x1_0000_0000_0000_0000;
    assert(0x1_0000_0000_0000_0000int * 0x1_0000_0000_0000_0000int
        == 0x1_0000_0000_0000_0000_0000_0000_0000_0000int);
    while hi - lo > 1
        invariant
            lo < hi <= 0x1_0000_0000_0000_0000,
            lo * lo <= n < hi * hi,
        decreases hi - lo,
    {
        let mid: u128 = lo + (hi - lo) / 2;
        proof {
            lemma_square_monotone(mid as int, 0xffff_ffff_ffff_ffff);
            assert(0xffff_ffff_ffff_ffffint * 0xffff_ffff_ffff_ffffint
                < 0x1_0000_0000_0000_0000_0000_0000_0000_0000int);
        }
        if mid * mid <= n {
            lo = mid;
        } else {
            hi = mid;
        }
    }
    proof {
        lemma_square_monotone(lo as int, 0xffff_ffff_ffff_ffff);
        assert(0xffff_ffff_ffff_ffffint * 0xffff_ffff_ffff_ffffint
            < 0x1_0000_0000_0000_0000_0000_0000_0000_0000int);
    }
    let s: u128 = if lo * lo == n {
        proof {
            if lo > 0 {
                lemma_square_strictly_monotone(lo - 1, lo as int);
            }
        }
        lo
    } else {
        lo + 1
    };
    proof {
        lemma_ceil_sqrt_unique(n as int, s as int);
    }
    s
}

} // verus!
