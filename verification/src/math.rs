use vstd::prelude::*;

verus! {

/// `v` clamped into `[lo, hi]`: the nearest point of the interval.
pub open spec fn clamp_spec(v: int, lo: int, hi: int) -> int {
    if v < lo {
        lo
    } else if v > hi {
        hi
    } else {
        v
    }
}

pub fn clamp_i64(v: i64, lo: i64, hi: i64) -> (r: i64)
    requires
        lo <= hi,
    ensures
        r == clamp_spec(v as int, lo as int, hi as int),
{
    if v < lo {
        lo
    } else if v > hi {
        hi
    } else {
        v
    }
}

/// `a * f / 1000`, the quotient truncated toward zero, as Rust's integer
/// division would produce it on operands of either sign.
pub open spec fn milli_scale(a: int, f: int) -> int
    recommends
        f >= 0,
{
    if a >= 0 {
        (a * f) / 1000
    } else {
        -((-a * f) / 1000)
    }
}

/// Scales `a` by the factor `f / 1000`, truncating toward zero.  Used for
/// velocity-times-time steps (`f` a duration in milliseconds) and for
/// per-mill speed factors.
pub fn scale_by_milli(a: i64, f: i64) -> (r: i64)
    requires
        -1_000_000_000 <= a <= 1_000_000_000,
        0 <= f <= 1_000_000,
    ensures
        r == milli_scale(a as int, f as int),
{
    proof {
        assert(forall|u: int, w: int|
            0 <= u <= 1_000_000_000 && 0 <= w <= 1_000_000 ==> 0 <= #[trigger] (u * w)
                <= 1_000_000_000_000_000) by (nonlinear_arith);
    }
    if a >= 0 {
        let p: u64 = (a as u64) * (f as u64);
        (p / 1000) as i64
    } else {
        let p: u64 = ((-a) as u64) * (f as u64);
        -((p / 1000) as i64)
    }
}

/// The magnitude of a milli-scaling is bounded by the scaled magnitude bound:
/// if `|a| <= m` then `|milli_scale(a, f)| <= m * f / 1000`.
pub proof fn lemma_milli_scale_bound(a: int, f: int, m: int)
    requires
        0 <= f,
        0 <= m,
        -m <= a <= m,
    ensures
        -((m * f) / 1000) <= milli_scale(a, f) <= (m * f) / 1000,
{
    assert(-((m * f) / 1000) <= milli_scale(a, f) <= (m * f) / 1000) by (nonlinear_arith)
        requires
            0 <= f,
            0 <= m,
            -m <= a <= m,
    ;
}

/// Absolute value.
pub open spec fn abs_spec(a: int) -> int {
    if a < 0 {
        -a
    } else {
        a
    }
}

pub fn abs_i64(a: i64) -> (r: i64)
    requires
        a > i64::MIN,
    ensures
        r == abs_spec(a as int),
{
    if a < 0 {
        -a
    } else {
        a
    }
}

/// `r` is the integer square root of `n`.
pub open spec fn is_isqrt(n: int, r: int) -> bool {
    r >= 0 && r * r <= n && n < (r + 1) * (r + 1)
}

/// The integer square root of a nonnegative `n`.
pub open spec fn isqrt_spec(n: int) -> int {
    choose|r: int| #[trigger] is_isqrt(n, r)
}

/// Every nonnegative integer has an integer square root.
pub proof fn lemma_isqrt_exists(n: nat)
    ensures
        exists|r: int| #[trigger] is_isqrt(n as int, r),
    decreases n,
{
    if n == 0 {
        assert(is_isqrt(0, 0));
    } else {
        lemma_isqrt_exists((n - 1) as nat);
        let r = choose|r: int| #[trigger] is_isqrt(n as int - 1, r);
        if n < (r + 1) * (r + 1) {
            assert(is_isqrt(n as int, r));
        } else {
            assert((r + 1) * (r + 1) <= n);
            assert(n < (r + 2) * (r + 2)) by (nonlinear_arith)
                requires
                    r >= 0,
                    n as int - 1 < (r + 1) * (r + 1),
            ;
            assert(is_isqrt(n as int, r + 1));
        }
    }
}

/// The integer square root is unique.
pub proof fn lemma_isqrt_unique(n: int, r1: int, r2: int)
    requires
        is_isqrt(n, r1),
        is_isqrt(n, r2),
    ensures
        r1 == r2,
{
    assert(r1 == r2) by (nonlinear_arith)
        requires
            r1 >= 0 && r1 * r1 <= n && n < (r1 + 1) * (r1 + 1),
            r2 >= 0 && r2 * r2 <= n && n < (r2 + 1) * (r2 + 1),
    ;
}

/// Largest `r` with `r * r <= n`, by binary search.
pub fn isqrt64(n: i64) -> (r: i64)
    requires
        n >= 0,
    ensures
        is_isqrt(n as int, r as int),
        r == isqrt_spec(n as int),
        0 <= r <= 3_037_000_500,
{
    let nn: u64 = n as u64;
    let mut lo: u64 = 0;
    let mut hi: u64 = 3_037_000_500;
    proof {
        assert((3_037_000_501u64 as int) * (3_037_000_501u64 as int) > i64::MAX as int)
            by (nonlinear_arith);
    }
    while lo < hi
        invariant
            lo <= hi <= 3_037_000_500,
            lo * lo <= nn,
            (nn as int) < (hi + 1) * (hi + 1),
            nn == n,
            n >= 0,
        decreases hi - lo,
    {
        let mid: u64 = lo + (hi - lo + 1) / 2;
        proof {
            assert(mid * mid <= 3_037_000_501u64 * 3_037_000_501u64) by (nonlinear_arith)
                requires
                    0 <= mid <= 3_037_000_501u64,
            ;
        }
        if mid * mid <= nn {
            lo = mid;
        } else {
            hi = mid - 1;
        }
    }
    proof {
        lemma_isqrt_exists(n as nat);
        let w = choose|w: int| #[trigger] is_isqrt(n as int, w);
        lemma_isqrt_unique(n as int, lo as int, w);
    }
    lo as i64
}

} // verus!
