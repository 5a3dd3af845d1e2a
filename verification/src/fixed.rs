//! Fixed-point scalars.
//!
//! Every scalar of this crate (a length, a speed, an angle in radians, a
//! duration in seconds) is an integer count of millionths. A product of two
//! scalars is brought back to millionths by a division that rounds toward
//! zero, so that negating an operand negates the result.

use vstd::prelude::*;

verus! {

/// The number of raw units in one whole unit.
pub const SCALE: i64 = 1_000_000;

/// Quotient of `a` by a positive `b`, rounded toward zero.
pub open spec fn trunc_div(a: int, b: int) -> int {
    if a >= 0 {
        a / b
    } else {
        -((-a) / b)
    }
}

/// Quotient of `a` by a non-zero `b`, rounded toward zero.
pub open spec fn quot(a: int, b: int) -> int {
    if b > 0 {
        trunc_div(a, b)
    } else {
        -trunc_div(a, -b)
    }
}

/// Fixed-point product of two scalars.
pub open spec fn scaled(a: int, b: int) -> int {
    trunc_div(a * b, SCALE as int)
}

/// Absolute value.
pub open spec fn abs(a: int) -> int {
    if a < 0 {
        -a
    } else {
        a
    }
}

/// `v` limited to the interval from `lo` to `hi`.
pub open spec fn clamp(v: int, lo: int, hi: int) -> int {
    if v < lo {
        lo
    } else if v > hi {
        hi
    } else {
        v
    }
}

/// `r` is the integer square root of `n`: the largest integer whose square
/// does not exceed `n`.
pub open spec fn is_sqrt(n: int, r: int) -> bool {
    0 <= r && r * r <= n && n < (r + 1) * (r + 1)
}

/// The integer square root of a non-negative `n`.
pub open spec fn int_sqrt(n: int) -> int {
    choose|r: int| is_sqrt(n, r)
}

/// Integer square root by bisection.
pub fn isqrt(n: u128) -> (r: u128)
    ensures
        is_sqrt(n as int, r as int),
        r == int_sqrt(n as int),
        r < 0x1_0000_0000_0000_0000,
{
    let mut lo: u128 = 0;
    let mut hi: u128 = 0x1_0000_0000_0000_0000;
    assert(lo * lo <= n);
    assert(n < hi * hi) by (nonlinear_arith)
        requires
            hi == 0x1_0000_0000_0000_0000,
            n < 0x1_0000_0000_0000_0000_0000_0000_0000_0000,
    ;
    while hi - lo > 1
        invariant
            lo < hi <= 0x1_0000_0000_0000_0000,
            lo * lo <= n,
            n < hi * hi,
        decreases hi - lo,
    {
        let mid: u128 = lo + (hi - lo) / 2;
        assert(mid * mid < 0x1_0000_0000_0000_0000_0000_0000_0000_0000) by (nonlinear_arith)
            requires
                mid < 0x1_0000_0000_0000_0000,
        ;
        if mid * mid <= n {
            lo = mid;
        } else {
            hi = mid;
        }
    }
    proof {
        assert(hi == lo + 1);
        assert(is_sqrt(n as int, lo as int));
        lemma_sqrt_unique(n as int, lo as int, int_sqrt(n as int));
    }
    lo
}

/// Rounding toward zero commutes with negation.
pub proof fn lemma_trunc_div_neg(a: int, b: int)
    requires
        b > 0,
    ensures
        trunc_div(-a, b) == -trunc_div(a, b),
{
}

/// The quotient rounded toward zero is the unique integer within less than
/// one divisor of the dividend, on the side of zero.
pub proof fn lemma_trunc_div_bounds(a: int, b: int)
    requires
        b > 0,
    ensures
        a >= 0 ==> 0 <= a - trunc_div(a, b) * b < b,
        a <= 0 ==> -b < a - trunc_div(a, b) * b <= 0,
        a >= 0 ==> 0 <= trunc_div(a, b) * b <= a,
        a <= 0 ==> a <= trunc_div(a, b) * b <= 0,
        a >= 0 ==> trunc_div(a, b) >= 0,
        a <= 0 ==> trunc_div(a, b) <= 0,
        abs(trunc_div(a, b)) <= abs(a),
{
    if a >= 0 {
        vstd::arithmetic::div_mod::lemma_fundamental_div_mod(a, b);
        vstd::arithmetic::div_mod::lemma_mod_bound(a, b);
        vstd::arithmetic::div_mod::lemma_div_pos_is_pos(a, b);
        assert(b * (a / b) == (a / b) * b) by (nonlinear_arith);
        assert((a / b) * b >= 0) by (nonlinear_arith)
            requires
                a / b >= 0,
                b > 0,
        ;
        assert((a / b) <= a) by (nonlinear_arith)
            requires
                b >= 1,
                a >= 0,
                (a / b) * b <= a,
                a / b >= 0,
        ;
    } else {
        let m = -a;
        vstd::arithmetic::div_mod::lemma_fundamental_div_mod(m, b);
        vstd::arithmetic::div_mod::lemma_mod_bound(m, b);
        vstd::arithmetic::div_mod::lemma_div_pos_is_pos(m, b);
        assert(b * (m / b) == (m / b) * b) by (nonlinear_arith);
        assert((-(m / b)) * b == -((m / b) * b)) by (nonlinear_arith);
        assert((m / b) * b >= 0) by (nonlinear_arith)
            requires
                m / b >= 0,
                b > 0,
        ;
        assert((m / b) <= m) by (nonlinear_arith)
            requires
                b >= 1,
                m >= 0,
                (m / b) * b <= m,
                m / b >= 0,
        ;
    }
}

/// A dividend of at most `k` divisors has a quotient of at most `k`.
pub proof fn lemma_trunc_div_le(a: int, b: int, k: int)
    requires
        b > 0,
        k >= 0,
        -(k * b) <= a <= k * b,
    ensures
        -k <= trunc_div(a, b) <= k,
{
    lemma_trunc_div_bounds(a, b);
    let t = trunc_div(a, b);
    if t > k {
        assert(t * b >= (k + 1) * b) by (nonlinear_arith)
            requires
                t >= k + 1,
                b > 0,
        ;
        assert((k + 1) * b == k * b + b) by (nonlinear_arith);
    }
    if t < -k {
        assert(t * b <= (-k - 1) * b) by (nonlinear_arith)
            requires
                t <= -k - 1,
                b > 0,
        ;
        assert((-k - 1) * b == -(k * b) - b) by (nonlinear_arith);
    }
}

/// A product is bounded by the product of its factors' bounds.
pub proof fn lemma_mul_bound(a: int, b: int, ma: int, mb: int)
    by (nonlinear_arith)
    requires
        -ma <= a <= ma,
        -mb <= b <= mb,
    ensures
        -(ma * mb) <= a * b <= ma * mb,
{
}

/// At most one integer is the integer square root of `n`.
pub proof fn lemma_sqrt_unique(n: int, r: int, s: int)
    requires
        is_sqrt(n, r),
        is_sqrt(n, s),
    ensures
        r == s,
{
    if r < s {
        assert((r + 1) * (r + 1) <= s * s) by (nonlinear_arith)
            requires
                0 <= r,
                r + 1 <= s,
        ;
    } else if s < r {
        assert((s + 1) * (s + 1) <= r * r) by (nonlinear_arith)
            requires
                0 <= s,
                s + 1 <= r,
        ;
    }
}

/// Every non-negative integer has an integer square root.
pub proof fn lemma_sqrt_exists(n: int)
    requires
        n >= 0,
    ensures
        is_sqrt(n, int_sqrt(n)),
    decreases n,
{
    if n == 0 {
        assert(is_sqrt(0, 0));
    } else {
        lemma_sqrt_exists(n - 1);
        let r = int_sqrt(n - 1);
        if n < (r + 1) * (r + 1) {
            assert(is_sqrt(n, r));
        } else {
            assert((r + 2) * (r + 2) > (r + 1) * (r + 1)) by (nonlinear_arith)
                requires
                    r >= 0,
            ;
            assert(is_sqrt(n, r + 1));
        }
    }
}

} // verus!
