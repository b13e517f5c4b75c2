//! Fixed-point arithmetic base: every physical quantity in this crate is an
//! `i128` holding micro-units (one millionth of the SI unit), so a velocity of
//! 1.5 m/s is stored as 1_500_000. This module gives the rounding primitives
//! and the integer square root that the physics modules are built on.
use vstd::prelude::*;

verus! {

/// Number of fixed-point units per whole SI unit.
pub const SCALE: i128 = 1_000_000;

/// `SCALE * SCALE`, the divisor that brings a product of two scaled values
/// back to one scaled value.
pub const SCALE_SQ: i128 = 1_000_000_000_000;

/// Magnitude cap on the arguments of the division helpers; generous enough
/// for every product formed in this crate while keeping `-a` representable.
pub const DIV_ARG_LIMIT: i128 = 10_000_000_000_000_000_000_000_000_000_000_000_000;

/// Largest argument `isqrt` accepts.
pub const ISQRT_ARG_LIMIT: i128 = 1_000_000_000_000_000_000_000_000_000_000;

/// Root bound that goes with `ISQRT_ARG_LIMIT`.
pub const ISQRT_ROOT_LIMIT: i128 = 1_000_000_000_000_000;

pub open spec fn spec_iabs(a: int) -> int {
    if a < 0 {
        -a
    } else {
        a
    }
}

/// Absolute value.
pub fn iabs(a: i128) -> (r: i128)
    requires
        -DIV_ARG_LIMIT <= a <= DIV_ARG_LIMIT,
    ensures
        r == spec_iabs(a as int),
        0 <= r <= DIV_ARG_LIMIT,
{
    if a < 0 {
        -a
    } else {
        a
    }
}

pub open spec fn spec_imax(a: int, b: int) -> int {
    if a < b {
        b
    } else {
        a
    }
}

/// Larger of two values.
pub fn imax(a: i128, b: i128) -> (r: i128)
    ensures
        r == spec_imax(a as int, b as int),
{
    if a < b {
        b
    } else {
        a
    }
}

/// Quotient rounded toward zero, the rounding Rust's own `/` performs.
pub open spec fn spec_div_trunc(a: int, b: int) -> int {
    if a >= 0 {
        a / b
    } else {
        -((-a) / b)
    }
}

/// Quotient rounded toward negative infinity.
pub open spec fn spec_div_floor(a: int, b: int) -> int {
    a / b
}

/// Quotient rounded toward positive infinity.
pub open spec fn spec_div_ceil(a: int, b: int) -> int {
    -((-a) / b)
}

/// Division of `a` by `b`, rounded toward zero.
pub fn div_trunc(a: i128, b: i128) -> (q: i128)
    requires
        0 < b,
        -DIV_ARG_LIMIT <= a <= DIV_ARG_LIMIT,
    ensures
        q == spec_div_trunc(a as int, b as int),
        spec_iabs(q as int) <= spec_iabs(a as int),
{
    if a >= 0 {
        proof {
            lemma_div_nonneg_bound(a as int, b as int);
        }
        a / b
    } else {
        proof {
            lemma_div_nonneg_bound(-a as int, b as int);
        }
        -((-a) / b)
    }
}

/// A nonnegative quotient is at most its dividend.
pub proof fn lemma_div_nonneg_bound(n: int, b: int)
    requires
        n >= 0,
        b >= 1,
    ensures
        0 <= n / b <= n,
{
    vstd::arithmetic::div_mod::lemma_fundamental_div_mod(n, b);
    vstd::arithmetic::div_mod::lemma_mod_pos_bound(n, b);
    let q = n / b;
    let r = n % b;
    assert(q >= 0 && q <= n) by (nonlinear_arith)
        requires
            n == b * q + r,
            0 <= r < b,
            b >= 1,
            n >= 0,
    ;
}

/// Rounded-up division of a positive value, written with floor division.
pub proof fn lemma_div_ceil_pos(n: int, b: int)
    requires
        n >= 1,
        b >= 1,
    ensures
        (n + b - 1) / b == -((-n) / b),
        1 <= (n + b - 1) / b <= n,
{
    vstd::arithmetic::div_mod::lemma_fundamental_div_mod(n, b);
    vstd::arithmetic::div_mod::lemma_mod_pos_bound(n, b);
    let q = n / b;
    let r = n % b;
    lemma_div_nonneg_bound(n, b);
    if r == 0 {
        assert(n + b - 1 == q * b + (b - 1)) by (nonlinear_arith)
            requires n == b * q + r, r == 0;
        vstd::arithmetic::div_mod::lemma_fundamental_div_mod_converse(n + b - 1, b, q, b - 1);
        assert(-n == (-q) * b + 0) by (nonlinear_arith)
            requires n == b * q + r, r == 0;
        vstd::arithmetic::div_mod::lemma_fundamental_div_mod_converse(-n, b, -q, 0);
        assert(q >= 1) by (nonlinear_arith)
            requires n == b * q, n >= 1, b >= 1, q >= 0;
    } else {
        assert(n + b - 1 == (q + 1) * b + (r - 1)) by (nonlinear_arith)
            requires n == b * q + r;
        vstd::arithmetic::div_mod::lemma_fundamental_div_mod_converse(n + b - 1, b, q + 1, r - 1);
        assert(-n == (-q - 1) * b + (b - r)) by (nonlinear_arith)
            requires n == b * q + r;
        vstd::arithmetic::div_mod::lemma_fundamental_div_mod_converse(-n, b, -q - 1, b - r);
        assert(q + 1 <= n) by (nonlinear_arith)
            requires n == b * q + r, 1 <= r < b, b >= 1, q >= 0, n >= 1;
    }
}

/// Division of `a` by `b`, rounded toward negative infinity.
pub fn div_floor(a: i128, b: i128) -> (q: i128)
    requires
        0 < b <= DIV_ARG_LIMIT,
        -DIV_ARG_LIMIT <= a <= DIV_ARG_LIMIT,
    ensures
        q == spec_div_floor(a as int, b as int),
        spec_iabs(q as int) <= spec_iabs(a as int),
{
    if a >= 0 {
        proof {
            lemma_div_nonneg_bound(a as int, b as int);
        }
        a / b
    } else {
        let neg: i128 = -a;
        proof {
            lemma_div_ceil_pos(neg as int, b as int);
        }
        let up: i128 = (neg + b - 1) / b;
        -up
    }
}

/// Division of `a` by `b`, rounded toward positive infinity.
pub fn div_ceil(a: i128, b: i128) -> (q: i128)
    requires
        0 < b <= DIV_ARG_LIMIT,
        -DIV_ARG_LIMIT <= a <= DIV_ARG_LIMIT,
    ensures
        q == spec_div_ceil(a as int, b as int),
        spec_iabs(q as int) <= spec_iabs(a as int),
{
    if a > 0 {
        proof {
            lemma_div_ceil_pos(a as int, b as int);
        }
        (a + b - 1) / b
    } else if a == 0 {
        proof {
            lemma_div_nonneg_bound(0, b as int);
        }
        0
    } else {
        proof {
            lemma_div_nonneg_bound(-a as int, b as int);
        }
        -((-a) / b)
    }
}

/// A quotient is bounded by any multiple of the divisor that bounds the
/// dividend.
pub proof fn lemma_div_le(x: int, d: int, q: int)
    requires
        0 <= x,
        1 <= d,
        0 <= q,
        x <= d * q,
    ensures
        x / d <= q,
{
    assert(d * q == q * d) by (nonlinear_arith);
    vstd::arithmetic::div_mod::lemma_div_is_ordered(x, q * d, d);
    vstd::arithmetic::div_mod::lemma_div_by_multiple(q, d);
}

/// A quotient is at least any multiple of the divisor that the dividend
/// reaches.
pub proof fn lemma_div_ge(x: int, d: int, q: int)
    requires
        1 <= d,
        0 <= q,
        d * q <= x,
    ensures
        x / d >= q,
{
    assert(d * q == q * d) by (nonlinear_arith);
    vstd::arithmetic::div_mod::lemma_div_is_ordered(q * d, x, d);
    vstd::arithmetic::div_mod::lemma_div_by_multiple(q, d);
}

/// Magnitude bound for a truncating quotient, from a multiple of the divisor
/// that bounds the dividend's magnitude.
pub proof fn lemma_div_trunc_bound(a: int, d: int, q: int)
    requires
        1 <= d,
        0 <= q,
        spec_iabs(a) <= d * q,
    ensures
        spec_iabs(spec_div_trunc(a, d)) <= q,
{
    if a >= 0 {
        lemma_div_nonneg_bound(a, d);
        lemma_div_le(a, d, q);
    } else {
        lemma_div_nonneg_bound(-a, d);
        lemma_div_le(-a, d, q);
    }
}

/// A dividend at least as large as the divisor gives a quotient of at least
/// one.
pub proof fn lemma_div_ge_one(x: int, d: int)
    requires
        1 <= d <= x,
    ensures
        x / d >= 1,
{
    vstd::arithmetic::div_mod::lemma_div_is_ordered(d, x, d);
    vstd::arithmetic::div_mod::lemma_div_by_multiple(1, d);
    assert(1 * d == d) by (nonlinear_arith);
}

/// A rounded-up quotient is bounded by any multiple of the divisor that
/// bounds the dividend.
pub proof fn lemma_div_ceil_le(p: int, d: int, q: int)
    requires
        0 <= p,
        1 <= d,
        0 <= q,
        p <= d * q,
    ensures
        0 <= spec_div_ceil(p, d) <= q,
{
    if p == 0 {
        lemma_div_nonneg_bound(0, d);
    } else {
        lemma_div_ceil_pos(p, d);
        vstd::arithmetic::div_mod::lemma_div_is_ordered(p + d - 1, d * q + d - 1, d);
        assert(d * q + d - 1 == q * d + (d - 1)) by (nonlinear_arith);
        vstd::arithmetic::div_mod::lemma_fundamental_div_mod_converse(d * q + d - 1, d, q, d - 1);
    }
}

/// The rounded-up quotient of a positive dividend is positive.
pub proof fn lemma_div_ceil_ge_one(p: int, d: int)
    requires
        1 <= p,
        1 <= d,
    ensures
        spec_div_ceil(p, d) >= 1,
{
    lemma_div_ceil_pos(p, d);
}

/// Rounding up never rounds below the exact quotient scaled back: for a
/// nonpositive dividend the rounded-up quotient stays nonpositive.
pub proof fn lemma_div_ceil_nonpos(p: int, d: int)
    requires
        p <= 0,
        1 <= d,
    ensures
        spec_div_ceil(p, d) <= 0,
        p > -d * 1 ==> spec_div_ceil(p, d) == 0,
{
    lemma_div_nonneg_bound(-p, d);
    if p > -d {
        assert(-p < d);
        assert((-p) / d == 0) by {
            vstd::arithmetic::div_mod::lemma_basic_div(-p, d);
        }
    }
}

/// The rounded-up quotient is monotone in the dividend.
pub proof fn lemma_div_ceil_ordered(p1: int, p2: int, d: int)
    requires
        p1 <= p2,
        1 <= d,
    ensures
        spec_div_ceil(p1, d) <= spec_div_ceil(p2, d),
{
    vstd::arithmetic::div_mod::lemma_div_is_ordered(-p2, -p1, d);
}

/// `r` is the integer square root of `n`.
pub open spec fn is_sqrt_of(n: int, r: int) -> bool {
    0 <= r && r * r <= n && n < (r + 1) * (r + 1)
}

/// The integer square root of `n`, as a mathematical value.
pub open spec fn spec_isqrt(n: int) -> int {
    choose|r: int| is_sqrt_of(n, r)
}

pub proof fn lemma_isqrt_exists(n: int)
    requires
        n >= 0,
    ensures
        is_sqrt_of(n, spec_isqrt(n)),
    decreases n,
{
    if n == 0 {
        assert(is_sqrt_of(0, 0));
    } else {
        lemma_isqrt_exists(n - 1);
        let r = spec_isqrt(n - 1);
        if (r + 1) * (r + 1) <= n {
            assert(n - 1 < (r + 1) * (r + 1));
            assert(n == (r + 1) * (r + 1));
            assert((r + 1) * (r + 1) < (r + 2) * (r + 2)) by (nonlinear_arith)
                requires r >= 0;
            assert(is_sqrt_of(n, r + 1));
        } else {
            assert(is_sqrt_of(n, r));
        }
    }
}

pub proof fn lemma_isqrt_unique(n: int, r1: int, r2: int)
    requires
        is_sqrt_of(n, r1),
        is_sqrt_of(n, r2),
    ensures
        r1 == r2,
{
    if r1 < r2 {
        assert((r1 + 1) * (r1 + 1) <= r2 * r2) by (nonlinear_arith)
            requires 0 <= r1, 0 <= r2, r1 + 1 <= r2;
    }
    if r2 < r1 {
        assert((r2 + 1) * (r2 + 1) <= r1 * r1) by (nonlinear_arith)
            requires 0 <= r1, 0 <= r2, r2 + 1 <= r1;
    }
}

/// Integer square root by bisection.
pub fn isqrt(n: i128) -> (r: i128)
    requires
        0 <= n <= ISQRT_ARG_LIMIT,
    ensures
        r == spec_isqrt(n as int),
        is_sqrt_of(n as int, r as int),
        0 <= r <= ISQRT_ROOT_LIMIT,
{
    let mut lo: i128 = 0;
    let mut hi: i128 = 1_000_000_000_000_001;
    proof {
        assert((1_000_000_000_000_001 as int) * (1_000_000_000_000_001 as int)
            > ISQRT_ARG_LIMIT as int) by (nonlinear_arith);
    }
    while lo + 1 < hi
        invariant
            0 <= lo < hi <= 1_000_000_000_000_001,
            lo * lo <= n,
            (n as int) < (hi as int) * (hi as int),
            0 <= n <= ISQRT_ARG_LIMIT,
        decreases hi - lo,
    {
        let mid: i128 = lo + (hi - lo) / 2;
        assert(lo < mid < hi);
        proof {
            assert((mid as int) * (mid as int) <= 2_000_000_000_000_000_000_000_000_000_000int)
                by (nonlinear_arith)
                requires 0 < mid <= 1_000_000_000_000_001int;
        }
        if mid * mid <= n {
            lo = mid;
        } else {
            hi = mid;
        }
    }
    proof {
        assert(is_sqrt_of(n as int, lo as int));
        lemma_isqrt_exists(n as int);
        lemma_isqrt_unique(n as int, spec_isqrt(n as int), lo as int);
    }
    lo
}

} // verus!
