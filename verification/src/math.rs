//! Exact integer arithmetic helpers for the fixed-point computations: a
//! signed multiply-then-divide with truncation toward zero, and an integer
//! square root.

use vstd::prelude::*;
use vstd::arithmetic::div_mod::{lemma_div_is_ordered, lemma_div_multiples_vanish};
use vstd::arithmetic::mul::lemma_mul_inequality;

verus! {

/// Absolute value of a mathematical integer.
pub open spec fn spec_abs(a: int) -> int {
    if a >= 0 {
        a
    } else {
        -a
    }
}

/// `a * b / d` with the quotient truncated toward zero, for `b >= 0` and
/// `d > 0`: the division acts on the magnitude of the product and the sign
/// of `a` is restored afterwards.
pub open spec fn spec_mul_div(a: int, b: int, d: int) -> int {
    if a >= 0 {
        a * b / d
    } else {
        -((-a) * b / d)
    }
}

/// The magnitude of the truncated quotient is bounded by the quotient of
/// the magnitudes' bound.
pub proof fn lemma_mul_div_bound(a: int, b: int, d: int, m: int)
    requires
        0 <= b,
        0 < d,
        spec_abs(a) * b <= m,
    ensures
        spec_abs(spec_mul_div(a, b, d)) <= m / d,
{
    if a >= 0 {
        lemma_div_is_ordered(a * b, m, d);
        vstd::arithmetic::div_mod::lemma_div_pos_is_pos(a * b, d);
        vstd::arithmetic::mul::lemma_mul_nonnegative(a, b);
    } else {
        lemma_div_is_ordered((-a) * b, m, d);
        vstd::arithmetic::div_mod::lemma_div_pos_is_pos((-a) * b, d);
        vstd::arithmetic::mul::lemma_mul_nonnegative(-a, b);
    }
}

/// Executable signed multiply-then-divide: `a * b / d`, truncated toward
/// zero, computed without overflow through 128-bit intermediates.
pub fn mul_div(a: i64, b: i64, d: i64) -> (r: i64)
    requires
        0 <= b,
        0 < d,
        spec_abs(a as int) * (b as int) / (d as int) <= i64::MAX as int,
    ensures
        r as int == spec_mul_div(a as int, b as int, d as int),
{
    let aa: i128 = if a >= 0 {
        a as i128
    } else {
        -(a as i128)
    };
    proof {
        assert((aa as int) * (b as int) <= 0x8000_0000_0000_0000 * 0x7fff_ffff_ffff_ffff)
            by (nonlinear_arith)
            requires 0 <= aa as int <= 0x8000_0000_0000_0000, 0 <= b as int <= 0x7fff_ffff_ffff_ffff;
        vstd::arithmetic::mul::lemma_mul_nonnegative(aa as int, b as int);
    }
    let prod: i128 = aa * (b as i128);
    let q: i128 = prod / (d as i128);
    proof {
        vstd::arithmetic::div_mod::lemma_div_pos_is_pos(prod as int, d as int);
    }
    if a >= 0 {
        q as i64
    } else {
        (-q) as i64
    }
}

/// Range form of the bound: with `|a| <= am` and `0 <= b <= bm`, both the
/// scaled magnitude used as an overflow bound and the truncated quotient
/// stay within `am * bm / d`.
pub proof fn lemma_mul_div_range(a: int, b: int, d: int, am: int, bm: int)
    requires
        spec_abs(a) <= am,
        0 <= b <= bm,
        0 < d,
        0 <= am,
    ensures
        spec_abs(a) * b / d <= am * bm / d,
        spec_abs(spec_mul_div(a, b, d)) <= am * bm / d,
        0 <= spec_abs(a) * b / d,
{
    assert(spec_abs(a) * b <= am * bm) by (nonlinear_arith)
        requires 0 <= spec_abs(a) <= am, 0 <= b <= bm;
    lemma_div_is_ordered(spec_abs(a) * b, am * bm, d);
    lemma_mul_div_bound(a, b, d, am * bm);
    vstd::arithmetic::mul::lemma_mul_nonnegative(spec_abs(a), b);
    vstd::arithmetic::div_mod::lemma_div_pos_is_pos(spec_abs(a) * b, d);
}

/// `a * b / d` truncated toward zero for a signed `b` as well: the sign of
/// `b` is split off and the magnitude goes through `spec_mul_div`.
pub open spec fn spec_mul_div_ss(a: int, b: int, d: int) -> int {
    if b >= 0 {
        spec_mul_div(a, b, d)
    } else {
        -spec_mul_div(a, -b, d)
    }
}

/// Range bound for the signed-by-signed form.
pub proof fn lemma_mul_div_ss_range(a: int, b: int, d: int, am: int, bm: int)
    requires
        spec_abs(a) <= am,
        spec_abs(b) <= bm,
        0 < d,
        0 <= am,
    ensures
        spec_abs(spec_mul_div_ss(a, b, d)) <= am * bm / d,
        spec_abs(a) * spec_abs(b) / d <= am * bm / d,
{
    if b >= 0 {
        lemma_mul_div_range(a, b, d, am, bm);
    } else {
        lemma_mul_div_range(a, -b, d, am, bm);
    }
}

/// Executable signed-by-signed multiply-then-divide.
pub fn mul_div_ss(a: i64, b: i64, d: i64) -> (r: i64)
    requires
        0 < d,
        -i64::MAX <= b,
        spec_abs(a as int) * spec_abs(b as int) / (d as int) <= i64::MAX as int,
    ensures
        r as int == spec_mul_div_ss(a as int, b as int, d as int),
{
    if b >= 0 {
        mul_div(a, b, d)
    } else {
        proof {
            lemma_mul_div_bound(a as int, -(b as int), d as int, spec_abs(a as int) * spec_abs(b as int));
        }
        let q = mul_div(a, -b, d);
        -q
    }
}

/// The integer square root, defined by recursion: the greatest `r` with
/// `r * r <= n`.
pub open spec fn spec_isqrt(n: int) -> int
    decreases n,
    when n >= 0
{
    if n <= 0 {
        0
    } else {
        let r = spec_isqrt(n - 1);
        if (r + 1) * (r + 1) <= n {
            r + 1
        } else {
            r
        }
    }
}

/// The defining bracketing of the integer square root.
pub proof fn lemma_isqrt_bounds(n: int)
    requires
        n >= 0,
    ensures
        0 <= spec_isqrt(n),
        spec_isqrt(n) * spec_isqrt(n) <= n,
        n < (spec_isqrt(n) + 1) * (spec_isqrt(n) + 1),
        spec_isqrt(n) <= n,
    decreases n,
{
    if n > 0 {
        lemma_isqrt_bounds(n - 1);
        let r = spec_isqrt(n - 1);
        if (r + 1) * (r + 1) <= n {
            assert(n <= (r + 1) * (r + 1));
            assert((r + 2) * (r + 2) > (r + 1) * (r + 1)) by (nonlinear_arith)
                requires r >= 0;
        }
    }
}

/// Any bracketing witness is the integer square root.
pub proof fn lemma_isqrt_unique(n: int, r: int)
    requires
        n >= 0,
        r >= 0,
        r * r <= n,
        n < (r + 1) * (r + 1),
    ensures
        r == spec_isqrt(n),
{
    lemma_isqrt_bounds(n);
    let s = spec_isqrt(n);
    if r < s {
        assert((r + 1) * (r + 1) <= s * s) by (nonlinear_arith)
            requires 0 <= r, r + 1 <= s;
    }
    if r > s {
        assert((s + 1) * (s + 1) <= r * r) by (nonlinear_arith)
            requires 0 <= s, s + 1 <= r;
    }
}

/// Executable integer square root of a 128-bit value, by binary search.
pub fn isqrt(n: u128) -> (r: u64)
    ensures
        r as int == spec_isqrt(n as int),
        (r as int) * (r as int) <= n as int,
        n < ((r as int) + 1) * ((r as int) + 1),
{
    let mut lo: u128 = 0;
    let mut hi: u128 = if n >= 0xffff_ffff_ffff_ffff {
        0x1_0000_0000_0000_0000
    } else {
        n + 1
    };
    proof {
        if n >= 0xffff_ffff_ffff_ffff {
            assert((n as int) < (hi as int) * (hi as int)) by (nonlinear_arith)
                requires hi as int == 0x1_0000_0000_0000_0000, n as int <= u128::MAX as int;
        } else {
            assert((n as int) < (hi as int) * (hi as int)) by (nonlinear_arith)
                requires hi as int == n as int + 1, 0 <= n as int;
        }
    }
    while lo + 1 < hi
        invariant
            0 <= lo < hi <= 0x1_0000_0000_0000_0000,
            (lo as int) * (lo as int) <= n as int,
            (n as int) < (hi as int) * (hi as int),
        decreases hi - lo,
    {
        let mid: u128 = lo + (hi - lo) / 2;
        proof {
            assert((mid as int) * (mid as int) <= (0xffff_ffff_ffff_ffffu128 as int)
                * (0xffff_ffff_ffff_ffffu128 as int)) by (nonlinear_arith)
                requires 0 <= mid as int <= 0xffff_ffff_ffff_ffffu128 as int;
        }
        if mid * mid <= n {
            lo = mid;
        } else {
            hi = mid;
        }
    }
    proof {
        lemma_isqrt_unique(n as int, lo as int);
    }
    lo as u64
}

/// `(x / a) / b == x / (a * b)` for positive divisors; a thin wrapper over
/// the library fact, used when a value is halved repeatedly.
pub proof fn lemma_div_twice(x: int, a: int, b: int)
    requires
        0 <= x,
        0 < a,
        0 < b,
    ensures
        x / a / b == x / (a * b),
{
    vstd::arithmetic::div_mod::lemma_div_denominator(x, a, b);
}

} // verus!
