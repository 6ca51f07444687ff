//! Scalar fixed-point arithmetic: truncating division, scaled
//! multiplication, integer square root and range clamping.

use vstd::prelude::*;

verus! {

use crate::SCALE;

/// Division that truncates toward zero, the rounding of Rust's `/`.
/// Only used with a positive divisor.
pub open spec fn tdiv(a: int, b: int) -> int {
    if a >= 0 {
        a / b
    } else {
        -((-a) / b)
    }
}

/// Truncating division of 64-bit values by a positive divisor.
pub fn tdiv64(a: i64, b: i64) -> (r: i64)
    requires
        b > 0,
    ensures
        r == tdiv(a as int, b as int),
{
    a / b
}

/// Truncating division of 128-bit values by a positive divisor,
/// narrowed to 64 bits.
pub fn tdiv128(a: i128, b: i128) -> (r: i64)
    requires
        b > 0,
        i64::MIN <= tdiv(a as int, b as int) <= i64::MAX,
    ensures
        r == tdiv(a as int, b as int),
{
    proof {
        lemma_tdiv_bound(a as int, b as int);
    }
    (a / b) as i64
}

/// Magnitude of a truncated quotient never exceeds the dividend's.
pub proof fn lemma_tdiv_bound(a: int, b: int)
    requires
        b > 0,
    ensures
        a >= 0 ==> 0 <= tdiv(a, b) <= a,
        a < 0 ==> a <= tdiv(a, b) <= 0,
{
    if a >= 0 {
        vstd::arithmetic::div_mod::lemma_div_is_ordered_by_denominator(a, 1, b);
        vstd::arithmetic::div_mod::lemma_div_basics(a);
        vstd::arithmetic::div_mod::lemma_div_pos_is_pos(a, b);
    } else {
        vstd::arithmetic::div_mod::lemma_div_is_ordered_by_denominator(-a, 1, b);
        vstd::arithmetic::div_mod::lemma_div_basics(-a);
        vstd::arithmetic::div_mod::lemma_div_pos_is_pos(-a, b);
    }
}

/// The remainder view of a truncated quotient: `a == q * b + r` with
/// `|r| < b` and `r` on the same side of zero as `a`.
pub proof fn lemma_tdiv_rem(a: int, b: int)
    requires
        b > 0,
    ensures
        a == tdiv(a, b) * b + (a - tdiv(a, b) * b),
        a >= 0 ==> 0 <= a - tdiv(a, b) * b < b,
        a < 0 ==> -b < a - tdiv(a, b) * b <= 0,
{
    if a >= 0 {
        vstd::arithmetic::div_mod::lemma_fundamental_div_mod(a, b);
        vstd::arithmetic::div_mod::lemma_mod_bound(a, b);
        let q = a / b;
        assert(q * b == b * q) by (nonlinear_arith);
    } else {
        vstd::arithmetic::div_mod::lemma_fundamental_div_mod(-a, b);
        vstd::arithmetic::div_mod::lemma_mod_bound(-a, b);
        let m = (-a) / b;
        assert((-m) * b == -(b * m)) by (nonlinear_arith);
    }
}

/// A dividend within `b * m` gives a quotient within `m`.
pub proof fn lemma_tdiv_quotient_bound(a: int, b: int, m: int)
    requires
        b > 0,
        m >= 0,
        -(b * m) <= a <= b * m,
    ensures
        -m <= tdiv(a, b) <= m,
{
    lemma_tdiv_rem(a, b);
    let q = tdiv(a, b);
    let r = a - q * b;
    assert(-m <= q <= m) by (nonlinear_arith)
        requires
            b > 0,
            m >= 0,
            -(b * m) <= a <= b * m,
            a == q * b + r,
            -b < r < b,
    ;
}

/// Fixed-point product: `(a * b) / SCALE`, truncated toward zero.
pub fn fx_mul(a: i64, b: i64) -> (r: i64)
    requires
        i64::MIN <= tdiv(a * b, SCALE as int) <= i64::MAX,
    ensures
        r == tdiv(a * b, SCALE as int),
{
    tdiv128((a as i128) * (b as i128), SCALE as i128)
}

/// Floor square root: `r * r <= n < (r + 1) * (r + 1)`.
pub fn isqrt(n: u128) -> (r: u64)
    requires
        n < 0x1000000000000000000000000,
    ensures
        (r as int) * (r as int) <= n as int,
        (n as int) < ((r as int) + 1) * ((r as int) + 1),
{
    let mut lo: u64 = 0;
    let mut hi: u64 = 0xFFFFFFFFFFFF;
    proof {
        assert((0xFFFFFFFFFFFF + 1) * (0xFFFFFFFFFFFF + 1) == 0x1000000000000000000000000int)
            by (nonlinear_arith);
    }
    while lo < hi
        invariant
            lo <= hi,
            hi <= 0xFFFFFFFFFFFF,
            (lo as int) * (lo as int) <= n as int,
            (n as int) < ((hi as int) + 1) * ((hi as int) + 1),
        decreases hi - lo,
    {
        let diff: u64 = hi - lo;
        let mid: u64 = lo + (diff + 1) / 2;
        proof {
            assert(1 <= (diff + 1) / 2 <= diff);
            assert((mid as int) * (mid as int) < 0x100000000000000000000000000000000int)
                by (nonlinear_arith)
                requires
                    0 <= mid <= 0x1000000000000,
            ;
        }
        if (mid as u128) * (mid as u128) <= n {
            lo = mid;
        } else {
            hi = mid - 1;
        }
    }
    lo
}

/// Clamp into `[-limit, limit]`.
pub fn clamp64(v: i64, limit: i64) -> (r: i64)
    requires
        limit >= 0,
    ensures
        r == clamp_spec(v as int, limit as int),
{
    if v > limit {
        limit
    } else if v < -limit {
        -limit
    } else {
        v
    }
}

/// The value of [`clamp64`].
pub open spec fn clamp_spec(v: int, limit: int) -> int {
    if v > limit {
        limit
    } else if v < -limit {
        -limit
    } else {
        v
    }
}

} // verus!
