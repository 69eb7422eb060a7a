//! Fixed-point arithmetic primitives.
//!
//! Planar quantities are stored as integers scaled by [`SCALE`]: a stored
//! value `v` stands for the real quantity `v / SCALE`. Division on these
//! values truncates toward zero, exactly as Rust's `/` does on machine
//! integers; [`tdiv`] is the specification-level mirror of that rounding, so
//! every contract in the crate can state the computed value exactly.

use vstd::prelude::*;

verus! {

/// Fixed-point scale: stored values are the real quantity times `SCALE`.
pub const SCALE: i64 = 1_000_000_000;

/// Magnitude of the absolute value of `x`.
pub open spec fn iabs(x: int) -> int {
    if x < 0 {
        -x
    } else {
        x
    }
}

/// Truncating (round-toward-zero) integer division, the rounding performed
/// by Rust's `/` on machine integers. Unspecified for `b == 0`.
pub open spec fn tdiv(a: int, b: int) -> int {
    if a == 0 {
        0
    } else if a > 0 && b > 0 {
        a / b
    } else if a < 0 && b < 0 {
        (a * -1) / (b * -1)
    } else if a < 0 {
        ((a * -1) / b) * -1
    } else {
        (a / (b * -1)) * -1
    }
}

/// The magnitude of a truncating quotient is the floor quotient of the
/// magnitudes.
pub proof fn lemma_tdiv_abs(a: int, b: int)
    requires
        b != 0,
    ensures
        iabs(tdiv(a, b)) == iabs(a) / iabs(b),
        a == 0 ==> tdiv(a, b) == 0,
{
    if a != 0 {
        vstd::arithmetic::div_mod::lemma_div_pos_is_pos(iabs(a), iabs(b));
    }
}

/// A truncating quotient of `a` by a nonzero `b` is bounded by any `m` with
/// `iabs(a) < (m + 1) * iabs(b)`.
pub proof fn lemma_tdiv_bound(a: int, b: int, m: int)
    requires
        b != 0,
        0 <= m,
        iabs(a) < (m + 1) * iabs(b),
    ensures
        iabs(tdiv(a, b)) <= m,
{
    lemma_tdiv_abs(a, b);
    assert(iabs(b) * (m + 1) == (m + 1) * iabs(b)) by (nonlinear_arith);
    vstd::arithmetic::div_mod::lemma_multiply_divide_lt(iabs(a), iabs(b), m + 1);
}

/// Truncating division is unchanged by negating both operands.
pub proof fn lemma_tdiv_neg(a: int, b: int)
    requires
        b != 0,
    ensures
        tdiv(-a, -b) == tdiv(a, b),
{
    if a == 0 {
    } else if a > 0 && b > 0 {
        assert((-a) * -1 == a && (-b) * -1 == b);
    } else if a < 0 && b < 0 {
        assert(a * -1 == -a && b * -1 == -b);
    } else if a < 0 {
        assert(a * -1 == -a && (-b) * -1 == b);
    } else {
        assert((-a) * -1 == a && b * -1 == -b);
    }
}

/// Truncating division leaves a remainder smaller than the divisor:
/// `a - b * tdiv(a, b)` has magnitude below the magnitude of `b`.
pub proof fn lemma_tdiv_remainder(a: int, b: int)
    requires
        b != 0,
    ensures
        iabs(a - b * tdiv(a, b)) < iabs(b),
{
    let q = tdiv(a, b);
    if a == 0 {
        assert(b * 0 == 0) by (nonlinear_arith);
    } else if a > 0 && b > 0 {
        vstd::arithmetic::div_mod::lemma_fundamental_div_mod(a, b);
        vstd::arithmetic::div_mod::lemma_mod_bound(a, b);
        let t = a / b;
        let r = a % b;
        assert(iabs(a - b * q) < iabs(b)) by (nonlinear_arith)
            requires
                a > 0,
                b > 0,
                q == t,
                a == b * t + r,
                0 <= r < b,
        ;
    } else if a < 0 && b < 0 {
        vstd::arithmetic::div_mod::lemma_fundamental_div_mod(a * -1, b * -1);
        vstd::arithmetic::div_mod::lemma_mod_bound(a * -1, b * -1);
        let t = (a * -1) / (b * -1);
        let r = (a * -1) % (b * -1);
        assert(iabs(a - b * q) < iabs(b)) by (nonlinear_arith)
            requires
                a < 0,
                b < 0,
                q == t,
                a * -1 == (b * -1) * t + r,
                0 <= r < b * -1,
        ;
    } else if a < 0 {
        vstd::arithmetic::div_mod::lemma_fundamental_div_mod(a * -1, b);
        vstd::arithmetic::div_mod::lemma_mod_bound(a * -1, b);
        let t = (a * -1) / b;
        let r = (a * -1) % b;
        assert(iabs(a - b * q) < iabs(b)) by (nonlinear_arith)
            requires
                a < 0,
                b > 0,
                q == t * -1,
                a * -1 == b * t + r,
                0 <= r < b,
        ;
    } else {
        vstd::arithmetic::div_mod::lemma_fundamental_div_mod(a, b * -1);
        vstd::arithmetic::div_mod::lemma_mod_bound(a, b * -1);
        let t = a / (b * -1);
        let r = a % (b * -1);
        assert(iabs(a - b * q) < iabs(b)) by (nonlinear_arith)
            requires
                a > 0,
                b < 0,
                q == t * -1,
                a == (b * -1) * t + r,
                0 <= r < b * -1,
        ;
    }
}

/// Bound on a product from bounds on its factors.
pub proof fn lemma_mul_bound(a: int, b: int, am: int, bm: int)
    requires
        -am <= a <= am,
        -bm <= b <= bm,
    ensures
        -(am * bm) <= a * b <= am * bm,
{
    assert(-(am * bm) <= a * b <= am * bm) by (nonlinear_arith)
        requires
            -am <= a <= am,
            -bm <= b <= bm,
    ;
}

/// Magnitude bound accepted by [`div_i128`] for its dividend: `2^126`.
pub const DIV_INPUT_LIMIT: i128 = 0x4000_0000_0000_0000_0000_0000_0000_0000;

/// Truncating division of two `i128` values.
pub fn div_i128(a: i128, b: i128) -> (q: i128)
    requires
        b != 0,
        iabs(a as int) < DIV_INPUT_LIMIT,
    ensures
        q == tdiv(a as int, b as int),
        iabs(q as int) <= iabs(a as int),
{
    proof {
        lemma_tdiv_abs(a as int, b as int);
        vstd::arithmetic::div_mod::lemma_div_nonincreasing(iabs(a as int), iabs(b as int));
    }
    a.checked_div(b).unwrap()
}

/// Upper bound accepted by [`isqrt`]: `2^94`.
pub const ISQRT_INPUT_LIMIT: u128 = 0x4000_0000_0000_0000_0000_0000;

/// One more than the largest root [`isqrt`] can return: `2^47`.
pub const ISQRT_ROOT_LIMIT: u64 = 0x8000_0000_0000;

/// Integer square root: the greatest `r` with `r * r <= n`.
pub fn isqrt(n: u128) -> (r: u64)
    requires
        n < ISQRT_INPUT_LIMIT,
    ensures
        r * r <= n,
        n < (r + 1) * (r + 1),
        r < ISQRT_ROOT_LIMIT,
{
    let mut lo: u64 = 0;
    let mut hi: u64 = ISQRT_ROOT_LIMIT;
    while lo + 1 < hi
        invariant
            lo < hi,
            hi <= ISQRT_ROOT_LIMIT,
            lo * lo <= n,
            n < hi * hi,
        decreases hi - lo,
    {
        let mid: u64 = lo + (hi - lo) / 2;
        proof {
            lemma_mul_bound(mid as int, mid as int, ISQRT_ROOT_LIMIT as int, ISQRT_ROOT_LIMIT as int);
        }
        if (mid as u128) * (mid as u128) <= n {
            lo = mid;
        } else {
            hi = mid;
        }
    }
    lo
}

} // verus!
