//! Integer division helpers: rounding to the nearest integer (ties away
//! from zero), floor, ceiling and truncation toward zero, each with an
//! exact specification over mathematical integers.
//!
//! Geometry in this crate is carried in fixed-point coordinates: an `i64`
//! position denotes a multiple of 1/[`PIXEL_SCALE`] of a pixel.

use vstd::prelude::*;
use vstd::arithmetic::div_mod::{
    lemma_fundamental_div_mod, lemma_fundamental_div_mod_converse, lemma_div_pos_is_pos,
    lemma_div_is_ordered, lemma_div_multiples_vanish_fancy, lemma_mod_bound,
};

verus! {

/// Number of fixed-point coordinate units per pixel.
pub const PIXEL_SCALE: i64 = 256;

/// Largest magnitude a fixed-point coordinate may have; keeps every
/// intermediate product of the barycentric formulas inside `i128`.
pub const COORD_LIMIT: i64 = 0x100_0000;

/// `n / d` rounded to the nearest integer, ties away from zero; `d > 0`.
pub open spec fn round_div(n: int, d: int) -> int
    recommends
        d > 0,
{
    if n >= 0 {
        (2 * n + d) / (2 * d)
    } else {
        -((2 * (-n) + d) / (2 * d))
    }
}

/// `n / d` rounded toward negative infinity; `d > 0`.
pub open spec fn floor_div(n: int, d: int) -> int
    recommends
        d > 0,
{
    n / d
}

/// `n / d` rounded toward positive infinity; `d > 0`.
pub open spec fn ceil_div(n: int, d: int) -> int
    recommends
        d > 0,
{
    (n + d - 1) / d
}

/// `n / d` rounded toward zero; `d > 0`.
pub open spec fn trunc_div(n: int, d: int) -> int
    recommends
        d > 0,
{
    if n >= 0 {
        n / d
    } else {
        -((-n) / d)
    }
}

/// The nearest integer to `n / d` differs from the exact quotient by at
/// most a half: `2 * |n - r * d| <= d`.
pub proof fn lemma_round_div_close(n: int, d: int)
    requires
        d > 0,
    ensures
        2 * (n - round_div(n, d) * d) <= d,
        2 * (round_div(n, d) * d - n) <= d,
{
    if n >= 0 {
        let q = (2 * n + d) / (2 * d);
        let r = (2 * n + d) % (2 * d);
        lemma_fundamental_div_mod(2 * n + d, 2 * d);
        lemma_mod_bound(2 * n + d, 2 * d);
        assert(2 * (n - q * d) == r - d) by (nonlinear_arith)
            requires
                2 * n + d == 2 * d * q + r,
        ;
    } else {
        let m = -n;
        let q = (2 * m + d) / (2 * d);
        let r = (2 * m + d) % (2 * d);
        lemma_fundamental_div_mod(2 * m + d, 2 * d);
        lemma_mod_bound(2 * m + d, 2 * d);
        assert(2 * (n - (-q) * d) == d - r) by (nonlinear_arith)
            requires
                2 * m + d == 2 * d * q + r && n == -m,
        ;
    }
}

/// Rounding a quotient that is exactly an integer returns that integer.
pub proof fn lemma_round_div_exact(k: int, d: int)
    requires
        d > 0,
    ensures
        round_div(k * d, d) == k,
{
    if k >= 0 {
        assert(k * d >= 0) by (nonlinear_arith)
            requires
                k >= 0 && d > 0,
        ;
        lemma_div_multiples_vanish_fancy(k, d, 2 * d);
        assert(2 * (k * d) + d == 2 * d * k + d) by (nonlinear_arith);
    } else {
        assert(k * d < 0) by (nonlinear_arith)
            requires
                k < 0 && d > 0,
        ;
        lemma_div_multiples_vanish_fancy(-k, d, 2 * d);
        assert(2 * (-(k * d)) + d == 2 * d * (-k) + d) by (nonlinear_arith);
    }
}

/// For a nonnegative numerator the rounded quotient lies in `[0, n]`.
pub proof fn lemma_round_div_magnitude(n: int, d: int)
    requires
        d > 0,
        n >= 0,
    ensures
        0 <= round_div(n, d) <= n,
{
    lemma_div_pos_is_pos(2 * n + d, 2 * d);
    assert(2 * n + d <= 2 * d * n + d) by (nonlinear_arith)
        requires
            d >= 1 && n >= 0,
    ;
    lemma_div_is_ordered(2 * n + d, 2 * d * n + d, 2 * d);
    lemma_div_multiples_vanish_fancy(n, d, 2 * d);
}

/// Floor and ceiling of `n / d` lie within `[lo, hi]` whenever
/// `lo * d <= n <= hi * d`.
pub proof fn lemma_div_range(n: int, d: int, lo: int, hi: int)
    requires
        d > 0,
        lo * d <= n,
        n <= hi * d,
    ensures
        lo <= floor_div(n, d) <= hi,
        lo <= ceil_div(n, d) <= hi,
{
    assert(lo * d == d * lo && hi * d == d * hi) by (nonlinear_arith);
    lemma_div_is_ordered(lo * d, n, d);
    lemma_div_is_ordered(n, hi * d, d);
    vstd::arithmetic::div_mod::lemma_div_multiples_vanish(lo, d);
    vstd::arithmetic::div_mod::lemma_div_multiples_vanish(hi, d);
    lemma_div_is_ordered(lo * d, n + d - 1, d);
    lemma_div_is_ordered(n + d - 1, hi * d + (d - 1), d);
    lemma_div_multiples_vanish_fancy(hi, d - 1, d);
}

/// The rounded quotient lies in `[lo, hi]` whenever `lo * d <= n <= hi * d`.
pub proof fn lemma_round_div_bounds(n: int, d: int, lo: int, hi: int)
    requires
        d > 0,
        lo * d <= n,
        n <= hi * d,
    ensures
        lo <= round_div(n, d) <= hi,
{
    lemma_round_div_close(n, d);
    let r = round_div(n, d);
    assert(lo <= r) by (nonlinear_arith)
        requires
            d > 0 && lo * d <= n && 2 * (n - r * d) <= d,
    ;
    assert(r <= hi) by (nonlinear_arith)
        requires
            d > 0 && n <= hi * d && 2 * (r * d - n) <= d,
    ;
}

/// Rounding to the nearest integer is monotone.
pub proof fn lemma_round_div_monotone(a: int, b: int, d: int)
    requires
        d > 0,
        a <= b,
    ensures
        round_div(a, d) <= round_div(b, d),
{
    if a >= 0 {
        lemma_div_is_ordered(2 * a + d, 2 * b + d, 2 * d);
    } else if b >= 0 {
        lemma_div_pos_is_pos(2 * (-a) + d, 2 * d);
        lemma_div_pos_is_pos(2 * b + d, 2 * d);
    } else {
        lemma_div_is_ordered(2 * (-b) + d, 2 * (-a) + d, 2 * d);
    }
}

/// Rounded division on `i64` operands.
pub fn round_div_i64(n: i64, d: i64) -> (r: i64)
    requires
        0 < d,
        i64::MIN < n,
    ensures
        r == round_div(n as int, d as int),
{
    if n >= 0 {
        let num: u128 = (2 * (n as i128) + (d as i128)) as u128;
        let den: u128 = 2 * (d as u128);
        let q: u128 = num / den;
        proof {
            lemma_round_div_magnitude(n as int, d as int);
        }
        q as i64
    } else {
        let num: u128 = (2 * (-(n as i128)) + (d as i128)) as u128;
        let den: u128 = 2 * (d as u128);
        let q: u128 = num / den;
        proof {
            lemma_round_div_magnitude(-(n as int), d as int);
        }
        -(q as i64)
    }
}

/// Rounded division on `i128` operands; the bound on `n` keeps the doubled
/// numerator inside `i128`.
pub fn round_div_i128(n: i128, d: i128) -> (r: i128)
    requires
        0 < d <= 0x4000_0000_0000_0000_0000_0000_0000_0000,
        -0x4000_0000_0000_0000_0000_0000_0000_0000 <= n
            <= 0x4000_0000_0000_0000_0000_0000_0000_0000,
    ensures
        r == round_div(n as int, d as int),
{
    if n >= 0 {
        let num: u128 = 2 * (n as u128) + (d as u128);
        let den: u128 = 2 * (d as u128);
        let q: u128 = num / den;
        proof {
            lemma_round_div_magnitude(n as int, d as int);
        }
        q as i128
    } else {
        let num: u128 = 2 * ((-n) as u128) + (d as u128);
        let den: u128 = 2 * (d as u128);
        let q: u128 = num / den;
        proof {
            lemma_round_div_magnitude(-(n as int), d as int);
        }
        -(q as i128)
    }
}

/// Floor division on `i64` operands.
pub fn floor_div_i64(n: i64, d: i64) -> (r: i64)
    requires
        0 < d,
        i64::MIN < n,
    ensures
        r == floor_div(n as int, d as int),
{
    if n >= 0 {
        let q: u64 = (n as u64) / (d as u64);
        q as i64
    } else {
        let num: u128 = (-(n as i128) + (d as i128) - 1) as u128;
        let q: u128 = num / (d as u128);
        proof {
            let m = -(n as int);
            let dd = d as int;
            let qq = (m + dd - 1) / dd;
            lemma_div_pos_is_pos(m + dd - 1, dd);
            lemma_fundamental_div_mod(m + dd - 1, dd);
            lemma_mod_bound(m + dd - 1, dd);
            let rr = (m + dd - 1) % dd;
            assert(n as int == (-qq) * dd + (dd - 1 - rr)) by (nonlinear_arith)
                requires
                    m + dd - 1 == dd * qq + rr && n as int == -m,
            ;
            lemma_fundamental_div_mod_converse(n as int, dd, -qq, dd - 1 - rr);
            assert(m + dd - 1 <= dd * m + (dd - 1)) by (nonlinear_arith)
                requires
                    m >= 1 && dd >= 1,
            ;
            lemma_div_is_ordered(m + dd - 1, dd * m + (dd - 1), dd);
            lemma_div_multiples_vanish_fancy(m, dd - 1, dd);
        }
        -(q as i64)
    }
}

/// Ceiling division on `i64` operands.
pub fn ceil_div_i64(n: i64, d: i64) -> (r: i64)
    requires
        0 < d,
        i64::MIN < n,
    ensures
        r == ceil_div(n as int, d as int),
{
    if n > 0 {
        let num: u128 = ((n as i128) + (d as i128) - 1) as u128;
        let q: u128 = num / (d as u128);
        proof {
            lemma_div_pos_is_pos(n as int + d as int - 1, d as int);
            assert(n as int + d as int - 1 <= (d as int) * (n as int) + (d as int - 1))
                by (nonlinear_arith)
                requires
                    n >= 1 && d >= 1,
            ;
            lemma_div_is_ordered(n as int + d as int - 1, (d as int) * (n as int) + (d as int - 1), d as int);
            lemma_div_multiples_vanish_fancy(n as int, d as int - 1, d as int);
        }
        q as i64
    } else {
        let m: u128 = (-(n as i128)) as u128;
        let q: u128 = m / (d as u128);
        proof {
            let mm = -(n as int);
            let dd = d as int;
            let qq = mm / dd;
            lemma_div_pos_is_pos(mm, dd);
            lemma_fundamental_div_mod(mm, dd);
            lemma_mod_bound(mm, dd);
            let rr = mm % dd;
            assert(n as int + dd - 1 == (-qq) * dd + (dd - 1 - rr)) by (nonlinear_arith)
                requires
                    mm == dd * qq + rr && n as int == -mm,
            ;
            lemma_fundamental_div_mod_converse(n as int + dd - 1, dd, -qq, dd - 1 - rr);
            assert(mm <= dd * mm) by (nonlinear_arith)
                requires
                    mm >= 0 && dd >= 1,
            ;
            lemma_div_is_ordered(mm, dd * mm, dd);
            vstd::arithmetic::div_mod::lemma_div_multiples_vanish(mm, dd);
        }
        -(q as i64)
    }
}

/// Truncating division on `i64` operands.
pub fn trunc_div_i64(n: i64, d: i64) -> (r: i64)
    requires
        0 < d,
        i64::MIN < n,
    ensures
        r == trunc_div(n as int, d as int),
        n >= 0 ==> 0 <= r <= n,
        n < 0 ==> n <= r <= 0,
{
    if n >= 0 {
        let q: u64 = (n as u64) / (d as u64);
        proof {
            lemma_div_pos_is_pos(n as int, d as int);
            assert(n as int <= (d as int) * (n as int)) by (nonlinear_arith)
                requires
                    n >= 0 && d >= 1,
            ;
            lemma_div_is_ordered(n as int, (d as int) * (n as int), d as int);
            vstd::arithmetic::div_mod::lemma_div_multiples_vanish(n as int, d as int);
        }
        q as i64
    } else {
        let m: u128 = (-(n as i128)) as u128;
        let q: u128 = m / (d as u128);
        proof {
            lemma_div_pos_is_pos(-(n as int), d as int);
            assert(-(n as int) <= (d as int) * (-(n as int))) by (nonlinear_arith)
                requires
                    n <= 0 && d >= 1,
            ;
            lemma_div_is_ordered(-(n as int), (d as int) * (-(n as int)), d as int);
            vstd::arithmetic::div_mod::lemma_div_multiples_vanish(-(n as int), d as int);
        }
        -(q as i64)
    }
}

} // verus!
