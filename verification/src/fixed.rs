//! Exact fixed-point arithmetic for coordinates on the complex plane.
//!
//! A plane coordinate is an `i64` holding the real value times `FX_ONE`
//! (48 fractional bits).  Every operation of the renderer is defined over
//! this representation, so the whole pipeline is deterministic integer
//! arithmetic: the same inputs give bit-identical buffers on every machine
//! and under any partitioning of the work.

use vstd::arithmetic::div_mod::{
    lemma_div_is_ordered, lemma_div_pos_is_pos, lemma_fundamental_div_mod,
};
use vstd::prelude::*;

verus! {

/// The fixed-point representation of 1.0 (2^48).
pub const FX_ONE: i64 = 281474976710656;

/// Largest coordinate magnitude the escape kernel accepts: 64.0 in plane
/// units.  Keeps every intermediate product inside `i128` and every rounded
/// result inside `i64`; the viewport mapper stays inside it for every
/// accepted view.
pub const COORD_MAX: i64 = 64 * FX_ONE;

/// Division truncating toward zero (the rounding the executable code uses).
/// Meaningful for `d > 0`.
pub open spec fn tdiv(p: int, d: int) -> int
    recommends
        d > 0,
{
    if p >= 0 {
        p / d
    } else {
        -((-p) / d)
    }
}

/// The product of two fixed-point values, rounded toward zero.
pub open spec fn fx_mul(a: int, b: int) -> int {
    tdiv(a * b, FX_ONE as int)
}

/// The square of a fixed-point value.
pub open spec fn fx_sq(a: int) -> int {
    fx_mul(a, a)
}

/// The quotient of two fixed-point values, rounded toward zero.
/// Meaningful for `b > 0`.
pub open spec fn fx_div(a: int, b: int) -> int
    recommends
        b > 0,
{
    tdiv(a * FX_ONE, b)
}

/// Truncating division never grows the magnitude beyond `m / d`.
pub proof fn lemma_tdiv_bound(p: int, d: int, m: int)
    requires
        d > 0,
        0 <= m,
        -m <= p <= m,
    ensures
        -(m / d) <= tdiv(p, d) <= m / d,
        d > m >= 0 ==> tdiv(p, d) == 0,
{
    if p >= 0 {
        lemma_div_pos_is_pos(p, d);
        lemma_div_is_ordered(p, m, d);
        lemma_div_pos_is_pos(m, d);
        if d > m {
            lemma_fundamental_div_mod(p, d);
            if p / d > 0 {
                assert(p == d * (p / d) + p % d);
                assert(d * (p / d) >= d) by (nonlinear_arith)
                    requires
                        d > 0,
                        p / d >= 1,
                ;
            }
        }
    } else {
        lemma_div_pos_is_pos(-p, d);
        lemma_div_is_ordered(-p, m, d);
        lemma_div_pos_is_pos(m, d);
        if d > m {
            lemma_fundamental_div_mod(-p, d);
            if (-p) / d > 0 {
                assert(-p == d * ((-p) / d) + (-p) % d);
                assert(d * ((-p) / d) >= d) by (nonlinear_arith)
                    requires
                        d > 0,
                        (-p) / d >= 1,
                ;
            }
        }
    }
}

/// Truncating division of a value bounded by `q * d` is bounded by `q`.
pub proof fn lemma_tdiv_bound_q(p: int, d: int, q: int)
    requires
        d > 0,
        0 <= q,
        -(q * d) <= p <= q * d,
    ensures
        -q <= tdiv(p, d) <= q,
{
    vstd::arithmetic::div_mod::lemma_div_multiples_vanish(q, d);
    assert(d * q == q * d) by (nonlinear_arith);
    if p >= 0 {
        lemma_div_pos_is_pos(p, d);
        lemma_div_is_ordered(p, q * d, d);
    } else {
        lemma_div_pos_is_pos(-p, d);
        lemma_div_is_ordered(-p, q * d, d);
    }
}

/// Truncating division keeps the sign of the dividend.
pub proof fn lemma_tdiv_nonneg(p: int, d: int)
    requires
        d > 0,
        p >= 0,
    ensures
        tdiv(p, d) >= 0,
{
    lemma_div_pos_is_pos(p, d);
}

/// The square and self-product of zero are zero.
pub proof fn lemma_fx_sq_zero()
    ensures
        fx_sq(0) == 0,
        fx_mul(0, 0) == 0,
{
    assert(0int * 0int == 0);
    assert(tdiv(0int, FX_ONE as int) == 0);
}

/// A fixed-point square is never negative.
pub proof fn lemma_fx_sq_nonneg(a: int)
    ensures
        fx_sq(a) >= 0,
{
    assert(a * a >= 0) by (nonlinear_arith);
    lemma_div_pos_is_pos(a * a, FX_ONE as int);
}

/// If a fixed-point square is at most 4.0, the value itself lies in
/// [-2.0, 2.0].
pub proof fn lemma_fx_sq_root_bound(a: int)
    requires
        fx_sq(a) <= 4 * FX_ONE,
    ensures
        -2 * FX_ONE <= a <= 2 * FX_ONE,
{
    let one = FX_ONE as int;
    assert(a * a >= 0) by (nonlinear_arith);
    lemma_fundamental_div_mod(a * a, one);
    assert(a * a == one * ((a * a) / one) + (a * a) % one);
    assert(a * a <= 4 * one * one + one - 1) by (nonlinear_arith)
        requires
            a * a == one * ((a * a) / one) + (a * a) % one,
            (a * a) / one <= 4 * one,
            (a * a) % one < one,
            one > 0,
    ;
    assert(-2 * one <= a <= 2 * one) by (nonlinear_arith)
        requires
            a * a <= 4 * one * one + one - 1,
            one == FX_ONE as int,
    ;
}

/// The fixed-point product of two values, exact integer arithmetic with
/// truncation toward zero.
pub fn fx_mul_exec(a: i64, b: i64) -> (r: i64)
    requires
        -0x80_0000_0000_0000 <= a <= 0x80_0000_0000_0000,
        -0x80_0000_0000_0000 <= b <= 0x80_0000_0000_0000,
    ensures
        r == fx_mul(a as int, b as int),
        -0x4000_0000_0000_0000 <= r <= 0x4000_0000_0000_0000,
{
    proof {
        assert(-0x4000_0000_0000_0000_0000_0000_0000 <= a as int * b as int
            <= 0x4000_0000_0000_0000_0000_0000_0000) by (nonlinear_arith)
            requires
                -0x80_0000_0000_0000 <= a as int <= 0x80_0000_0000_0000,
                -0x80_0000_0000_0000 <= b as int <= 0x80_0000_0000_0000,
        ;
    }
    let p: i128 = (a as i128) * (b as i128);
    proof {
        lemma_tdiv_bound(p as int, FX_ONE as int, 0x4000_0000_0000_0000_0000_0000_0000);
        assert(0x4000_0000_0000_0000_0000_0000_0000int / (FX_ONE as int)
            == 0x4000_0000_0000_0000);
    }
    if p >= 0 {
        let q: u128 = (p as u128) / 281474976710656u128;
        q as i64
    } else {
        let m: u128 = ((-p) as u128) / 281474976710656u128;
        -(m as i64)
    }
}

/// The fixed-point product of two values of large magnitude (such as a deep
/// zoom level).  The caller shows instead that the rounded result fits.
pub fn fx_mul_wide(a: i64, b: i64) -> (r: i64)
    requires
        -0x4000_0000_0000_0000 <= a <= 0x4000_0000_0000_0000,
        -0x4000_0000_0000_0000 <= b <= 0x4000_0000_0000_0000,
        -0x7fff_ffff_ffff_ffff <= fx_mul(a as int, b as int) <= 0x7fff_ffff_ffff_ffff,
    ensures
        r == fx_mul(a as int, b as int),
{
    proof {
        assert(-0x1000_0000_0000_0000_0000_0000_0000_0000
            <= a as int * b as int
            <= 0x1000_0000_0000_0000_0000_0000_0000_0000) by (nonlinear_arith)
            requires
                -0x4000_0000_0000_0000 <= a as int <= 0x4000_0000_0000_0000,
                -0x4000_0000_0000_0000 <= b as int <= 0x4000_0000_0000_0000,
        ;
    }
    let p: i128 = (a as i128) * (b as i128);
    if p >= 0 {
        let q: u128 = (p as u128) / 281474976710656u128;
        q as i64
    } else {
        let m: u128 = ((-p) as u128) / 281474976710656u128;
        -(m as i64)
    }
}

/// The fixed-point quotient `a / b`, truncated toward zero.  The divisor
/// must be at least 1/8 so that the result stays far from the `i64` range.
pub fn fx_div_exec(a: i64, b: i64) -> (r: i64)
    requires
        -0x80_0000_0000_0000 <= a <= 0x80_0000_0000_0000,
        b >= FX_ONE / 8,
    ensures
        r == fx_div(a as int, b as int),
        -8 * 0x80_0000_0000_0000 <= r <= 8 * 0x80_0000_0000_0000,
{
    proof {
        assert(-0x80_0000_0000_0000 * (FX_ONE as int) <= a as int * (FX_ONE as int)
            <= 0x80_0000_0000_0000 * (FX_ONE as int)) by (nonlinear_arith)
            requires
                -0x80_0000_0000_0000 <= a as int <= 0x80_0000_0000_0000,
                FX_ONE as int > 0,
        ;
    }
    let p: i128 = (a as i128) * (FX_ONE as i128);
    proof {
        let one = FX_ONE as int;
        let bd = one / 8;
        assert(bd == 35184372088832);
        lemma_tdiv_bound(p as int, b as int, 0x80_0000_0000_0000 * one);
        // dividing by at least FX_ONE / 8 grows the magnitude at most 8-fold
        lemma_div_is_ordered_by_denom(0x80_0000_0000_0000 * one, b as int, bd);
        assert((0x80_0000_0000_0000 * one) / bd == 8 * 0x80_0000_0000_0000);
    }
    if p >= 0 {
        let q: u128 = (p as u128) / (b as u128);
        q as i64
    } else {
        let m: u128 = ((-p) as u128) / (b as u128);
        -(m as i64)
    }
}

/// Ordering of quotients of one numerator by two positive denominators.
proof fn lemma_div_is_ordered_by_denom(x: int, y: int, z: int)
    requires
        0 <= x,
        0 < z <= y,
    ensures
        x / y <= x / z,
{
    vstd::arithmetic::div_mod::lemma_div_is_ordered_by_denominator(x, z, y);
}

} // verus!
