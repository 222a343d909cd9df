//! The escape-time kernel.
//!
//! For a plane point `c`, the orbit is `z_0 = 0`, `z_{n+1} = z_n^2 + c`,
//! evaluated in fixed-point arithmetic.  The kernel returns the first index
//! at which the orbit's squared magnitude exceeds 4.0, or the sentinel `0`
//! when the orbit stays bounded through the whole budget.  `0` is
//! unambiguous: `z_0 = 0` can never exceed the escape radius, so no real
//! escape happens at index 0.
//!
//! Two early exits are verified to agree with that contract: a closed-form
//! membership test for the main cardioid and the period-2 bulb, and exact
//! cycle detection (a revisited orbit state can never escape, which
//! [`lemma_cycle_never_escapes`] proves).

use crate::fixed::{
    fx_mul, fx_mul_exec, fx_sq, lemma_fx_sq_nonneg, lemma_fx_sq_root_bound, lemma_fx_sq_zero,
    lemma_tdiv_bound_q, COORD_MAX, FX_ONE,
};
use vstd::prelude::*;

verus! {

/// 0.25 in fixed point.
pub const FX_QUARTER: i64 = 70368744177664;

/// 0.0625 in fixed point.
pub const FX_SIXTEENTH: i64 = 17592186044416;

/// Orbit snapshots for cycle detection are refreshed this often.
pub const CYCLE_STORE: u32 = 32;

/// One step of the orbit: `z^2 + c` on a fixed-point pair.
pub open spec fn orbit_step(cx: int, cy: int, p: (int, int)) -> (int, int) {
    (fx_sq(p.0) - fx_sq(p.1) + cx, fx_mul(2 * p.0, p.1) + cy)
}

/// The orbit of `c` after `n` steps, starting from the origin.
pub open spec fn orbit(cx: int, cy: int, n: nat) -> (int, int)
    decreases n,
{
    if n == 0 {
        (0int, 0int)
    } else {
        orbit_step(cx, cy, orbit(cx, cy, (n - 1) as nat))
    }
}

/// Squared magnitude of the orbit after `n` steps, as the kernel measures
/// it (the two squares are rounded separately, then added).
pub open spec fn mag_sq(cx: int, cy: int, n: nat) -> int {
    fx_sq(orbit(cx, cy, n).0) + fx_sq(orbit(cx, cy, n).1)
}

/// Whether the orbit has left the escape radius after `n` steps.
pub open spec fn escapes_at(cx: int, cy: int, n: nat) -> bool {
    mag_sq(cx, cy, n) > 4 * FX_ONE
}

/// The escape time within `budget` steps: the least `n` with
/// `escapes_at(cx, cy, n)` if it is at most `budget`, else the sentinel 0.
pub open spec fn escape_count(cx: int, cy: int, budget: nat) -> nat
    decreases budget,
{
    if budget == 0 {
        0
    } else if escape_count(cx, cy, (budget - 1) as nat) != 0 {
        escape_count(cx, cy, (budget - 1) as nat)
    } else if escapes_at(cx, cy, budget) {
        budget
    } else {
        0
    }
}

/// If nothing escapes up to `budget`, the escape count is the sentinel.
pub proof fn lemma_escape_count_none(cx: int, cy: int, budget: nat)
    requires
        forall|j: nat| 1 <= j <= budget ==> !escapes_at(cx, cy, j),
    ensures
        escape_count(cx, cy, budget) == 0,
    decreases budget,
{
    if budget > 0 {
        lemma_escape_count_none(cx, cy, (budget - 1) as nat);
    }
}

/// If `i` is the first escaping index and lies within the budget, the
/// escape count is exactly `i`.
pub proof fn lemma_escape_count_first(cx: int, cy: int, i: nat, budget: nat)
    requires
        1 <= i <= budget,
        escapes_at(cx, cy, i),
        forall|j: nat| 1 <= j < i ==> !escapes_at(cx, cy, j),
    ensures
        escape_count(cx, cy, budget) == i,
    decreases budget,
{
    if budget == i {
        lemma_escape_count_none(cx, cy, (i - 1) as nat);
    } else {
        lemma_escape_count_first(cx, cy, i, (budget - 1) as nat);
    }
}

/// Raising the budget never changes an escape value already found, and can
/// only turn the sentinel into an escape value, never the reverse.
pub proof fn lemma_escape_count_monotone(cx: int, cy: int, b1: nat, b2: nat)
    requires
        b1 <= b2,
    ensures
        escape_count(cx, cy, b1) != 0 ==> escape_count(cx, cy, b2) == escape_count(cx, cy, b1),
        escape_count(cx, cy, b2) == 0 ==> escape_count(cx, cy, b1) == 0,
    decreases b2,
{
    if b1 < b2 {
        lemma_escape_count_monotone(cx, cy, b1, (b2 - 1) as nat);
    }
}

/// A repeated orbit state shifts the whole tail of the orbit: once
/// `orbit(a) == orbit(b)`, every later index can be pulled back by the
/// period `b - a`.
proof fn lemma_orbit_shift(cx: int, cy: int, a: nat, b: nat, m: nat)
    requires
        a < b,
        orbit(cx, cy, a) == orbit(cx, cy, b),
        m >= b,
    ensures
        orbit(cx, cy, m) == orbit(cx, cy, (m - (b - a)) as nat),
    decreases m,
{
    if m == b {
    } else {
        lemma_orbit_shift(cx, cy, a, b, (m - 1) as nat);
        assert(orbit(cx, cy, m) == orbit_step(cx, cy, orbit(cx, cy, (m - 1) as nat)));
        assert(orbit(cx, cy, (m - (b - a)) as nat) == orbit_step(
            cx,
            cy,
            orbit(cx, cy, (m - (b - a) - 1) as nat),
        ));
    }
}

/// Cycle detection is sound: if the orbit revisits a state and nothing
/// escaped before the revisit, then nothing ever escapes.
pub proof fn lemma_cycle_never_escapes(cx: int, cy: int, a: nat, b: nat, m: nat)
    requires
        a < b,
        orbit(cx, cy, a) == orbit(cx, cy, b),
        forall|j: nat| j < b ==> !escapes_at(cx, cy, j),
    ensures
        !escapes_at(cx, cy, m),
    decreases m,
{
    if m < b {
    } else {
        lemma_orbit_shift(cx, cy, a, b, m);
        lemma_cycle_never_escapes(cx, cy, a, b, (m - (b - a)) as nat);
    }
}

/// Bound on a fixed-point product from bounds on both factors: if both
/// factors are at most `m` in magnitude and `m * m <= q * FX_ONE`, the
/// rounded product is at most `q` in magnitude.
proof fn lemma_fx_mul_bound(a: int, b: int, m: int, q: int)
    requires
        0 <= m,
        -m <= a <= m,
        -m <= b <= m,
        m * m <= q * FX_ONE,
    ensures
        -q <= fx_mul(a, b) <= q,
{
    assert(-(m * m) <= a * b <= m * m) by (nonlinear_arith)
        requires
            0 <= m,
            -m <= a <= m,
            -m <= b <= m,
    ;
    assert(m * m >= 0) by (nonlinear_arith)
        requires
            0 <= m,
    ;
    assert(q >= 0) by (nonlinear_arith)
        requires
            0 <= m * m,
            m * m <= q * FX_ONE,
            FX_ONE > 0,
    ;
    lemma_tdiv_bound_q(a * b, FX_ONE as int, q);
}

/// Membership in the main cardioid or the period-2 bulb, decided by the
/// closed-form inequalities `q * (q + (x - 1/4)) < y^2 / 4` with
/// `q = (x - 1/4)^2 + y^2`, and `(x + 1)^2 + y^2 < 1/16`.  The squares are
/// rounded to fixed point once; the final products are compared exactly.
pub open spec fn in_cardioid_or_bulb(cx: int, cy: int) -> bool {
    let xq = cx - FX_QUARTER;
    let y2 = fx_sq(cy);
    let q = fx_sq(xq) + y2;
    4 * q * (q + xq) < y2 * FX_ONE || fx_sq(cx + FX_ONE) + y2 < FX_SIXTEENTH
}

/// What the kernel reports for one plane point: the sentinel for the two
/// excluded regions, otherwise the escape time within the budget.
pub open spec fn pixel_value(cx: int, cy: int, budget: nat) -> nat {
    if in_cardioid_or_bulb(cx, cy) {
        0nat
    } else {
        escape_count(cx, cy, budget)
    }
}

/// Decides membership in the main cardioid or the period-2 bulb.
pub fn is_in_cardioid_or_bulb(cx: i64, cy: i64) -> (r: bool)
    requires
        -COORD_MAX <= cx <= COORD_MAX,
        -COORD_MAX <= cy <= COORD_MAX,
    ensures
        r == in_cardioid_or_bulb(cx as int, cy as int),
{
    let xq = cx - FX_QUARTER;
    proof {
        assert((64 * FX_ONE as int) * (64 * FX_ONE as int) <= (4096 * FX_ONE) * (
        FX_ONE as int)) by (nonlinear_arith);
        assert((65 * FX_ONE as int) * (65 * FX_ONE as int) <= (4225 * FX_ONE) * (
        FX_ONE as int)) by (nonlinear_arith);
        lemma_fx_mul_bound(cy as int, cy as int, 64 * FX_ONE, 4096 * FX_ONE);
        lemma_fx_mul_bound(xq as int, xq as int, 65 * FX_ONE, 4225 * FX_ONE);
        lemma_fx_sq_nonneg(cy as int);
        lemma_fx_sq_nonneg(xq as int);
    }
    let y2 = fx_mul_exec(cy, cy);
    let xq2 = fx_mul_exec(xq, xq);
    let q = xq2 + y2;
    proof {
        assert(-0x4000_0000_0000_0000_0000_0000_0000_0000 < 4 * (q as int) * ((q as int) + (
        xq as int)) < 0x4000_0000_0000_0000_0000_0000_0000_0000) by (nonlinear_arith)
            requires
                0 <= q as int <= 8321 * FX_ONE,
                -65 * FX_ONE <= xq as int <= 65 * FX_ONE,
                FX_ONE == 281474976710656,
        ;
        assert(0 <= (y2 as int) * (FX_ONE as int) < 0x4000_0000_0000_0000_0000_0000_0000_0000)
            by (nonlinear_arith)
            requires
                0 <= y2 as int <= 4096 * FX_ONE,
                FX_ONE == 281474976710656,
        ;
    }
    let qc: i128 = q as i128;
    let lhs: i128 = 4 * qc * (qc + xq as i128);
    let rhs: i128 = (y2 as i128) * (FX_ONE as i128);
    let in_cardioid = lhs < rhs;
    let xb = cx + FX_ONE;
    proof {
        assert((65 * FX_ONE as int) * (65 * FX_ONE as int) <= (4225 * FX_ONE) * (
        FX_ONE as int)) by (nonlinear_arith);
        lemma_fx_mul_bound(xb as int, xb as int, 65 * FX_ONE, 4225 * FX_ONE);
        lemma_fx_sq_nonneg(xb as int);
    }
    let b2 = fx_mul_exec(xb, xb);
    let in_bulb = b2 + y2 < FX_SIXTEENTH;
    in_cardioid || in_bulb
}

/// The value of one pixel: the sentinel for points of the two excluded
/// regions, the escape time otherwise.
pub fn calc_pixel(cx: i64, cy: i64, iterations: u32) -> (r: u32)
    requires
        -COORD_MAX <= cx <= COORD_MAX,
        -COORD_MAX <= cy <= COORD_MAX,
    ensures
        r == pixel_value(cx as int, cy as int, iterations as nat),
        r <= iterations,
{
    if is_in_cardioid_or_bulb(cx, cy) {
        0
    } else {
        escape_time(cx, cy, iterations)
    }
}

/// The orbit of the origin stays at the origin and never escapes.
proof fn lemma_orbit_origin(n: nat)
    ensures
        orbit(0, 0, n) == (0int, 0int),
        !escapes_at(0, 0, n),
    decreases n,
{
    lemma_fx_sq_zero();
    assert(fx_mul(2 * 0int, 0int) == fx_mul(0, 0));
    if n > 0 {
        lemma_orbit_origin((n - 1) as nat);
    }
}

/// The set's center never escapes: the kernel yields the sentinel for the
/// origin under every budget.
pub proof fn lemma_origin_is_bounded(budget: nat)
    ensures
        escape_count(0, 0, budget) == 0,
        pixel_value(0, 0, budget) == 0,
{
    assert forall|j: nat| 1 <= j <= budget implies !escapes_at(0, 0, j) by {
        lemma_orbit_origin(j);
    }
    lemma_escape_count_none(0, 0, budget);
}

/// Region exclusion: every point of the main cardioid or the period-2 bulb
/// is reported with the sentinel, under every budget.
pub proof fn lemma_region_exclusion(cx: int, cy: int, budget: nat)
    requires
        in_cardioid_or_bulb(cx, cy),
    ensures
        pixel_value(cx, cy, budget) == 0,
{
}

/// The sentinel is unambiguous: the orbit starts at the origin, whose
/// magnitude is zero, so no real escape can happen at index 0 for any
/// plane point.
pub proof fn lemma_no_escape_at_zero(cx: int, cy: int)
    ensures
        !escapes_at(cx, cy, 0),
{
    lemma_fx_sq_zero();
}

/// Budget monotonicity at the pixel level: an escape value, once found,
/// does not change under a larger budget, and a larger budget can only
/// turn the sentinel into an escape value, never the reverse.
pub proof fn lemma_pixel_value_budget_monotone(cx: int, cy: int, b1: nat, b2: nat)
    requires
        b1 <= b2,
    ensures
        pixel_value(cx, cy, b1) != 0 ==> pixel_value(cx, cy, b2) == pixel_value(cx, cy, b1),
        pixel_value(cx, cy, b2) == 0 ==> pixel_value(cx, cy, b1) == 0,
{
    lemma_escape_count_monotone(cx, cy, b1, b2);
}

/// The escape time of `c` within the given budget: the first iteration at
/// which the orbit's squared magnitude exceeds 4.0, or 0 when the orbit
/// stayed bounded through the whole budget (detected either by exhausting
/// the budget or by an exact orbit cycle).
pub fn escape_time(cx: i64, cy: i64, iterations: u32) -> (r: u32)
    requires
        -COORD_MAX <= cx <= COORD_MAX,
        -COORD_MAX <= cy <= COORD_MAX,
    ensures
        r == escape_count(cx as int, cy as int, iterations as nat),
        r <= iterations,
{
    let ghost ci = cx as int;
    let ghost cj = cy as int;
    let mut x: i64 = 0;
    let mut y: i64 = 0;
    let mut x2: i64 = 0;
    let mut y2: i64 = 0;
    let mut x_old: i64 = 0;
    let mut y_old: i64 = 0;
    let ghost mut n_old: nat = 0nat;
    let mut i: u32 = 0;
    proof {
        lemma_fx_sq_zero();
    }
    loop
        invariant
            i <= iterations,
            -COORD_MAX <= cx <= COORD_MAX,
            -COORD_MAX <= cy <= COORD_MAX,
            ci == cx as int,
            cj == cy as int,
            x as int == orbit(ci, cj, i as nat).0,
            y as int == orbit(ci, cj, i as nat).1,
            x2 as int == fx_sq(x as int),
            y2 as int == fx_sq(y as int),
            -80 * FX_ONE <= x <= 80 * FX_ONE,
            -80 * FX_ONE <= y <= 80 * FX_ONE,
            0 <= x2 <= 6400 * FX_ONE,
            0 <= y2 <= 6400 * FX_ONE,
            forall|j: nat| j < i ==> !escapes_at(ci, cj, j),
            x_old as int == orbit(ci, cj, n_old).0,
            y_old as int == orbit(ci, cj, n_old).1,
            n_old <= i,
        decreases iterations - i,
    {
        if x2 + y2 > 4 * FX_ONE {
            proof {
                assert(escapes_at(ci, cj, i as nat));
                if i == 0 {
                    lemma_fx_sq_zero();
                    assert(mag_sq(ci, cj, 0) == 0);
                }
                lemma_escape_count_first(ci, cj, i as nat, iterations as nat);
            }
            return i;
        }
        if i == iterations {
            proof {
                assert(forall|j: nat| 1 <= j <= iterations ==> !escapes_at(ci, cj, j));
                lemma_escape_count_none(ci, cj, iterations as nat);
            }
            return 0;
        }
        proof {
            lemma_fx_sq_root_bound(x as int);
            lemma_fx_sq_root_bound(y as int);
        }
        let two_x = 2 * x;
        proof {
            assert((4 * FX_ONE as int) * (4 * FX_ONE as int) <= (16 * FX_ONE) * (
            FX_ONE as int)) by (nonlinear_arith);
            lemma_fx_mul_bound(two_x as int, y as int, 4 * FX_ONE, 16 * FX_ONE);
        }
        let ny = fx_mul_exec(two_x, y) + cy;
        let nx = x2 - y2 + cx;
        x = nx;
        y = ny;
        proof {
            assert((80 * FX_ONE as int) * (80 * FX_ONE as int) <= (6400 * FX_ONE) * (
            FX_ONE as int)) by (nonlinear_arith);
            lemma_fx_mul_bound(x as int, x as int, 80 * FX_ONE, 6400 * FX_ONE);
            lemma_fx_mul_bound(y as int, y as int, 80 * FX_ONE, 6400 * FX_ONE);
            lemma_fx_sq_nonneg(x as int);
            lemma_fx_sq_nonneg(y as int);
        }
        x2 = fx_mul_exec(x, x);
        y2 = fx_mul_exec(y, y);
        i = i + 1;
        proof {
            assert(orbit(ci, cj, i as nat) == orbit_step(
                ci,
                cj,
                orbit(ci, cj, (i - 1) as nat),
            ));
        }
        if x == x_old && y == y_old {
            proof {
                assert(orbit(ci, cj, n_old) == orbit(ci, cj, i as nat));
                assert(forall|j: nat| 1 <= j <= iterations ==> !escapes_at(ci, cj, j)) by {
                    assert forall|j: nat| 1 <= j <= iterations implies !escapes_at(
                        ci,
                        cj,
                        j,
                    ) by {
                        lemma_cycle_never_escapes(ci, cj, n_old, i as nat, j);
                    }
                }
                lemma_escape_count_none(ci, cj, iterations as nat);
            }
            return 0;
        }
        if i % CYCLE_STORE == 0 {
            x_old = x;
            y_old = y;
            proof {
                n_old = i as nat;
            }
        }
    }
}

} // verus!

