//! The escape-time evaluator: the pure function from a sample position and
//! the run parameters to a finished sample.
//!
//! The iteration `z <- z * z + c` is carried out exactly in fixed point:
//! a product of two micro-unit values is scaled back by dividing by `SCALE`,
//! rounding towards zero. A point is classified as diverged as soon as the
//! squared modulus of `z` exceeds the squared escape radius; if that never
//! happens within the iteration budget, the sample converges and keeps the
//! modulus of the final `z`, rounded down to whole micro-units.

use vstd::prelude::*;
use vstd::arithmetic::div_mod::{
    lemma_div_pos_is_pos, lemma_div_is_ordered, lemma_div_by_multiple, lemma_div_of0,
};
use crate::sample::{SCALE, COORD_LIMIT, Position, Outcome, Sample};
use crate::config::BOUND_LIMIT;

verus! {

/// A doubled-scale product brought back to micro-units, rounding towards
/// zero, exactly as `i64` division does.
pub open spec fn scale_down(x: int) -> int {
    if x >= 0 {
        x / (SCALE as int)
    } else {
        -((-x) / (SCALE as int))
    }
}

/// Real part of `z * z + c` in micro-units.
pub open spec fn step_re(zr: int, zi: int, cr: int) -> int {
    scale_down(zr * zr - zi * zi) + cr
}

/// Imaginary part of `z * z + c` in micro-units.
pub open spec fn step_im(zr: int, zi: int, ci: int) -> int {
    scale_down(2 * (zr * zi)) + ci
}

/// The iterated value after `k` steps from `z = 0`, as a (real, imaginary)
/// pair in micro-units.
pub open spec fn orbit(cr: int, ci: int, k: nat) -> (int, int)
    decreases k,
{
    if k == 0 {
        (0, 0)
    } else {
        let z = orbit(cr, ci, (k - 1) as nat);
        (step_re(z.0, z.1, cr), step_im(z.0, z.1, ci))
    }
}

/// Squared modulus, in squared micro-units.
pub open spec fn mag2(zr: int, zi: int) -> int {
    zr * zr + zi * zi
}

/// After exactly `k` steps the orbit lies outside the escape radius.
pub open spec fn escaped_at(cr: int, ci: int, bound: int, k: nat) -> bool {
    mag2(orbit(cr, ci, k).0, orbit(cr, ci, k).1) > bound * bound
}

/// Within the first `n` steps the orbit leaves the escape radius at least
/// once.
pub open spec fn escapes_within(cr: int, ci: int, bound: int, n: nat) -> bool {
    exists|k: nat| 1 <= k <= n && #[trigger] escaped_at(cr, ci, bound, k)
}

/// The integer square root, rounded down.
pub open spec fn sqrt_floor(x: nat) -> nat
    decreases x,
{
    if x == 0 {
        0
    } else {
        let p: nat = sqrt_floor((x - 1) as nat);
        if (p + 1) * (p + 1) <= x {
            p + 1
        } else {
            p
        }
    }
}

/// `sqrt_floor` is the integer square root: its square is no larger than the
/// argument, and the next square is larger.
pub proof fn lemma_sqrt_floor_bounds(x: nat)
    ensures
        sqrt_floor(x) * sqrt_floor(x) <= x,
        x < (sqrt_floor(x) as int + 1) * (sqrt_floor(x) as int + 1),
    decreases x,
{
    if x == 0 {
        assert(sqrt_floor(0) == 0);
    } else {
        lemma_sqrt_floor_bounds((x - 1) as nat);
        let p: int = sqrt_floor((x - 1) as nat) as int;
        assert(p * p <= x - 1);
        assert(x - 1 < (p + 1) * (p + 1));
        if sqrt_floor(x) as int == p + 1 {
            assert(x < ((p + 1) + 1) * ((p + 1) + 1)) by (nonlinear_arith)
                requires
                    x - 1 < (p + 1) * (p + 1),
                    0 <= p,
            ;
        } else {
            assert(sqrt_floor(x) as int == p);
            assert((p + 1) * (p + 1) > x);
        }
    }
}

/// Any value whose square brackets `x` the same way is that square root.
pub proof fn lemma_sqrt_floor_unique(x: nat, r: nat)
    requires
        r * r <= x,
        x < (r as int + 1) * (r as int + 1),
    ensures
        r == sqrt_floor(x),
{
    lemma_sqrt_floor_bounds(x);
    let s: int = sqrt_floor(x) as int;
    assert(r == s) by (nonlinear_arith)
        requires
            r * r <= x,
            x < (r as int + 1) * (r as int + 1),
            s * s <= x,
            x < (s + 1) * (s + 1),
            0 <= r,
            0 <= s,
    ;
}

/// What the evaluator must return for `c`, `n` iterations and escape radius
/// `bound`: `Diverged` exactly when the orbit leaves the radius within the
/// budget, else the final modulus rounded down to micro-units.
pub open spec fn eval_outcome(cr: int, ci: int, n: nat, bound: int) -> Outcome {
    if escapes_within(cr, ci, bound, n) {
        Outcome::Diverged
    } else {
        Outcome::Converged(
            sqrt_floor(mag2(orbit(cr, ci, n).0, orbit(cr, ci, n).1) as nat) as i64,
        )
    }
}

/// The finished sample for position `p`.
pub open spec fn sample_for(p: Position, n: nat, bound: int) -> Sample {
    Sample { position: p, outcome: eval_outcome(p.re as int, p.im as int, n, bound) }
}

/// The integer square root of a machine word, by bisection.
pub fn isqrt(x: u64) -> (r: u64)
    ensures
        r * r <= x,
        x < (r + 1) * (r + 1),
{
    let mut lo: u64 = 0;
    let mut hi: u64 = 4_294_967_295;
    proof {
        assert(x < (4_294_967_295u64 + 1) * (4_294_967_295u64 + 1)) by (nonlinear_arith)
            requires
                x <= u64::MAX,
        ;
    }
    while lo < hi
        invariant
            lo <= hi <= 4_294_967_295,
            lo * lo <= x,
            x < (hi + 1) * (hi + 1),
        decreases hi - lo,
    {
        let mid: u64 = lo + (hi - lo + 1) / 2;
        proof {
            assert(mid * mid <= u64::MAX) by (nonlinear_arith)
                requires
                    mid <= 4_294_967_295u64,
            ;
        }
        if mid * mid <= x {
            lo = mid;
        } else {
            hi = mid - 1;
        }
    }
    lo
}

/// Truncating division by `SCALE` of a value within `q * SCALE` of zero
/// yields a value within `q` of zero.
proof fn lemma_scale_down_bound(x: int, q: int)
    requires
        0 <= q,
        -(q * (SCALE as int)) <= x <= q * (SCALE as int),
    ensures
        -q <= scale_down(x) <= q,
{
    let s: int = SCALE as int;
    lemma_div_by_multiple(q, s);
    if x >= 0 {
        lemma_div_pos_is_pos(x, s);
        lemma_div_is_ordered(x, q * s, s);
    } else {
        lemma_div_pos_is_pos(-x, s);
        lemma_div_is_ordered(-x, q * s, s);
    }
}

/// While `z` is still within the escape radius, one more step keeps every
/// intermediate product within `i64`, and the new components within
/// `1.8e9` micro-units.
proof fn lemma_step_bounds(zr: int, zi: int, cr: int, ci: int, bound: int)
    requires
        0 < bound <= BOUND_LIMIT,
        -COORD_LIMIT <= cr <= COORD_LIMIT,
        -COORD_LIMIT <= ci <= COORD_LIMIT,
        mag2(zr, zi) <= bound * bound,
    ensures
        0 <= zr * zr <= 1_600_000_000_000_000,
        0 <= zi * zi <= 1_600_000_000_000_000,
        -1_600_000_000_000_000 <= zr * zr - zi * zi <= 1_600_000_000_000_000,
        -1_600_000_000_000_000 <= 2 * (zr * zi) <= 1_600_000_000_000_000,
        -1_800_000_000 <= step_re(zr, zi, cr) <= 1_800_000_000,
        -1_800_000_000 <= step_im(zr, zi, ci) <= 1_800_000_000,
{
    assert(0 <= zr * zr && 0 <= zi * zi && zr * zr - zi * zi <= zr * zr + zi * zi
        && -(zr * zr + zi * zi) <= zr * zr - zi * zi && 2 * (zr * zi) <= zr * zr + zi * zi
        && -(zr * zr + zi * zi) <= 2 * (zr * zi)) by (nonlinear_arith);
    assert(bound * bound <= 1_600_000_000_000_000) by (nonlinear_arith)
        requires
            0 < bound <= 40_000_000,
    ;
    lemma_scale_down_bound(zr * zr - zi * zi, 1_600_000_000);
    lemma_scale_down_bound(2 * (zr * zi), 1_600_000_000);
}

/// Escape-time evaluation of one position: iterate `z <- z * z + c` up to
/// `iterations` times, stopping as soon as the squared modulus exceeds the
/// squared radius.
pub fn evaluate(position: Position, iterations: usize, bound: i64) -> (o: Outcome)
    requires
        iterations >= 1,
        0 < bound <= BOUND_LIMIT,
        position.valid(),
    ensures
        o == eval_outcome(
            position.re as int, position.im as int, iterations as nat, bound as int),
{
    let cr: i64 = position.re;
    let ci: i64 = position.im;
    let mut zr: i64 = 0;
    let mut zi: i64 = 0;
    let mut n: usize = 0;
    let mut diverged = false;
    proof {
        assert(0 < bound * bound) by (nonlinear_arith)
            requires
                0 < bound,
        ;
    }
    while n < iterations
        invariant_except_break
            n <= iterations,
            0 < bound <= BOUND_LIMIT,
            position.valid(),
            cr == position.re,
            ci == position.im,
            (zr as int, zi as int) == orbit(cr as int, ci as int, n as nat),
            mag2(zr as int, zi as int) <= bound * bound,
            !escapes_within(cr as int, ci as int, bound as int, n as nat),
            !diverged,
        ensures
            n <= iterations,
            diverged ==> escapes_within(cr as int, ci as int, bound as int, iterations as nat),
            !diverged ==> {
                &&& n == iterations
                &&& (zr as int, zi as int) == orbit(cr as int, ci as int, n as nat)
                &&& mag2(zr as int, zi as int) <= bound * bound
                &&& !escapes_within(cr as int, ci as int, bound as int, n as nat)
            },
            cr == position.re,
            ci == position.im,
            0 < bound <= BOUND_LIMIT,
            position.valid(),
        decreases iterations - n,
    {
        proof {
            lemma_step_bounds(zr as int, zi as int, cr as int, ci as int, bound as int);
        }
        let d: i64 = zr * zr - zi * zi;
        let p: i64 = 2 * (zr * zi);
        let nzr: i64 = d / SCALE + cr;
        let nzi: i64 = p / SCALE + ci;
        zr = nzr;
        zi = nzi;
        n = n + 1;
        proof {
            assert((zr as int, zi as int) == orbit(cr as int, ci as int, n as nat));
            assert(0 <= zr * zr <= 3_240_000_000_000_000_000
                && 0 <= zi * zi <= 3_240_000_000_000_000_000) by (nonlinear_arith)
                requires
                    -1_800_000_000 <= zr <= 1_800_000_000,
                    -1_800_000_000 <= zi <= 1_800_000_000,
            ;
            assert(bound * bound <= 1_600_000_000_000_000) by (nonlinear_arith)
                requires
                    0 < bound <= 40_000_000,
            ;
        }
        let m2: i64 = zr * zr + zi * zi;
        if m2 > bound * bound {
            diverged = true;
            proof {
                assert(escaped_at(cr as int, ci as int, bound as int, n as nat));
                assert(escapes_within(cr as int, ci as int, bound as int, iterations as nat));
            }
            break;
        }
        proof {
            assert forall|k: nat| 1 <= k <= n implies !escaped_at(
                cr as int, ci as int, bound as int, k) by {
                if k < n {
                    assert(!escapes_within(cr as int, ci as int, bound as int, (n - 1) as nat));
                } else {
                    assert(!escaped_at(cr as int, ci as int, bound as int, n as nat));
                }
            }
        }
    }
    if diverged {
        return Outcome::Diverged;
    }
    proof {
        lemma_step_bounds(zr as int, zi as int, cr as int, ci as int, bound as int);
        assert(bound * bound <= 1_600_000_000_000_000) by (nonlinear_arith)
            requires
                0 < bound <= 40_000_000,
        ;
    }
    let m2: i64 = zr * zr + zi * zi;
    let r: u64 = isqrt(m2 as u64);
    proof {
        lemma_sqrt_floor_unique(m2 as nat, r as nat);
        assert(r <= 40_000_000) by (nonlinear_arith)
            requires
                r * r <= 1_600_000_000_000_000u64,
        ;
    }
    Outcome::Converged(r as i64)
}

/// The origin's orbit never moves: every iterate of `z <- z * z + 0` is
/// zero.
pub proof fn lemma_origin_orbit(k: nat)
    ensures
        orbit(0, 0, k) == (0int, 0int),
    decreases k,
{
    lemma_div_of0(SCALE as int);
    if k > 0 {
        lemma_origin_orbit((k - 1) as nat);
    }
}

/// The origin never escapes: for any positive iteration budget and any
/// positive escape radius, its outcome is convergence with modulus zero.
pub proof fn lemma_origin_converges(n: nat, bound: int)
    requires
        n >= 1,
        0 < bound,
    ensures
        eval_outcome(0, 0, n, bound) == Outcome::Converged(0),
{
    assert(0 < bound * bound) by (nonlinear_arith)
        requires
            0 < bound,
    ;
    assert forall|k: nat| 1 <= k <= n implies !escaped_at(0, 0, bound, k) by {
        lemma_origin_orbit(k);
    }
    assert(!escapes_within(0, 0, bound, n));
    lemma_origin_orbit(n);
    assert(sqrt_floor(0) == 0);
}

/// The point `10 + 10i` leaves escape radius `2.0` on the very first
/// iteration, whatever the iteration budget: its outcome is divergence.
pub proof fn lemma_distant_point_diverges(n: nat)
    requires
        n >= 1,
    ensures
        eval_outcome(
            10 * (SCALE as int), 10 * (SCALE as int), n, 2 * (SCALE as int),
        ) == Outcome::Diverged,
{
    let c: int = 10 * (SCALE as int);
    let b: int = 2 * (SCALE as int);
    lemma_div_of0(SCALE as int);
    assert(orbit(c, c, 0) == (0int, 0int));
    assert(orbit(c, c, 1) == (c, c));
    assert(c * c + c * c > b * b) by (nonlinear_arith)
        requires
            c == 10_000_000,
            b == 2_000_000,
    ;
    assert(escaped_at(c, c, b, 1));
    assert(escapes_within(c, c, b, n));
}

} // verus!
