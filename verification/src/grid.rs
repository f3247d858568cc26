//! The grid generator: an ordered sequence of sample positions from a grid
//! specification.
//!
//! Coordinates are derived by multiplication from integer indices, never by
//! repeated addition, so the sequence is exact and deterministic. On each
//! axis the coordinates are `min + k * delta` for `k` in `1 ..= steps`: the
//! whole sampled rectangle sits one `delta` past the stated minima, and both
//! shifted endpoints are included. Positions are ordered row-major: all
//! imaginary coordinates for the first real coordinate, then the next.

use vstd::prelude::*;
use vstd::arithmetic::div_mod::{
    lemma_fundamental_div_mod, lemma_fundamental_div_mod_converse,
};
use vstd::arithmetic::mul::lemma_mul_inequality;
use crate::sample::Position;
use crate::config::{GridSpec, axis_steps, lemma_axis_steps_bound};

verus! {

/// The real coordinate of column `i` (counted from zero), in micro-units.
pub open spec fn grid_re(g: GridSpec, i: int) -> int {
    g.re_min + (i + 1) * g.delta
}

/// The imaginary coordinate of row `j` (counted from zero), in micro-units.
pub open spec fn grid_im(g: GridSpec, j: int) -> int {
    g.im_min + (j + 1) * g.delta
}

/// The position at index `k` of the generated sequence.
pub open spec fn position_at(g: GridSpec, k: int) -> Position {
    Position {
        re: grid_re(g, k / g.im_steps()) as i64,
        im: grid_im(g, k % g.im_steps()) as i64,
    }
}

/// The whole generated sequence, as a mathematical value.
pub open spec fn grid_positions(g: GridSpec) -> Seq<Position> {
    Seq::new(g.total() as nat, |k: int| position_at(g, k))
}

/// A coordinate `min + (i + 1) * delta` stays within one `delta` of the
/// span, for any index below the axis count.
pub proof fn lemma_axis_coord_bounds(min: int, max: int, delta: int, i: int)
    requires
        min <= max,
        0 < delta,
        0 <= i < axis_steps(min, max, delta),
    ensures
        min + delta <= min + (i + 1) * delta <= max + delta,
{
    let span = max - min;
    lemma_fundamental_div_mod(span, delta);
    lemma_mul_inequality(1, i + 1, delta);
    lemma_mul_inequality(i + 1, span / delta + 1, delta);
    assert((span / delta + 1) * delta == (span / delta) * delta + delta)
        by (nonlinear_arith);
    assert((span / delta) * delta <= span) by {
        assert(span % delta >= 0);
    }
}

/// Generate the ordered sample positions of a well-formed grid.
pub fn generate(g: &GridSpec) -> (r: Vec<Position>)
    requires
        g.wf(),
    ensures
        r@.len() == g.total(),
        r@ == grid_positions(*g),
        forall|k: int| 0 <= k < r@.len() ==> (#[trigger] r@[k]).valid(),
{
    let nx: usize = ((g.re_max - g.re_min) / g.delta + 1) as usize;
    let ny: usize = ((g.im_max - g.im_min) / g.delta + 1) as usize;
    proof {
        lemma_axis_steps_bound(g.re_min as int, g.re_max as int, g.delta as int);
        lemma_axis_steps_bound(g.im_min as int, g.im_max as int, g.delta as int);
    }
    let mut out: Vec<Position> = Vec::new();
    let mut i: usize = 0;
    while i < nx
        invariant
            g.wf(),
            nx == g.re_steps(),
            ny == g.im_steps(),
            i <= nx,
            out@.len() == i * ny,
            out@.len() <= g.total(),
            forall|k: int| 0 <= k < out@.len() ==> #[trigger] out@[k] == position_at(*g, k),
            forall|k: int| 0 <= k < out@.len() ==> (#[trigger] out@[k]).valid(),
        decreases nx - i,
    {
        let mut j: usize = 0;
        proof {
            lemma_mul_inequality(i + 1, nx as int, ny as int);
        }
        while j < ny
            invariant
                g.wf(),
                nx == g.re_steps(),
                ny == g.im_steps(),
                i < nx,
                j <= ny,
                out@.len() == i * ny + j,
                (i + 1) * (ny as int) <= g.total(),
                forall|k: int| 0 <= k < out@.len() ==> #[trigger] out@[k] == position_at(*g, k),
                forall|k: int| 0 <= k < out@.len() ==> (#[trigger] out@[k]).valid(),
            decreases ny - j,
        {
            proof {
                assert(i * ny + j < (i + 1) * (ny as int)) by (nonlinear_arith)
                    requires
                        j < ny,
                        0 <= i,
                        0 <= ny,
                ;
                lemma_axis_coord_bounds(
                    g.re_min as int, g.re_max as int, g.delta as int, i as int);
                lemma_axis_coord_bounds(
                    g.im_min as int, g.im_max as int, g.delta as int, j as int);
                lemma_fundamental_div_mod_converse(
                    i * ny + j, ny as int, i as int, j as int);
            }
            let re: i64 = g.re_min + (i as i64 + 1) * g.delta;
            let im: i64 = g.im_min + (j as i64 + 1) * g.delta;
            out.push(Position { re, im });
            j = j + 1;
        }
        i = i + 1;
        proof {
            assert(i * (ny as int) == (i - 1) * (ny as int) + ny) by (nonlinear_arith);
        }
    }
    proof {
        assert(out@.len() == g.total()) by {
            assert(i == nx);
            assert(out@.len() == nx * (ny as int));
        }
        assert(out@ =~= grid_positions(*g));
    }
    out
}

/// The boundary rule, documented: an axis whose `delta` equals its whole
/// extent contributes exactly two coordinates, `min + delta` (which is
/// `max`) and `min + 2 * delta` — both endpoints of the shifted window are
/// included.
pub proof fn lemma_full_extent_axis(min: int, max: int, delta: int)
    requires
        min <= max,
        0 < delta,
        delta == max - min,
    ensures
        axis_steps(min, max, delta) == 2,
{
    vstd::arithmetic::div_mod::lemma_div_by_self(delta);
}

} // verus!
