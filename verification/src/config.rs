//! Run parameters: the grid specification and the evaluation settings.

use vstd::prelude::*;

verus! {

/// Largest grid bound magnitude (in micro-units) a well-formed grid may use.
pub const GRID_COORD_LIMIT: i64 = 100_000_000;

/// Largest step size (in micro-units) a well-formed grid may use.
pub const GRID_DELTA_LIMIT: i64 = 100_000_000;

/// Largest total sample count a well-formed grid may describe, so that the
/// count fits a `usize` on every supported machine.
pub const MAX_TOTAL_SAMPLES: usize = 0xFFFF_FFFF;

/// The sampled rectangle `[re_min, re_max] x [im_min, im_max]` and the step
/// size `delta`, all in micro-units. Immutable once constructed.
#[derive(Clone, Copy, Debug, PartialEq, Eq, Structural)]
pub struct GridSpec {
    pub re_min: i64,
    pub re_max: i64,
    pub im_min: i64,
    pub im_max: i64,
    pub delta: i64,
}

/// How many positions one axis of span `max - min` contributes when stepped
/// by `delta`: the coordinates `min + k * delta` for `k` in `1 ..= count`,
/// one step past the largest multiple of `delta` that stays within the span.
pub open spec fn axis_steps(min: int, max: int, delta: int) -> int {
    (max - min) / delta + 1
}

impl GridSpec {
    /// Positions on the real axis.
    pub open spec fn re_steps(self) -> int {
        axis_steps(self.re_min as int, self.re_max as int, self.delta as int)
    }

    /// Positions on the imaginary axis.
    pub open spec fn im_steps(self) -> int {
        axis_steps(self.im_min as int, self.im_max as int, self.delta as int)
    }

    /// Total number of sample positions the grid describes.
    pub open spec fn total(self) -> int {
        self.re_steps() * self.im_steps()
    }

    /// The bounds are ordered and small enough for exact `i64` arithmetic,
    /// the step is strictly positive, and the sample count fits a `usize`.
    pub open spec fn wf(self) -> bool {
        &&& -GRID_COORD_LIMIT <= self.re_min <= self.re_max <= GRID_COORD_LIMIT
        &&& -GRID_COORD_LIMIT <= self.im_min <= self.im_max <= GRID_COORD_LIMIT
        &&& 0 < self.delta <= GRID_DELTA_LIMIT
        &&& self.total() <= MAX_TOTAL_SAMPLES
    }

    /// Decides well-formedness exactly.
    pub fn validate(&self) -> (r: bool)
        ensures
            r == self.wf(),
    {
        if !(-GRID_COORD_LIMIT <= self.re_min && self.re_min <= self.re_max
            && self.re_max <= GRID_COORD_LIMIT)
        {
            return false;
        }
        if !(-GRID_COORD_LIMIT <= self.im_min && self.im_min <= self.im_max
            && self.im_max <= GRID_COORD_LIMIT)
        {
            return false;
        }
        if !(0 < self.delta && self.delta <= GRID_DELTA_LIMIT) {
            return false;
        }
        let rsteps = (self.re_max - self.re_min) / self.delta + 1;
        let isteps = (self.im_max - self.im_min) / self.delta + 1;
        proof {
            lemma_axis_steps_bound(self.re_min as int, self.re_max as int, self.delta as int);
            lemma_axis_steps_bound(self.im_min as int, self.im_max as int, self.delta as int);
            assert(1 <= (rsteps as int) * (isteps as int) <= 0x10000000000000000int) by (nonlinear_arith)
                requires
                    1 <= rsteps <= 200_000_001int,
                    1 <= isteps <= 200_000_001int,
            ;
        }
        rsteps as i128 * isteps as i128 <= MAX_TOTAL_SAMPLES as i128
    }

    /// The total sample count as a machine word.
    pub fn total_samples(&self) -> (n: usize)
        requires
            self.wf(),
        ensures
            n == self.total(),
    {
        let rsteps = (self.re_max - self.re_min) / self.delta + 1;
        let isteps = (self.im_max - self.im_min) / self.delta + 1;
        proof {
            lemma_axis_steps_bound(self.re_min as int, self.re_max as int, self.delta as int);
            lemma_axis_steps_bound(self.im_min as int, self.im_max as int, self.delta as int);
            assert(1 <= (rsteps as int) * (isteps as int)) by (nonlinear_arith)
                requires
                    1 <= rsteps,
                    1 <= isteps,
            ;
        }
        (rsteps * isteps) as usize
    }
}

/// One axis count is positive and no larger than the span plus one.
pub proof fn lemma_axis_steps_bound(min: int, max: int, delta: int)
    requires
        min <= max,
        0 < delta,
    ensures
        1 <= axis_steps(min, max, delta) <= max - min + 1,
{
    let span = max - min;
    vstd::arithmetic::div_mod::lemma_div_pos_is_pos(span, delta);
    vstd::arithmetic::div_mod::lemma_div_nonincreasing(span, delta);
}

/// The default sampling window around the Mandelbrot set:
/// `[-1.45, 0.45] x [-0.9, 0.9]` stepped by `0.0005`, in micro-units.
pub open spec fn default_grid() -> GridSpec {
    GridSpec {
        re_min: -1_450_000i64,
        re_max: 450_000i64,
        im_min: -900_000i64,
        im_max: 900_000i64,
        delta: 500i64,
    }
}

/// The default run: the default grid, 200 iterations, escape radius `2.0`,
/// one worker.
pub open spec fn default_config() -> Config {
    Config { grid: default_grid(), iterations: 200usize, bound: 2_000_000i64, threads: 1usize }
}

impl Default for GridSpec {
    fn default() -> (g: GridSpec)
        ensures
            g == default_grid(),
            g.wf(),
    {
        proof {
            vstd::arithmetic::div_mod::lemma_fundamental_div_mod_converse(
                1_900_000int, 500int, 3800int, 0int);
            vstd::arithmetic::div_mod::lemma_fundamental_div_mod_converse(
                1_800_000int, 500int, 3600int, 0int);
            assert(default_grid().re_steps() == 3801);
            assert(default_grid().im_steps() == 3601);
            assert(3801int * 3601int == 13_687_401int) by (nonlinear_arith);
            assert(default_grid().total() == 13_687_401);
        }
        GridSpec {
            re_min: -1_450_000,
            re_max: 450_000,
            im_min: -900_000,
            im_max: 900_000,
            delta: 500,
        }
    }
}

/// Everything one run needs: the grid, the iteration budget, the escape
/// radius `bound` (micro-units) and the number of workers. Immutable for the
/// duration of a run.
#[derive(Clone, Copy, Debug, PartialEq, Eq, Structural)]
pub struct Config {
    pub grid: GridSpec,
    pub iterations: usize,
    pub bound: i64,
    pub threads: usize,
}

/// Largest escape radius (in micro-units) the evaluator accepts.
pub const BOUND_LIMIT: i64 = 40_000_000;

impl Config {
    /// The grid is well formed, at least one iteration is asked for, the
    /// escape radius is positive and small enough for exact arithmetic, and
    /// there is at least one worker.
    pub open spec fn wf(self) -> bool {
        &&& self.grid.wf()
        &&& self.iterations >= 1
        &&& 0 < self.bound <= BOUND_LIMIT
        &&& self.threads >= 1
    }

    /// Decides well-formedness exactly.
    pub fn validate(&self) -> (r: bool)
        ensures
            r == self.wf(),
    {
        self.grid.validate() && self.iterations >= 1 && 0 < self.bound && self.bound <= BOUND_LIMIT
            && self.threads >= 1
    }

    /// Decides whether this configuration can drive a run: well formed, and
    /// with no more workers than there are samples to share out, so that an
    /// oversized worker count is rejected before any work starts.
    pub fn validate_for_run(&self) -> (r: bool)
        ensures
            r == (self.wf() && self.threads <= self.grid.total()),
    {
        self.validate() && self.threads <= self.grid.total_samples()
    }
}

impl Default for Config {
    fn default() -> (c: Config)
        ensures
            c == default_config(),
            c.wf(),
    {
        Config { grid: GridSpec::default(), iterations: 200, bound: 2_000_000, threads: 1 }
    }
}

} // verus!
