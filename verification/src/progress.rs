//! The progress aggregator: accumulates the workers' signals into a running
//! total and renders it as a percentage with two decimal places.

use vstd::prelude::*;
use vstd::arithmetic::div_mod::{
    lemma_fundamental_div_mod, lemma_div_pos_is_pos, lemma_div_is_ordered,
    lemma_div_by_multiple,
};
use vstd::arithmetic::mul::lemma_mul_inequality;
use crate::config::MAX_TOTAL_SAMPLES;

verus! {

/// The running total of received progress signals, against the known total
/// sample count of the run.
pub struct ProgressAggregator {
    received: usize,
    total: usize,
}

impl ProgressAggregator {
    /// The sum of all signals received so far.
    pub closed spec fn received_count(self) -> int {
        self.received as int
    }

    /// The total sample count the run will produce.
    pub closed spec fn total_count(self) -> int {
        self.total as int
    }

    /// The total is positive, small enough for exact percentage
    /// arithmetic, and the running total never passes it.
    pub open spec fn wf(self) -> bool {
        &&& 1 <= self.total_count() <= MAX_TOTAL_SAMPLES
        &&& 0 <= self.received_count() <= self.total_count()
    }

    /// A fresh aggregator for a run of `total` samples.
    pub fn new(total: usize) -> (a: ProgressAggregator)
        requires
            1 <= total <= MAX_TOTAL_SAMPLES,
        ensures
            a.wf(),
            a.received_count() == 0,
            a.total_count() == total,
    {
        ProgressAggregator { received: 0, total }
    }

    /// Accumulate one signal. The caller hands in signals of one run only,
    /// so together they never exceed the run's total.
    pub fn record(&mut self, signal: usize)
        requires
            old(self).wf(),
            old(self).received_count() + signal <= old(self).total_count(),
        ensures
            final(self).wf(),
            final(self).total_count() == old(self).total_count(),
            final(self).received_count() == old(self).received_count() + signal,
    {
        self.received = self.received + signal;
    }

    /// The running total, as a machine word.
    pub fn received_so_far(&self) -> (r: usize)
        ensures
            r == self.received_count(),
    {
        self.received
    }

    /// Whether the running total has reached the run's total.
    pub fn is_complete(&self) -> (b: bool)
        ensures
            b == (self.received_count() == self.total_count()),
    {
        self.received == self.total
    }

    /// The completed share in hundredths of a percent, rounded down: the
    /// figure `NN.NN%` renders. It reads `10000` exactly when the run is
    /// complete.
    pub fn percent_centi(&self) -> (p: usize)
        requires
            self.wf(),
        ensures
            p == self.received_count() * 10000 / self.total_count(),
            p <= 10000,
            (p == 10000) <==> (self.received_count() == self.total_count()),
    {
        let r: u64 = self.received as u64;
        let t: u64 = self.total as u64;
        let p64: u64 = r * 10000 / t;
        proof {
            let ri = self.received_count();
            let ti = self.total_count();
            lemma_mul_inequality(ri, ti, 10000);
            assert(ri * 10000 == 10000 * ri && ti * 10000 == 10000 * ti) by (nonlinear_arith);
            lemma_div_pos_is_pos(ri * 10000, ti);
            lemma_div_is_ordered(ri * 10000, ti * 10000, ti);
            lemma_div_by_multiple(10000, ti);
            assert(ti * 10000 == 10000 * ti) by (nonlinear_arith);
            if ri < ti {
                assert(ri * 10000 <= (ti - 1) * 10000) by (nonlinear_arith)
                    requires
                        ri <= ti - 1,
                ;
                assert((ti - 1) * 10000 == ti * 10000 - 10000) by (nonlinear_arith);
                lemma_fundamental_div_mod(ri * 10000, ti);
                assert(ri * 10000 / ti < 10000) by {
                    if ri * 10000 / ti >= 10000 {
                        lemma_mul_inequality(10000, ri * 10000 / ti, ti);
                        assert(ti * (ri * 10000 / ti) == (ri * 10000 / ti) * ti)
                            by (nonlinear_arith);
                        assert(10000 * ti <= (ri * 10000 / ti) * ti);
                        assert(ri * 10000 % ti >= 0);
                    }
                }
            }
        }
        p64 as usize
    }
}

} // verus!
