//! The whole run as one verified composition: generate the grid, cut it
//! into chunks, drive one worker per chunk while feeding every progress
//! signal to the aggregator, and collect the finished samples.
//!
//! Concurrency is the caller's affair: workers own disjoint chunks and
//! never read each other's state, so driving them here one after another
//! computes exactly what any interleaving computes. An unverified caller
//! may instead give each worker its own task and forward the signals
//! through a channel; the contracts of `Worker`, `ProgressAggregator` and
//! `collect` say all it needs.

use vstd::prelude::*;
use crate::sample::Sample;
use crate::config::Config;
use crate::grid::{generate, grid_positions};
use crate::partition::{
    partition, PartitionError, chunk_views, chunk_start, chunk_size,
    lemma_chunk_bounds, lemma_chunk_start_full,
};
use crate::worker::Worker;
use crate::progress::ProgressAggregator;
use crate::collect::{collect, sample_views, eval_all, lemma_partition_invariance};

verus! {

/// What a completed run hands back: the collected samples, the reconciled
/// progress total, and the last rendered percentage.
pub struct RunReport {
    pub samples: Vec<Sample>,
    pub progress_received: usize,
    pub final_percent_centi: usize,
}

/// The generated grid of a well-formed specification is never empty.
proof fn lemma_total_positive(config: Config)
    requires
        config.wf(),
    ensures
        config.grid.total() >= 1,
{
    crate::config::lemma_axis_steps_bound(
        config.grid.re_min as int, config.grid.re_max as int, config.grid.delta as int);
    crate::config::lemma_axis_steps_bound(
        config.grid.im_min as int, config.grid.im_max as int, config.grid.delta as int);
    assert(config.grid.re_steps() * config.grid.im_steps() >= 1) by (nonlinear_arith)
        requires
            config.grid.re_steps() >= 1,
            config.grid.im_steps() >= 1,
    ;
}

/// Run the whole pipeline for one configuration. On success the collected
/// sequence is exactly the evaluation of every generated position, the
/// aggregator has received the full total, and the final rendered
/// percentage is exactly `100.00`. A worker count beyond the sample count
/// is rejected before any work starts.
pub fn run(config: &Config) -> (r: Result<RunReport, PartitionError>)
    requires
        config.wf(),
    ensures
        match r {
            Result::Ok(report) => {
                &&& config.threads <= config.grid.total()
                &&& report.samples@ == eval_all(
                    grid_positions(config.grid), config.iterations as nat, config.bound as int)
                &&& report.samples@.len() == config.grid.total()
                &&& report.progress_received == config.grid.total()
                &&& report.final_percent_centi == 10000
            },
            Result::Err(e) => {
                &&& e == PartitionError::TooManyWorkers
                &&& config.threads > config.grid.total()
            },
        },
{
    proof {
        lemma_total_positive(*config);
    }
    let positions = generate(&config.grid);
    let total: usize = positions.len();
    let chunks = match partition(&positions, config.threads) {
        Result::Ok(c) => c,
        Result::Err(e) => {
            return Result::Err(e);
        },
    };
    let ghost all_chunks = chunk_views(chunks@);
    let ghost len_i = positions@.len() as int;
    let ghost wc = config.threads as int;
    let n: usize = config.iterations;
    let bound: i64 = config.bound;
    let mut agg = ProgressAggregator::new(total);
    let mut finished: Vec<Vec<Sample>> = Vec::new();
    let mut remaining = chunks;
    let mut i: usize = 0;
    while i < config.threads
        invariant
            config.wf(),
            n == config.iterations,
            bound == config.bound,
            wc == config.threads as int,
            len_i == positions@.len() as int,
            total == len_i,
            1 <= wc <= len_i,
            positions@ == grid_positions(config.grid),
            forall|k: int| 0 <= k < positions@.len() ==> (#[trigger] positions@[k]).valid(),
            all_chunks.len() == wc,
            forall|c: int|
                0 <= c < wc ==> #[trigger] all_chunks[c] == positions@.subrange(
                    chunk_start(len_i, wc, c), chunk_start(len_i, wc, c)
                        + chunk_size(len_i, wc, c)),
            all_chunks.flatten() == positions@,
            i <= wc,
            remaining@.len() == wc - i,
            forall|c: int| 0 <= c < wc - i ==> (#[trigger] remaining@[c])@ == all_chunks[i + c],
            finished@.len() == i,
            forall|c: int|
                0 <= c < i ==> (#[trigger] finished@[c])@ == eval_all(
                    all_chunks[c], n as nat, bound as int),
            agg.wf(),
            agg.total_count() == total,
            agg.received_count() == chunk_start(len_i, wc, i as int),
        decreases wc - i,
    {
        proof {
            lemma_chunk_bounds(len_i, wc, i as int);
        }
        let chunk = remaining.remove(0);
        let mut w = Worker::new(chunk, n, bound);
        while !w.is_done()
            invariant
                w.wf(),
                !w.is_finished(),
                w.chunk_seq() == all_chunks[i as int],
                w.iterations_of() == n as nat,
                w.bound_of() == bound as int,
                agg.wf(),
                agg.total_count() == total,
                total == len_i,
                1 <= wc <= len_i,
                0 <= i < wc,
                chunk_start(len_i, wc, i as int) + chunk_size(len_i, wc, i as int)
                    <= len_i,
                w.chunk_seq().len() == chunk_size(len_i, wc, i as int),
                agg.received_count() == chunk_start(len_i, wc, i as int)
                    + w.emitted_total(),
            decreases w.chunk_seq().len() - w.completed(),
        {
            let signal = w.step();
            match signal {
                Option::Some(s) => {
                    proof {
                        assert(w.emitted_total() <= w.completed());
                        assert(w.completed() <= w.chunk_seq().len());
                    }
                    agg.record(s);
                },
                Option::None => {},
            }
        }
        let last = w.finish();
        proof {
            assert(w.emitted_total() == w.chunk_seq().len());
        }
        agg.record(last);
        let done = w.into_results();
        proof {
            assert(done@ =~= eval_all(all_chunks[i as int], n as nat, bound as int));
        }
        finished.push(done);
        i = i + 1;
    }
    proof {
        lemma_chunk_start_full(len_i, wc);
        assert(agg.received_count() == total);
    }
    let final_percent = agg.percent_centi();
    let received = agg.received_so_far();
    let samples = collect(finished);
    proof {
        assert(sample_views(finished@) =~= all_chunks.map_values(
            |c: Seq<crate::sample::Position>| eval_all(c, n as nat, bound as int)));
        lemma_partition_invariance(
            all_chunks, positions@, sample_views(finished@), n as nat, bound as int);
    }
    Result::Ok(RunReport { samples, progress_received: received, final_percent_centi: final_percent })
}

} // verus!
