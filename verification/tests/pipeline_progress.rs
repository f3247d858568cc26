use mandelbrot::config::{Config, GridSpec};
use mandelbrot::sample::{Position, Sample, Outcome, SCALE};
use mandelbrot::grid::generate;
use mandelbrot::worker::Worker;
use mandelbrot::progress::ProgressAggregator;
use mandelbrot::collect::collect;
use mandelbrot::partition::PartitionError;
use mandelbrot::pipeline::run;

fn flat_grid(samples: i64) -> GridSpec {
    // One row of `samples` positions along the real axis.
    GridSpec { re_min: 0, re_max: samples - 1, im_min: 0, im_max: 0, delta: 1 }
}

#[test]
fn worker_signals_sum_to_chunk_size() {
    // 2500 samples: one signal of 1000 after each full batch, and a final
    // signal of 500 — together exactly the chunk size.
    let chunk: Vec<Position> = vec![Position { re: 0, im: 0 }; 2500];
    let mut worker = Worker::new(chunk, 5, 2 * SCALE);
    let mut signals: Vec<usize> = Vec::new();
    while !worker.is_done() {
        if let Some(signal) = worker.step() {
            signals.push(signal);
        }
    }
    signals.push(worker.finish());
    assert_eq!(signals, vec![1000, 1000, 500]);
    assert_eq!(signals.iter().sum::<usize>(), 2500);
    let results = worker.into_results();
    assert_eq!(results.len(), 2500);
    assert_eq!(results[0].outcome, Outcome::Converged(0));
}

#[test]
fn worker_exact_batch_final_signal_is_zero() {
    let chunk: Vec<Position> = vec![Position { re: 0, im: 0 }; 2000];
    let mut worker = Worker::new(chunk, 1, SCALE);
    let mut total: usize = 0;
    while !worker.is_done() {
        if let Some(signal) = worker.step() {
            total += signal;
        }
    }
    let last = worker.finish();
    assert_eq!(last, 0);
    total += last;
    assert_eq!(total, 2000);
}

#[test]
fn aggregator_reports_hundredths() {
    let mut agg = ProgressAggregator::new(4000);
    assert!(!agg.is_complete());
    agg.record(1000);
    assert_eq!(agg.percent_centi(), 2500);
    agg.record(1000);
    assert_eq!(agg.percent_centi(), 5000);
    agg.record(1000);
    agg.record(1000);
    assert!(agg.is_complete());
    assert_eq!(agg.percent_centi(), 10000);
}

#[test]
fn aggregator_rounds_down_until_complete() {
    let mut agg = ProgressAggregator::new(3);
    agg.record(1);
    assert_eq!(agg.percent_centi(), 3333);
    agg.record(1);
    assert_eq!(agg.percent_centi(), 6666);
    agg.record(1);
    assert_eq!(agg.percent_centi(), 10000);
}

#[test]
fn collect_concatenates_in_order() {
    let a = Sample { position: Position { re: 1, im: 0 }, outcome: Outcome::Diverged };
    let b = Sample { position: Position { re: 2, im: 0 }, outcome: Outcome::Converged(7) };
    let c = Sample { position: Position { re: 3, im: 0 }, outcome: Outcome::Converged(0) };
    let merged = collect(vec![vec![a, b], vec![], vec![c]]);
    assert_eq!(merged, vec![a, b, c]);
}

#[test]
fn run_single_worker_covers_grid() {
    let config = Config { grid: flat_grid(6), iterations: 10, bound: 2 * SCALE, threads: 1 };
    assert!(config.validate());
    let report = run(&config).unwrap();
    let positions = generate(&config.grid);
    assert_eq!(report.samples.len(), positions.len());
    assert_eq!(report.progress_received, positions.len());
    assert_eq!(report.final_percent_centi, 10000);
    for (sample, position) in report.samples.iter().zip(positions.iter()) {
        assert_eq!(sample.position, *position);
    }
}

#[test]
fn run_is_partition_invariant() {
    // The collected samples do not depend on how the work was split.
    let grid = flat_grid(7);
    let baseline = run(&Config { grid, iterations: 25, bound: 2 * SCALE, threads: 1 }).unwrap();
    for threads in [2, 3, 5, 7] {
        let report = run(&Config { grid, iterations: 25, bound: 2 * SCALE, threads }).unwrap();
        assert_eq!(report.samples, baseline.samples);
        assert_eq!(report.progress_received, baseline.progress_received);
    }
}

#[test]
fn run_rejects_excess_workers() {
    let config = Config { grid: flat_grid(6), iterations: 10, bound: 2 * SCALE, threads: 7 };
    let outcome = run(&config);
    assert!(matches!(outcome, Err(PartitionError::TooManyWorkers)));
}

#[test]
fn run_default_window_spot_checks() {
    // A small window inside the default parameters: interior points
    // converge, far corners diverge.
    let grid = GridSpec { re_min: -2 * SCALE, re_max: 0, im_min: -SCALE, im_max: 0, delta: SCALE };
    let config = Config { grid, iterations: 200, bound: 2 * SCALE, threads: 2 };
    let report = run(&config).unwrap();
    assert_eq!(report.samples.len(), 6);
    for sample in report.samples.iter() {
        // Every sampled point here lies in the Mandelbrot set or escapes;
        // the origin (shifted coordinates -1, 0 etc.) must converge.
        if sample.position == (Position { re: -SCALE, im: 0 }) {
            assert_eq!(sample.outcome, Outcome::Converged(0));
        }
        if sample.position == (Position { re: 0, im: 0 }) {
            assert_eq!(sample.outcome, Outcome::Converged(0));
        }
    }
}
