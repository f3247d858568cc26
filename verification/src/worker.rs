//! A worker: owns one chunk, evaluates every sample in order, and emits a
//! progress signal after each full batch, plus one final signal for the
//! remainder, so that its signals sum to exactly its chunk size.

use vstd::prelude::*;
use crate::sample::{Position, Sample};
use crate::config::BOUND_LIMIT;
use crate::escape::{evaluate, sample_for};

verus! {

/// Number of samples a worker finishes between two progress signals.
pub const PROGRESS_BATCH: usize = 1000;

/// One worker's whole state: its chunk, the run parameters, the samples
/// finished so far, and the sum of the progress signals it has handed out.
pub struct Worker {
    chunk: Vec<Position>,
    iterations: usize,
    bound: i64,
    done: Vec<Sample>,
    emitted: usize,
    finished: bool,
}

impl Worker {
    /// The chunk this worker owns.
    pub closed spec fn chunk_seq(self) -> Seq<Position> {
        self.chunk@
    }

    /// The samples finished so far, in chunk order.
    pub closed spec fn done_seq(self) -> Seq<Sample> {
        self.done@
    }

    /// The iteration budget the worker evaluates with.
    pub closed spec fn iterations_of(self) -> nat {
        self.iterations as nat
    }

    /// The escape radius the worker evaluates with, in micro-units.
    pub closed spec fn bound_of(self) -> int {
        self.bound as int
    }

    /// The sum of every progress signal handed out so far.
    pub closed spec fn emitted_total(self) -> int {
        self.emitted as int
    }

    /// Whether the final signal has been handed out.
    pub closed spec fn is_finished(self) -> bool {
        self.finished
    }

    /// How many samples have been finished.
    pub open spec fn completed(self) -> nat {
        self.done_seq().len()
    }

    /// The parameters are usable and every position of the chunk is small
    /// enough for the evaluator.
    pub open spec fn params_ok(self) -> bool {
        &&& self.iterations_of() >= 1
        &&& 0 < self.bound_of() <= BOUND_LIMIT
        &&& forall|k: int|
            0 <= k < self.chunk_seq().len() ==> (#[trigger] self.chunk_seq()[k]).valid()
    }

    /// Every finished sample is the evaluation of its position, and the
    /// signal sum always accounts exactly for the finished samples: full
    /// batches while running, the whole chunk once finished.
    pub open spec fn wf(self) -> bool {
        &&& self.params_ok()
        &&& self.completed() <= self.chunk_seq().len()
        &&& forall|k: int|
            0 <= k < self.completed() ==> #[trigger] self.done_seq()[k] == sample_for(
                self.chunk_seq()[k], self.iterations_of(), self.bound_of())
        &&& if self.is_finished() {
            self.completed() == self.chunk_seq().len() && self.emitted_total()
                == self.chunk_seq().len()
        } else {
            self.emitted_total() == self.completed() - (
            self.completed() as int % (PROGRESS_BATCH as int))
        }
    }

    /// A fresh worker for one chunk.
    pub fn new(chunk: Vec<Position>, iterations: usize, bound: i64) -> (w: Worker)
        requires
            iterations >= 1,
            0 < bound <= BOUND_LIMIT,
            forall|k: int| 0 <= k < chunk@.len() ==> (#[trigger] chunk@[k]).valid(),
        ensures
            w.wf(),
            !w.is_finished(),
            w.chunk_seq() == chunk@,
            w.completed() == 0,
            w.emitted_total() == 0,
            w.iterations_of() == iterations as nat,
            w.bound_of() == bound as int,
    {
        Worker {
            chunk,
            iterations,
            bound,
            done: Vec::new(),
            emitted: 0,
            finished: false,
        }
    }

    /// Whether every sample of the chunk has been evaluated.
    pub fn is_done(&self) -> (b: bool)
        ensures
            b == (self.completed() == self.chunk_seq().len()),
    {
        self.done.len() == self.chunk.len()
    }

    /// Evaluate the next sample of the chunk. Hands back a progress signal
    /// exactly when this completes a full batch.
    pub fn step(&mut self) -> (signal: Option<usize>)
        requires
            old(self).wf(),
            !old(self).is_finished(),
            old(self).completed() < old(self).chunk_seq().len(),
        ensures
            final(self).wf(),
            !final(self).is_finished(),
            final(self).chunk_seq() == old(self).chunk_seq(),
            final(self).iterations_of() == old(self).iterations_of(),
            final(self).bound_of() == old(self).bound_of(),
            final(self).completed() == old(self).completed() + 1,
            final(self).done_seq() == old(self).done_seq().push(
                sample_for(
                    old(self).chunk_seq()[old(self).completed() as int],
                    old(self).iterations_of(),
                    old(self).bound_of(),
                ),
            ),
            signal == (if final(self).completed() as int % (PROGRESS_BATCH as int) == 0 {
                Option::Some(PROGRESS_BATCH)
            } else {
                Option::<usize>::None
            }),
            final(self).emitted_total() == old(self).emitted_total() + (
            if signal is Some {
                PROGRESS_BATCH as int
            } else {
                0int
            }),
    {
        let idx: usize = self.done.len();
        let pos: Position = self.chunk[idx];
        let outcome = evaluate(pos, self.iterations, self.bound);
        self.done.push(Sample { position: pos, outcome });
        if self.done.len() % PROGRESS_BATCH == 0 {
            self.emitted = self.emitted + PROGRESS_BATCH;
            Option::Some(PROGRESS_BATCH)
        } else {
            Option::None
        }
    }

    /// The final progress signal: the remainder below one batch. After it,
    /// the signals handed out sum to exactly the chunk size.
    pub fn finish(&mut self) -> (signal: usize)
        requires
            old(self).wf(),
            !old(self).is_finished(),
            old(self).completed() == old(self).chunk_seq().len(),
        ensures
            final(self).wf(),
            final(self).is_finished(),
            final(self).chunk_seq() == old(self).chunk_seq(),
            final(self).done_seq() == old(self).done_seq(),
            final(self).iterations_of() == old(self).iterations_of(),
            final(self).bound_of() == old(self).bound_of(),
            signal == old(self).chunk_seq().len() as int % (PROGRESS_BATCH as int),
            final(self).emitted_total() == old(self).emitted_total() + signal,
            final(self).emitted_total() == final(self).chunk_seq().len(),
    {
        let signal: usize = self.done.len() % PROGRESS_BATCH;
        self.emitted = self.emitted + signal;
        self.finished = true;
        signal
    }

    /// The finished samples, in chunk order.
    pub fn into_results(self) -> (r: Vec<Sample>)
        requires
            self.wf(),
            self.is_finished(),
        ensures
            r@ == self.done_seq(),
            r@.len() == self.chunk_seq().len(),
            forall|k: int|
                0 <= k < r@.len() ==> #[trigger] r@[k] == sample_for(
                    self.chunk_seq()[k], self.iterations_of(), self.bound_of()),
    {
        self.done
    }
}

} // verus!
