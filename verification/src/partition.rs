//! The work partitioner: exactly `worker_count` contiguous chunks covering
//! the sample sequence, sizes differing by at most one.

use vstd::prelude::*;
use vstd::arithmetic::div_mod::{
    lemma_fundamental_div_mod, lemma_div_is_ordered, lemma_div_by_self,
};
use vstd::arithmetic::mul::lemma_mul_inequality;
use crate::sample::Position;

verus! {

/// Why a worker count was rejected: it was zero, or it exceeded the number
/// of samples to share out.
#[derive(Clone, Copy, Debug, PartialEq, Eq, Structural)]
pub enum PartitionError {
    NoWorkers,
    TooManyWorkers,
}

/// How many samples chunk `i` receives when `len` samples are shared among
/// `wc` workers: the first `len % wc` chunks take one extra.
pub open spec fn chunk_size(len: int, wc: int, i: int) -> int {
    len / wc + if i < len % wc { 1int } else { 0int }
}

/// Index of the first sample of chunk `i`.
pub open spec fn chunk_start(len: int, wc: int, i: int) -> int {
    i * (len / wc) + if i <= len % wc { i } else { len % wc }
}

/// The view of each chunk of a chunk vector.
pub open spec fn chunk_views(chunks: Seq<Vec<Position>>) -> Seq<Seq<Position>> {
    chunks.map_values(|c: Vec<Position>| c@)
}

/// Chunk `i` ends where chunk `i + 1` begins; every chunk is non-empty, no
/// larger than the whole, and lies within the sequence.
pub proof fn lemma_chunk_bounds(len: int, wc: int, i: int)
    requires
        1 <= wc <= len,
        0 <= i < wc,
    ensures
        chunk_start(len, wc, i) + chunk_size(len, wc, i) == chunk_start(len, wc, i + 1),
        0 <= chunk_start(len, wc, i),
        chunk_start(len, wc, i + 1) <= len,
        1 <= chunk_size(len, wc, i) <= len,
{
    let q = len / wc;
    let rem = len % wc;
    lemma_fundamental_div_mod(len, wc);
    lemma_div_by_self(wc);
    lemma_div_is_ordered(wc, len, wc);
    assert(1 <= q);
    assert((i + 1) * q == i * q + q) by (nonlinear_arith);
    assert(0 <= i * q) by (nonlinear_arith)
        requires
            0 <= i,
            0 <= q,
    ;
    lemma_mul_inequality(i + 1, wc, q);
    assert(wc * q == q * wc) by (nonlinear_arith);
}

/// The chunks together span the whole sequence: chunk `wc` would begin at
/// its very end.
pub proof fn lemma_chunk_start_full(len: int, wc: int)
    requires
        1 <= wc <= len,
    ensures
        chunk_start(len, wc, wc) == len,
{
    lemma_fundamental_div_mod(len, wc);
    assert(wc * (len / wc) == (len / wc) * wc) by (nonlinear_arith);
}

/// Running sum of the first `i` chunk sizes.
pub open spec fn chunk_sizes_sum(len: int, wc: int, i: int) -> int
    decreases i,
{
    if i <= 0 {
        0
    } else {
        chunk_sizes_sum(len, wc, i - 1) + chunk_size(len, wc, i - 1)
    }
}

/// Each prefix of chunks ends exactly where the next chunk starts.
proof fn lemma_sum_matches_start(len: int, wc: int, i: int)
    requires
        1 <= wc <= len,
        0 <= i <= wc,
    ensures
        chunk_sizes_sum(len, wc, i) == chunk_start(len, wc, i),
    decreases i,
{
    if i == 0 {
        assert(0 * (len / wc) == 0) by (nonlinear_arith);
    } else {
        lemma_sum_matches_start(len, wc, i - 1);
        lemma_chunk_bounds(len, wc, i - 1);
    }
}

/// The chunk sizes sum exactly to the sample count: the progress signals of
/// all workers — each worker's summing to its own chunk size — together
/// account for every sample exactly once.
pub proof fn lemma_chunk_sizes_sum_to_len(len: int, wc: int)
    requires
        1 <= wc <= len,
    ensures
        chunk_sizes_sum(len, wc, wc) == len,
{
    lemma_sum_matches_start(len, wc, wc);
    lemma_chunk_start_full(len, wc);
}

/// Any two chunks of the same partition differ in size by at most one.
pub proof fn lemma_chunk_sizes_balanced(len: int, wc: int, i: int, j: int)
    requires
        1 <= wc <= len,
        0 <= i < wc,
        0 <= j < wc,
    ensures
        -1 <= chunk_size(len, wc, i) - chunk_size(len, wc, j) <= 1,
{
}

/// Split the sample sequence into exactly `worker_count` contiguous chunks,
/// every sample in exactly one chunk, sizes differing by at most one. A
/// worker count of zero, or one exceeding the sample count, is rejected.
pub fn partition(samples: &Vec<Position>, worker_count: usize) -> (r: Result<
    Vec<Vec<Position>>,
    PartitionError,
>)
    ensures
        match r {
            Result::Ok(chunks) => {
                let len = samples@.len() as int;
                let wc = worker_count as int;
                &&& 1 <= wc <= len
                &&& chunks@.len() == wc
                &&& forall|i: int|
                    0 <= i < wc ==> (#[trigger] chunks@[i])@ == samples@.subrange(
                        chunk_start(len, wc, i),
                        chunk_start(len, wc, i) + chunk_size(len, wc, i),
                    )
                &&& forall|i: int| 0 <= i < wc ==> (#[trigger] chunks@[i])@.len()
                    == chunk_size(len, wc, i)
                &&& chunk_views(chunks@).flatten() == samples@
            },
            Result::Err(e) => {
                ||| (e == PartitionError::NoWorkers && worker_count == 0)
                ||| (e == PartitionError::TooManyWorkers && worker_count >= 1
                    && worker_count > samples@.len())
            },
        },
{
    let len: usize = samples.len();
    if worker_count == 0 {
        return Result::Err(PartitionError::NoWorkers);
    }
    if worker_count > len {
        return Result::Err(PartitionError::TooManyWorkers);
    }
    let q: usize = len / worker_count;
    let rem: usize = len % worker_count;
    let mut chunks: Vec<Vec<Position>> = Vec::new();
    let mut idx: usize = 0;
    let mut i: usize = 0;
    while i < worker_count
        invariant
            1 <= worker_count <= len,
            len == samples@.len(),
            q == len as int / worker_count as int,
            rem == len as int % worker_count as int,
            i <= worker_count,
            chunks@.len() == i,
            idx == chunk_start(len as int, worker_count as int, i as int),
            0 <= idx <= len,
            forall|c: int|
                0 <= c < i ==> (#[trigger] chunks@[c])@ == samples@.subrange(
                    chunk_start(len as int, worker_count as int, c),
                    chunk_start(len as int, worker_count as int, c)
                        + chunk_size(len as int, worker_count as int, c),
                ),
            chunk_views(chunks@).flatten() == samples@.subrange(0, idx as int),
        decreases worker_count - i,
    {
        proof {
            lemma_chunk_bounds(len as int, worker_count as int, i as int);
        }
        let size: usize = if i < rem {
            q + 1
        } else {
            q
        };
        let start0: usize = idx;
        let mut chunk: Vec<Position> = Vec::new();
        let mut t: usize = 0;
        while t < size
            invariant
                start0 + size <= len,
                len == samples@.len(),
                t <= size,
                chunk@.len() == t,
                forall|u: int| 0 <= u < t ==> #[trigger] chunk@[u] == samples@[start0 + u],
            decreases size - t,
        {
            let x: Position = samples[start0 + t];
            chunk.push(x);
            t = t + 1;
        }
        proof {
            assert(chunk@ =~= samples@.subrange(start0 as int, start0 + size));
        }
        let ghost prior = chunk_views(chunks@);
        chunks.push(chunk);
        proof {
            assert(chunk_views(chunks@) =~= prior.push(chunk@));
            prior.lemma_flatten_push(chunk@);
            assert(samples@.subrange(0, start0 as int) + samples@.subrange(
                start0 as int, start0 + size) =~= samples@.subrange(0, start0 + size));
        }
        idx = idx + size;
        i = i + 1;
    }
    proof {
        lemma_chunk_start_full(len as int, worker_count as int);
        assert(chunk_views(chunks@).flatten() == samples@.subrange(0, len as int));
        assert(samples@.subrange(0, len as int) =~= samples@);
        assert forall|c: int| 0 <= c < worker_count implies (#[trigger] chunks@[c])@.len()
            == chunk_size(len as int, worker_count as int, c) by {
            lemma_chunk_bounds(len as int, worker_count as int, c);
        }
    }
    Result::Ok(chunks)
}

} // verus!
