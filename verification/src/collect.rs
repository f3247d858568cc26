//! The result collector: concatenates the workers' finished-sample
//! sequences, and the laws tying the collection back to the generated grid.

use vstd::prelude::*;
use crate::sample::{Position, Sample};
use crate::escape::sample_for;

verus! {

/// The view of each part of a result vector.
pub open spec fn sample_views(parts: Seq<Vec<Sample>>) -> Seq<Seq<Sample>> {
    parts.map_values(|v: Vec<Sample>| v@)
}

/// Every position of `ps` evaluated with the same parameters, in order.
pub open spec fn eval_all(ps: Seq<Position>, n: nat, bound: int) -> Seq<Sample> {
    ps.map_values(|p: Position| sample_for(p, n, bound))
}

/// Concatenate the workers' outputs in the order they are handed in.
pub fn collect(parts: Vec<Vec<Sample>>) -> (r: Vec<Sample>)
    ensures
        r@ == sample_views(parts@).flatten(),
{
    let mut out: Vec<Sample> = Vec::new();
    let mut i: usize = 0;
    while i < parts.len()
        invariant
            i <= parts@.len(),
            out@ == sample_views(parts@.subrange(0, i as int)).flatten(),
        decreases parts@.len() - i,
    {
        let mut j: usize = 0;
        while j < parts[i].len()
            invariant
                i < parts@.len(),
                j <= parts@[i as int]@.len(),
                out@ == sample_views(parts@.subrange(0, i as int)).flatten()
                    + parts@[i as int]@.subrange(0, j as int),
            decreases parts@[i as int]@.len() - j,
        {
            let s: Sample = parts[i][j];
            out.push(s);
            proof {
                assert(parts@[i as int]@.subrange(0, j + 1) =~= parts@[i as int]@.subrange(
                    0, j as int).push(s));
                assert(sample_views(parts@.subrange(0, i as int)).flatten() + parts@[
                    i as int]@.subrange(0, j + 1) =~= (sample_views(parts@.subrange(
                    0, i as int)).flatten() + parts@[i as int]@.subrange(0, j as int)).push(s));
            }
            j = j + 1;
        }
        proof {
            let prior = sample_views(parts@.subrange(0, i as int));
            assert(parts@[i as int]@.subrange(0, parts@[i as int]@.len() as int) =~= parts@[
                i as int]@);
            assert(sample_views(parts@.subrange(0, i + 1)) =~= prior.push(parts@[i as int]@));
            prior.lemma_flatten_push(parts@[i as int]@);
        }
        i = i + 1;
    }
    proof {
        assert(parts@.subrange(0, parts@.len() as int) =~= parts@);
    }
    out
}

/// Evaluating chunk by chunk and flattening is the same as evaluating the
/// flattened sequence: mapping commutes with concatenation.
pub proof fn lemma_eval_flatten_commutes(chunks: Seq<Seq<Position>>, n: nat, bound: int)
    ensures
        chunks.map_values(|c: Seq<Position>| eval_all(c, n, bound)).flatten()
            == eval_all(chunks.flatten(), n, bound),
    decreases chunks.len(),
{
    let f = |c: Seq<Position>| eval_all(c, n, bound);
    if chunks.len() == 0 {
        assert(chunks.map_values(f).flatten() =~= eval_all(chunks.flatten(), n, bound));
    } else {
        let tail = chunks.drop_first();
        lemma_eval_flatten_commutes(tail, n, bound);
        assert(chunks.map_values(f).drop_first() =~= tail.map_values(f));
        assert(chunks.map_values(f).flatten() == f(chunks.first())
            + tail.map_values(f).flatten());
        assert(eval_all(chunks.first() + tail.flatten(), n, bound) =~= eval_all(
            chunks.first(), n, bound) + eval_all(tail.flatten(), n, bound));
        assert(chunks.flatten() == chunks.first() + tail.flatten());
    }
}

/// Partition invariance: however the grid is cut into chunks, evaluating
/// every chunk and collecting the results yields, as a multiset (indeed in
/// this chunk order, as a sequence), exactly the evaluation of the whole
/// generated sequence — nothing missing, nothing duplicated.
pub proof fn lemma_partition_invariance(
    chunks: Seq<Seq<Position>>,
    grid: Seq<Position>,
    results: Seq<Seq<Sample>>,
    n: nat,
    bound: int,
)
    requires
        chunks.flatten() == grid,
        results.len() == chunks.len(),
        forall|i: int|
            0 <= i < chunks.len() ==> #[trigger] results[i] == eval_all(chunks[i], n, bound),
    ensures
        results.flatten() == eval_all(grid, n, bound),
        results.flatten().to_multiset() == eval_all(grid, n, bound).to_multiset(),
        results.flatten().len() == grid.len(),
{
    lemma_eval_flatten_commutes(chunks, n, bound);
    assert(results =~= chunks.map_values(|c: Seq<Position>| eval_all(c, n, bound)));
}

/// With a single worker, the collected sequence is the evaluation of the
/// whole generated sequence, so its size equals the generated count.
pub proof fn lemma_single_worker_count(
    grid: Seq<Position>,
    results: Seq<Seq<Sample>>,
    n: nat,
    bound: int,
)
    requires
        results.len() == 1,
        results[0] == eval_all(grid, n, bound),
    ensures
        results.flatten() == eval_all(grid, n, bound),
        results.flatten().len() == grid.len(),
{
    results.lemma_flatten_singleton();
}

} // verus!
