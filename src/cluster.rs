use crate::downsample::PixelError;
use vstd::prelude::*;

verus! {

/// The score key of the largest finite IEEE-754 single. A clustering score
/// is a sum of squares; a key above this one stands for an infinite or NaN
/// score (or a negative one, which no sum of squares gives).
pub const LARGEST_FINITE_KEY: u32 = 0x7f7f_ffff;

/// `i` indexes a least score of `scores`, and no earlier score is as low.
pub open spec fn is_best(scores: Seq<u32>, i: int) -> bool {
    &&& 0 <= i < scores.len()
    &&& forall|j: int| 0 <= j < scores.len() ==> scores[i] <= #[trigger] scores[j]
    &&& forall|j: int| 0 <= j < i ==> scores[i] < #[trigger] scores[j]
}

/// The first run with the least score.
pub open spec fn best_index(scores: Seq<u32>) -> int {
    choose|i: int| is_best(scores, i)
}

/// Every non-empty sequence of scores has a first least one.
pub proof fn lemma_best_exists(scores: Seq<u32>)
    requires
        scores.len() > 0,
    ensures
        is_best(scores, best_index(scores)),
    decreases scores.len(),
{
    if scores.len() == 1 {
        assert(is_best(scores, 0));
    } else {
        let t = scores.drop_last();
        lemma_best_exists(t);
        let i = best_index(t);
        let last = scores.len() - 1;
        assert(is_best(t, i));
        assert forall|j: int| 0 <= j < last implies #[trigger] scores[j] == t[j] by {}
        if scores[last] < t[i] {
            assert forall|j: int| 0 <= j < scores.len() implies scores[last] <= #[trigger] scores[j] by {
                if j < last {
                    assert(t[i] <= t[j]);
                }
            }
            assert forall|j: int| 0 <= j < last implies scores[last] < #[trigger] scores[j] by {
                assert(t[i] <= t[j]);
            }
            assert(is_best(scores, last));
        } else {
            assert forall|j: int| 0 <= j < scores.len() implies scores[i] <= #[trigger] scores[j] by {
                if j < last {
                    assert(t[i] <= t[j]);
                }
            }
            assert forall|j: int| 0 <= j < i implies scores[i] < #[trigger] scores[j] by {
                assert(t[i] < t[j]);
            }
            assert(is_best(scores, i));
        }
    }
}

/// At most one index is the first least one.
pub proof fn lemma_best_unique(scores: Seq<u32>, i: int)
    requires
        is_best(scores, i),
    ensures
        best_index(scores) == i,
{
    let c = best_index(scores);
    assert(is_best(scores, c));
    assert(scores[c] <= scores[i]);
    assert(scores[i] <= scores[c]);
}

/// More restarts never give a worse result: with run `i` seeded by
/// `seed + i`, the first `n` runs of a longer series are the runs of the
/// shorter one, and the best score over the first `m >= n` runs is at most
/// the best over the first `n`.
pub proof fn lemma_more_runs_never_worse(scores: Seq<u32>, n: int, m: int)
    requires
        1 <= n <= m <= scores.len(),
    ensures
        scores.take(m)[best_index(scores.take(m))] <= scores.take(n)[best_index(scores.take(n))],
{
    lemma_best_exists(scores.take(n));
    lemma_best_exists(scores.take(m));
    let i = best_index(scores.take(n));
    assert(scores.take(m)[i] == scores.take(n)[i]);
}

/// The seeds of the clustering runs: run `i` of `runs` is seeded with
/// `seed + i`, wrapping past `u64::MAX`. Fails with `InvalidInput` when there
/// are no samples, no runs, or a palette size of zero.
pub fn run_seeds(sample_count: usize, k: usize, runs: usize, seed: u64) -> (r: Result<
    Vec<u64>,
    PixelError,
>)
    ensures
        sample_count == 0 || k == 0 || runs == 0 <==> r == Err::<Vec<u64>, PixelError>(
            PixelError::InvalidInput,
        ),
        r is Ok <==> !(sample_count == 0 || k == 0 || runs == 0),
        r matches Ok(seeds) ==> seeds@.len() == runs && forall|i: int|
            0 <= i < runs ==> #[trigger] seeds@[i] == (seed + i) % 0x1_0000_0000_0000_0000,
{
    if sample_count == 0 || k == 0 || runs == 0 {
        return Err(PixelError::InvalidInput);
    }
    let mut seeds: Vec<u64> = Vec::new();
    let mut i: usize = 0;
    while i < runs
        invariant
            i <= runs,
            seeds@.len() == i,
            forall|j: int| 0 <= j < i ==> #[trigger] seeds@[j] == (seed + j) % 0x1_0000_0000_0000_0000,
        decreases runs - i,
    {
        seeds.push(seed.wrapping_add(i as u64));
        i = i + 1;
    }
    Ok(seeds)
}

/// The run to keep, given each run's score key in run order: the first run
/// with the least score. Fails with `InvalidInput` when there is no run or
/// when the least score is not finite.
pub fn select_best_run(scores: &Vec<u32>) -> (r: Result<usize, PixelError>)
    ensures
        scores@.len() == 0 ==> r == Err::<usize, PixelError>(PixelError::InvalidInput),
        scores@.len() > 0 ==> {
            let b = best_index(scores@);
            &&& is_best(scores@, b)
            &&& scores@[b] <= LARGEST_FINITE_KEY ==> r == Ok::<usize, PixelError>(b as usize)
            &&& scores@[b] > LARGEST_FINITE_KEY ==> r == Err::<usize, PixelError>(
                PixelError::InvalidInput,
            )
        },
{
    if scores.len() == 0 {
        return Err(PixelError::InvalidInput);
    }
    let mut best: usize = 0;
    let mut j: usize = 1;
    while j < scores.len()
        invariant
            1 <= j <= scores@.len(),
            best < j,
            forall|jj: int| 0 <= jj < j ==> scores@[best as int] <= #[trigger] scores@[jj],
            forall|jj: int| 0 <= jj < best ==> scores@[best as int] < #[trigger] scores@[jj],
        decreases scores@.len() - j,
    {
        if scores[j] < scores[best] {
            best = j;
        }
        j = j + 1;
    }
    proof {
        lemma_best_unique(scores@, best as int);
    }
    if scores[best] > LARGEST_FINITE_KEY {
        Err(PixelError::InvalidInput)
    } else {
        Ok(best)
    }
}

} // verus!
